[package]
name = "fetefoto"
version = "0.1.0"
edition = "2021"
publish = false

[dependencies]
sha2 = "*"
base64ct = { version = "*", features = ["alloc"] }
sqlx = { version = "*", default-features = false, features = ["sqlite", "runtime-tokio", "migrate"] }
tokio = { version = "*", features = ["macros", "rt-multi-thread"] }
clap = { version = "*", features = ["derive"] }
directories = "*"
thiserror = "*"
