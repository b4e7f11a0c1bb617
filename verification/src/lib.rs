//! Tag-based photo catalogue: query language, image records, configuration
//! format and the SQL text the catalogue sends to its database.

pub mod ast;
pub mod command;
pub mod db;
pub mod digest;
pub mod image;
pub mod text;
