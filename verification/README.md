# fetefoto

A tag-based photo catalogue. Images are recorded by the SHA-256 digest of
their contents (in Base64) together with a set of tags, in a SQLite database;
a small query language (`hi AND (bye OR NOT 你好)`) selects images by tag.

Layout:

- `src/` — the verified library (Verus):
  - `ast.rs` — the query language: lexer, parser, and the SQL condition a
    query stands for, with the proof that every query is read back from its
    fully parenthesised text;
  - `image.rs`, `digest.rs` — image records, their tag sets and content
    digests (SHA-256 via `sha2`, Base64 via `base64ct`);
  - `db.rs` — the SQL text of the statements that add, find and delete
    images and tags (the fixed table definitions stand in `app/`), and the
    gathering of result rows into images;
  - `command.rs`, `command/` — which commands run, their arguments, the
    scan batches, and the configuration file format, with the proof that a
    written configuration is read back;
  - `text.rs` — character and string helpers.
- `tests/` — tests of the library.
- `app/` — the program: command line (`clap`), files, the SQLite connection
  (`sqlx`, `tokio`) and the user directories (`directories`).
