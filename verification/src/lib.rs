//! Write path of a log-oriented storage and search engine.
//!
//! Text is split into overlapping lower-cased n-grams (`tokenizer`), the
//! unique terms are kept in byte order (`token_set`) and compiled into a term
//! dictionary that binds each term to a consecutive id (`dictionary`). Raw
//! payloads are framed into records, and the write-ahead log decides what is
//! to be done with its active segment (`wal`). Beside these stand the parser
//! of access-log lines (`apache`), the typed columns of tables (`schema`,
//! `columns`) and what ingestion stores beside a blob (`ingest`).
//!
//! The library does no input or output: where an operation needs some, it
//! says which, and takes the outcome.

pub mod apache;
pub mod columns;
pub mod dictionary;
pub mod ingest;
pub mod lexical;
pub mod scalars;
pub mod schema;
pub mod token_set;
pub mod tokenizer;
pub mod wal;
