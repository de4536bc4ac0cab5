//! AlexDB: an aggregation-focused relational database with a small scripting
//! language (SQLScript) embedded in its queries.
//!
//! This crate holds the verified core: the compressed column stores, tables,
//! script environments, the SQLScript lexer and parser, and the database's
//! bookkeeping.
pub mod bits;
pub mod num;
pub mod column;
pub mod types;
pub mod env;
pub mod table;
pub mod regex_match;
pub mod lexer;
pub mod decimal;
pub mod grammar;
pub mod parser;
pub mod query;
pub mod database;
pub mod calc;
pub mod csv_import;
pub mod layout;
