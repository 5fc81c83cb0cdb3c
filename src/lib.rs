//! A local full-text search tool: registered indexes of files, rebuilt on
//! demand and queried with ranked, merged results.

pub mod config;
pub mod ingest;
pub mod merge;
pub mod tokenize;
