//! An error-tolerant source-code tooling backend: a resilient parser built on
//! a marker/event protocol, an incremental query database with early cutoff,
//! and a small analyzer pipeline producing diagnostics and fix actions.

pub mod analyze;
pub mod binding;
pub mod db;
pub mod diagnostic;
pub mod grammar;
pub mod kind;
pub mod lexer;
pub mod parsed_syntax;
pub mod parser;
pub mod recovery;
pub mod text;
pub mod tree;
