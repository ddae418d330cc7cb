//! Ravel: a lossless parser, formatter and linter for the R language.

pub mod syntax;
pub mod parser;
pub mod ast;
pub mod formatter;
pub mod text;
pub mod config;
pub mod cli;
pub mod file_discovery;
pub mod linter;
pub mod lint_check;
pub mod lsp;
