//! Lexing and parsing of R source text into a lossless concrete syntax tree.

pub mod lexer;
pub mod bracket_balancer;
pub mod cursor;
pub mod context;
pub mod diagnostics;
pub mod events;
pub mod recovery;
pub mod expr;
pub mod structural;
pub mod tree_builder;
pub mod toplevel;

pub use crate::parser::diagnostics::ParseDiagnostic;
pub use crate::parser::toplevel::{ParseOutput, parse, reconstruct};
