//! The command line: its options and subcommands, and the choices it makes
//! from them.

use vstd::prelude::*;

verus! {

/// The options of the `ravel` command.
#[derive(Debug, Clone, PartialEq, Eq)]
pub struct Cli {
    /// `--config <file>`: read this configuration file.
    pub config: Option<String>,
    /// `--no-config`: use the defaults, ignoring any `ravel.toml`.
    pub no_config: bool,
    pub command: Commands,
}

/// The subcommands.
#[derive(Debug, Clone, PartialEq, Eq)]
pub enum Commands {
    /// Parse and display the syntax tree.
    Parse { file: Option<String>, quiet: bool, verify: bool },
    /// Format files, or standard input.
    Format {
        paths: Vec<String>,
        verify: bool,
        check: bool,
        line_width: Option<u32>,
        indent_width: Option<u32>,
    },
    /// Lint files.
    Lint { paths: Vec<String>, check: bool },
    /// Run the language server on standard input and output.
    Lsp,
}

} // verus!
