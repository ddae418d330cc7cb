//! The layout knobs of the formatter.

use vstd::prelude::*;

verus! {

/// How wide a line may be and how far each nesting level indents.
#[derive(Debug, Clone, Copy, PartialEq, Eq, Structural)]
pub struct FormatStyle {
    pub line_width: usize,
    pub indent_width: usize,
}

impl Default for FormatStyle {
    /// Eighty columns, two spaces per level.
    fn default() -> (s: Self)
        ensures
            s.line_width == 80,
            s.indent_width == 2,
    {
        FormatStyle { line_width: 80, indent_width: 2 }
    }
}

} // verus!
