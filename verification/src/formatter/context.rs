//! Width arithmetic shared by the layout rules.

use vstd::prelude::*;

use crate::formatter::style::FormatStyle;
use crate::parser::lexer::chars_of;

verus! {

/// The style that a layout is computed for.
#[derive(Debug, Clone, Copy)]
pub struct FormatContext {
    style: FormatStyle,
}

/// The room left on a line indented `indent` levels.
pub open spec fn max_inline(style: FormatStyle, indent: int) -> int {
    if style.line_width >= style.indent_width * indent {
        style.line_width - style.indent_width * indent
    } else {
        0
    }
}

impl FormatContext {
    pub closed spec fn view(&self) -> FormatStyle {
        self.style
    }

    pub fn new(style: FormatStyle) -> (c: FormatContext)
        ensures
            c@ == style,
    {
        FormatContext { style }
    }

    pub fn style(&self) -> (s: FormatStyle)
        ensures
            s == self@,
    {
        self.style
    }

    /// The spaces that indent a line by `indent` levels.
    pub fn indent_text(&self, indent: usize) -> (r: String)
        requires
            self@.indent_width * indent <= usize::MAX,
        ensures
            r@ == Seq::new((self@.indent_width * indent) as nat, |i: int| ' '),
    {
        let n = self.style.indent_width * indent;
        let mut s = String::new();
        let mut k: usize = 0;
        while k < n
            invariant
                k <= n,
                s@ == Seq::new(k as nat, |i: int| ' '),
            decreases n - k,
        {
            proof {
                reveal_strlit(" ");
            }
            let ghost before = s@;
            s.append(" ");
            proof {
                assert(before + " "@ =~= Seq::new((k + 1) as nat, |i: int| ' '));
            }
            k += 1;
        }
        s
    }

    /// The room left on a line indented `indent` levels (never negative).
    pub fn max_inline_width(&self, indent: usize) -> (r: usize)
        ensures
            r == max_inline(self@, indent as int),
    {
        let used = self.style.indent_width.checked_mul(indent);
        match used {
            Some(u) => self.style.line_width.saturating_sub(u),
            None => 0,
        }
    }

    /// `text` has no newline and fits on a line indented `indent` levels.
    pub fn fits_inline(&self, indent: usize, text: &str) -> (b: bool)
        ensures
            b == (!text@.contains('\n') && text@.len() <= max_inline(self@, indent as int)),
    {
        let chars = chars_of(text);
        let mut i: usize = 0;
        while i < chars.len()
            invariant
                chars@ == text@,
                i <= chars@.len(),
                forall|j: int| 0 <= j < i ==> chars@[j] != '\n',
            decreases chars@.len() - i,
        {
            if chars[i] == '\n' {
                return false;
            }
            i += 1;
        }
        chars.len() <= self.max_inline_width(indent)
    }
}

} // verus!
