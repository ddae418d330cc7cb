//! Formatting requests of the language server: the whole-document edit
//! that formats a text.

use vstd::prelude::*;

use crate::formatter::engine::FormatError;
use crate::formatter::style::FormatStyle;
use crate::parser::lexer::chars_of;

verus! {

/// A position in a document: a 0-based line and a character offset in
/// UTF-16 code units.
#[derive(Debug, Clone, Copy, PartialEq, Eq, Structural)]
pub struct EditPosition {
    pub line: u32,
    pub character: u32,
}

/// A range of a document.
#[derive(Debug, Clone, Copy, PartialEq, Eq, Structural)]
pub struct EditRange {
    pub start: EditPosition,
    pub end: EditPosition,
}

/// Replace `range` with `new_text`.
#[derive(Debug, Clone, PartialEq, Eq)]
pub struct FormatEdit {
    pub range: EditRange,
    pub new_text: String,
}

/// The number of UTF-16 code units of `s`.
pub open spec fn utf16_len(s: Seq<char>) -> int
    decreases s.len(),
{
    if s.len() == 0 {
        0
    } else {
        utf16_len(s.drop_last()) + if (s.last() as u32) >= 0x10000 {
            2int
        } else {
            1int
        }
    }
}

/// The number of newlines of `s`.
pub open spec fn newlines(s: Seq<char>) -> int
    decreases s.len(),
{
    if s.len() == 0 {
        0
    } else {
        newlines(s.drop_last()) + if s.last() == '\n' {
            1int
        } else {
            0int
        }
    }
}

/// What follows the last newline of `s` (all of it when there is none).
pub open spec fn last_line(s: Seq<char>) -> Seq<char>
    decreases s.len(),
{
    if s.len() == 0 || s.last() == '\n' {
        seq![]
    } else {
        last_line(s.drop_last()).push(s.last())
    }
}

proof fn lemma_utf16_bounded(s: Seq<char>)
    ensures
        0 <= utf16_len(s) <= 2 * s.len(),
    decreases s.len(),
{
    if s.len() > 0 {
        lemma_utf16_bounded(s.drop_last());
    }
}

proof fn lemma_counts_bounded(s: Seq<char>)
    ensures
        0 <= newlines(s) <= s.len(),
        0 <= utf16_len(last_line(s)) <= 2 * s.len(),
        last_line(s).len() <= s.len(),
    decreases s.len(),
{
    if s.len() > 0 {
        lemma_counts_bounded(s.drop_last());
    }
    lemma_utf16_bounded(last_line(s));
}

/// A prefix has no more newlines than the whole.
proof fn lemma_newlines_prefix(s: Seq<char>, i: int)
    requires
        0 <= i <= s.len(),
    ensures
        newlines(s.subrange(0, i)) <= newlines(s),
    decreases s.len() - i,
{
    if i < s.len() {
        lemma_newlines_prefix(s, i + 1);
        assert(s.subrange(0, i + 1).drop_last() =~= s.subrange(0, i));
    } else {
        assert(s.subrange(0, i) =~= s);
    }
}

/// The position just past the end of `text`: its number of newlines, and
/// the UTF-16 length of its last line (kept to its low 32 bits).
pub fn end_position(text: &str) -> (p: EditPosition)
    requires
        newlines(text@) <= u32::MAX,
    ensures
        p.line == newlines(text@),
        p.character == (utf16_len(last_line(text@)) as u32),
{
    let chars = chars_of(text);
    let n = chars.len();
    let mut line: u32 = 0;
    let mut units: u128 = 0;
    let mut i: usize = 0;
    proof {
        assert(chars@.subrange(0, 0).len() == 0);
    }
    while i < n
        invariant
            chars@ == text@,
            n == chars@.len(),
            newlines(text@) <= u32::MAX,
            i <= n,
            line == newlines(chars@.subrange(0, i as int)),
            units == utf16_len(last_line(chars@.subrange(0, i as int))),
            units <= 2 * i,
        decreases n - i,
    {
        proof {
            assert(chars@.subrange(0, i + 1).drop_last() =~= chars@.subrange(0, i as int));
            lemma_counts_bounded(chars@.subrange(0, i as int));
            lemma_newlines_prefix(chars@, i + 1);
        }
        let c = chars[i];
        if c == '\n' {
            line += 1;
            units = 0;
            proof {
                assert(last_line(chars@.subrange(0, i + 1)) =~= Seq::<char>::empty());
            }
        } else {
            proof {
                let pre = chars@.subrange(0, i as int);
                assert(last_line(chars@.subrange(0, i + 1)) =~= last_line(pre).push(c));
                assert(last_line(pre).push(c).drop_last() =~= last_line(pre));
            }
            if (c as u32) >= 0x10000 {
                units += 2;
            } else {
                units += 1;
            }
        }
        i += 1;
    }
    proof {
        assert(chars@.subrange(0, n as int) =~= chars@);
    }
    #[verifier::truncate]
    let character = units as u32;
    EditPosition { line, character }
}

/// The edits that format `text` with `style`, given what formatting gave:
/// none when the text is already formatted, one edit replacing the whole
/// document otherwise, and no answer when the formatter refused the text.
/// The edits for `text` given what formatting gave: none when the text is
/// already formatted, one edit replacing the whole document otherwise, and
/// no answer when the formatter refused the text.
pub open spec fn edits_outcome(text: Seq<char>, formatted: Result<String, FormatError>, r: Option<Vec<FormatEdit>>) -> bool {
    &&& (formatted is Err <==> r is None)
    &&& (formatted matches Ok(s) ==> (r matches Some(edits) && (s@ == text <==> edits@.len() == 0)
        && (s@ != text ==> edits@.len() == 1 && edits@[0].new_text@ == s@
        && edits@[0].range.start == (EditPosition { line: 0, character: 0 })
        && edits@[0].range.end.line == newlines(text)
        && edits@[0].range.end.character == (utf16_len(last_line(text)) as u32))))
}

pub fn edits_for(text: &str, formatted: Result<String, FormatError>) -> (r: Option<Vec<FormatEdit>>)
    requires
        newlines(text@) <= u32::MAX,
    ensures
        edits_outcome(text@, formatted, r),
{
    let formatted = match formatted {
        Ok(s) => s,
        Err(_) => {
            return None;
        },
    };
    let unformatted = String::from_str(text);
    if formatted == unformatted {
        return Some(Vec::new());
    }
    let range = EditRange { start: EditPosition { line: 0, character: 0 }, end: end_position(text) };
    let mut edits: Vec<FormatEdit> = Vec::new();
    edits.push(FormatEdit { range, new_text: formatted });
    Some(edits)
}

/// The edits that format `text` with `style`; see [`edits_for`].
pub fn compute_format_edits(text: &str, style: FormatStyle) -> (r: Option<Vec<FormatEdit>>)
    requires
        newlines(text@) <= u32::MAX,
    ensures
        r matches Some(edits) ==> edits@.len() <= 1,
        r matches Some(edits) ==> (edits@.len() == 1 ==> ({
            let e = edits@[0];
            &&& e.new_text@ != text@
            &&& e.range.start == (EditPosition { line: 0, character: 0 })
            &&& e.range.end.line == newlines(text@)
            &&& e.range.end.character == (utf16_len(last_line(text@)) as u32)
            &&& crate::formatter::engine::ends_with_newline(text@)
                ==> crate::formatter::engine::ends_with_newline(e.new_text@)
        })),
        crate::formatter::has_refused_token(text@) ==> r is None,
        text@.len() == 0 ==> (r matches Some(edits) && edits@.len() == 0),
        crate::parser::toplevel::blank_input(text@) ==> (r matches Some(edits) && (edits@.len() == 0
            <==> crate::formatter::engine::format_outcome(text@, seq![]) == text@)),
        forall|toks: Seq<crate::parser::lexer::Token>, a: int|
            crate::parser::lexer::lexes_to(text@, toks)
                && #[trigger] crate::parser::toplevel::lone_name_tokens(toks, a) ==> (r matches Some(
                edits,
            ) && (edits@.len() == 0 <==> crate::formatter::engine::format_outcome(text@, toks[a].text@)
                == text@)),
        exists|f: Result<String, FormatError>|
            #[trigger] crate::formatter::format_facts(text@, style, f) && edits_outcome(text@, f, r),
{
    let formatted = crate::formatter::format_with_style(text, style);
    proof {
        if text@.len() == 0 {
            assert(formatted->Ok_0@ =~= text@);
        }
    }
    edits_for(text, formatted)
}

} // verus!
