//! Splitting a run of syntax elements into source lines, and recognising
//! trivia.

use vstd::prelude::*;

use crate::ast::{elem_kind, element_kind, is_token_kind, is_token_of};
use crate::formatter::engine::{FormatError, snippet_of};
use crate::syntax::{SyntaxKind, SyntaxNode};

verus! {

/// Whitespace and newlines, which carry no meaning for the formatter.
pub open spec fn trivia_kind(k: SyntaxKind) -> bool {
    k == SyntaxKind::WHITESPACE || k == SyntaxKind::NEWLINE
}

pub(crate) fn is_trivia(kind: SyntaxKind) -> (b: bool)
    ensures
        b == trivia_kind(kind),
{
    kind == SyntaxKind::WHITESPACE || kind == SyntaxKind::NEWLINE
}

/// Every index of every line lies in `lo..hi`.
pub open spec fn lines_within(lines: Seq<Vec<usize>>, lo: int, hi: int) -> bool {
    forall|i: int, j: int|
        0 <= i < lines.len() && 0 <= j < lines[i]@.len() ==> lo <= #[trigger] lines[i]@[j] < hi
}

/// The line is a lone comment.
pub open spec fn comment_only(parent: SyntaxNode, line: Seq<usize>) -> bool {
    line.len() == 1 && line[0] < parent.children@.len() && is_token_of(
        parent.children@[line[0] as int],
        SyntaxKind::COMMENT,
    )
}

/// Whether `line` (indices into `parent`'s children) is a lone comment.
pub(crate) fn is_comment_only_line(parent: &SyntaxNode, line: &Vec<usize>) -> (b: bool)
    ensures
        b == comment_only(*parent, line@),
{
    line.len() == 1 && line[0] < parent.children.len() && is_token_kind(
        &parent.children[line[0]],
        SyntaxKind::COMMENT,
    )
}

/// A token that only separates: whitespace, a newline or a semicolon.
pub open spec fn separator(e: crate::syntax::SyntaxElement) -> bool {
    is_token_of(e, SyntaxKind::WHITESPACE) || is_token_of(e, SyntaxKind::NEWLINE) || is_token_of(
        e,
        SyntaxKind::SEMICOLON,
    )
}

/// The indices in `lo..hi` of the children of `cs` that are not
/// separators, in order.
pub open spec fn line_items(cs: Seq<crate::syntax::SyntaxElement>, lo: int, hi: int) -> Seq<usize>
    decreases hi - lo,
{
    if hi <= lo {
        seq![]
    } else if separator(cs[hi - 1]) {
        line_items(cs, lo, hi - 1)
    } else {
        line_items(cs, lo, hi - 1).push((hi - 1) as usize)
    }
}

/// The lines one after another.
pub open spec fn flatten(lines: Seq<Vec<usize>>) -> Seq<usize>
    decreases lines.len(),
{
    if lines.len() == 0 {
        seq![]
    } else {
        flatten(lines.drop_last()) + lines.last()@
    }
}

proof fn lemma_line_items_grow(cs: Seq<crate::syntax::SyntaxElement>, lo: int, a: int, b: int)
    requires
        lo <= a <= b,
    ensures
        line_items(cs, lo, a).len() <= line_items(cs, lo, b).len(),
    decreases b - a,
{
    if a < b {
        lemma_line_items_grow(cs, lo, a, b - 1);
    }
}

/// What `line_items` lists are children in range that are no separators.
pub proof fn lemma_line_items_kept(cs: Seq<crate::syntax::SyntaxElement>, lo: int, hi: int)
    requires
        0 <= lo,
        hi <= usize::MAX,
    ensures
        forall|j: int|
            0 <= j < line_items(cs, lo, hi).len() ==> lo <= #[trigger] line_items(cs, lo, hi)[j] < hi
                && !separator(cs[line_items(cs, lo, hi)[j] as int]),
    decreases hi - lo,
{
    if hi > lo {
        lemma_line_items_kept(cs, lo, hi - 1);
        let p = line_items(cs, lo, hi - 1);
        if !separator(cs[hi - 1]) {
            assert forall|j: int| 0 <= j < p.len() + 1 implies lo <= #[trigger] p.push((hi - 1) as usize)[j] < hi
                && !separator(cs[p.push((hi - 1) as usize)[j] as int]) by {
                if j < p.len() {
                    assert(p.push((hi - 1) as usize)[j] == p[j]);
                }
            }
        }
    }
}

proof fn lemma_flatten_push(lines: Seq<Vec<usize>>, v: Vec<usize>)
    ensures
        flatten(lines.push(v)) == flatten(lines) + v@,
{
    assert(lines.push(v).drop_last() =~= lines);
}

/// A line of children of `cs`: none of them a separator, and a second one,
/// if any, a comment.
pub open spec fn line_shaped(cs: Seq<crate::syntax::SyntaxElement>, line: Seq<usize>) -> bool {
    &&& forall|j: int| 0 <= j < line.len() ==> !separator(cs[#[trigger] line[j] as int])
    &&& line.len() == 2 ==> is_token_of(cs[line[1] as int], SyntaxKind::COMMENT)
}

/// Split `parent`'s children `lo..hi` into lines of significant elements (by
/// index). Newlines and semicolons end a line; a run of two or more of them
/// leaves an empty line in place of the blank ones (after a lone comment,
/// only when another comment follows); a line holds one expression,
/// optionally followed by one comment. Two expressions on one line are
/// ambiguous.
pub(crate) fn split_lines(parent: &SyntaxNode, lo: usize, hi: usize, context: &'static str) -> (r: Result<
    Vec<Vec<usize>>,
    FormatError,
>)
    requires
        lo <= hi <= parent.children@.len(),
    ensures
        crate::formatter::engine::not_parse_error(r),
        r matches Ok(lines) ==> lines_within(lines@, lo as int, hi as int),
        r matches Ok(lines) ==> forall|i: int|
            0 <= i < lines@.len() ==> #[trigger] lines@[i]@.len() <= 2,
        r matches Ok(lines) ==> forall|i: int|
            0 <= i < lines@.len() ==> #[trigger] line_shaped(parent.children@, lines@[i]@),
        r matches Ok(lines) ==> flatten(lines@) == line_items(parent.children@, lo as int, hi as int),
        line_items(parent.children@, lo as int, hi as int).len() == 0 ==> (r matches Ok(lines)
            && lines@.len() == 0),
        line_items(parent.children@, lo as int, hi as int).len() == 1 ==> (r matches Ok(lines)
            && lines@.len() == 1 && lines@[0]@ == line_items(parent.children@, lo as int, hi as int)),
{
    let mut lines: Vec<Vec<usize>> = Vec::new();
    let mut current: Vec<usize> = Vec::new();
    let mut break_count: usize = 0;
    let mut k = lo;
    while k < hi
        invariant
            lo <= k <= hi <= parent.children@.len(),
            break_count <= k,
            lines_within(lines@, lo as int, hi as int),
            forall|i: int| 0 <= i < lines@.len() ==> #[trigger] lines@[i]@.len() <= 2,
            current@.len() <= 1 || (current@.len() == 2 && is_token_of(
                parent.children@[current@[1] as int],
                SyntaxKind::COMMENT,
            )),
            forall|j: int| 0 <= j < current@.len() ==> lo <= #[trigger] current@[j] < k,
            flatten(lines@) + current@ == line_items(parent.children@, lo as int, k as int),
            lines@.len() > 0 ==> line_items(parent.children@, lo as int, k as int).len() > 0,
            break_count > 0 ==> lines@.len() > 0,
            lines@.len() > 0 ==> lines@[0]@.len() > 0,
            lines@.len() >= 2 ==> line_items(parent.children@, lo as int, k as int).len() >= 2,
            forall|i: int| 0 <= i < lines@.len() ==> #[trigger] line_shaped(parent.children@, lines@[i]@),
            line_shaped(parent.children@, current@),
        decreases hi - k,
    {
        let e = &parent.children[k];
        let kind = element_kind(e);
        let is_token = match e {
            crate::syntax::SyntaxElement::Token(_) => true,
            crate::syntax::SyntaxElement::Node(_) => false,
        };
        if is_token && kind == SyntaxKind::WHITESPACE {
            k += 1;
            continue ;
        }
        if is_token && (kind == SyntaxKind::NEWLINE || kind == SyntaxKind::SEMICOLON) {
            if current.len() > 0 {
                proof {
                    lemma_flatten_push(lines@, current);
                }
                lines.push(current);
                current = Vec::new();
                proof {
                    assert(flatten(lines@) + current@ =~= flatten(lines@));
                }
                break_count = 1;
            } else if lines.len() > 0 {
                break_count += 1;
            }
            k += 1;
            continue ;
        }
        let is_comment = is_token && kind == SyntaxKind::COMMENT;
        if break_count >= 2 {
            let after_comment = lines.len() > 0 && is_comment_only_line(
                parent,
                &lines[lines.len() - 1],
            );
            if !after_comment || is_comment {
                let ghost before = lines@;
                let empty: Vec<usize> = Vec::new();
                proof {
                    lemma_flatten_push(before, empty);
                    assert(flatten(before) + empty@ =~= flatten(before));
                }
                lines.push(empty);
            }
        }
        break_count = 0;
        if current.len() > 0 {
            let mut has_comment = false;
            let mut j: usize = 0;
            while j < current.len()
                invariant
                    j <= current@.len(),
                    forall|t: int| 0 <= t < current@.len() ==> #[trigger] current@[t] < k,
                    k < parent.children@.len(),
                decreases current@.len() - j,
            {
                if is_token_kind(&parent.children[current[j]], SyntaxKind::COMMENT) {
                    has_comment = true;
                }
                j += 1;
            }
            if is_comment && !has_comment && current.len() == 1 {
                let ghost c0 = current@;
                current.push(k);
                proof {
                    assert(flatten(lines@) + current@ =~= (flatten(lines@) + c0).push(k));
                }
                k += 1;
                continue ;
            }
            proof {
                lemma_line_items_grow(parent.children@, lo as int, k as int, hi as int);
                lemma_line_items_grow(parent.children@, lo as int, k + 1, hi as int);
                assert(line_items(parent.children@, lo as int, k + 1).len() >= 2);
            }
            return Err(
                FormatError::AmbiguousConstruct {
                    context,
                    snippet: snippet_of(parent, current[0], k),
                },
            );
        }
        let ghost c0 = current@;
        current.push(k);
        proof {
            assert(flatten(lines@) + current@ =~= (flatten(lines@) + c0).push(k));
        }
        k += 1;
    }
    proof {
        if lines@.len() == 1 {
            assert(lines@.drop_last() =~= Seq::<Vec<usize>>::empty());
            assert(flatten(lines@) == lines@[0]@);
        }
    }
    if current.len() > 0 {
        proof {
            lemma_flatten_push(lines@, current);
        }
        lines.push(current);
        proof {
            assert(line_items(parent.children@, lo as int, hi as int).len() > 0);
        }
    } else {
        proof {
            assert(flatten(lines@) + current@ =~= flatten(lines@));
        }
    }
    Ok(lines)
}

} // verus!
