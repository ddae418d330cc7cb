//! The parts of the typed nodes, by reference into the tree: the children of
//! a root, the arguments of a call, and the keywords, clauses, comments and
//! bodies of `if`, `for` and `while`.

use vstd::prelude::*;

use crate::ast::{
    ArgList, Arg, CallExpr, ForExpr, IfExpr, Root, WhileExpr, clause_of, elem_kind, first_token_from,
    find_token_from, if_lparen, if_rparen, is_token_of, lemma_first_token_from, matching_rparen,
};
use crate::syntax::{SyntaxElement, SyntaxKind, SyntaxNode, SyntaxToken, node_view};

verus! {

/// Whitespace or a newline.
pub open spec fn is_trivia_element(e: SyntaxElement) -> bool {
    elem_kind(e) == SyntaxKind::WHITESPACE || elem_kind(e) == SyntaxKind::NEWLINE
}

/// The elements of `cs` that are neither trivia nor comments.
pub open spec fn code_elements(cs: Seq<SyntaxElement>) -> Seq<SyntaxElement>
    decreases cs.len(),
{
    if cs.len() == 0 {
        seq![]
    } else {
        let rest = code_elements(cs.drop_last());
        if is_trivia_element(cs.last()) || is_token_of(cs.last(), SyntaxKind::COMMENT) {
            rest
        } else {
            rest.push(cs.last())
        }
    }
}

/// The comment tokens of `cs`.
pub open spec fn comment_tokens(cs: Seq<SyntaxElement>) -> Seq<SyntaxToken>
    decreases cs.len(),
{
    if cs.len() == 0 {
        seq![]
    } else {
        let rest = comment_tokens(cs.drop_last());
        match cs.last() {
            SyntaxElement::Token(t) => if t.kind == SyntaxKind::COMMENT {
                rest.push(t)
            } else {
                rest
            },
            SyntaxElement::Node(_) => rest,
        }
    }
}

/// The nodes among `cs` of kind `k` (of any kind when `k` is `None`).
pub open spec fn nodes_of(cs: Seq<SyntaxElement>, k: Option<SyntaxKind>) -> Seq<SyntaxNode>
    decreases cs.len(),
{
    if cs.len() == 0 {
        seq![]
    } else {
        let rest = nodes_of(cs.drop_last(), k);
        match cs.last() {
            SyntaxElement::Node(n) => if k is None || k == Some(n.kind) {
                rest.push(n)
            } else {
                rest
            },
            SyntaxElement::Token(_) => rest,
        }
    }
}

/// From `from` on: the position of the first element that is neither
/// trivia nor a comment.
pub open spec fn first_code_from(cs: Seq<SyntaxElement>, from: int) -> Option<int>
    decreases cs.len() - from,
{
    if from < 0 || from >= cs.len() {
        None
    } else if is_trivia_element(cs[from]) || is_token_of(cs[from], SyntaxKind::COMMENT) {
        first_code_from(cs, from + 1)
    } else {
        Some(from)
    }
}

/// The comments from `from` on that come before the first element that is
/// neither trivia nor a comment.
pub open spec fn comments_before_code(cs: Seq<SyntaxElement>, from: int) -> Seq<SyntaxToken> {
    let stop = match first_code_from(cs, from) {
        Some(k) => k,
        None => cs.len() as int,
    };
    if 0 <= from <= stop {
        comment_tokens(cs.subrange(from, stop))
    } else {
        seq![]
    }
}

/// The referenced elements.
pub open spec fn deref_elements<'a>(s: Seq<&'a SyntaxElement>) -> Seq<SyntaxElement> {
    s.map_values(|x: &SyntaxElement| *x)
}

/// The referenced tokens.
pub open spec fn deref_tokens<'a>(s: Seq<&'a SyntaxToken>) -> Seq<SyntaxToken> {
    s.map_values(|x: &SyntaxToken| *x)
}

/// The referenced nodes.
pub open spec fn deref_nodes<'a>(s: Seq<&'a SyntaxNode>) -> Seq<SyntaxNode> {
    s.map_values(|x: &SyntaxNode| *x)
}

/// References to the children `lo..hi` of `n`.
fn child_refs(n: &SyntaxNode, lo: usize, hi: usize) -> (r: Vec<&SyntaxElement>)
    requires
        lo <= hi <= n.children@.len(),
    ensures
        deref_elements(r@) == n.children@.subrange(lo as int, hi as int),
{
    let mut out: Vec<&SyntaxElement> = Vec::new();
    let mut k = lo;
    while k < hi
        invariant
            lo <= k <= hi <= n.children@.len(),
            deref_elements(out@) == n.children@.subrange(lo as int, k as int),
        decreases hi - k,
    {
        let ghost prev = out@;
        out.push(&n.children[k]);
        proof {
            assert(deref_elements(out@) =~= deref_elements(prev).push(n.children@[k as int]));
            assert(n.children@.subrange(lo as int, k + 1) =~= n.children@.subrange(lo as int, k as int).push(
                n.children@[k as int],
            ));
        }
        k += 1;
    }
    out
}

/// References to the children `lo..hi` of `n` that are neither trivia nor
/// comments.
fn code_refs(n: &SyntaxNode, lo: usize, hi: usize) -> (r: Vec<&SyntaxElement>)
    requires
        lo <= hi <= n.children@.len(),
    ensures
        deref_elements(r@) == code_elements(n.children@.subrange(lo as int, hi as int)),
{
    let mut out: Vec<&SyntaxElement> = Vec::new();
    let mut k = lo;
    while k < hi
        invariant
            lo <= k <= hi <= n.children@.len(),
            deref_elements(out@) == code_elements(n.children@.subrange(lo as int, k as int)),
        decreases hi - k,
    {
        let e = &n.children[k];
        proof {
            assert(n.children@.subrange(lo as int, k + 1).drop_last() =~= n.children@.subrange(
                lo as int,
                k as int,
            ));
        }
        let kind = crate::ast::element_kind(e);
        let skip = kind == SyntaxKind::WHITESPACE || kind == SyntaxKind::NEWLINE
            || crate::ast::is_token_kind(e, SyntaxKind::COMMENT);
        if !skip {
            out.push(e);
            proof {
                assert(deref_elements(out@) =~= code_elements(n.children@.subrange(lo as int, k as int)).push(
                    *e,
                ));
            }
        }
        k += 1;
    }
    out
}

/// References to the comment tokens among the children `lo..hi` of `n`.
fn comment_refs(n: &SyntaxNode, lo: usize, hi: usize) -> (r: Vec<&SyntaxToken>)
    requires
        lo <= hi <= n.children@.len(),
    ensures
        deref_tokens(r@) == comment_tokens(n.children@.subrange(lo as int, hi as int)),
{
    let mut out: Vec<&SyntaxToken> = Vec::new();
    let mut k = lo;
    while k < hi
        invariant
            lo <= k <= hi <= n.children@.len(),
            deref_tokens(out@) == comment_tokens(n.children@.subrange(lo as int, k as int)),
        decreases hi - k,
    {
        proof {
            assert(n.children@.subrange(lo as int, k + 1).drop_last() =~= n.children@.subrange(
                lo as int,
                k as int,
            ));
        }
        if let SyntaxElement::Token(t) = &n.children[k] {
            if t.kind == SyntaxKind::COMMENT {
                out.push(t);
                proof {
                    assert(deref_tokens(out@) =~= comment_tokens(
                        n.children@.subrange(lo as int, k as int),
                    ).push(*t));
                }
            }
        }
        k += 1;
    }
    out
}

/// The first child at or after `from` that is neither trivia nor a comment.
fn find_code_from(n: &SyntaxNode, from: usize) -> (r: Option<usize>)
    ensures
        match r {
            Some(k) => first_code_from(n.children@, from as int) == Some(k as int),
            None => first_code_from(n.children@, from as int) is None,
        },
{
    let mut k = from;
    while k < n.children.len()
        invariant
            from <= k,
            first_code_from(n.children@, from as int) == first_code_from(n.children@, k as int),
        decreases n.children@.len() - k,
    {
        let e = &n.children[k];
        let kind = crate::ast::element_kind(e);
        if !(kind == SyntaxKind::WHITESPACE || kind == SyntaxKind::NEWLINE
            || crate::ast::is_token_kind(e, SyntaxKind::COMMENT)) {
            return Some(k);
        }
        k += 1;
    }
    None
}

/// References to the comments from `from` on, before the first child that
/// is neither trivia nor a comment.
fn comments_before_code_refs(n: &SyntaxNode, from: usize) -> (r: Vec<&SyntaxToken>)
    requires
        from <= n.children@.len(),
    ensures
        deref_tokens(r@) == comments_before_code(n.children@, from as int),
{
    proof {
        lemma_first_code_at_least(n.children@, from as int);
    }
    let stop = match find_code_from(n, from) {
        Some(k) => k,
        None => n.children.len(),
    };
    comment_refs(n, from, stop)
}

pub proof fn lemma_first_code_at_least(cs: Seq<SyntaxElement>, from: int)
    requires
        0 <= from,
    ensures
        first_code_from(cs, from) matches Some(k) ==> from <= k < cs.len(),
    decreases cs.len() - from,
{
    if from < cs.len() && (is_trivia_element(cs[from]) || is_token_of(cs[from], SyntaxKind::COMMENT)) {
        lemma_first_code_at_least(cs, from + 1);
    }
}

/// The token at child `k` of `n`, when it is one.
fn token_at(n: &SyntaxNode, k: usize) -> (r: Option<&SyntaxToken>)
    requires
        k < n.children@.len(),
    ensures
        match r {
            Some(t) => n.children@[k as int] == SyntaxElement::Token(*t),
            None => n.children@[k as int] is Node,
        },
{
    match &n.children[k] {
        SyntaxElement::Token(t) => Some(t),
        SyntaxElement::Node(_) => None,
    }
}

/// The first token of kind `kind` among the children of `n`.
fn first_token_ref(n: &SyntaxNode, kind: SyntaxKind) -> (r: Option<&SyntaxToken>)
    ensures
        match first_token_from(n.children@, 0, kind) {
            Some(k) => r matches Some(t) && n.children@[k] == SyntaxElement::Token(*t),
            None => r is None,
        },
{
    proof {
        lemma_first_token_from(n.children@, 0, kind);
    }
    match find_token_from(n.children.as_slice(), 0, kind) {
        Some(k) => token_at(n, k),
        None => None,
    }
}

/// The nodes among the children of `n` of kind `kind` (any kind for
/// `None`).
fn node_refs(n: &SyntaxNode, kind: Option<SyntaxKind>) -> (r: Vec<&SyntaxNode>)
    ensures
        deref_nodes(r@) == nodes_of(n.children@, kind),
{
    let mut out: Vec<&SyntaxNode> = Vec::new();
    let mut k: usize = 0;
    while k < n.children.len()
        invariant
            k <= n.children@.len(),
            deref_nodes(out@) == nodes_of(n.children@.subrange(0, k as int), kind),
        decreases n.children@.len() - k,
    {
        proof {
            assert(n.children@.subrange(0, k + 1).drop_last() =~= n.children@.subrange(0, k as int));
        }
        if let SyntaxElement::Node(c) = &n.children[k] {
            let wanted = match kind {
                None => true,
                Some(want) => c.kind == want,
            };
            if wanted {
                out.push(c);
                proof {
                    assert(deref_nodes(out@) =~= nodes_of(n.children@.subrange(0, k as int), kind).push(
                        *c,
                    ));
                }
            }
        }
        k += 1;
    }
    proof {
        assert(n.children@.subrange(0, n.children@.len() as int) =~= n.children@);
    }
    out
}

impl Root {
    /// The expression nodes of the file, in order.
    pub fn expressions(&self) -> (r: Vec<&SyntaxNode>)
        ensures
            deref_nodes(r@) == nodes_of(self@.children@, None),
    {
        node_refs(self.syntax(), None)
    }
}

impl CallExpr {
    /// The argument list of the call, when it has one.
    pub fn arg_list(&self) -> (r: Option<ArgList>)
        ensures
            match nodes_of(self@.children@, Some(SyntaxKind::ARG_LIST)) {
                s => if s.len() == 0 {
                    r is None
                } else {
                    r matches Some(a) && node_view(a@) == node_view(s[0])
                },
            },
    {
        let lists = node_refs(self.syntax(), Some(SyntaxKind::ARG_LIST));
        if lists.len() == 0 {
            return None;
        }
        let copy = lists[0].clone();
        proof {
            lemma_nodes_of_kind(self@.children@, SyntaxKind::ARG_LIST);
        }
        ArgList::cast(copy)
    }
}

/// Every node that `nodes_of` picks for kind `k` has kind `k`.
proof fn lemma_nodes_of_kind(cs: Seq<SyntaxElement>, k: SyntaxKind)
    ensures
        forall|j: int| 0 <= j < nodes_of(cs, Some(k)).len() ==> #[trigger] nodes_of(cs, Some(k))[j].kind == k,
    decreases cs.len(),
{
    if cs.len() > 0 {
        lemma_nodes_of_kind(cs.drop_last(), k);
    }
}

impl ArgList {
    /// The arguments, in order.
    pub fn args(&self) -> (r: Vec<Arg>)
        ensures
            r@.len() == nodes_of(self@.children@, Some(SyntaxKind::ARG)).len(),
            forall|j: int|
                0 <= j < r@.len() ==> node_view((#[trigger] r@[j])@) == node_view(
                    nodes_of(self@.children@, Some(SyntaxKind::ARG))[j],
                ),
    {
        let nodes = node_refs(self.syntax(), Some(SyntaxKind::ARG));
        proof {
            lemma_nodes_of_kind(self@.children@, SyntaxKind::ARG);
            assert forall|t: int| 0 <= t < nodes@.len() implies (#[trigger] nodes@[t]).kind
                == SyntaxKind::ARG by {
                assert(deref_nodes(nodes@)[t] == *nodes@[t]);
            }
        }
        let mut out: Vec<Arg> = Vec::new();
        let mut j: usize = 0;
        while j < nodes.len()
            invariant
                j <= nodes@.len(),
                deref_nodes(nodes@) == nodes_of(self@.children@, Some(SyntaxKind::ARG)),
                forall|t: int| 0 <= t < nodes@.len() ==> (#[trigger] nodes@[t]).kind == SyntaxKind::ARG,
                out@.len() == j,
                forall|t: int|
                    0 <= t < j ==> node_view((#[trigger] out@[t])@) == node_view(*nodes@[t]),
            decreases nodes@.len() - j,
        {
            proof {
                assert(deref_nodes(nodes@)[j as int] == *nodes@[j as int]);
            }
            let copy = nodes[j].clone();
            match Arg::cast(copy) {
                Some(a) => out.push(a),
                None => {
                    return out;
                },
            }
            j += 1;
        }
        proof {
            assert forall|t: int| 0 <= t < out@.len() implies node_view((#[trigger] out@[t])@)
                == node_view(nodes_of(self@.children@, Some(SyntaxKind::ARG))[t]) by {
                assert(deref_nodes(nodes@)[t] == *nodes@[t]);
            }
        }
        out
    }
}

impl IfExpr {
    /// All children of the node, in order.
    pub fn elements(&self) -> (r: Vec<&SyntaxElement>)
        ensures
            deref_elements(r@) == self@.children@,
    {
        let n = self.syntax();
        let r = child_refs(n, 0, n.children.len());
        proof {
            assert(self@.children@.subrange(0, self@.children@.len() as int) =~= self@.children@);
        }
        r
    }

    /// The `if` keyword.
    pub fn if_keyword(&self) -> (r: Option<&SyntaxToken>)
        ensures
            match first_token_from(self@.children@, 0, SyntaxKind::IF_KW) {
                Some(k) => r matches Some(t) && self@.children@[k] == SyntaxElement::Token(*t),
                None => r is None,
            },
    {
        first_token_ref(self.syntax(), SyntaxKind::IF_KW)
    }

    /// The `else` keyword.
    pub fn else_keyword(&self) -> (r: Option<&SyntaxToken>)
        ensures
            match first_token_from(self@.children@, 0, SyntaxKind::ELSE_KW) {
                Some(k) => r matches Some(t) && self@.children@[k] == SyntaxElement::Token(*t),
                None => r is None,
            },
    {
        first_token_ref(self.syntax(), SyntaxKind::ELSE_KW)
    }

    /// The children between the `(` and the `)` of the condition.
    pub fn condition_elements(&self) -> (r: Option<Vec<&SyntaxElement>>)
        ensures
            match (if_lparen(self@), if_rparen(self@)) {
                (Some(l), Some(c)) => r matches Some(v) && deref_elements(v@)
                    == self@.children@.subrange(l + 1, c),
                _ => r is None,
            },
    {
        let l = self.lparen_index()?;
        let c = self.rparen_index()?;
        proof {
            lemma_first_token_from(self@.children@, 0, SyntaxKind::LPAREN);
            lemma_first_token_from(self@.children@, l + 1, SyntaxKind::RPAREN);
        }
        Some(child_refs(self.syntax(), l + 1, c))
    }

    /// The children after the condition's `)`, up to the next `else`.
    pub fn then_elements(&self) -> (r: Option<Vec<&SyntaxElement>>)
        ensures
            match if_rparen(self@) {
                Some(c) => r matches Some(v) && deref_elements(v@) == self@.children@.subrange(
                    c + 1,
                    match first_token_from(self@.children@, c + 1, SyntaxKind::ELSE_KW) {
                        Some(e) => e,
                        None => self@.children@.len() as int,
                    },
                ),
                None => r is None,
            },
    {
        let c = self.rparen_index()?;
        let n = self.syntax();
        proof {
            lemma_first_token_from(self@.children@, 0, SyntaxKind::LPAREN);
            if let Some(l) = if_lparen(self@) {
                lemma_first_token_from(self@.children@, l + 1, SyntaxKind::RPAREN);
            }
        }
        assert(c < n.children.len());
        proof {
            lemma_first_token_from(self@.children@, c + 1, SyntaxKind::ELSE_KW);
        }
        let end = match find_token_from(n.children.as_slice(), c + 1, SyntaxKind::ELSE_KW) {
            Some(e) => e,
            None => n.children.len(),
        };
        Some(child_refs(n, c + 1, end))
    }

    /// The children after the first `else`.
    pub fn else_elements(&self) -> (r: Option<Vec<&SyntaxElement>>)
        ensures
            match first_token_from(self@.children@, 0, SyntaxKind::ELSE_KW) {
                Some(e) => r matches Some(v) && deref_elements(v@) == self@.children@.subrange(
                    e + 1,
                    self@.children@.len() as int,
                ),
                None => r is None,
            },
    {
        let n = self.syntax();
        proof {
            lemma_first_token_from(self@.children@, 0, SyntaxKind::ELSE_KW);
        }
        let e = find_token_from(n.children.as_slice(), 0, SyntaxKind::ELSE_KW)?;
        Some(child_refs(n, e + 1, n.children.len()))
    }
}

/// The parts of a `for` loop, by reference into it.
pub struct ForExprParts<'a> {
    /// Comments inside the header, between `for` and the closing `)`.
    pub leading_comments: Vec<&'a SyntaxToken>,
    /// The loop variable: the clause's elements before `in`.
    pub variable_elements: Vec<&'a SyntaxElement>,
    /// The sequence: the clause's elements after `in`.
    pub sequence_elements: Vec<&'a SyntaxElement>,
    /// Comments between the closing `)` and the body.
    pub post_clause_comments: Vec<&'a SyntaxToken>,
    /// The body, when there is one.
    pub body: Option<&'a SyntaxElement>,
}

/// The parts of a `while` loop, by reference into it.
pub struct WhileExprParts<'a> {
    /// Comments inside the header, between `while` and the closing `)`.
    pub leading_comments: Vec<&'a SyntaxToken>,
    /// The condition's elements, without trivia and comments.
    pub condition_elements: Vec<&'a SyntaxElement>,
    /// Comments between the closing `)` and the body.
    pub post_clause_comments: Vec<&'a SyntaxToken>,
    /// The body, when there is one.
    pub body: Option<&'a SyntaxElement>,
}

/// The comments of a loop header `kw ( ... )`: from the keyword to the `)`.
pub open spec fn header_comments(n: SyntaxNode, kw: SyntaxKind) -> Option<Seq<SyntaxToken>> {
    match (first_token_from(n.children@, 0, kw), clause_of(n, kw)) {
        (Some(k), Some((_, c))) => Some(comment_tokens(n.children@.subrange(k + 1, c))),
        _ => None,
    }
}

/// The clause of a loop header without trivia and comments.
pub open spec fn clause_code(n: SyntaxNode, kw: SyntaxKind) -> Option<Seq<SyntaxElement>> {
    match clause_of(n, kw) {
        Some((l, c)) => Some(code_elements(n.children@.subrange(l + 1, c))),
        None => None,
    }
}

/// The comments after a loop's clause, before its body.
pub open spec fn after_clause_comments(n: SyntaxNode, kw: SyntaxKind) -> Option<Seq<SyntaxToken>> {
    match clause_of(n, kw) {
        Some((_, c)) => Some(comments_before_code(n.children@, c + 1)),
        None => None,
    }
}

/// The body of a loop: the first child after the clause that is neither
/// trivia nor a comment.
pub open spec fn loop_body(n: SyntaxNode, kw: SyntaxKind) -> Option<SyntaxElement> {
    match clause_of(n, kw) {
        Some((_, c)) => match first_code_from(n.children@, c + 1) {
            Some(b) => Some(n.children@[b]),
            None => None,
        },
        None => None,
    }
}

/// The header comments of a loop `n` whose keyword is `kw`.
fn header_comment_refs(n: &SyntaxNode, kw: SyntaxKind) -> (r: Option<Vec<&SyntaxToken>>)
    ensures
        match header_comments(*n, kw) {
            Some(s) => r matches Some(v) && deref_tokens(v@) == s,
            None => r is None,
        },
{
    let elements = n.children.as_slice();
    proof {
        lemma_first_token_from(elements@, 0, kw);
    }
    let k = find_token_from(elements, 0, kw)?;
    proof {
        lemma_first_token_from(elements@, k + 1, SyntaxKind::LPAREN);
    }
    let (_, c) = clause_refs_bounds(n, kw)?;
    Some(comment_refs(n, k + 1, c))
}

/// The `(` after `kw` and the `)` closing it.
fn clause_refs_bounds(n: &SyntaxNode, kw: SyntaxKind) -> (r: Option<(usize, usize)>)
    ensures
        crate::ast::opt_pair(r) == clause_of(*n, kw),
        r matches Some((l, c)) ==> l < c < n.children.len(),
{
    let elements = n.children.as_slice();
    proof {
        lemma_first_token_from(elements@, 0, kw);
    }
    let k = find_token_from(elements, 0, kw)?;
    proof {
        lemma_first_token_from(elements@, k + 1, SyntaxKind::LPAREN);
    }
    let l = find_token_from(elements, k + 1, SyntaxKind::LPAREN)?;
    let c = matching_rparen(elements, l)?;
    proof {
        crate::ast::lemma_closing_after(elements@, l as int, 0);
    }
    assert(c < n.children.len());
    Some((l, c))
}

/// The body of loop `n` with keyword `kw`.
fn loop_body_ref(n: &SyntaxNode, kw: SyntaxKind) -> (r: Option<&SyntaxElement>)
    ensures
        match loop_body(*n, kw) {
            Some(b) => r matches Some(e) && *e == b,
            None => r is None,
        },
{
    let (_, c) = clause_refs_bounds(n, kw)?;
    proof {
        lemma_first_code_at_least(n.children@, c + 1);
    }
    let b = find_code_from(n, c + 1)?;
    Some(&n.children[b])
}

/// The comments after the clause of loop `n` with keyword `kw`.
fn after_clause_comment_refs(n: &SyntaxNode, kw: SyntaxKind) -> (r: Option<Vec<&SyntaxToken>>)
    ensures
        match after_clause_comments(*n, kw) {
            Some(s) => r matches Some(v) && deref_tokens(v@) == s,
            None => r is None,
        },
{
    let (_, c) = clause_refs_bounds(n, kw)?;
    Some(comments_before_code_refs(n, c + 1))
}

/// The position of the first `in` among `v`.
fn in_position(v: &Vec<&SyntaxElement>) -> (r: Option<usize>)
    ensures
        match r {
            Some(p) => p < v@.len() && is_token_of(*v@[p as int], SyntaxKind::IN_KW) && forall|q: int|
                0 <= q < p ==> !is_token_of(*#[trigger] v@[q], SyntaxKind::IN_KW),
            None => forall|q: int| 0 <= q < v@.len() ==> !is_token_of(*#[trigger] v@[q], SyntaxKind::IN_KW),
        },
{
    let mut p: usize = 0;
    while p < v.len()
        invariant
            p <= v@.len(),
            forall|q: int| 0 <= q < p ==> !is_token_of(*#[trigger] v@[q], SyntaxKind::IN_KW),
        decreases v@.len() - p,
    {
        if crate::ast::is_token_kind(v[p], SyntaxKind::IN_KW) {
            return Some(p);
        }
        p += 1;
    }
    None
}

/// `v[lo..hi]`.
fn slice_refs<'a>(v: &Vec<&'a SyntaxElement>, lo: usize, hi: usize) -> (r: Vec<&'a SyntaxElement>)
    requires
        lo <= hi <= v@.len(),
    ensures
        r@ == v@.subrange(lo as int, hi as int),
{
    let mut out: Vec<&'a SyntaxElement> = Vec::new();
    let mut k = lo;
    while k < hi
        invariant
            lo <= k <= hi <= v@.len(),
            out@ == v@.subrange(lo as int, k as int),
        decreases hi - k,
    {
        out.push(v[k]);
        proof {
            assert(out@ =~= v@.subrange(lo as int, k + 1));
        }
        k += 1;
    }
    out
}

impl ForExpr {
    /// All children of the node, in order.
    pub fn elements(&self) -> (r: Vec<&SyntaxElement>)
        ensures
            deref_elements(r@) == self@.children@,
    {
        let n = self.syntax();
        let r = child_refs(n, 0, n.children.len());
        proof {
            assert(self@.children@.subrange(0, self@.children@.len() as int) =~= self@.children@);
        }
        r
    }

    /// The `for` keyword.
    pub fn for_keyword(&self) -> (r: Option<&SyntaxToken>)
        ensures
            match first_token_from(self@.children@, 0, SyntaxKind::FOR_KW) {
                Some(k) => r matches Some(t) && self@.children@[k] == SyntaxElement::Token(*t),
                None => r is None,
            },
    {
        first_token_ref(self.syntax(), SyntaxKind::FOR_KW)
    }

    /// The comments inside the header.
    pub fn leading_comments(&self) -> (r: Option<Vec<&SyntaxToken>>)
        ensures
            match header_comments(self@, SyntaxKind::FOR_KW) {
                Some(s) => r matches Some(v) && deref_tokens(v@) == s,
                None => r is None,
            },
    {
        header_comment_refs(self.syntax(), SyntaxKind::FOR_KW)
    }

    /// The clause between the parentheses, without trivia and comments.
    pub fn clause_elements(&self) -> (r: Option<Vec<&SyntaxElement>>)
        ensures
            match clause_code(self@, SyntaxKind::FOR_KW) {
                Some(s) => r matches Some(v) && deref_elements(v@) == s,
                None => r is None,
            },
    {
        let n = self.syntax();
        let (l, c) = clause_refs_bounds(n, SyntaxKind::FOR_KW)?;
        Some(code_refs(n, l + 1, c))
    }

    /// The comments between the clause and the body.
    pub fn post_clause_comments(&self) -> (r: Option<Vec<&SyntaxToken>>)
        ensures
            match after_clause_comments(self@, SyntaxKind::FOR_KW) {
                Some(s) => r matches Some(v) && deref_tokens(v@) == s,
                None => r is None,
            },
    {
        after_clause_comment_refs(self.syntax(), SyntaxKind::FOR_KW)
    }

    /// The body, when there is one.
    pub fn body_element(&self) -> (r: Option<&SyntaxElement>)
        ensures
            match loop_body(self@, SyntaxKind::FOR_KW) {
                Some(b) => r matches Some(e) && *e == b,
                None => r is None,
            },
    {
        loop_body_ref(self.syntax(), SyntaxKind::FOR_KW)
    }

    /// All parts of the loop, when it has its keyword, its clause and an
    /// `in` in the clause.
    pub fn parts(&self) -> (r: Option<ForExprParts<'_>>)
        ensures
            r is Some <==> (first_token_from(self@.children@, 0, SyntaxKind::FOR_KW) is Some
                && clause_of(self@, SyntaxKind::FOR_KW) is Some && exists|q: int|
                0 <= q < clause_code(self@, SyntaxKind::FOR_KW)->Some_0.len() && is_token_of(
                #[trigger] clause_code(self@, SyntaxKind::FOR_KW)->Some_0[q],
                SyntaxKind::IN_KW,
            )),
            r matches Some(p) ==> ({
                let code = clause_code(self@, SyntaxKind::FOR_KW)->Some_0;
                &&& Some(deref_tokens(p.leading_comments@)) == header_comments(
                    self@,
                    SyntaxKind::FOR_KW,
                )
                &&& deref_elements(p.variable_elements@) + seq![code[deref_elements(p.variable_elements@).len() as int]]
                    + deref_elements(p.sequence_elements@) == code
                &&& is_token_of(code[deref_elements(p.variable_elements@).len() as int], SyntaxKind::IN_KW)
                &&& forall|q: int|
                    0 <= q < p.variable_elements@.len() ==> !is_token_of(
                        #[trigger] code[q],
                        SyntaxKind::IN_KW,
                    )
                &&& Some(deref_tokens(p.post_clause_comments@)) == after_clause_comments(
                    self@,
                    SyntaxKind::FOR_KW,
                )
                &&& match p.body {
                    Some(e) => loop_body(self@, SyntaxKind::FOR_KW) == Some(*e),
                    None => loop_body(self@, SyntaxKind::FOR_KW) is None,
                }
            }),
    {
        if self.for_keyword().is_none() {
            return None;
        }
        let clause = match self.clause_elements() {
            Some(c) => c,
            None => {
                return None;
            },
        };
        let p = match in_position(&clause) {
            Some(p) => p,
            None => {
                proof {
                    let code = clause_code(self@, SyntaxKind::FOR_KW)->Some_0;
                    assert forall|q: int| 0 <= q < code.len() implies !is_token_of(
                        #[trigger] code[q],
                        SyntaxKind::IN_KW,
                    ) by {
                        assert(deref_elements(clause@)[q] == *clause@[q]);
                    }
                }
                return None;
            },
        };
        let leading = self.leading_comments()?;
        let post = self.post_clause_comments()?;
        let variable = slice_refs(&clause, 0, p);
        let sequence = slice_refs(&clause, p + 1, clause.len());
        proof {
            let code = clause_code(self@, SyntaxKind::FOR_KW)->Some_0;
            assert(deref_elements(clause@)[p as int] == *clause@[p as int]);
            assert(deref_elements(variable@) + seq![code[p as int]] + deref_elements(sequence@)
                =~= code);
            assert forall|q: int| 0 <= q < variable@.len() implies !is_token_of(
                #[trigger] code[q],
                SyntaxKind::IN_KW,
            ) by {
                assert(deref_elements(clause@)[q] == *clause@[q]);
            }
        }
        Some(
            ForExprParts {
                leading_comments: leading,
                variable_elements: variable,
                sequence_elements: sequence,
                post_clause_comments: post,
                body: self.body_element(),
            },
        )
    }
}

impl WhileExpr {
    /// All children of the node, in order.
    pub fn elements(&self) -> (r: Vec<&SyntaxElement>)
        ensures
            deref_elements(r@) == self@.children@,
    {
        let n = self.syntax();
        let r = child_refs(n, 0, n.children.len());
        proof {
            assert(self@.children@.subrange(0, self@.children@.len() as int) =~= self@.children@);
        }
        r
    }

    /// The `while` keyword.
    pub fn while_keyword(&self) -> (r: Option<&SyntaxToken>)
        ensures
            match first_token_from(self@.children@, 0, SyntaxKind::WHILE_KW) {
                Some(k) => r matches Some(t) && self@.children@[k] == SyntaxElement::Token(*t),
                None => r is None,
            },
    {
        first_token_ref(self.syntax(), SyntaxKind::WHILE_KW)
    }

    /// The comments inside the header.
    pub fn leading_comments(&self) -> (r: Option<Vec<&SyntaxToken>>)
        ensures
            match header_comments(self@, SyntaxKind::WHILE_KW) {
                Some(s) => r matches Some(v) && deref_tokens(v@) == s,
                None => r is None,
            },
    {
        header_comment_refs(self.syntax(), SyntaxKind::WHILE_KW)
    }

    /// The condition between the parentheses, without trivia and comments.
    pub fn condition_elements(&self) -> (r: Option<Vec<&SyntaxElement>>)
        ensures
            match clause_code(self@, SyntaxKind::WHILE_KW) {
                Some(s) => r matches Some(v) && deref_elements(v@) == s,
                None => r is None,
            },
    {
        let n = self.syntax();
        let (l, c) = clause_refs_bounds(n, SyntaxKind::WHILE_KW)?;
        Some(code_refs(n, l + 1, c))
    }

    /// The comments between the clause and the body.
    pub fn post_clause_comments(&self) -> (r: Option<Vec<&SyntaxToken>>)
        ensures
            match after_clause_comments(self@, SyntaxKind::WHILE_KW) {
                Some(s) => r matches Some(v) && deref_tokens(v@) == s,
                None => r is None,
            },
    {
        after_clause_comment_refs(self.syntax(), SyntaxKind::WHILE_KW)
    }

    /// The body, when there is one.
    pub fn body_element(&self) -> (r: Option<&SyntaxElement>)
        ensures
            match loop_body(self@, SyntaxKind::WHILE_KW) {
                Some(b) => r matches Some(e) && *e == b,
                None => r is None,
            },
    {
        loop_body_ref(self.syntax(), SyntaxKind::WHILE_KW)
    }

    /// All parts of the loop, when it has its keyword and its clause.
    pub fn parts(&self) -> (r: Option<WhileExprParts<'_>>)
        ensures
            r is Some <==> (first_token_from(self@.children@, 0, SyntaxKind::WHILE_KW) is Some
                && clause_of(self@, SyntaxKind::WHILE_KW) is Some),
            r matches Some(p) ==> ({
                &&& Some(deref_tokens(p.leading_comments@)) == header_comments(
                    self@,
                    SyntaxKind::WHILE_KW,
                )
                &&& Some(deref_elements(p.condition_elements@)) == clause_code(
                    self@,
                    SyntaxKind::WHILE_KW,
                )
                &&& Some(deref_tokens(p.post_clause_comments@)) == after_clause_comments(
                    self@,
                    SyntaxKind::WHILE_KW,
                )
                &&& match p.body {
                    Some(e) => loop_body(self@, SyntaxKind::WHILE_KW) == Some(*e),
                    None => loop_body(self@, SyntaxKind::WHILE_KW) is None,
                }
            }),
    {
        if self.while_keyword().is_none() {
            return None;
        }
        let condition = self.condition_elements()?;
        let leading = self.leading_comments()?;
        let post = self.post_clause_comments()?;
        Some(
            WhileExprParts {
                leading_comments: leading,
                condition_elements: condition,
                post_clause_comments: post,
                body: self.body_element(),
            },
        )
    }
}

} // verus!
