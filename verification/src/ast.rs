//! Typed views of syntax-tree nodes: a wrapper per expression kind, and the
//! positions of the keywords and brackets of the control-flow forms.

use vstd::prelude::*;

use crate::syntax::{SyntaxElement, SyntaxKind, SyntaxNode};

pub mod accessors;

pub use crate::ast::accessors::{ForExprParts, WhileExprParts};

verus! {

/// The kind of an element of the tree.
pub open spec fn elem_kind(e: SyntaxElement) -> SyntaxKind {
    match e {
        SyntaxElement::Node(n) => n.kind,
        SyntaxElement::Token(t) => t.kind,
    }
}

/// `e` is a token (not a node) of kind `k`.
pub open spec fn is_token_of(e: SyntaxElement, k: SyntaxKind) -> bool {
    e matches SyntaxElement::Token(t) && t.kind == k
}

/// The index of the first token of kind `k` in `cs` at or after `from`.
pub open spec fn first_token_from(cs: Seq<SyntaxElement>, from: int, k: SyntaxKind) -> Option<int>
    decreases cs.len() - from,
{
    if from < 0 || from >= cs.len() {
        None
    } else if is_token_of(cs[from], k) {
        Some(from)
    } else {
        first_token_from(cs, from + 1, k)
    }
}

/// The index of the `)` that closes the bracket depth `depth` open before
/// position `i`, scanning `cs` from `i` (a `)` at depth zero stays at zero).
pub open spec fn closing_paren_from(cs: Seq<SyntaxElement>, i: int, depth: nat) -> Option<int>
    decreases cs.len() - i,
{
    if i < 0 || i >= cs.len() {
        None
    } else if is_token_of(cs[i], SyntaxKind::LPAREN) {
        closing_paren_from(cs, i + 1, depth + 1)
    } else if is_token_of(cs[i], SyntaxKind::RPAREN) {
        if depth <= 1 {
            Some(i)
        } else {
            closing_paren_from(cs, i + 1, (depth - 1) as nat)
        }
    } else {
        closing_paren_from(cs, i + 1, depth)
    }
}

/// An index found in `cs`, as an integer.
pub open spec fn opt_index(r: Option<usize>) -> Option<int> {
    match r {
        Some(i) => Some(i as int),
        None => None,
    }
}

/// The first token search, said with quantifiers: it finds the earliest token
/// of kind `k` at or after `from`, and finds none only when there is none.
pub proof fn lemma_first_token_from(cs: Seq<SyntaxElement>, from: int, k: SyntaxKind)
    requires
        0 <= from,
    ensures
        match first_token_from(cs, from, k) {
            Some(i) => from <= i < cs.len() && is_token_of(cs[i], k) && forall|j: int|
                from <= j < i ==> !is_token_of(#[trigger] cs[j], k),
            None => forall|j: int| from <= j < cs.len() ==> !is_token_of(#[trigger] cs[j], k),
        },
    decreases cs.len() - from,
{
    if from < cs.len() && !is_token_of(cs[from], k) {
        lemma_first_token_from(cs, from + 1, k);
    }
}

/// A closing `)` found from position `i` lies at or after `i`, and after it
/// when the search starts on a `(` at depth zero.
pub proof fn lemma_closing_after(cs: Seq<SyntaxElement>, i: int, depth: nat)
    requires
        0 <= i,
    ensures
        closing_paren_from(cs, i, depth) matches Some(c) ==> i <= c < cs.len()
            && (depth == 0 && is_token_of(cs[i], SyntaxKind::LPAREN) ==> i < c),
    decreases cs.len() - i,
{
    if i < cs.len() {
        if is_token_of(cs[i], SyntaxKind::LPAREN) {
            lemma_closing_after(cs, i + 1, depth + 1);
        } else if is_token_of(cs[i], SyntaxKind::RPAREN) {
            if depth > 1 {
                lemma_closing_after(cs, i + 1, (depth - 1) as nat);
            }
        } else {
            lemma_closing_after(cs, i + 1, depth);
        }
    }
}

/// The kind of an element.
pub fn element_kind(e: &SyntaxElement) -> (k: SyntaxKind)
    ensures
        k == elem_kind(*e),
{
    match e {
        SyntaxElement::Node(n) => n.kind,
        SyntaxElement::Token(t) => t.kind,
    }
}

/// Whether `e` is a token of kind `k`.
pub fn is_token_kind(e: &SyntaxElement, k: SyntaxKind) -> (b: bool)
    ensures
        b == is_token_of(*e, k),
{
    match e {
        SyntaxElement::Token(t) => t.kind == k,
        SyntaxElement::Node(_) => false,
    }
}

/// The index of the first token of kind `kind` in `elements`.
fn find_token_index(elements: &[SyntaxElement], kind: SyntaxKind) -> (r: Option<usize>)
    ensures
        opt_index(r) == first_token_from(elements@, 0, kind),
{
    find_token_from(elements, 0, kind)
}

/// The index of the first token of kind `kind` after position `start_idx`.
fn find_token_after_index(elements: &[SyntaxElement], start_idx: usize, kind: SyntaxKind) -> (r:
    Option<usize>)
    requires
        start_idx < elements@.len(),
    ensures
        opt_index(r) == first_token_from(elements@, start_idx + 1, kind),
{
    if start_idx >= elements.len() - 1 {
        proof {
            lemma_first_token_from(elements@, start_idx + 1, kind);
        }
        return None;
    }
    find_token_from(elements, start_idx + 1, kind)
}

/// The index of the first token of kind `kind` at or after `from`.
pub fn find_token_from(elements: &[SyntaxElement], from: usize, kind: SyntaxKind) -> (r: Option<usize>)
    ensures
        opt_index(r) == first_token_from(elements@, from as int, kind),
        r matches Some(i) ==> i < usize::MAX,
{
    let mut i = from;
    while i < elements.len()
        invariant
            from <= i,
            first_token_from(elements@, from as int, kind) == first_token_from(
                elements@,
                i as int,
                kind,
            ),
        decreases elements@.len() - i,
    {
        if is_token_kind(&elements[i], kind) {
            return Some(i);
        }
        i += 1;
    }
    None
}

/// The `)` closing the `(` at `lparen_idx`, at bracket depth zero.
pub fn matching_rparen(elements: &[SyntaxElement], lparen_idx: usize) -> (r: Option<usize>)
    ensures
        opt_index(r) == closing_paren_from(elements@, lparen_idx as int, 0),
        r matches Some(i) ==> i < usize::MAX,
{
    let mut depth: usize = 0;
    let mut idx = lparen_idx;
    while idx < elements.len()
        invariant
            lparen_idx <= idx,
            depth <= idx - lparen_idx,
            closing_paren_from(elements@, lparen_idx as int, 0) == closing_paren_from(
                elements@,
                idx as int,
                depth as nat,
            ),
        decreases elements@.len() - idx,
    {
        if is_token_kind(&elements[idx], SyntaxKind::LPAREN) {
            depth += 1;
        } else if is_token_kind(&elements[idx], SyntaxKind::RPAREN) {
            if depth <= 1 {
                return Some(idx);
            }
            depth -= 1;
        }
        idx += 1;
    }
    None
}

/// The root of a file.
pub struct Root {
    syntax: SyntaxNode,
}

/// `lhs <- rhs` and the other assignment forms.
pub struct AssignmentExpr {
    syntax: SyntaxNode,
}

/// `lhs op rhs`.
pub struct BinaryExpr {
    syntax: SyntaxNode,
}

/// `-x`, `+x`, `!x`.
pub struct UnaryExpr {
    syntax: SyntaxNode,
}

/// `(expr)`.
pub struct ParenExpr {
    syntax: SyntaxNode,
}

/// `f(args)`.
pub struct CallExpr {
    syntax: SyntaxNode,
}

/// The bracketed argument list of a call.
pub struct ArgList {
    syntax: SyntaxNode,
}

/// One argument of a call.
pub struct Arg {
    syntax: SyntaxNode,
}

/// `if (cond) then else other`.
pub struct IfExpr {
    syntax: SyntaxNode,
}

/// `for (var in seq) body`.
pub struct ForExpr {
    syntax: SyntaxNode,
}

/// `while (cond) body`.
pub struct WhileExpr {
    syntax: SyntaxNode,
}

/// `function(params) body` and `\(params) body`.
pub struct FunctionExpr {
    syntax: SyntaxNode,
}

/// `{ ... }`.
pub struct BlockExpr {
    syntax: SyntaxNode,
}

impl Root {
    pub closed spec fn view(&self) -> SyntaxNode {
        self.syntax
    }

    /// `node` seen as a root, when it is one.
    pub fn cast(node: SyntaxNode) -> (r: Option<Root>)
        ensures
            r is Some <==> node.kind == SyntaxKind::ROOT,
            r matches Some(x) ==> x@ == node,
    {
        if node.kind == SyntaxKind::ROOT {
            Some(Root { syntax: node })
        } else {
            None
        }
    }

    pub fn syntax(&self) -> (r: &SyntaxNode)
        ensures
            *r == self@,
    {
        &self.syntax
    }
}

impl AssignmentExpr {
    pub closed spec fn view(&self) -> SyntaxNode {
        self.syntax
    }

    /// `node` seen as an assignment, when it is one.
    pub fn cast(node: SyntaxNode) -> (r: Option<AssignmentExpr>)
        ensures
            r is Some <==> node.kind == SyntaxKind::ASSIGNMENT_EXPR,
            r matches Some(x) ==> x@ == node,
    {
        if node.kind == SyntaxKind::ASSIGNMENT_EXPR {
            Some(AssignmentExpr { syntax: node })
        } else {
            None
        }
    }

    pub fn syntax(&self) -> (r: &SyntaxNode)
        ensures
            *r == self@,
    {
        &self.syntax
    }
}

impl BinaryExpr {
    pub closed spec fn view(&self) -> SyntaxNode {
        self.syntax
    }

    /// `node` seen as a binary expression, when it is one.
    pub fn cast(node: SyntaxNode) -> (r: Option<BinaryExpr>)
        ensures
            r is Some <==> node.kind == SyntaxKind::BINARY_EXPR,
            r matches Some(x) ==> x@ == node,
    {
        if node.kind == SyntaxKind::BINARY_EXPR {
            Some(BinaryExpr { syntax: node })
        } else {
            None
        }
    }

    pub fn syntax(&self) -> (r: &SyntaxNode)
        ensures
            *r == self@,
    {
        &self.syntax
    }
}

impl UnaryExpr {
    pub closed spec fn view(&self) -> SyntaxNode {
        self.syntax
    }

    /// `node` seen as a unary expression, when it is one.
    pub fn cast(node: SyntaxNode) -> (r: Option<UnaryExpr>)
        ensures
            r is Some <==> node.kind == SyntaxKind::UNARY_EXPR,
            r matches Some(x) ==> x@ == node,
    {
        if node.kind == SyntaxKind::UNARY_EXPR {
            Some(UnaryExpr { syntax: node })
        } else {
            None
        }
    }

    pub fn syntax(&self) -> (r: &SyntaxNode)
        ensures
            *r == self@,
    {
        &self.syntax
    }
}

impl ParenExpr {
    pub closed spec fn view(&self) -> SyntaxNode {
        self.syntax
    }

    /// `node` seen as a parenthesized expression, when it is one.
    pub fn cast(node: SyntaxNode) -> (r: Option<ParenExpr>)
        ensures
            r is Some <==> node.kind == SyntaxKind::PAREN_EXPR,
            r matches Some(x) ==> x@ == node,
    {
        if node.kind == SyntaxKind::PAREN_EXPR {
            Some(ParenExpr { syntax: node })
        } else {
            None
        }
    }

    pub fn syntax(&self) -> (r: &SyntaxNode)
        ensures
            *r == self@,
    {
        &self.syntax
    }
}

impl CallExpr {
    pub closed spec fn view(&self) -> SyntaxNode {
        self.syntax
    }

    /// `node` seen as a call, when it is one.
    pub fn cast(node: SyntaxNode) -> (r: Option<CallExpr>)
        ensures
            r is Some <==> node.kind == SyntaxKind::CALL_EXPR,
            r matches Some(x) ==> x@ == node,
    {
        if node.kind == SyntaxKind::CALL_EXPR {
            Some(CallExpr { syntax: node })
        } else {
            None
        }
    }

    pub fn syntax(&self) -> (r: &SyntaxNode)
        ensures
            *r == self@,
    {
        &self.syntax
    }
}

impl ArgList {
    pub closed spec fn view(&self) -> SyntaxNode {
        self.syntax
    }

    /// `node` seen as an argument list, when it is one.
    pub fn cast(node: SyntaxNode) -> (r: Option<ArgList>)
        ensures
            r is Some <==> node.kind == SyntaxKind::ARG_LIST,
            r matches Some(x) ==> x@ == node,
    {
        if node.kind == SyntaxKind::ARG_LIST {
            Some(ArgList { syntax: node })
        } else {
            None
        }
    }

    pub fn syntax(&self) -> (r: &SyntaxNode)
        ensures
            *r == self@,
    {
        &self.syntax
    }
}

impl Arg {
    pub closed spec fn view(&self) -> SyntaxNode {
        self.syntax
    }

    /// `node` seen as an argument, when it is one.
    pub fn cast(node: SyntaxNode) -> (r: Option<Arg>)
        ensures
            r is Some <==> node.kind == SyntaxKind::ARG,
            r matches Some(x) ==> x@ == node,
    {
        if node.kind == SyntaxKind::ARG {
            Some(Arg { syntax: node })
        } else {
            None
        }
    }

    pub fn syntax(&self) -> (r: &SyntaxNode)
        ensures
            *r == self@,
    {
        &self.syntax
    }
}

impl FunctionExpr {
    pub closed spec fn view(&self) -> SyntaxNode {
        self.syntax
    }

    /// `node` seen as a function definition, when it is one.
    pub fn cast(node: SyntaxNode) -> (r: Option<FunctionExpr>)
        ensures
            r is Some <==> node.kind == SyntaxKind::FUNCTION_EXPR,
            r matches Some(x) ==> x@ == node,
    {
        if node.kind == SyntaxKind::FUNCTION_EXPR {
            Some(FunctionExpr { syntax: node })
        } else {
            None
        }
    }

    pub fn syntax(&self) -> (r: &SyntaxNode)
        ensures
            *r == self@,
    {
        &self.syntax
    }
}

impl BlockExpr {
    pub closed spec fn view(&self) -> SyntaxNode {
        self.syntax
    }

    /// `node` seen as a block, when it is one.
    pub fn cast(node: SyntaxNode) -> (r: Option<BlockExpr>)
        ensures
            r is Some <==> node.kind == SyntaxKind::BLOCK_EXPR,
            r matches Some(x) ==> x@ == node,
    {
        if node.kind == SyntaxKind::BLOCK_EXPR {
            Some(BlockExpr { syntax: node })
        } else {
            None
        }
    }

    pub fn syntax(&self) -> (r: &SyntaxNode)
        ensures
            *r == self@,
    {
        &self.syntax
    }
}

/// Where `if (` opens its condition: the first `(` among the children.
pub open spec fn if_lparen(n: SyntaxNode) -> Option<int> {
    first_token_from(n.children@, 0, SyntaxKind::LPAREN)
}

/// Where the condition of an `if` closes: the first `)` after its `(`.
pub open spec fn if_rparen(n: SyntaxNode) -> Option<int> {
    match if_lparen(n) {
        Some(l) => first_token_from(n.children@, l + 1, SyntaxKind::RPAREN),
        None => None,
    }
}

/// The first `(` after the first token of kind `kw`.
pub open spec fn lparen_after_keyword(n: SyntaxNode, kw: SyntaxKind) -> Option<int> {
    match first_token_from(n.children@, 0, kw) {
        Some(k) => first_token_from(n.children@, k + 1, SyntaxKind::LPAREN),
        None => None,
    }
}

/// The `(` after keyword `kw` and the `)` that closes it.
pub open spec fn clause_of(n: SyntaxNode, kw: SyntaxKind) -> Option<(int, int)> {
    match lparen_after_keyword(n, kw) {
        Some(l) => match closing_paren_from(n.children@, l, 0) {
            Some(r) => Some((l, r)),
            None => None,
        },
        None => None,
    }
}

pub open spec fn opt_pair(r: Option<(usize, usize)>) -> Option<(int, int)> {
    match r {
        Some((a, b)) => Some((a as int, b as int)),
        None => None,
    }
}

impl IfExpr {
    pub closed spec fn view(&self) -> SyntaxNode {
        self.syntax
    }

    /// `node` seen as an `if` expression, when it is one.
    pub fn cast(node: SyntaxNode) -> (r: Option<IfExpr>)
        ensures
            r is Some <==> node.kind == SyntaxKind::IF_EXPR,
            r matches Some(x) ==> x@ == node,
    {
        if node.kind == SyntaxKind::IF_EXPR {
            Some(IfExpr { syntax: node })
        } else {
            None
        }
    }

    pub fn syntax(&self) -> (r: &SyntaxNode)
        ensures
            *r == self@,
    {
        &self.syntax
    }

    /// The child index of the `(` that opens the condition.
    pub fn lparen_index(&self) -> (r: Option<usize>)
        ensures
            opt_index(r) == if_lparen(self@),
    {
        find_token_index(self.syntax.children.as_slice(), SyntaxKind::LPAREN)
    }

    /// The child index of the `)` that closes the condition.
    pub fn rparen_index(&self) -> (r: Option<usize>)
        ensures
            opt_index(r) == if_rparen(self@),
    {
        let lparen_idx = self.lparen_index()?;
        proof {
            lemma_first_token_from(self@.children@, 0, SyntaxKind::LPAREN);
        }
        find_token_after_index(self.syntax.children.as_slice(), lparen_idx, SyntaxKind::RPAREN)
    }

    /// The child index of the `if` keyword.
    pub fn if_keyword_index(&self) -> (r: Option<usize>)
        ensures
            opt_index(r) == first_token_from(self@.children@, 0, SyntaxKind::IF_KW),
    {
        find_token_index(self.syntax.children.as_slice(), SyntaxKind::IF_KW)
    }

    /// The child index of the `else` keyword.
    pub fn else_keyword_index(&self) -> (r: Option<usize>)
        ensures
            opt_index(r) == first_token_from(self@.children@, 0, SyntaxKind::ELSE_KW),
    {
        find_token_index(self.syntax.children.as_slice(), SyntaxKind::ELSE_KW)
    }
}

impl ForExpr {
    pub closed spec fn view(&self) -> SyntaxNode {
        self.syntax
    }

    /// `node` seen as a `for` loop, when it is one.
    pub fn cast(node: SyntaxNode) -> (r: Option<ForExpr>)
        ensures
            r is Some <==> node.kind == SyntaxKind::FOR_EXPR,
            r matches Some(x) ==> x@ == node,
    {
        if node.kind == SyntaxKind::FOR_EXPR {
            Some(ForExpr { syntax: node })
        } else {
            None
        }
    }

    pub fn syntax(&self) -> (r: &SyntaxNode)
        ensures
            *r == self@,
    {
        &self.syntax
    }

    /// The child index of the `(` after the `for` keyword.
    pub fn lparen_index(&self) -> (r: Option<usize>)
        ensures
            opt_index(r) == lparen_after_keyword(self@, SyntaxKind::FOR_KW),
    {
        let elements = self.syntax.children.as_slice();
        let for_idx = find_token_index(elements, SyntaxKind::FOR_KW)?;
        proof {
            lemma_first_token_from(elements@, 0, SyntaxKind::FOR_KW);
        }
        find_token_after_index(elements, for_idx, SyntaxKind::LPAREN)
    }

    /// The child indices of the `(` after `for` and the `)` that closes it.
    pub fn clause_bounds(&self) -> (r: Option<(usize, usize)>)
        ensures
            opt_pair(r) == clause_of(self@, SyntaxKind::FOR_KW),
    {
        let lparen_idx = self.lparen_index()?;
        let rparen_idx = matching_rparen(self.syntax.children.as_slice(), lparen_idx)?;
        Some((lparen_idx, rparen_idx))
    }
}

impl WhileExpr {
    pub closed spec fn view(&self) -> SyntaxNode {
        self.syntax
    }

    /// `node` seen as a `while` loop, when it is one.
    pub fn cast(node: SyntaxNode) -> (r: Option<WhileExpr>)
        ensures
            r is Some <==> node.kind == SyntaxKind::WHILE_EXPR,
            r matches Some(x) ==> x@ == node,
    {
        if node.kind == SyntaxKind::WHILE_EXPR {
            Some(WhileExpr { syntax: node })
        } else {
            None
        }
    }

    pub fn syntax(&self) -> (r: &SyntaxNode)
        ensures
            *r == self@,
    {
        &self.syntax
    }

    /// The child index of the `(` after the `while` keyword.
    pub fn lparen_index(&self) -> (r: Option<usize>)
        ensures
            opt_index(r) == lparen_after_keyword(self@, SyntaxKind::WHILE_KW),
    {
        let elements = self.syntax.children.as_slice();
        let while_idx = find_token_index(elements, SyntaxKind::WHILE_KW)?;
        proof {
            lemma_first_token_from(elements@, 0, SyntaxKind::WHILE_KW);
        }
        find_token_after_index(elements, while_idx, SyntaxKind::LPAREN)
    }

    /// The child indices of the `(` after `while` and the `)` that closes it.
    pub fn clause_bounds(&self) -> (r: Option<(usize, usize)>)
        ensures
            opt_pair(r) == clause_of(self@, SyntaxKind::WHILE_KW),
    {
        let lparen_idx = self.lparen_index()?;
        let rparen_idx = matching_rparen(self.syntax.children.as_slice(), lparen_idx)?;
        Some((lparen_idx, rparen_idx))
    }
}

} // verus!
