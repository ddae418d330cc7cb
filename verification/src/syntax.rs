//! Token kinds produced by the lexer and syntax kinds of the concrete syntax tree.

use vstd::prelude::*;

verus! {

/// The kind of a lexical token.
#[derive(Debug, Clone, Copy, PartialEq, Eq, Structural)]
pub enum TokKind {
    Ident,
    Int,
    Float,
    String,
    Comment,
    IfKw,
    ElseKw,
    ForKw,
    WhileKw,
    RepeatKw,
    FunctionKw,
    LambdaFn,
    InKw,
    Tilde,
    Question,
    UserOp,
    LBrack,
    RBrack,
    LBrack2,
    RBrack2,
    Plus,
    Minus,
    Star,
    Slash,
    Caret,
    Pipe,
    Colon,
    Colon2,
    Colon3,
    Walrus,
    Dollar,
    At,
    Semicolon,
    Comma,
    Or,
    Or2,
    And,
    And2,
    Equal2,
    NotEqual,
    Bang,
    LessThan,
    LessThanOrEqual,
    GreaterThan,
    GreaterThanOrEqual,
    LParen,
    RParen,
    LBrace,
    RBrace,
    AssignLeft,
    SuperAssign,
    AssignRight,
    SuperAssignRight,
    AssignEq,
    Whitespace,
    Newline,
    Unknown,
}

/// The kind of a node or token of the concrete syntax tree.
#[allow(non_camel_case_types)]
#[derive(Debug, Clone, Copy, PartialEq, Eq, Structural)]
pub enum SyntaxKind {
    ROOT,
    BINARY_EXPR,
    ASSIGNMENT_EXPR,
    UNARY_EXPR,
    PAREN_EXPR,
    CALL_EXPR,
    ARG_LIST,
    ARG,
    SUBSET_EXPR,
    SUBSET2_EXPR,
    IF_EXPR,
    FOR_EXPR,
    WHILE_EXPR,
    REPEAT_EXPR,
    FUNCTION_EXPR,
    BLOCK_EXPR,
    IDENT,
    INT,
    FLOAT,
    STRING,
    COMMENT,
    TILDE,
    QUESTION,
    USER_OP,
    LBRACK,
    RBRACK,
    LBRACK2,
    RBRACK2,
    PLUS,
    MINUS,
    STAR,
    SLASH,
    CARET,
    PIPE,
    COLON,
    COLON2,
    COLON3,
    DOLLAR,
    AT,
    SEMICOLON,
    COMMA,
    OR,
    OR2,
    AND,
    AND2,
    EQUAL2,
    NOT_EQUAL,
    BANG,
    LESS_THAN,
    LESS_THAN_OR_EQUAL,
    GREATER_THAN,
    GREATER_THAN_OR_EQUAL,
    LPAREN,
    RPAREN,
    IF_KW,
    ELSE_KW,
    FOR_KW,
    WHILE_KW,
    REPEAT_KW,
    FUNCTION_KW,
    LAMBDA_FN,
    IN_KW,
    LBRACE,
    RBRACE,
    WHITESPACE,
    NEWLINE,
    ASSIGN_LEFT,
    SUPER_ASSIGN,
    ASSIGN_RIGHT,
    SUPER_ASSIGN_RIGHT,
    ASSIGN_EQ,
    WALRUS,
    ERROR,
}

} // verus!

verus! {

/// A leaf of the concrete syntax tree.
#[derive(Debug)]
pub struct SyntaxToken {
    pub kind: SyntaxKind,
    pub text: String,
}

/// An inner node of the concrete syntax tree: its kind and its children in
/// source order.
#[derive(Debug)]
pub struct SyntaxNode {
    pub kind: SyntaxKind,
    pub children: Vec<SyntaxElement>,
}

#[derive(Debug)]
pub enum SyntaxElement {
    Node(SyntaxNode),
    Token(SyntaxToken),
}

/// The shape of a tree with its texts as character sequences: a leaf is a
/// token's kind and text, a branch a node's kind and its children.
pub enum TreeView {
    Leaf(SyntaxKind, Seq<char>),
    Branch(SyntaxKind, Seq<TreeView>),
}

/// The shape of an element.
pub open spec fn element_view(e: SyntaxElement) -> TreeView
    decreases e,
{
    match e {
        SyntaxElement::Token(t) => TreeView::Leaf(t.kind, t.text@),
        SyntaxElement::Node(n) => TreeView::Branch(n.kind, children_view(n.children@)),
    }
}

/// The shapes of `cs`, in order.
pub open spec fn children_view(cs: Seq<SyntaxElement>) -> Seq<TreeView>
    decreases cs,
{
    if cs.len() == 0 {
        seq![]
    } else {
        children_view(cs.subrange(0, cs.len() - 1)).push(element_view(cs[cs.len() - 1]))
    }
}

/// The shape of a node.
pub open spec fn node_view(n: SyntaxNode) -> TreeView {
    TreeView::Branch(n.kind, children_view(n.children@))
}

pub proof fn lemma_children_view_push(cs: Seq<SyntaxElement>, e: SyntaxElement)
    ensures
        children_view(cs.push(e)) == children_view(cs).push(element_view(e)),
{
    assert(cs.push(e).subrange(0, cs.len() as int) =~= cs);
}

/// The leaves of an element in source order, each as its kind and text.
pub open spec fn element_leaves(e: SyntaxElement) -> Seq<(SyntaxKind, Seq<char>)>
    decreases e,
{
    match e {
        SyntaxElement::Token(t) => seq![(t.kind, t.text@)],
        SyntaxElement::Node(n) => children_leaves(n.children@),
    }
}

/// The leaves of `cs`, in order.
pub open spec fn children_leaves(cs: Seq<SyntaxElement>) -> Seq<(SyntaxKind, Seq<char>)>
    decreases cs,
{
    if cs.len() == 0 {
        seq![]
    } else {
        children_leaves(cs.subrange(0, cs.len() - 1)) + element_leaves(cs[cs.len() - 1])
    }
}

/// The leaves of a node, in order.
pub open spec fn node_leaves(n: SyntaxNode) -> Seq<(SyntaxKind, Seq<char>)> {
    children_leaves(n.children@)
}

pub proof fn lemma_children_leaves_push(cs: Seq<SyntaxElement>, e: SyntaxElement)
    ensures
        children_leaves(cs.push(e)) == children_leaves(cs) + element_leaves(e),
{
    assert(cs.push(e).subrange(0, cs.len() as int) =~= cs);
}

/// The source text spelled by an element: the texts of its leaves in order.
pub open spec fn element_text(e: SyntaxElement) -> Seq<char>
    decreases e,
{
    match e {
        SyntaxElement::Token(t) => t.text@,
        SyntaxElement::Node(n) => children_text(n.children@),
    }
}

/// The texts of `cs` written one after another.
pub open spec fn children_text(cs: Seq<SyntaxElement>) -> Seq<char>
    decreases cs,
{
    if cs.len() == 0 {
        seq![]
    } else {
        children_text(cs.subrange(0, cs.len() - 1)) + element_text(cs[cs.len() - 1])
    }
}

pub open spec fn node_text(n: SyntaxNode) -> Seq<char> {
    children_text(n.children@)
}

/// The text of one child is part of the text of all of them.
pub proof fn lemma_child_text_len(cs: Seq<SyntaxElement>, k: int)
    requires
        0 <= k < cs.len(),
    ensures
        element_text(cs[k]).len() <= children_text(cs).len(),
    decreases cs.len(),
{
    let last = cs.len() - 1;
    if k < last {
        lemma_child_text_len(cs.subrange(0, last), k);
        assert(cs.subrange(0, last)[k] == cs[k]);
    }
}

pub proof fn lemma_children_text_push(cs: Seq<SyntaxElement>, e: SyntaxElement)
    ensures
        children_text(cs.push(e)) == children_text(cs) + element_text(e),
{
    assert(cs.push(e).subrange(0, cs.len() as int) =~= cs);
}

pub proof fn lemma_children_text_append(a: Seq<SyntaxElement>, b: Seq<SyntaxElement>)
    ensures
        children_text(a + b) == children_text(a) + children_text(b),
    decreases b.len(),
{
    if b.len() == 0 {
        assert(a + b =~= a);
        assert(children_text(a) + children_text(b) =~= children_text(a));
    } else {
        let bl = b.subrange(0, b.len() - 1);
        assert((a + b).subrange(0, (a + b).len() - 1) =~= a + bl);
        lemma_children_text_append(a, bl);
        assert(children_text(a + b) =~= children_text(a) + children_text(b));
    }
}

impl SyntaxNode {
    /// The source text spelled by this node.
    pub fn text(&self) -> (r: String)
        ensures
            r@ == node_text(*self),
        decreases self,
    {
        let mut out = String::new();
        let mut k: usize = 0;
        while k < self.children.len()
            invariant
                k <= self.children@.len(),
                out@ == children_text(self.children@.subrange(0, k as int)),
            decreases self.children@.len() - k,
        {
            assert(decreases_to!(self => self.children@[k as int]));
            let part = element_string(&self.children[k]);
            let ghost before = out@;
            out.append(part.as_str());
            proof {
                lemma_children_text_push(self.children@.subrange(0, k as int), self.children@[k as int]);
                assert(self.children@.subrange(0, k as int).push(self.children@[k as int])
                    =~= self.children@.subrange(0, k + 1));
            }
            k += 1;
        }
        proof {
            assert(self.children@.subrange(0, self.children@.len() as int) =~= self.children@);
        }
        out
    }
}

impl Clone for SyntaxToken {
    fn clone(&self) -> (r: Self)
        ensures
            r.kind == self.kind,
            r.text@ == self.text@,
            element_view(SyntaxElement::Token(r)) == element_view(SyntaxElement::Token(*self)),
    {
        SyntaxToken { kind: self.kind, text: self.text.clone() }
    }
}

impl Clone for SyntaxNode {
    /// A copy of the tree: the same kinds, texts and shape.
    fn clone(&self) -> (r: Self)
        ensures
            r.kind == self.kind,
            node_text(r) == node_text(*self),
            node_view(r) == node_view(*self),
        decreases self,
    {
        let mut children: Vec<SyntaxElement> = Vec::new();
        let mut k: usize = 0;
        proof {
            assert(self.children@.subrange(0, 0) =~= children@);
        }
        while k < self.children.len()
            invariant
                k <= self.children@.len(),
                children_text(children@) == children_text(self.children@.subrange(0, k as int)),
                children_view(children@) == children_view(self.children@.subrange(0, k as int)),
            decreases self.children@.len() - k,
        {
            assert(decreases_to!(self => self.children@[k as int]));
            let c = copy_element(&self.children[k]);
            proof {
                lemma_children_text_push(children@, c);
                lemma_children_text_push(self.children@.subrange(0, k as int), self.children@[k as int]);
                lemma_children_view_push(children@, c);
                lemma_children_view_push(self.children@.subrange(0, k as int), self.children@[k as int]);
                assert(self.children@.subrange(0, k as int).push(self.children@[k as int])
                    =~= self.children@.subrange(0, k + 1));
            }
            children.push(c);
            k += 1;
        }
        proof {
            assert(self.children@.subrange(0, self.children@.len() as int) =~= self.children@);
        }
        SyntaxNode { kind: self.kind, children }
    }
}

fn copy_element(e: &SyntaxElement) -> (r: SyntaxElement)
    ensures
        element_text(r) == element_text(*e),
        element_view(r) == element_view(*e),
    decreases e,
{
    match e {
        SyntaxElement::Token(t) => SyntaxElement::Token(t.clone()),
        SyntaxElement::Node(n) => SyntaxElement::Node(n.clone()),
    }
}

impl Clone for SyntaxElement {
    fn clone(&self) -> (r: Self)
        ensures
            element_text(r) == element_text(*self),
            element_view(r) == element_view(*self),
    {
        copy_element(self)
    }
}

/// The nodes of the tree rooted at `n`, in preorder: `n` first, then the
/// nodes under each child in turn.
pub open spec fn descendants_of(n: SyntaxNode) -> Seq<SyntaxNode>
    decreases n,
{
    seq![n] + descendants_in(n.children@)
}

/// The nodes under the elements `cs`, in preorder.
pub open spec fn descendants_in(cs: Seq<SyntaxElement>) -> Seq<SyntaxNode>
    decreases cs,
{
    if cs.len() == 0 {
        seq![]
    } else {
        descendants_in(cs.subrange(0, cs.len() - 1)) + match cs[cs.len() - 1] {
            SyntaxElement::Node(m) => descendants_of(m),
            SyntaxElement::Token(_) => seq![],
        }
    }
}

pub open spec fn derefs<'a>(s: Seq<&'a SyntaxNode>) -> Seq<SyntaxNode> {
    s.map_values(|x: &'a SyntaxNode| *x)
}

impl SyntaxNode {
    /// This node and every node below it, in preorder.
    pub fn descendants(&self) -> (r: Vec<&SyntaxNode>)
        ensures
            derefs(r@) == descendants_of(*self),
    {
        let mut out: Vec<&SyntaxNode> = Vec::new();
        collect_descendants(self, &mut out);
        proof {
            assert(derefs(out@) =~= Seq::<SyntaxNode>::empty() + descendants_of(*self));
        }
        out
    }
}

fn collect_descendants<'a>(n: &'a SyntaxNode, out: &mut Vec<&'a SyntaxNode>)
    ensures
        derefs(final(out)@) == derefs(old(out)@) + descendants_of(*n),
    decreases n,
{
    let ghost start = derefs(out@);
    out.push(n);
    proof {
        assert(derefs(out@) =~= start + seq![*n]);
        assert(n.children@.subrange(0, 0) =~= Seq::<SyntaxElement>::empty());
    }
    let mut k: usize = 0;
    while k < n.children.len()
        invariant
            k <= n.children@.len(),
            derefs(out@) == start + seq![*n] + descendants_in(n.children@.subrange(0, k as int)),
        decreases n.children@.len() - k,
    {
        proof {
            assert(n.children@.subrange(0, k + 1).subrange(0, k as int) =~= n.children@.subrange(
                0,
                k as int,
            ));
        }
        let ghost before = derefs(out@);
        assert(decreases_to!(n => n.children@[k as int]));
        match &n.children[k] {
            SyntaxElement::Node(m) => {
                collect_descendants(m, out);
                proof {
                    assert(derefs(out@) =~= start + seq![*n] + descendants_in(
                        n.children@.subrange(0, k + 1),
                    ));
                }
            },
            SyntaxElement::Token(_) => {
                proof {
                    assert(derefs(out@) =~= start + seq![*n] + descendants_in(
                        n.children@.subrange(0, k + 1),
                    ));
                }
            },
        }
        k += 1;
    }
    proof {
        assert(n.children@.subrange(0, n.children@.len() as int) =~= n.children@);
        assert(derefs(out@) =~= start + descendants_of(*n));
    }
}

/// The source text spelled by an element.
pub fn element_string(e: &SyntaxElement) -> (r: String)
    ensures
        r@ == element_text(*e),
    decreases e,
{
    match e {
        SyntaxElement::Token(t) => t.text.clone(),
        SyntaxElement::Node(n) => n.text(),
    }
}

} // verus!
