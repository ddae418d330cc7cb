//! Lowering of parser events into the concrete syntax tree.

use vstd::prelude::*;

use crate::parser::events::{Event, tok_seq};
use crate::parser::lexer::Token;
use crate::syntax::{
    SyntaxElement, SyntaxKind, SyntaxNode, SyntaxToken, TokKind, children_leaves, children_text,
    element_leaves, element_text, lemma_children_leaves_push, lemma_children_text_push, node_leaves,
    node_text,
};

verus! {

/// The texts of the tokens at `idxs`, in order (indices outside the tokens
/// contribute nothing).
pub open spec fn tokens_text(tokens: Seq<Token>, idxs: Seq<int>) -> Seq<char>
    decreases idxs.len(),
{
    if idxs.len() == 0 {
        seq![]
    } else {
        let i = idxs.last();
        tokens_text(tokens, idxs.drop_last()) + if 0 <= i < tokens.len() {
            tokens[i].text@
        } else {
            seq![]
        }
    }
}

/// The texts of the open frames of the builder, outermost first.
pub open spec fn frames_text(frames: Seq<Vec<SyntaxElement>>) -> Seq<char>
    decreases frames.len(),
{
    if frames.len() == 0 {
        seq![]
    } else {
        frames_text(frames.drop_last()) + children_text(frames.last()@)
    }
}

/// The syntax kind of the leaf made from a token of kind `k`.
pub open spec fn leaf_kind(k: TokKind) -> SyntaxKind {
    match k {
        TokKind::Ident => SyntaxKind::IDENT,
        TokKind::Int => SyntaxKind::INT,
        TokKind::Float => SyntaxKind::FLOAT,
        TokKind::String => SyntaxKind::STRING,
        TokKind::Comment => SyntaxKind::COMMENT,
        TokKind::Tilde => SyntaxKind::TILDE,
        TokKind::Question => SyntaxKind::QUESTION,
        TokKind::UserOp => SyntaxKind::USER_OP,
        TokKind::LBrack => SyntaxKind::LBRACK,
        TokKind::RBrack => SyntaxKind::RBRACK,
        TokKind::LBrack2 => SyntaxKind::LBRACK2,
        TokKind::RBrack2 => SyntaxKind::RBRACK2,
        TokKind::Plus => SyntaxKind::PLUS,
        TokKind::Minus => SyntaxKind::MINUS,
        TokKind::Star => SyntaxKind::STAR,
        TokKind::Slash => SyntaxKind::SLASH,
        TokKind::Caret => SyntaxKind::CARET,
        TokKind::Pipe => SyntaxKind::PIPE,
        TokKind::Colon => SyntaxKind::COLON,
        TokKind::Colon2 => SyntaxKind::COLON2,
        TokKind::Colon3 => SyntaxKind::COLON3,
        TokKind::Walrus => SyntaxKind::WALRUS,
        TokKind::Dollar => SyntaxKind::DOLLAR,
        TokKind::At => SyntaxKind::AT,
        TokKind::Semicolon => SyntaxKind::SEMICOLON,
        TokKind::Comma => SyntaxKind::COMMA,
        TokKind::Or => SyntaxKind::OR,
        TokKind::Or2 => SyntaxKind::OR2,
        TokKind::And => SyntaxKind::AND,
        TokKind::And2 => SyntaxKind::AND2,
        TokKind::Equal2 => SyntaxKind::EQUAL2,
        TokKind::NotEqual => SyntaxKind::NOT_EQUAL,
        TokKind::Bang => SyntaxKind::BANG,
        TokKind::LessThan => SyntaxKind::LESS_THAN,
        TokKind::LessThanOrEqual => SyntaxKind::LESS_THAN_OR_EQUAL,
        TokKind::GreaterThan => SyntaxKind::GREATER_THAN,
        TokKind::GreaterThanOrEqual => SyntaxKind::GREATER_THAN_OR_EQUAL,
        TokKind::LParen => SyntaxKind::LPAREN,
        TokKind::RParen => SyntaxKind::RPAREN,
        TokKind::IfKw => SyntaxKind::IF_KW,
        TokKind::ElseKw => SyntaxKind::ELSE_KW,
        TokKind::ForKw => SyntaxKind::FOR_KW,
        TokKind::WhileKw => SyntaxKind::WHILE_KW,
        TokKind::RepeatKw => SyntaxKind::REPEAT_KW,
        TokKind::FunctionKw => SyntaxKind::FUNCTION_KW,
        TokKind::LambdaFn => SyntaxKind::LAMBDA_FN,
        TokKind::InKw => SyntaxKind::IN_KW,
        TokKind::LBrace => SyntaxKind::LBRACE,
        TokKind::RBrace => SyntaxKind::RBRACE,
        TokKind::AssignLeft => SyntaxKind::ASSIGN_LEFT,
        TokKind::SuperAssign => SyntaxKind::SUPER_ASSIGN,
        TokKind::AssignRight => SyntaxKind::ASSIGN_RIGHT,
        TokKind::SuperAssignRight => SyntaxKind::SUPER_ASSIGN_RIGHT,
        TokKind::AssignEq => SyntaxKind::ASSIGN_EQ,
        TokKind::Whitespace => SyntaxKind::WHITESPACE,
        TokKind::Newline => SyntaxKind::NEWLINE,
        TokKind::Unknown => SyntaxKind::ERROR,
    }
}

/// The leaves made from the tokens at `idxs`, in order (indices outside the
/// tokens make none).
pub open spec fn tokens_leaves(tokens: Seq<Token>, idxs: Seq<int>) -> Seq<(SyntaxKind, Seq<char>)>
    decreases idxs.len(),
{
    if idxs.len() == 0 {
        seq![]
    } else {
        let i = idxs.last();
        tokens_leaves(tokens, idxs.drop_last()) + if 0 <= i < tokens.len() {
            seq![(leaf_kind(tokens[i].kind), tokens[i].text@)]
        } else {
            seq![]
        }
    }
}

/// The leaves of the open frames of the builder, outermost first.
pub open spec fn frames_leaves(frames: Seq<Vec<SyntaxElement>>) -> Seq<(SyntaxKind, Seq<char>)>
    decreases frames.len(),
{
    if frames.len() == 0 {
        seq![]
    } else {
        frames_leaves(frames.drop_last()) + children_leaves(frames.last()@)
    }
}

/// The syntax kind of the leaf made from a token of kind `kind`.
pub(crate) fn syntax_kind_of(kind: TokKind) -> (r: SyntaxKind)
    ensures
        r == leaf_kind(kind),
{
    match kind {
        TokKind::Ident => SyntaxKind::IDENT,
        TokKind::Int => SyntaxKind::INT,
        TokKind::Float => SyntaxKind::FLOAT,
        TokKind::String => SyntaxKind::STRING,
        TokKind::Comment => SyntaxKind::COMMENT,
        TokKind::Tilde => SyntaxKind::TILDE,
        TokKind::Question => SyntaxKind::QUESTION,
        TokKind::UserOp => SyntaxKind::USER_OP,
        TokKind::LBrack => SyntaxKind::LBRACK,
        TokKind::RBrack => SyntaxKind::RBRACK,
        TokKind::LBrack2 => SyntaxKind::LBRACK2,
        TokKind::RBrack2 => SyntaxKind::RBRACK2,
        TokKind::Plus => SyntaxKind::PLUS,
        TokKind::Minus => SyntaxKind::MINUS,
        TokKind::Star => SyntaxKind::STAR,
        TokKind::Slash => SyntaxKind::SLASH,
        TokKind::Caret => SyntaxKind::CARET,
        TokKind::Pipe => SyntaxKind::PIPE,
        TokKind::Colon => SyntaxKind::COLON,
        TokKind::Colon2 => SyntaxKind::COLON2,
        TokKind::Colon3 => SyntaxKind::COLON3,
        TokKind::Walrus => SyntaxKind::WALRUS,
        TokKind::Dollar => SyntaxKind::DOLLAR,
        TokKind::At => SyntaxKind::AT,
        TokKind::Semicolon => SyntaxKind::SEMICOLON,
        TokKind::Comma => SyntaxKind::COMMA,
        TokKind::Or => SyntaxKind::OR,
        TokKind::Or2 => SyntaxKind::OR2,
        TokKind::And => SyntaxKind::AND,
        TokKind::And2 => SyntaxKind::AND2,
        TokKind::Equal2 => SyntaxKind::EQUAL2,
        TokKind::NotEqual => SyntaxKind::NOT_EQUAL,
        TokKind::Bang => SyntaxKind::BANG,
        TokKind::LessThan => SyntaxKind::LESS_THAN,
        TokKind::LessThanOrEqual => SyntaxKind::LESS_THAN_OR_EQUAL,
        TokKind::GreaterThan => SyntaxKind::GREATER_THAN,
        TokKind::GreaterThanOrEqual => SyntaxKind::GREATER_THAN_OR_EQUAL,
        TokKind::LParen => SyntaxKind::LPAREN,
        TokKind::RParen => SyntaxKind::RPAREN,
        TokKind::IfKw => SyntaxKind::IF_KW,
        TokKind::ElseKw => SyntaxKind::ELSE_KW,
        TokKind::ForKw => SyntaxKind::FOR_KW,
        TokKind::WhileKw => SyntaxKind::WHILE_KW,
        TokKind::RepeatKw => SyntaxKind::REPEAT_KW,
        TokKind::FunctionKw => SyntaxKind::FUNCTION_KW,
        TokKind::LambdaFn => SyntaxKind::LAMBDA_FN,
        TokKind::InKw => SyntaxKind::IN_KW,
        TokKind::LBrace => SyntaxKind::LBRACE,
        TokKind::RBrace => SyntaxKind::RBRACE,
        TokKind::AssignLeft => SyntaxKind::ASSIGN_LEFT,
        TokKind::SuperAssign => SyntaxKind::SUPER_ASSIGN,
        TokKind::AssignRight => SyntaxKind::ASSIGN_RIGHT,
        TokKind::SuperAssignRight => SyntaxKind::SUPER_ASSIGN_RIGHT,
        TokKind::AssignEq => SyntaxKind::ASSIGN_EQ,
        TokKind::Whitespace => SyntaxKind::WHITESPACE,
        TokKind::Newline => SyntaxKind::NEWLINE,
        TokKind::Unknown => SyntaxKind::ERROR,
    }
}

/// The leaf for a token: its syntax kind and its text.
pub(crate) fn push_token(tok: &Token) -> (r: SyntaxElement)
    ensures
        r matches SyntaxElement::Token(t) && t.kind == leaf_kind(tok.kind),
        element_text(r) == tok.text@,
        element_leaves(r) == seq![(leaf_kind(tok.kind), tok.text@)],
{
    SyntaxElement::Token(SyntaxToken { kind: syntax_kind_of(tok.kind), text: tok.text.clone() })
}

/// Close the innermost open frame into a node of its kind, appended to its parent.
fn close_frame(kinds: &mut Vec<SyntaxKind>, frames: &mut Vec<Vec<SyntaxElement>>)
    requires
        old(kinds)@.len() == old(frames)@.len(),
        old(frames)@.len() > 1,
    ensures
        final(kinds)@.len() == final(frames)@.len(),
        final(frames)@.len() == old(frames)@.len() - 1,
        final(kinds)@[0] == old(kinds)@[0],
        frames_text(final(frames)@) == frames_text(old(frames)@),
        frames_leaves(final(frames)@) == frames_leaves(old(frames)@),
{
    let ghost f0 = frames@;
    let children = frames.pop().unwrap();
    let kind = kinds.pop().unwrap();
    let mut parent = frames.pop().unwrap();
    let ghost p0 = parent@;
    let node = SyntaxElement::Node(SyntaxNode { kind, children });
    parent.push(node);
    frames.push(parent);
    proof {
        lemma_children_text_push(p0, node);
        lemma_children_leaves_push(p0, node);
        let pre = f0.drop_last().drop_last();
        assert(frames@.drop_last() =~= pre);
        assert(f0.drop_last().drop_last() == pre);
        reveal_with_fuel(frames_text, 2);
        reveal_with_fuel(frames_leaves, 2);
        assert(frames_leaves(frames@) =~= frames_leaves(f0));
    }
}

/// A token of kind `k` separates lines or words: a blank, a newline or a
/// semicolon.
pub open spec fn separator_tok(k: TokKind) -> bool {
    k == TokKind::Whitespace || k == TokKind::Newline || k == TokKind::Semicolon
}

/// Every event names a separator token of `tokens`.
pub open spec fn separator_events(tokens: Seq<Token>, events: Seq<Event>) -> bool {
    forall|e: int|
        0 <= e < events.len() ==> (#[trigger] events[e] matches Event::Tok(i) && i < tokens.len()
            && separator_tok(tokens[i as int].kind))
}

/// Every event names a token of `tokens`.
pub open spec fn flat_events(tokens: Seq<Token>, events: Seq<Event>) -> bool {
    forall|e: int| 0 <= e < events.len() ==> (#[trigger] events[e] matches Event::Tok(i) && i < tokens.len())
}

/// `e` is the leaf made from `tok`.
pub open spec fn leaf_of(e: SyntaxElement, tok: Token) -> bool {
    e matches SyntaxElement::Token(t) && t.kind == leaf_kind(tok.kind) && t.text@ == tok.text@
}

/// Build the tree of `events` over `tokens` under a `ROOT` node. Its text is
/// the text of the tokens that the events name, in order.
pub(crate) fn build_tree(tokens: &[Token], events: &[Event]) -> (root: SyntaxNode)
    ensures
        root.kind == SyntaxKind::ROOT,
        node_text(root) == tokens_text(tokens@, tok_seq(events@)),
        node_leaves(root) == tokens_leaves(tokens@, tok_seq(events@)),
        events@.len() == 0 ==> root.children@.len() == 0,
        separator_events(tokens@, events@) ==> forall|j: int|
            0 <= j < root.children@.len() ==> crate::formatter::trivia::separator(#[trigger] root.children@[j]),
        flat_events(tokens@, events@) ==> root.children@.len() == events@.len() && forall|j: int|
            0 <= j < events@.len() ==> #[trigger] leaf_of(root.children@[j], tokens@[events@[j]->Tok_0 as int]),
{
    let mut kinds: Vec<SyntaxKind> = Vec::new();
    let mut frames: Vec<Vec<SyntaxElement>> = Vec::new();
    kinds.push(SyntaxKind::ROOT);
    frames.push(Vec::new());
    proof {
        assert(frames@.drop_last() =~= Seq::<Vec<SyntaxElement>>::empty());
        reveal_with_fuel(frames_text, 2);
        reveal_with_fuel(frames_leaves, 2);
        assert(frames_text(frames@) =~= Seq::<char>::empty());
        assert(frames_leaves(frames@) =~= Seq::<(SyntaxKind, Seq<char>)>::empty());
        assert(tokens_leaves(tokens@, tok_seq(events@.take(0))) =~= Seq::<(SyntaxKind, Seq<char>)>::empty()) by {
            assert(events@.take(0) =~= Seq::<Event>::empty());
        }
        assert(tokens_text(tokens@, tok_seq(events@.take(0))) =~= Seq::<char>::empty()) by {
            assert(events@.take(0) =~= Seq::<Event>::empty());
        }
    }
    let mut e: usize = 0;
    while e < events.len()
        invariant
            e <= events@.len(),
            kinds@.len() == frames@.len(),
            frames@.len() >= 1,
            kinds@[0] == SyntaxKind::ROOT,
            frames_text(frames@) == tokens_text(tokens@, tok_seq(events@.take(e as int))),
            frames_leaves(frames@) == tokens_leaves(tokens@, tok_seq(events@.take(e as int))),
            events@.len() == 0 ==> frames@.len() == 1 && frames@[0]@.len() == 0,
            separator_events(tokens@, events@) ==> frames@.len() == 1 && forall|j: int|
                0 <= j < frames@[0]@.len() ==> crate::formatter::trivia::separator(#[trigger] frames@[0]@[j]),
            flat_events(tokens@, events@) ==> frames@.len() == 1 && frames@[0]@.len() == e && forall|j: int|
                0 <= j < e ==> #[trigger] leaf_of(frames@[0]@[j], tokens@[events@[j]->Tok_0 as int]),
        decreases events@.len() - e,
    {
        let ghost before = frames_text(frames@);
        proof {
            assert(events@.take(e + 1).drop_last() =~= events@.take(e as int));
            assert(events@.take(e + 1).last() == events@[e as int]);
        }
        match events[e] {
            Event::Start(kind) => {
                let ghost f0 = frames@;
                kinds.push(kind);
                frames.push(Vec::new());
                proof {
                    assert(frames@.drop_last() =~= f0);
                    assert(children_text(Seq::<SyntaxElement>::empty()) =~= Seq::<char>::empty());
                    assert(frames_text(frames@) =~= frames_text(f0));
                    assert(children_leaves(Seq::<SyntaxElement>::empty()) =~= Seq::<(SyntaxKind, Seq<char>)>::empty());
                    assert(frames_leaves(frames@) =~= frames_leaves(f0));
                    assert(tok_seq(events@.take(e + 1)) =~= tok_seq(events@.take(e as int)));
                }
            },
            Event::Tok(idx) => {
                if idx < tokens.len() {
                    let ghost f0 = frames@;
                    let mut top = frames.pop().unwrap();
                    let ghost t0 = top@;
                    let leaf = push_token(&tokens[idx]);
                    top.push(leaf);
                    frames.push(top);
                    proof {
                        lemma_children_text_push(t0, leaf);
                        lemma_children_leaves_push(t0, leaf);
                        assert(frames@.drop_last() =~= f0.drop_last());
                        assert(frames_leaves(frames@) =~= frames_leaves(f0) + element_leaves(leaf));
                    }
                }
                proof {
                    assert(tok_seq(events@.take(e + 1)) =~= tok_seq(events@.take(e as int)).push(
                        idx as int,
                    ));
                    assert(tok_seq(events@.take(e as int)).push(idx as int).drop_last() =~= tok_seq(
                        events@.take(e as int),
                    ));
                }
            },
            Event::Finish => {
                if frames.len() > 1 {
                    close_frame(&mut kinds, &mut frames);
                }
                proof {
                    assert(tok_seq(events@.take(e + 1)) =~= tok_seq(events@.take(e as int)));
                }
            },
        }
        e += 1;
    }
    proof {
        assert(events@.take(events@.len() as int) =~= events@);
    }
    while frames.len() > 1
        invariant
            kinds@.len() == frames@.len(),
            frames@.len() >= 1,
            kinds@[0] == SyntaxKind::ROOT,
            frames_text(frames@) == tokens_text(tokens@, tok_seq(events@)),
            frames_leaves(frames@) == tokens_leaves(tokens@, tok_seq(events@)),
            events@.len() == 0 ==> frames@.len() == 1 && frames@[0]@.len() == 0,
            separator_events(tokens@, events@) ==> frames@.len() == 1 && forall|j: int|
                0 <= j < frames@[0]@.len() ==> crate::formatter::trivia::separator(#[trigger] frames@[0]@[j]),
            flat_events(tokens@, events@) ==> frames@.len() == 1 && frames@[0]@.len() == events@.len()
                && forall|j: int|
                0 <= j < events@.len() ==> #[trigger] leaf_of(frames@[0]@[j], tokens@[events@[j]->Tok_0 as int]),
        decreases frames@.len(),
    {
        close_frame(&mut kinds, &mut frames);
    }
    let ghost f0 = frames@;
    let children = frames.pop().unwrap();
    proof {
        assert(f0.drop_last() =~= Seq::<Vec<SyntaxElement>>::empty());
        reveal_with_fuel(frames_text, 2);
        reveal_with_fuel(frames_leaves, 2);
        assert(frames_text(f0) =~= children_text(children@));
        assert(frames_leaves(f0) =~= children_leaves(children@));
    }
    SyntaxNode { kind: SyntaxKind::ROOT, children }
}

} // verus!
