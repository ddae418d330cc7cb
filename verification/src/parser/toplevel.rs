//! The parser entry points: source text to a lossless syntax tree.

use vstd::prelude::*;

use crate::parser::diagnostics::ParseDiagnostic;
use crate::parser::events::{
    Event, append_events, lemma_range_cat, lemma_range_push, push_tok, range_seq, tok_seq,
};
use crate::parser::expr::parse_expr;
use crate::parser::lexer::{Token, concat_text, lemma_tiles_concat, lex, lexes_to};
use crate::parser::tree_builder::{build_tree, leaf_kind, tokens_leaves, tokens_text};
use crate::syntax::{SyntaxKind, SyntaxNode, TokKind, node_leaves, node_text};

verus! {

broadcast use lemma_range_cat, lemma_range_push;

/// The result of parsing: the concrete syntax tree and the diagnostics.
#[derive(Debug)]
pub struct ParseOutput {
    pub cst: SyntaxNode,
    pub diagnostics: Vec<ParseDiagnostic>,
}

/// The tokens named by `0..n`, in order, spell the first `n` tokens.
pub proof fn lemma_tokens_text_range(tokens: Seq<Token>, n: int)
    requires
        0 <= n <= tokens.len(),
    ensures
        tokens_text(tokens, range_seq(0, n)) == concat_text(tokens.take(n)),
    decreases n,
{
    if n == 0 {
        assert(range_seq(0, 0) =~= Seq::<int>::empty());
        assert(tokens.take(0) =~= Seq::<Token>::empty());
    } else {
        lemma_tokens_text_range(tokens, n - 1);
        assert(range_seq(0, n).drop_last() =~= range_seq(0, n - 1));
        assert(tokens.take(n).drop_last() =~= tokens.take(n - 1));
    }
}

/// The leaves made from `toks`, in order.
pub open spec fn token_leaves(toks: Seq<Token>) -> Seq<(SyntaxKind, Seq<char>)>
    decreases toks.len(),
{
    if toks.len() == 0 {
        seq![]
    } else {
        token_leaves(toks.drop_last()) + seq![(leaf_kind(toks.last().kind), toks.last().text@)]
    }
}

/// The leaves made from the tokens named by `0..n` are those of the first
/// `n` tokens.
pub proof fn lemma_tokens_leaves_range(tokens: Seq<Token>, n: int)
    requires
        0 <= n <= tokens.len(),
    ensures
        tokens_leaves(tokens, range_seq(0, n)) == token_leaves(tokens.take(n)),
    decreases n,
{
    if n == 0 {
        assert(range_seq(0, 0) =~= Seq::<int>::empty());
        assert(tokens.take(0) =~= Seq::<Token>::empty());
    } else {
        lemma_tokens_leaves_range(tokens, n - 1);
        assert(range_seq(0, n).drop_last() =~= range_seq(0, n - 1));
        assert(tokens.take(n).drop_last() =~= tokens.take(n - 1));
    }
}

/// Parse `text` into a syntax tree rooted at `ROOT`. The tree is lossless:
/// its leaves, read in order, spell `text` exactly, whether or not the
/// parser reported diagnostics. Its leaves are the tokens of `text`, as
/// the lexer's rules determine them, in order.
/// The tokens of `text` are all blanks, newlines and semicolons.
pub open spec fn blank_input(text: Seq<char>) -> bool {
    exists|toks: Seq<Token>|
        #[trigger] lexes_to(text, toks) && forall|k: int|
            0 <= k < toks.len() ==> crate::parser::tree_builder::separator_tok(#[trigger] toks[k].kind)
}

/// The token at `a` of `toks` is a name and every other token is a blank,
/// a newline or a semicolon.
pub open spec fn lone_name_tokens(toks: Seq<Token>, a: int) -> bool {
    &&& 0 <= a < toks.len()
    &&& toks[a].kind == TokKind::Ident
    &&& forall|k: int|
        0 <= k < toks.len() && k != a ==> crate::parser::tree_builder::separator_tok(#[trigger] toks[k].kind)
}

/// Child `q` of `cs` is a name token and every other child a blank, a
/// newline or a semicolon.
pub open spec fn lone_name_child(cs: Seq<crate::syntax::SyntaxElement>, q: int) -> bool {
    &&& 0 <= q < cs.len()
    &&& cs[q] matches crate::syntax::SyntaxElement::Token(t) && t.kind == SyntaxKind::IDENT
    &&& forall|j: int| 0 <= j < cs.len() && j != q ==> crate::formatter::trivia::separator(#[trigger] cs[j])
}

proof fn lemma_skip_end_range(t: Seq<Token>, i: int, allow: bool)
    requires
        0 <= i <= t.len(),
    ensures
        i <= crate::parser::expr::skip_end(t, i, allow) <= t.len(),
    decreases t.len() - i,
{
    if i < t.len() && crate::parser::expr::skippable(t[i].kind, allow) {
        lemma_skip_end_range(t, i + 1, allow);
    }
}

/// A name followed only by blanks, newlines and semicolons stands alone.
proof fn lemma_lone_name_at(toks: Seq<Token>, a: int)
    requires
        lone_name_tokens(toks, a),
    ensures
        crate::parser::expr::lone_name_at(toks, a),
        crate::parser::expr::skip_end(toks, a, false) == a,
{
    lemma_skip_end_range(toks, a + 1, false);
    lemma_skip_end_range(toks, a + 1, true);
    let j = crate::parser::expr::skip_end(toks, a + 1, false);
    let m = crate::parser::expr::skip_end(toks, a + 1, true);
    if j < toks.len() {
        assert(crate::parser::tree_builder::separator_tok(toks[j].kind));
    }
    if m < toks.len() {
        assert(crate::parser::tree_builder::separator_tok(toks[m].kind));
    }
}

/// What the parse of `text` is stated to be: a tree rooted at `ROOT` that
/// spells `text`, whose leaves are the tokens of `text`; the empty text has
/// no children and no diagnostics.
pub open spec fn parses_to(text: Seq<char>, out: ParseOutput) -> bool {
    &&& out.cst.kind == SyntaxKind::ROOT
    &&& node_text(out.cst) == text
    &&& exists|toks: Seq<Token>|
        #![trigger token_leaves(toks)]
        lexes_to(text, toks) && node_leaves(out.cst) == token_leaves(toks)
    &&& text.len() == 0 ==> out.diagnostics@.len() == 0 && out.cst.children@.len() == 0
    &&& blank_input(text) ==> out.diagnostics@.len() == 0 && forall|j: int|
        0 <= j < out.cst.children@.len() ==> crate::formatter::trivia::separator(
            #[trigger] out.cst.children@[j],
        )
    &&& forall|toks: Seq<Token>, a: int|
        lexes_to(text, toks) && #[trigger] lone_name_tokens(toks, a) ==> out.diagnostics@.len() == 0
            && lone_name_child(out.cst.children@, a) && out.cst.children@[a]->Token_0.text@ == toks[a].text@
}

/// The name among the tokens of `text` that are otherwise separators is
/// the same, whichever lexing of `text` is taken.
proof fn lemma_lone_name_same(text: Seq<char>, toks: Seq<Token>, other: Seq<Token>, a: int)
    requires
        lexes_to(text, toks),
        lexes_to(text, other),
        lone_name_tokens(other, a),
    ensures
        lone_name_tokens(toks, a),
        toks[a].text@ == other[a].text@,
{
    crate::parser::lexer::law_lexing_is_determined(other, toks, text);
    assert forall|k: int| 0 <= k < toks.len() && k != a implies crate::parser::tree_builder::separator_tok(
        #[trigger] toks[k].kind,
    ) by {
        assert(crate::parser::tree_builder::separator_tok(other[k].kind));
    }
}

/// Children built one per token, from tokens that are separators but for a
/// name at `a`, are separators but for that name.
proof fn lemma_lone_children(
    toks: Seq<Token>,
    events: Seq<Event>,
    cs: Seq<crate::syntax::SyntaxElement>,
    a: int,
)
    requires
        lone_name_tokens(toks, a),
        crate::parser::events::tok_events(events),
        tok_seq(events) == range_seq(0, toks.len() as int),
        cs.len() == events.len(),
        forall|j: int|
            0 <= j < events.len() ==> #[trigger] crate::parser::tree_builder::leaf_of(
                cs[j],
                toks[events[j]->Tok_0 as int],
            ),
    ensures
        lone_name_child(cs, a),
        cs[a]->Token_0.text@ == toks[a].text@,
{
    crate::parser::events::lemma_tok_seq_all_tok(events);
    assert forall|j: int| 0 <= j < events.len() implies events[j]->Tok_0 as int == j by {
        assert(tok_seq(events)[j] == events[j]->Tok_0 as int);
    }
    assert(crate::parser::tree_builder::leaf_of(cs[a], toks[events[a]->Tok_0 as int]));
    assert forall|j: int| 0 <= j < cs.len() && j != a implies crate::formatter::trivia::separator(
        #[trigger] cs[j],
    ) by {
        assert(crate::parser::tree_builder::leaf_of(cs[j], toks[events[j]->Tok_0 as int]));
        assert(crate::parser::tree_builder::separator_tok(toks[j].kind));
    }
}

#[verifier::rlimit(60)]
pub fn parse(text: &str) -> (out: ParseOutput)
    ensures
        parses_to(text@, out),
        out.cst.kind == SyntaxKind::ROOT,
        node_text(out.cst) == text@,
        exists|toks: Seq<Token>|
            #![trigger token_leaves(toks)]
            lexes_to(text@, toks) && node_leaves(out.cst) == token_leaves(toks),
        text@.len() == 0 ==> out.diagnostics@.len() == 0 && out.cst.children@.len() == 0,
{
    let tokens = lex(text);
    let toks = tokens.as_slice();
    let ghost blank = forall|k: int|
        0 <= k < tokens@.len() ==> crate::parser::tree_builder::separator_tok(#[trigger] tokens@[k].kind);
    proof {
        if blank_input(text@) {
            let other = choose|o: Seq<Token>|
                #[trigger] lexes_to(text@, o) && forall|k: int|
                    0 <= k < o.len() ==> crate::parser::tree_builder::separator_tok(#[trigger] o[k].kind);
            crate::parser::lexer::law_lexing_is_determined(other, tokens@, text@);
            assert forall|k: int| 0 <= k < tokens@.len() implies crate::parser::tree_builder::separator_tok(
                #[trigger] tokens@[k].kind,
            ) by {
                assert(crate::parser::tree_builder::separator_tok(other[k].kind));
            }
        }
    }
    let ghost lone = exists|a: int| #[trigger] lone_name_tokens(tokens@, a);
    let ghost la: int = if lone {
        choose|a: int| #[trigger] lone_name_tokens(tokens@, a)
    } else {
        0
    };
    proof {
        if lone {
            lemma_lone_name_at(tokens@, la);
        }
    }
    let len = toks.len();
    let mut diagnostics: Vec<ParseDiagnostic> = Vec::new();
    let mut root_events: Vec<Event> = Vec::new();
    let mut i: usize = 0;
    proof {
        assert(tok_seq(root_events@) =~= range_seq(0, 0));
    }
    while i < len
        invariant
            i <= len,
            len == toks@.len(),
            toks@ == tokens@,
            tok_seq(root_events@) == range_seq(0, i as int),
            len == 0 ==> root_events@.len() == 0 && diagnostics@.len() == 0,
            blank == forall|k: int|
                0 <= k < tokens@.len() ==> crate::parser::tree_builder::separator_tok(#[trigger] tokens@[k].kind),
            blank ==> diagnostics@.len() == 0 && crate::parser::tree_builder::separator_events(
                toks@,
                root_events@,
            ),
            lone ==> lone_name_tokens(tokens@, la) && crate::parser::expr::lone_name_at(tokens@, la)
                && crate::parser::expr::skip_end(tokens@, la, false) == la,
            lone ==> diagnostics@.len() == 0 && crate::parser::events::tok_events(root_events@)
                && crate::parser::tree_builder::flat_events(toks@, root_events@),
        decreases len - i,
    {
        let kind = toks[i].kind;
        if kind == TokKind::Whitespace || kind == TokKind::Newline || kind == TokKind::Semicolon {
            push_tok(&mut root_events, i);
            i += 1;
            continue ;
        }
        match parse_expr(toks, i, 0, &mut diagnostics) {
            Some(expr) => {
                let end = expr.end;
                assert(expr.start == i) by {
                    if expr.start > i {
                        assert(crate::parser::expr::skippable(toks@[i as int].kind, false));
                    }
                }
                append_events(&mut root_events, expr.events);
                i = end;
            },
            None => {
                push_tok(&mut root_events, i);
                i += 1;
            },
        }
    }
    let cst = build_tree(toks, root_events.as_slice());
    proof {
        lemma_tokens_text_range(tokens@, len as int);
        lemma_tokens_leaves_range(tokens@, len as int);
        assert(tokens@.take(len as int) =~= tokens@);
        assert(node_leaves(cst) == token_leaves(tokens@));
        lemma_tiles_concat(tokens@, text@, text@.len() as int);
        assert(text@.subrange(0, text@.len() as int) =~= text@);
        assert forall|other: Seq<Token>, a: int|
            lexes_to(text@, other) && #[trigger] lone_name_tokens(other, a) implies diagnostics@.len() == 0
                && lone_name_child(cst.children@, a) && cst.children@[a]->Token_0.text@
                == other[a].text@ by {
            lemma_lone_name_same(text@, tokens@, other, a);
            assert(lone);
            if la != a {
                assert(crate::parser::tree_builder::separator_tok(tokens@[a].kind));
            }
            lemma_lone_children(tokens@, root_events@, cst.children@, a);
        }
    }
    ParseOutput { cst, diagnostics }
}

/// The text of the syntax tree of `text`, which is `text` itself.
pub fn reconstruct(text: &str) -> (r: String)
    ensures
        r@ == text@,
{
    parse(text).cst.text()
}

} // verus!
