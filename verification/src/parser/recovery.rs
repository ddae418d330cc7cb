//! Error recovery: error nodes that keep the tree shape stable after a
//! syntax error.

use vstd::prelude::*;

use crate::parser::cursor::consume_to_line_end;
use crate::parser::events::{
    Event, ExprParse, lemma_range_cat, parsed, push_finish, push_range, push_start, range_seq, tok_seq,
};
use crate::parser::lexer::Token;
use crate::syntax::SyntaxKind;

verus! {

broadcast use lemma_range_cat;

/// An `ERROR` node holding the tokens from `start` to the end of the line
/// that contains `from` (its newline included).
pub(crate) fn error_expr_to_line_end(tokens: &[Token], start: usize, from: usize) -> (r: ExprParse)
    requires
        start < from <= tokens@.len(),
    ensures
        parsed(r, start as int, tokens@.len() as int),
        tok_seq(r.events@) == range_seq(r.start as int, r.end as int),
        r.start == start,
        r.end >= from,
{
    let end = consume_to_line_end(tokens, from);
    let mut events: Vec<Event> = Vec::new();
    push_start(&mut events, SyntaxKind::ERROR);
    push_range(&mut events, start, end);
    push_finish(&mut events);
    proof {
        assert(tok_seq(Seq::<Event>::empty()) =~= Seq::<int>::empty());
        assert(Seq::<int>::empty() + range_seq(start as int, end as int) =~= range_seq(
            start as int,
            end as int,
        ));
    }
    ExprParse { start, end, events }
}

/// An empty `ERROR` node standing for a missing piece.
pub(crate) fn push_empty_error_node(events: &mut Vec<Event>)
    ensures
        final(events)@ == old(events)@.push(Event::Start(SyntaxKind::ERROR)).push(Event::Finish),
        tok_seq(final(events)@) == tok_seq(old(events)@),
{
    push_start(events, SyntaxKind::ERROR);
    push_finish(events);
}

} // verus!
