//! Parser events: the flat instruction stream (`start node`, `token`,
//! `finish node`) that the tree builder turns into a syntax tree.

use vstd::prelude::*;

use crate::syntax::SyntaxKind;

verus! {

#[derive(Debug, Clone, Copy, PartialEq, Eq)]
pub enum Event {
    Start(SyntaxKind),
    Tok(usize),
    Finish,
}

/// A parsed expression: the token range `start..end` it covers and its events.
#[derive(Debug)]
pub struct ExprParse {
    pub start: usize,
    pub end: usize,
    pub events: Vec<Event>,
}

/// The token indices referenced by `evs`, in order.
pub open spec fn tok_seq(evs: Seq<Event>) -> Seq<int>
    decreases evs.len(),
{
    if evs.len() == 0 {
        seq![]
    } else {
        tok_seq(evs.drop_last()) + match evs.last() {
            Event::Tok(i) => seq![i as int],
            _ => seq![],
        }
    }
}

/// Every event names a token.
pub open spec fn tok_events(evs: Seq<Event>) -> bool {
    forall|e: int| 0 <= e < evs.len() ==> #[trigger] evs[e] is Tok
}

/// Of events that all name tokens, `tok_seq` lists those tokens one by one.
pub proof fn lemma_tok_seq_all_tok(evs: Seq<Event>)
    requires
        tok_events(evs),
    ensures
        tok_seq(evs).len() == evs.len(),
        forall|j: int| 0 <= j < evs.len() ==> #[trigger] tok_seq(evs)[j] == evs[j]->Tok_0 as int,
    decreases evs.len(),
{
    if evs.len() > 0 {
        let p = evs.drop_last();
        assert(tok_events(p)) by {
            assert forall|e: int| 0 <= e < p.len() implies #[trigger] p[e] is Tok by {
                assert(p[e] == evs[e]);
            }
        }
        lemma_tok_seq_all_tok(p);
        assert(evs[evs.len() - 1] is Tok);
        assert forall|j: int| 0 <= j < evs.len() implies #[trigger] tok_seq(evs)[j] == evs[j]->Tok_0 as int by {
            if j < evs.len() - 1 {
                assert(p[j] == evs[j]);
            }
        }
    }
}

/// The integers `a, a + 1, ..., b - 1`.
pub open spec fn range_seq(a: int, b: int) -> Seq<int> {
    Seq::new(if a <= b { (b - a) as nat } else { 0 }, |k: int| a + k)
}

/// `p` spans a nonempty token range that starts no earlier than `from` and
/// ends within the `n` tokens.
pub open spec fn parsed(p: ExprParse, from: int, n: int) -> bool {
    from <= p.start < p.end <= n
}

pub broadcast proof fn lemma_range_cat(a: int, b: int, c: int)
    requires
        a <= b <= c,
    ensures
        #[trigger] (range_seq(a, b) + range_seq(b, c)) == range_seq(a, c),
{
    assert(range_seq(a, b) + range_seq(b, c) =~= range_seq(a, c));
}

pub broadcast proof fn lemma_range_push(a: int, b: int)
    requires
        a <= b,
    ensures
        #[trigger] range_seq(a, b).push(b) == range_seq(a, b + 1),
{
    assert(range_seq(a, b).push(b) =~= range_seq(a, b + 1));
}

pub broadcast proof fn lemma_tok_seq_empty(x: Seq<int>)
    ensures
        #[trigger] (tok_seq(Seq::<Event>::empty()) + x) == x,
{
    assert(tok_seq(Seq::<Event>::empty()) + x =~= x);
}

pub broadcast proof fn lemma_tok_seq_single(i: int)
    ensures
        #[trigger] tok_seq(Seq::<Event>::empty()).push(i) == range_seq(i, i + 1),
{
    assert(tok_seq(Seq::<Event>::empty()).push(i) =~= range_seq(i, i + 1));
}

pub proof fn lemma_range_empty(a: int)
    ensures
        range_seq(a, a) == Seq::<int>::empty(),
{
    assert(range_seq(a, a) =~= Seq::<int>::empty());
}

pub broadcast proof fn lemma_tok_seq_append(a: Seq<Event>, b: Seq<Event>)
    ensures
        #[trigger] tok_seq(a + b) == tok_seq(a) + tok_seq(b),
    decreases b.len(),
{
    if b.len() == 0 {
        assert(a + b =~= a);
        assert(tok_seq(a) + seq![] =~= tok_seq(a));
    } else {
        assert((a + b).drop_last() =~= a + b.drop_last());
        lemma_tok_seq_append(a, b.drop_last());
        assert(tok_seq(a + b) =~= tok_seq(a) + tok_seq(b));
    }
}

pub(crate) fn push_tok(events: &mut Vec<Event>, i: usize)
    ensures
        tok_seq(final(events)@) == tok_seq(old(events)@).push(i as int),
        final(events)@ == old(events)@.push(Event::Tok(i)),
{
    let ghost prev = events@;
    events.push(Event::Tok(i));
    proof {
        assert(events@.drop_last() =~= prev);
    }
}

pub(crate) fn push_start(events: &mut Vec<Event>, kind: SyntaxKind)
    ensures
        final(events)@ == old(events)@.push(Event::Start(kind)),
        tok_seq(final(events)@) == tok_seq(old(events)@),
{
    let ghost prev = events@;
    events.push(Event::Start(kind));
    proof {
        assert(events@.drop_last() =~= prev);
        assert(tok_seq(events@) =~= tok_seq(prev));
    }
}

pub(crate) fn push_finish(events: &mut Vec<Event>)
    ensures
        final(events)@ == old(events)@.push(Event::Finish),
        tok_seq(final(events)@) == tok_seq(old(events)@),
{
    let ghost prev = events@;
    events.push(Event::Finish);
    proof {
        assert(events@.drop_last() =~= prev);
        assert(tok_seq(events@) =~= tok_seq(prev));
    }
}

/// Push `Tok(idx)` for every `idx` in `start..end`.
pub(crate) fn push_range(events: &mut Vec<Event>, start: usize, end: usize)
    ensures
        tok_seq(final(events)@) == tok_seq(old(events)@) + range_seq(start as int, end as int),
{
    let mut idx = start;
    proof {
        lemma_range_empty(start as int);
        assert(tok_seq(events@) + range_seq(start as int, start as int) =~= tok_seq(events@));
    }
    if start >= end {
        assert(range_seq(start as int, end as int) =~= Seq::<int>::empty());
        assert(tok_seq(events@) + range_seq(start as int, end as int) =~= tok_seq(events@));
        return;
    }
    while idx < end
        invariant
            start <= idx <= end,
            tok_seq(events@) == tok_seq(old(events)@) + range_seq(start as int, idx as int),
        decreases end - idx,
    {
        push_tok(events, idx);
        proof {
            assert(range_seq(start as int, idx as int).push(idx as int) =~= range_seq(
                start as int,
                idx + 1,
            ));
            assert(tok_seq(events@) =~= tok_seq(old(events)@) + range_seq(start as int, idx + 1));
        }
        idx += 1;
    }
}

/// Append all of `other` to `events`.
pub(crate) fn append_events(events: &mut Vec<Event>, other: Vec<Event>)
    ensures
        tok_seq(final(events)@) == tok_seq(old(events)@) + tok_seq(other@),
        final(events)@ == old(events)@ + other@,
{
    let mut other = other;
    let ghost o = other@;
    let ghost e0 = events@;
    events.append(&mut other);
    proof {
        assert(events@ =~= e0 + o);
        lemma_tok_seq_append(e0, o);
    }
}

} // verus!
