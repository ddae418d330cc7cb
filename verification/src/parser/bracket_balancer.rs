//! Re-tokenization of runs of `]` so that each close matches the open bracket
//! on the bracket stack.
//!
//! The lexer merges `]]` into one token greedily, but `]]` can close one `[[`
//! or two `[`s (as in `df[df$col > 7, map[names(df)]]`). This pass tracks the
//! open brackets, gathers each maximal run of adjacent close tokens and emits
//! it again as `]` / `]]` tokens according to the stack.

use vstd::prelude::*;

use crate::parser::lexer::{
    Token, chained, concat_text, lemma_chained_append, lemma_chained_index, lemma_concat_append,
    token_shape,
};
use crate::syntax::TokKind;

verus! {

/// `n` close-bracket characters.
pub open spec fn close_chars(n: int) -> Seq<char> {
    Seq::new(n as nat, |_k: int| ']')
}

pub open spec fn has_kind(toks: Seq<Token>, k: TokKind) -> bool {
    exists|m: int| 0 <= m < toks.len() && #[trigger] toks[m].kind == k
}

/// Rebalancing only matters when some `[` and some `]]` are both present.
pub open spec fn rebalance_needed(toks: Seq<Token>) -> bool {
    has_kind(toks, TokKind::LBrack) && has_kind(toks, TokKind::RBrack2)
}

pub open spec fn is_close(k: TokKind) -> bool {
    k == TokKind::RBrack || k == TokKind::RBrack2
}

/// Rebalance runs of close brackets against the open-bracket stack.
///
/// The text is preserved: on a chain of tokens (such as the lexer's output)
/// the result is again a chain over the same positions, spelling the same
/// text. When no `[` and `]]` occur together, the tokens come back unchanged.
pub fn rebalance_brackets(tokens: Vec<Token>) -> (out: Vec<Token>)
    ensures
        tok_views(out@) == rebalanced(tok_views(tokens@)),
        !rebalance_needed(tokens@) ==> out@ == tokens@,
        chained(tokens@, 0) ==> {
            &&& chained(out@, 0)
            &&& concat_text(out@) == concat_text(tokens@)
            &&& (out@.len() == 0 <==> tokens@.len() == 0)
            &&& tokens@.len() > 0 ==> out@.last().end == tokens@.last().end
        },
{
    proof {
        lemma_needed_views(tokens@);
    }
    if !needs_rebalance(&tokens) {
        return tokens;
    }
    let ghost ok = chained(tokens@, 0);
    let ghost tv = tok_views(tokens@);
    let len = tokens.len();
    let mut out: Vec<Token> = Vec::new();
    let mut stack: Vec<TokKind> = Vec::new();
    let mut i: usize = 0;
    while i < len
        invariant
            i <= len,
            len == tokens@.len(),
            ok == chained(tokens@, 0),
            ok ==> chained(out@, 0),
            ok ==> concat_text(out@) == concat_text(tokens@.take(i as int)),
            ok ==> (out@.len() == 0 <==> i == 0),
            ok && i > 0 ==> out@.last().end == tokens@[i - 1].end,
            tv == tok_views(tokens@),
            tok_views(out@) + rebalanced_from(tv, i as int, stack@) == rebalanced_from(tv, 0, seq![]),
        decreases len - i,
    {
        proof {
            if ok {
                lemma_chained_index(tokens@, 0, i as int);
            }
        }
        let kind = tokens[i].kind;
        if kind == TokKind::LBrack || kind == TokKind::LBrack2 {
            let ghost st = stack@;
            stack.push(kind);
            let ghost prev = out@;
            out.push(tokens[i].duplicate());
            proof {
                if ok {
                    assert(out@.drop_last() =~= prev);
                    push_step(prev, out@, tokens@, i as int);
                }
                assert(tv[i as int] == tok_view(tokens@[i as int]));
                assert(tok_views(out@) =~= tok_views(prev).push(tv[i as int]));
                assert(rebalanced_from(tv, i as int, st) == seq![tv[i as int]] + rebalanced_from(
                    tv,
                    i + 1,
                    st.push(kind),
                ));
                assert(tok_views(prev) + (seq![tv[i as int]] + rebalanced_from(tv, i + 1, stack@))
                    =~= tok_views(out@) + rebalanced_from(tv, i + 1, stack@));
            }
            i += 1;
        } else if kind == TokKind::RBrack || kind == TokKind::RBrack2 {
            let run_start = tokens[i].start;
            let mut run_end = tokens[i].end;
            let mut j = i + 1;
            proof {
                if ok {
                    assert(tokens@.subrange(i as int, j as int) =~= seq![tokens@[i as int]]);
                    assert(tokens@.subrange(i as int, j as int).drop_last() =~= seq![]);
                    close_text(tokens@[i as int]);
                    let sub = tokens@.subrange(i as int, j as int);
                    assert(sub.last() == tokens@[i as int]);
                    reveal_with_fuel(concat_text, 2);
                    assert(concat_text(sub) =~= tokens@[i as int].text@);
                }
            }
            while j < len && (tokens[j].kind == TokKind::RBrack || tokens[j].kind == TokKind::RBrack2)
                && tokens[j].start == run_end
                invariant
                    i < j <= len,
                    len == tokens@.len(),
                    ok == chained(tokens@, 0),
                    run_start == tokens@[i as int].start,
                    run_end == tokens@[j - 1].end,
                    ok ==> run_start < run_end,
                    ok ==> concat_text(tokens@.subrange(i as int, j as int)) == close_chars(
                        run_end - run_start,
                    ),
                    tv == tok_views(tokens@),
                    run_of(tv, i + 1, tv[i as int].3) == run_of(tv, j as int, run_end as int),
                decreases len - j,
            {
                proof {
                    if ok {
                        lemma_chained_index(tokens@, 0, j as int);
                        close_text(tokens@[j as int]);
                        assert(tokens@.subrange(i as int, j + 1).drop_last() =~= tokens@.subrange(
                            i as int,
                            j as int,
                        ));
                        assert(close_chars(run_end - run_start) + tokens@[j as int].text@
                            =~= close_chars(tokens@[j as int].end - run_start));
                    }
                }
                proof {
                    assert(tv[j as int] == tok_view(tokens@[j as int]));
                }
                run_end = tokens[j].end;
                j += 1;
            }
            proof {
                if j < len {
                    assert(tv[j as int] == tok_view(tokens@[j as int]));
                }
                assert(run_of(tv, j as int, run_end as int) == (j as int, run_end as int));
            }
            let ghost prev = out@;
            let ghost st = stack@;
            emit_close_run(run_start, run_end, &mut stack, &mut out);
            proof {
                let e = out@.subrange(prev.len() as int, out@.len() as int);
                assert(out@ =~= prev + e);
                assert(tok_views(out@) =~= tok_views(prev) + tok_views(e));
                assert(tv[i as int] == tok_view(tokens@[i as int]));
                assert(rebalanced_from(tv, i as int, st) == close_run(st, run_start as int, run_end as int).0
                    + rebalanced_from(tv, j as int, stack@));
                assert(tok_views(prev) + (tok_views(e) + rebalanced_from(tv, j as int, stack@))
                    =~= tok_views(out@) + rebalanced_from(tv, j as int, stack@));
            }
            proof {
                if ok {
                    let e = out@.subrange(prev.len() as int, out@.len() as int);
                    assert(out@ =~= prev + e);
                    lemma_chained_append(prev, e, 0);
                    lemma_concat_append(prev, e);
                    assert(tokens@.take(j as int) =~= tokens@.take(i as int) + tokens@.subrange(
                        i as int,
                        j as int,
                    ));
                    lemma_concat_append(tokens@.take(i as int), tokens@.subrange(i as int, j as int));
                    assert(out@.last() == e.last());
                }
            }
            i = j;
        } else {
            let ghost prev = out@;
            out.push(tokens[i].duplicate());
            proof {
                if ok {
                    assert(out@.drop_last() =~= prev);
                    push_step(prev, out@, tokens@, i as int);
                }
                assert(tv[i as int] == tok_view(tokens@[i as int]));
                assert(tok_views(out@) =~= tok_views(prev).push(tv[i as int]));
                assert(rebalanced_from(tv, i as int, stack@) == seq![tv[i as int]] + rebalanced_from(
                    tv,
                    i + 1,
                    stack@,
                ));
                assert(tok_views(prev) + (seq![tv[i as int]] + rebalanced_from(tv, i + 1, stack@))
                    =~= tok_views(out@) + rebalanced_from(tv, i + 1, stack@));
            }
            i += 1;
        }
    }
    proof {
        if ok {
            assert(tokens@.take(len as int) =~= tokens@);
        }
        assert(tok_views(out@) + rebalanced_from(tv, len as int, stack@) =~= tok_views(out@));
    }
    out
}

/// Whether rebalancing matters reads the same on tokens and on their views.
proof fn lemma_needed_views(ts: Seq<Token>)
    ensures
        rebalance_needed(ts) == (has_view_kind(tok_views(ts), TokKind::LBrack) && has_view_kind(
            tok_views(ts),
            TokKind::RBrack2,
        )),
{
    let tv = tok_views(ts);
    assert forall|k: TokKind| has_kind(ts, k) == has_view_kind(tv, k) by {
        if has_kind(ts, k) {
            let m = choose|m: int| 0 <= m < ts.len() && #[trigger] ts[m].kind == k;
            assert(tv[m].0 == k);
        }
        if has_view_kind(tv, k) {
            let m = choose|m: int| 0 <= m < tv.len() && #[trigger] tv[m].0 == k;
            assert(ts[m].kind == k);
        }
    }
}

/// A close-bracket token spells as many `]` as it is long.
proof fn close_text(t: Token)
    requires
        is_close(t.kind),
        token_shape(t.kind, t.text@),
    ensures
        t.text@ == close_chars(t.text@.len() as int),
{
    assert(t.text@ =~= close_chars(t.text@.len() as int));
}

/// Copying token `i` onto the output keeps the output a chain spelling the
/// input prefix.
proof fn push_step(prev: Seq<Token>, out: Seq<Token>, tokens: Seq<Token>, i: int)
    requires
        0 <= i < tokens.len(),
        chained(tokens, 0),
        chained(prev, 0),
        concat_text(prev) == concat_text(tokens.take(i)),
        prev.len() == 0 <==> i == 0,
        i > 0 ==> prev.last().end == tokens[i - 1].end,
        out.len() == prev.len() + 1,
        out.drop_last() == prev,
        out.last().kind == tokens[i].kind,
        out.last().text@ == tokens[i].text@,
        out.last().start == tokens[i].start,
        out.last().end == tokens[i].end,
    ensures
        chained(out, 0),
        concat_text(out) == concat_text(tokens.take(i + 1)),
{
    lemma_chained_index(tokens, 0, i);
    assert(tokens.take(i + 1).drop_last() =~= tokens.take(i));
    assert(tokens.take(i + 1).last() == tokens[i]);
    if prev.len() > 0 {
        assert(out.drop_last().last() == prev.last());
    }
}

fn needs_rebalance(tokens: &Vec<Token>) -> (r: bool)
    ensures
        r == rebalance_needed(tokens@),
{
    let mut has_rb2 = false;
    let mut has_lb1 = false;
    let mut i: usize = 0;
    while i < tokens.len()
        invariant
            i <= tokens@.len(),
            has_lb1 == exists|m: int| 0 <= m < i && #[trigger] tokens@[m].kind == TokKind::LBrack,
            has_rb2 == exists|m: int| 0 <= m < i && #[trigger] tokens@[m].kind == TokKind::RBrack2,
            !(has_rb2 && has_lb1),
        decreases tokens@.len() - i,
    {
        if tokens[i].kind == TokKind::LBrack {
            has_lb1 = true;
        }
        if tokens[i].kind == TokKind::RBrack2 {
            has_rb2 = true;
        }
        if has_rb2 && has_lb1 {
            return true;
        }
        i += 1;
    }
    false
}

fn close_token(two: bool, pos: usize) -> (t: Token)
    requires
        pos + 1 <= usize::MAX,
        two ==> pos + 2 <= usize::MAX,
    ensures
        t.kind == (if two { TokKind::RBrack2 } else { TokKind::RBrack }),
        t.start == pos,
        t.end == pos + (if two { 2int } else { 1int }),
        t.text@ == close_chars(if two { 2int } else { 1int }),
        token_shape(t.kind, t.text@),
{
    if two {
        let text = String::from_str("]]");
        proof {
            reveal_strlit("]]");
            assert(text@ =~= close_chars(2));
            assert(text@ =~= seq![']', ']']);
        }
        Token { kind: TokKind::RBrack2, text, start: pos, end: pos + 2 }
    } else {
        let text = String::from_str("]");
        proof {
            reveal_strlit("]");
            assert(text@ =~= close_chars(1));
            assert(text@ =~= seq![']']);
        }
        Token { kind: TokKind::RBrack, text, start: pos, end: pos + 1 }
    }
}

/// Emit the close brackets of positions `run_start..run_end`, closing `[[`
/// with `]]` and `[` with `]` from the top of the stack; a mismatch emits a
/// stray `]`.
fn emit_close_run(run_start: usize, run_end: usize, stack: &mut Vec<TokKind>, out: &mut Vec<Token>)
    ensures
        tok_views(final(out)@.subrange(old(out)@.len() as int, final(out)@.len() as int))
            == close_run(old(stack)@, run_start as int, run_end as int).0,
        final(stack)@ == close_run(old(stack)@, run_start as int, run_end as int).1,
        final(out)@.subrange(0, old(out)@.len() as int) == old(out)@,
        final(out)@.len() >= old(out)@.len(),
        run_start < run_end ==> final(out)@.len() > old(out)@.len(),
        run_start < run_end ==> ({
            let e = final(out)@.subrange(old(out)@.len() as int, final(out)@.len() as int);
            &&& concat_text(e) == close_chars(run_end - run_start)
            &&& chained(e, run_start as int)
            &&& e.last().end == run_end
        }),
{
    let ghost base = out@.len();
    if run_start >= run_end {
        assert(out@.subrange(0, base as int) =~= out@);
        return;
    }
    let mut pos = run_start;
    proof {
        assert(out@.subrange(base as int, out@.len() as int) =~= seq![]);
        assert(close_chars(0) =~= seq![]);
    }
    while pos < run_end
        invariant
            run_start <= pos <= run_end,
            out@.len() >= base,
            out@.subrange(0, base as int) == old(out)@,
            base == old(out)@.len(),
            tok_views(out@.subrange(base as int, out@.len() as int)) + close_run(
                stack@,
                pos as int,
                run_end as int,
            ).0 == close_run(old(stack)@, run_start as int, run_end as int).0,
            close_run(stack@, pos as int, run_end as int).1 == close_run(
                old(stack)@,
                run_start as int,
                run_end as int,
            ).1,
            ({
                let e = out@.subrange(base as int, out@.len() as int);
                &&& concat_text(e) == close_chars(pos - run_start)
                &&& chained(e, run_start as int)
                &&& (e.len() == 0 <==> pos == run_start)
                &&& e.len() > 0 ==> e.last().end == pos
            }),
        decreases run_end - pos,
    {
        let n = stack.len();
        let two = n > 0 && stack[n - 1] == TokKind::LBrack2 && pos + 1 < run_end;
        let pops = n > 0 && (two || stack[n - 1] == TokKind::LBrack);
        let ghost prev = out@;
        let ghost st = stack@;
        let t = close_token(two, pos);
        let step: usize = if two {
            2
        } else {
            1
        };
        out.push(t);
        if pops {
            stack.pop();
        }
        proof {
            let e0 = prev.subrange(base as int, prev.len() as int);
            let e1 = out@.subrange(base as int, out@.len() as int);
            assert(e1.drop_last() =~= e0);
            assert(e1.last() == out@.last());
            assert(out@.subrange(0, base as int) =~= prev.subrange(0, base as int));
            assert(close_chars(pos - run_start) + close_chars(step as int) =~= close_chars(
                pos + step - run_start,
            ));
            if e0.len() > 0 {
                assert(e1.drop_last().last() == e0.last());
            }
            assert(tok_view(t) == close_view(two, pos as int));
            assert(tok_views(e1) =~= tok_views(e0).push(close_view(two, pos as int)));
            let after = if closes_pop(st, pos as int, run_end as int) {
                st.drop_last()
            } else {
                st
            };
            assert(stack@ == after);
            let rest = close_run(after, pos + step, run_end as int);
            assert(close_run(st, pos as int, run_end as int).0 == seq![close_view(two, pos as int)] + rest.0);
            assert(tok_views(e0) + (seq![close_view(two, pos as int)] + rest.0) =~= tok_views(e1) + rest.0);
        }
        pos = pos + step;
    }

}

/// A token as plain values: kind, text, start and end.
pub type TokView = (TokKind, Seq<char>, int, int);

pub open spec fn tok_view(t: Token) -> TokView {
    (t.kind, t.text@, t.start as int, t.end as int)
}

pub open spec fn tok_views(ts: Seq<Token>) -> Seq<TokView> {
    ts.map_values(|t: Token| tok_view(t))
}

/// Some token is of kind `k`.
pub open spec fn has_view_kind(ts: Seq<TokView>, k: TokKind) -> bool {
    exists|m: int| 0 <= m < ts.len() && #[trigger] ts[m].0 == k
}

/// The close token at `pos`: `]]` when `two`, otherwise `]`.
pub open spec fn close_view(two: bool, pos: int) -> TokView {
    if two {
        (TokKind::RBrack2, close_chars(2), pos, pos + 2)
    } else {
        (TokKind::RBrack, close_chars(1), pos, pos + 1)
    }
}

/// At `pos`, with the run ending at `end`: `]]` closes a `[[` on top of the
/// stack when two brackets are left.
pub open spec fn closes_two(stack: Seq<TokKind>, pos: int, end: int) -> bool {
    stack.len() > 0 && stack.last() == TokKind::LBrack2 && pos + 1 < end
}

/// The close at `pos` pops the stack: it closes a `[[` with `]]` or a `[`
/// with `]`; otherwise it is a stray `]`.
pub open spec fn closes_pop(stack: Seq<TokKind>, pos: int, end: int) -> bool {
    stack.len() > 0 && (closes_two(stack, pos, end) || stack.last() == TokKind::LBrack)
}

/// The close tokens for the bracket characters at `pos..end`, and the
/// stack after them.
pub open spec fn close_run(stack: Seq<TokKind>, pos: int, end: int) -> (Seq<TokView>, Seq<TokKind>)
    decreases end - pos,
{
    if pos >= end {
        (seq![], stack)
    } else {
        let two = closes_two(stack, pos, end);
        let after = if closes_pop(stack, pos, end) {
            stack.drop_last()
        } else {
            stack
        };
        let rest = close_run(after, pos + if two {
            2int
        } else {
            1int
        }, end);
        (seq![close_view(two, pos)] + rest.0, rest.1)
    }
}

/// From index `j`, the run of close tokens each starting where the previous
/// one ended (`run_end`): where it stops, and where its text ends.
pub open spec fn run_of(ts: Seq<TokView>, j: int, run_end: int) -> (int, int)
    decreases ts.len() - j,
{
    if 0 <= j < ts.len() && is_close(ts[j].0) && ts[j].2 == run_end {
        run_of(ts, j + 1, ts[j].3)
    } else {
        (j, run_end)
    }
}

/// The tokens from index `i` on, with the open brackets of `stack` before
/// them, rebalanced: open brackets go on the stack, each maximal run of
/// adjacent close tokens is emitted again by [`close_run`], other tokens
/// stay.
pub open spec fn rebalanced_from(ts: Seq<TokView>, i: int, stack: Seq<TokKind>) -> Seq<TokView>
    decreases ts.len() - i,
{
    if i < 0 || i >= ts.len() {
        seq![]
    } else if ts[i].0 == TokKind::LBrack || ts[i].0 == TokKind::LBrack2 {
        seq![ts[i]] + rebalanced_from(ts, i + 1, stack.push(ts[i].0))
    } else if is_close(ts[i].0) {
        let run = run_of(ts, i + 1, ts[i].3);
        let emitted = close_run(stack, ts[i].2, run.1);
        emitted.0 + if i < run.0 <= ts.len() {
            rebalanced_from(ts, run.0, emitted.1)
        } else {
            seq![]
        }
    } else {
        seq![ts[i]] + rebalanced_from(ts, i + 1, stack)
    }
}

/// What rebalancing makes of `ts`: nothing changes unless some `[` and some
/// `]]` occur.
pub open spec fn rebalanced(ts: Seq<TokView>) -> Seq<TokView> {
    if has_view_kind(ts, TokKind::LBrack) && has_view_kind(ts, TokKind::RBrack2) {
        rebalanced_from(ts, 0, seq![])
    } else {
        ts
    }
}

/// Every close token spans at least one character.
pub open spec fn closes_nonempty(ts: Seq<TokView>) -> bool {
    forall|k: int| 0 <= k < ts.len() && is_close(#[trigger] ts[k].0) ==> ts[k].2 < ts[k].3
}

/// The close tokens of `e` follow one another from `pos` to `end`.
pub open spec fn close_chain(e: Seq<TokView>, pos: int, end: int) -> bool {
    &&& e.len() > 0
    &&& e[0].2 == pos
    &&& e.last().3 == end
    &&& forall|k: int| 0 <= k < e.len() ==> is_close(#[trigger] e[k].0) && e[k].2 < e[k].3
    &&& forall|k: int| 0 < k < e.len() ==> (#[trigger] e[k]).2 == e[k - 1].3
}

proof fn lemma_close_run_chain(stack: Seq<TokKind>, pos: int, end: int)
    requires
        pos < end,
    ensures
        close_chain(close_run(stack, pos, end).0, pos, end),
    decreases end - pos,
{
    let two = closes_two(stack, pos, end);
    let after = if closes_pop(stack, pos, end) {
        stack.drop_last()
    } else {
        stack
    };
    let next = pos + if two {
        2int
    } else {
        1int
    };
    let e = close_run(stack, pos, end).0;
    let rest = close_run(after, next, end).0;
    assert(e == seq![close_view(two, pos)] + rest);
    if next < end {
        lemma_close_run_chain(after, next, end);
        assert forall|k: int| 0 <= k < e.len() implies is_close(#[trigger] e[k].0) && e[k].2
            < e[k].3 by {
            if k > 0 {
                assert(e[k] == rest[k - 1]);
            }
        }
        assert forall|k: int| 0 < k < e.len() implies (#[trigger] e[k]).2 == e[k - 1].3 by {
            assert(e[k] == rest[k - 1]);
            if k > 1 {
                assert(e[k - 1] == rest[k - 2]);
                assert(rest[k - 1].2 == rest[k - 2].3);
            } else {
                assert(e[0] == close_view(two, pos));
                assert(rest[0].2 == next);
            }
        }
    } else {
        assert(rest.len() == 0);
    }
}

proof fn lemma_run_of_bounds(ts: Seq<TokView>, j: int, run_end: int)
    requires
        0 <= j <= ts.len(),
        closes_nonempty(ts),
    ensures
        j <= run_of(ts, j, run_end).0 <= ts.len(),
        run_of(ts, j, run_end).1 >= run_end,
        ({
            let r = run_of(ts, j, run_end);
            !(0 <= r.0 < ts.len() && is_close(ts[r.0].0) && ts[r.0].2 == r.1)
        }),
        run_of(ts, j, run_end).0 > j ==> run_of(ts, j, run_end).1 == ts[run_of(ts, j, run_end).0 - 1].3,
        run_of(ts, j, run_end).0 == j ==> run_of(ts, j, run_end).1 == run_end,
    decreases ts.len() - j,
{
    if 0 <= j < ts.len() && is_close(ts[j].0) && ts[j].2 == run_end {
        lemma_run_of_bounds(ts, j + 1, ts[j].3);
    }
}

/// Rebalancing looks only forward: from index `k` it is rebalancing of the
/// tokens from `k` on.
proof fn lemma_rebalanced_shift(ts: Seq<TokView>, k: int, i: int, stack: Seq<TokKind>)
    requires
        0 <= k <= i,
        k <= ts.len(),
    ensures
        rebalanced_from(ts, i, stack) == rebalanced_from(ts.skip(k), i - k, stack),
    decreases ts.len() - i,
{
    let us = ts.skip(k);
    if i < ts.len() {
        assert(us[i - k] == ts[i]);
        if ts[i].0 == TokKind::LBrack || ts[i].0 == TokKind::LBrack2 {
            lemma_rebalanced_shift(ts, k, i + 1, stack.push(ts[i].0));
        } else if is_close(ts[i].0) {
            lemma_run_of_shift(ts, k, i + 1, ts[i].3);
            let run = run_of(ts, i + 1, ts[i].3);
            let emitted = close_run(stack, ts[i].2, run.1);
            if i < run.0 <= ts.len() {
                lemma_rebalanced_shift(ts, k, run.0, emitted.1);
            }
        } else {
            lemma_rebalanced_shift(ts, k, i + 1, stack);
        }
    }
}

proof fn lemma_run_of_shift(ts: Seq<TokView>, k: int, j: int, run_end: int)
    requires
        0 <= k <= j,
        k <= ts.len(),
    ensures
        run_of(ts, j, run_end) == (run_of(ts.skip(k), j - k, run_end).0 + k, run_of(
            ts.skip(k),
            j - k,
            run_end,
        ).1),
    decreases ts.len() - j,
{
    let us = ts.skip(k);
    if j < ts.len() {
        assert(us[j - k] == ts[j]);
        if is_close(ts[j].0) && ts[j].2 == run_end {
            lemma_run_of_shift(ts, k, j + 1, ts[j].3);
        }
    }
}



/// The first token rebalancing gives from index `j`: the token itself,
/// unless it is a close, whose run is emitted again from its start.
proof fn lemma_rebalanced_first(ts: Seq<TokView>, j: int, stack: Seq<TokKind>)
    requires
        0 <= j < ts.len(),
        closes_nonempty(ts),
    ensures
        rebalanced_from(ts, j, stack).len() > 0,
        is_close(ts[j].0) ==> is_close(rebalanced_from(ts, j, stack)[0].0) && rebalanced_from(
            ts,
            j,
            stack,
        )[0].2 == ts[j].2,
        !is_close(ts[j].0) ==> rebalanced_from(ts, j, stack)[0] == ts[j],
{
    if is_close(ts[j].0) && !(ts[j].0 == TokKind::LBrack || ts[j].0 == TokKind::LBrack2) {
        lemma_run_of_bounds(ts, j + 1, ts[j].3);
        let run = run_of(ts, j + 1, ts[j].3);
        lemma_close_run_chain(stack, ts[j].2, run.1);
    }
}

/// Over a chain of close tokens followed by something that does not
/// continue it, the run is exactly the chain.
proof fn lemma_run_over_chain(e: Seq<TokView>, rest: Seq<TokView>, m: int, pos: int, end: int)
    requires
        close_chain(e, pos, end),
        1 <= m <= e.len(),
        !(rest.len() > 0 && is_close(rest[0].0) && rest[0].2 == end),
    ensures
        run_of(e + rest, m, e[m - 1].3) == (e.len() as int, end),
    decreases e.len() - m,
{
    let x = e + rest;
    if m < e.len() {
        assert(x[m] == e[m]);
        assert(e[m].2 == e[m - 1].3);
        lemma_run_over_chain(e, rest, m + 1, pos, end);
    } else {
        if rest.len() > 0 {
            assert(x[m] == rest[0]);
        }
    }
}

/// Rebalanced tokens are already balanced: rebalancing them again, from
/// the same stack, gives them back.
proof fn lemma_rebalanced_fixed(ts: Seq<TokView>, i: int, stack: Seq<TokKind>)
    requires
        0 <= i <= ts.len(),
        closes_nonempty(ts),
    ensures
        rebalanced_from(rebalanced_from(ts, i, stack), 0, stack) == rebalanced_from(ts, i, stack),
    decreases ts.len() - i,
{
    let p = rebalanced_from(ts, i, stack);
    if i == ts.len() {
        return;
    }
    if ts[i].0 == TokKind::LBrack || ts[i].0 == TokKind::LBrack2 {
        let pushed = stack.push(ts[i].0);
        let p1 = rebalanced_from(ts, i + 1, pushed);
        lemma_rebalanced_fixed(ts, i + 1, pushed);
        assert(p == seq![ts[i]] + p1);
        assert(p[0] == ts[i]);
        lemma_rebalanced_shift(p, 1, 1, pushed);
        assert(p.skip(1) =~= p1);
    } else if is_close(ts[i].0) {
        lemma_run_of_bounds(ts, i + 1, ts[i].3);
        let run = run_of(ts, i + 1, ts[i].3);
        let j = run.0;
        let end = run.1;
        let emitted = close_run(stack, ts[i].2, end);
        let e = emitted.0;
        let s2 = emitted.1;
        lemma_close_run_chain(stack, ts[i].2, end);
        let p2 = rebalanced_from(ts, j, s2);
        assert(p == e + p2);
        if j < ts.len() {
            lemma_rebalanced_first(ts, j, s2);
        }
        lemma_run_over_chain(e, p2, 1, ts[i].2, end);
        assert(p[0] == e[0]);
        assert((e + p2)[0] == e[0]);
        lemma_rebalanced_shift(p, e.len() as int, e.len() as int, s2);
        assert(p.skip(e.len() as int) =~= p2);
        lemma_rebalanced_fixed(ts, j, s2);
    } else {
        let p1 = rebalanced_from(ts, i + 1, stack);
        lemma_rebalanced_fixed(ts, i + 1, stack);
        assert(p == seq![ts[i]] + p1);
        assert(p[0] == ts[i]);
        lemma_rebalanced_shift(p, 1, 1, stack);
        assert(p.skip(1) =~= p1);
    }
}

/// Rebalancing is idempotent: the runs of close brackets it emits are
/// already what the bracket stack asks for, so a second pass changes
/// nothing.
pub proof fn law_rebalance_idempotent(ts: Seq<TokView>)
    requires
        closes_nonempty(ts),
    ensures
        rebalanced(rebalanced(ts)) == rebalanced(ts),
{
    if has_view_kind(ts, TokKind::LBrack) && has_view_kind(ts, TokKind::RBrack2) {
        lemma_rebalanced_fixed(ts, 0, seq![]);
    }
}


/// The tokens of `ts` that are not close brackets, in order.
pub open spec fn non_close(ts: Seq<TokView>) -> Seq<TokView>
    decreases ts.len(),
{
    if ts.len() == 0 {
        seq![]
    } else {
        (if is_close(ts[0].0) {
            seq![]
        } else {
            seq![ts[0]]
        }) + non_close(ts.drop_first())
    }
}

proof fn lemma_non_close_add(a: Seq<TokView>, b: Seq<TokView>)
    ensures
        non_close(a + b) == non_close(a) + non_close(b),
    decreases a.len(),
{
    if a.len() == 0 {
        assert(a + b =~= b);
    } else {
        lemma_non_close_add(a.drop_first(), b);
        assert((a + b).drop_first() =~= a.drop_first() + b);
        assert((a + b)[0] == a[0]);
    }
}

proof fn lemma_close_run_only_closes(stack: Seq<TokKind>, pos: int, end: int)
    ensures
        non_close(close_run(stack, pos, end).0).len() == 0,
    decreases end - pos,
{
    if pos < end {
        let two = closes_two(stack, pos, end);
        let after = if closes_pop(stack, pos, end) {
            stack.drop_last()
        } else {
            stack
        };
        let next = pos + if two {
            2int
        } else {
            1int
        };
        lemma_close_run_only_closes(after, next, end);
        let rest = close_run(after, next, end).0;
        lemma_non_close_add(seq![close_view(two, pos)], rest);
        assert(seq![close_view(two, pos)].drop_first() =~= Seq::<TokView>::empty());
        assert(is_close(close_view(two, pos).0));
        let one = seq![close_view(two, pos)];
        assert(one[0] == close_view(two, pos));
        assert(non_close(one.drop_first()).len() == 0);
        assert(non_close(one).len() == 0);
        assert(close_run(stack, pos, end).0 == seq![close_view(two, pos)] + rest);
    }
}

proof fn lemma_run_all_closes(ts: Seq<TokView>, j: int, run_end: int)
    requires
        0 <= j <= ts.len(),
    ensures
        j <= run_of(ts, j, run_end).0 <= ts.len(),
        non_close(ts.subrange(j, run_of(ts, j, run_end).0)).len() == 0,
    decreases ts.len() - j,
{
    if 0 <= j < ts.len() && is_close(ts[j].0) && ts[j].2 == run_end {
        lemma_run_all_closes(ts, j + 1, ts[j].3);
        let e = run_of(ts, j + 1, ts[j].3).0;
        assert(ts.subrange(j, e).drop_first() =~= ts.subrange(j + 1, e));
    } else {
        assert(ts.subrange(j, j).len() == 0);
    }
}

proof fn lemma_rebalanced_from_keeps(ts: Seq<TokView>, i: int, stack: Seq<TokKind>)
    requires
        0 <= i <= ts.len(),
    ensures
        non_close(rebalanced_from(ts, i, stack)) == non_close(ts.subrange(i, ts.len() as int)),
    decreases ts.len() - i,
{
    if i < ts.len() {
        let rest = ts.subrange(i, ts.len() as int);
        assert(rest.drop_first() =~= ts.subrange(i + 1, ts.len() as int));
        assert(rest[0] == ts[i]);
        assert(non_close(rest) == (if is_close(ts[i].0) {
            seq![]
        } else {
            seq![ts[i]]
        }) + non_close(ts.subrange(i + 1, ts.len() as int)));
        assert(non_close(seq![ts[i]]) == (if is_close(ts[i].0) {
            seq![]
        } else {
            seq![ts[i]]
        }) + non_close(Seq::<TokView>::empty())) by {
            assert(seq![ts[i]].drop_first() =~= Seq::<TokView>::empty());
        }
        if ts[i].0 == TokKind::LBrack || ts[i].0 == TokKind::LBrack2 {
            lemma_rebalanced_from_keeps(ts, i + 1, stack.push(ts[i].0));
            lemma_non_close_add(seq![ts[i]], rebalanced_from(ts, i + 1, stack.push(ts[i].0)));
            assert(seq![ts[i]].drop_first() =~= Seq::<TokView>::empty());
        } else if is_close(ts[i].0) {
            let run = run_of(ts, i + 1, ts[i].3);
            let emitted = close_run(stack, ts[i].2, run.1);
            lemma_run_all_closes(ts, i + 1, ts[i].3);
            lemma_close_run_only_closes(stack, ts[i].2, run.1);
            let tail = if i < run.0 <= ts.len() {
                rebalanced_from(ts, run.0, emitted.1)
            } else {
                seq![]
            };
            lemma_non_close_add(emitted.0, tail);
            lemma_rebalanced_from_keeps(ts, run.0, emitted.1);
            assert(ts.subrange(i + 1, ts.len() as int) =~= ts.subrange(i + 1, run.0) + ts.subrange(
                run.0,
                ts.len() as int,
            ));
            lemma_non_close_add(ts.subrange(i + 1, run.0), ts.subrange(run.0, ts.len() as int));
            assert(non_close(emitted.0) =~= Seq::<TokView>::empty());
            assert(non_close(ts.subrange(i + 1, run.0)) =~= Seq::<TokView>::empty());
        } else {
            lemma_rebalanced_from_keeps(ts, i + 1, stack);
            lemma_non_close_add(seq![ts[i]], rebalanced_from(ts, i + 1, stack));
            assert(seq![ts[i]].drop_first() =~= Seq::<TokView>::empty());
        }
    } else {
        assert(ts.subrange(i, ts.len() as int).len() == 0);
    }
}

/// Rebalancing keeps every token that is not a close bracket, in order:
/// only runs of `]` and `]]` are emitted anew.
pub proof fn law_rebalance_keeps_other_tokens(ts: Seq<TokView>)
    ensures
        non_close(rebalanced(ts)) == non_close(ts),
{
    if has_view_kind(ts, TokKind::LBrack) && has_view_kind(ts, TokKind::RBrack2) {
        lemma_rebalanced_from_keeps(ts, 0, seq![]);
        assert(ts.subrange(0, ts.len() as int) =~= ts);
    }
}

} // verus!
