//! The layout engine: walks an [`Ir`] tree and renders it to a string,
//! deciding for each group whether it fits flat on the current line or must
//! break.
//!
//! Columns and indents are counted in characters and saturate at
//! `usize::MAX` instead of overflowing.

use vstd::prelude::*;

use crate::formatter::ir::{
    Doc, Ir, concat_doc, doc_forced, docs_forced, ir_view, irs_view, lemma_irs_view, non_nil,
};
use crate::formatter::style::FormatStyle;
use crate::parser::lexer::chars_of;

verus! {

/// Whether the enclosing group is printed flat or broken.
#[derive(Debug, Clone, Copy, PartialEq, Eq, Structural)]
pub enum Mode {
    Flat,
    Break,
}

/// The printer's output so far: the text, the current column, and the indent
/// still owed to the current line (written only once visible text follows, so
/// blank lines carry no trailing spaces).
pub struct PState {
    pub out: Seq<char>,
    pub col: int,
    pub pending: int,
    pub needs_indent: bool,
}

/// `x`, capped at `usize::MAX`.
pub open spec fn sat(x: int) -> int {
    if x > usize::MAX {
        usize::MAX as int
    } else {
        x
    }
}

/// `a - b`, floored at zero.
pub open spec fn sat_sub(a: int, b: int) -> int {
    if a > b {
        a - b
    } else {
        0
    }
}

pub open spec fn spaces(n: int) -> Seq<char> {
    Seq::new(n as nat, |i: int| ' ')
}

/// Write the owed indent, if any.
pub open spec fn flush(w: PState) -> PState {
    if w.needs_indent {
        PState {
            out: w.out + spaces(w.pending),
            col: sat(w.col + w.pending),
            pending: w.pending,
            needs_indent: false,
        }
    } else {
        w
    }
}

/// Write text without a newline.
pub open spec fn put_text(w: PState, s: Seq<char>) -> PState {
    if s.len() == 0 {
        w
    } else {
        let f = flush(w);
        PState { out: f.out + s, col: sat(f.col + s.len()), pending: f.pending, needs_indent: false }
    }
}

/// Start a fresh line owed `indent` spaces.
pub open spec fn put_newline(w: PState, indent: int) -> PState {
    PState { out: w.out.push('\n'), col: 0, pending: indent, needs_indent: true }
}

/// A blank line, then a fresh line owed `indent` spaces.
pub open spec fn put_empty_line(w: PState, indent: int) -> PState {
    PState { out: w.out.push('\n').push('\n'), col: 0, pending: indent, needs_indent: true }
}

/// The index of the last newline of `s`.
pub open spec fn last_newline(s: Seq<char>) -> Option<int>
    decreases s.len(),
{
    if s.len() == 0 {
        None
    } else if s.last() == '\n' {
        Some(s.len() - 1)
    } else {
        last_newline(s.drop_last())
    }
}

/// Splice possibly multi-line text as it is: only the owed indent of the
/// first line is written, and the column ends after the last line.
pub open spec fn put_verbatim(w: PState, s: Seq<char>) -> PState {
    let f = flush(w);
    PState {
        out: f.out + s,
        col: match last_newline(s) {
            Some(p) => sat(s.len() - p - 1),
            None => sat(f.col + s.len()),
        },
        pending: f.pending,
        needs_indent: false,
    }
}

/// The outcome of a measurement so far: still going with a number (room left,
/// or the column reached), or stopped with a verdict.
pub enum Fit {
    Go(int),
    Stop(bool),
}

/// Measure `d` laid out flat against `rem` columns of room. Text and spaces
/// use room; running out fails; a hard newline ends the measurement, with
/// success only when hugging; a forced verbatim or an expanded group fails.
pub open spec fn fit_doc(d: Doc, rem: int, hug: bool) -> Fit
    decreases d,
{
    match d {
        Doc::Nil | Doc::SoftLine => Fit::Go(rem),
        Doc::Text(s) => if s.len() > rem {
            Fit::Stop(false)
        } else {
            Fit::Go(rem - s.len())
        },
        Doc::HardLine | Doc::EmptyLine => Fit::Stop(hug),
        Doc::Verbatim { text, force_break } => if force_break || text.len() > rem {
            Fit::Stop(false)
        } else {
            Fit::Go(rem - text.len())
        },
        Doc::Concat(items) => fit_docs(items, rem, hug),
        Doc::Indent(inner) => fit_doc(*inner, rem, hug),
        Doc::Line => if rem == 0 {
            Fit::Stop(false)
        } else {
            Fit::Go(rem - 1)
        },
        Doc::IfBreak { flat, .. } => fit_doc(*flat, rem, hug),
        Doc::Group { inner, expand, .. } => if expand {
            Fit::Stop(false)
        } else {
            fit_doc(*inner, rem, hug)
        },
        Doc::ConditionalGroup(cands) => if cands.len() > 0 {
            fit_doc(cands[0], rem, hug)
        } else {
            Fit::Go(rem)
        },
    }
}

/// Measure the documents of `s` one after another.
pub open spec fn fit_docs(s: Seq<Doc>, rem: int, hug: bool) -> Fit
    decreases s,
{
    if s.len() == 0 {
        Fit::Go(rem)
    } else {
        match fit_docs(s.subrange(0, s.len() - 1), rem, hug) {
            Fit::Stop(b) => Fit::Stop(b),
            Fit::Go(r) => fit_doc(s[s.len() - 1], r, hug),
        }
    }
}

/// `d` fits flat on the line from column `col`.
pub open spec fn fits(col: int, d: Doc, hug: bool, width: int) -> bool {
    match fit_doc(d, sat_sub(width, col), hug) {
        Fit::Stop(b) => b,
        Fit::Go(_) => true,
    }
}

/// The position of the first newline of `t` at or after `from`.
pub open spec fn first_newline_from(t: Seq<char>, from: int) -> Option<int>
    decreases t.len() - from,
{
    if from < 0 || from >= t.len() {
        None
    } else if t[from] == '\n' {
        Some(from)
    } else {
        first_newline_from(t, from + 1)
    }
}

/// Measure the first line of `d` from column `col` in mode `mode`: nested
/// groups decide their own break as the printer would, the first newline
/// that would be written ends it with success, passing the width fails. A
/// verbatim that spans lines ends the line at its first newline; a forced
/// verbatim on one line (a comment) fails.
pub open spec fn flf_doc(d: Doc, mode: Mode, col: int, width: int) -> Fit
    decreases d,
{
    match d {
        Doc::Nil => Fit::Go(col),
        Doc::Text(s) => if sat(col + s.len()) > width {
            Fit::Stop(false)
        } else {
            Fit::Go(sat(col + s.len()))
        },
        Doc::Verbatim { text, force_break } => match first_newline_from(text, 0) {
            Some(k) => Fit::Stop(sat(col + k) <= width),
            None => if force_break || sat(col + text.len()) > width {
                Fit::Stop(false)
            } else {
                Fit::Go(sat(col + text.len()))
            },
        },
        Doc::Concat(items) => flf_docs(items, mode, col, width),
        Doc::Indent(inner) => flf_doc(*inner, mode, col, width),
        Doc::Line => if mode == Mode::Break {
            Fit::Stop(true)
        } else if sat(col + 1) > width {
            Fit::Stop(false)
        } else {
            Fit::Go(sat(col + 1))
        },
        Doc::SoftLine => if mode == Mode::Break {
            Fit::Stop(true)
        } else {
            Fit::Go(col)
        },
        Doc::HardLine | Doc::EmptyLine => Fit::Stop(true),
        Doc::IfBreak { flat, broken } => if mode == Mode::Break {
            flf_doc(*broken, mode, col, width)
        } else {
            flf_doc(*flat, mode, col, width)
        },
        Doc::Group { inner, expand, hug } => {
            let m = if expand || !fits(col, *inner, hug, width) {
                Mode::Break
            } else {
                Mode::Flat
            };
            flf_doc(*inner, m, col, width)
        },
        Doc::ConditionalGroup(cands) => {
            let (m, i) = pick(cands, col, width);
            if 0 <= i < cands.len() {
                flf_doc(cands[i], m, col, width)
            } else {
                Fit::Go(col)
            }
        },
    }
}

pub open spec fn flf_docs(s: Seq<Doc>, mode: Mode, col: int, width: int) -> Fit
    decreases s,
{
    if s.len() == 0 {
        Fit::Go(col)
    } else {
        match flf_docs(s.subrange(0, s.len() - 1), mode, col, width) {
            Fit::Stop(b) => Fit::Stop(b),
            Fit::Go(c) => flf_doc(s[s.len() - 1], mode, c, width),
        }
    }
}

/// Whether the first line of `d` fits from column `col`, as the measurement
/// reports it.
pub open spec fn flf_verdict(f: Fit) -> bool {
    match f {
        Fit::Stop(b) => b,
        Fit::Go(_) => true,
    }
}

/// The candidate of a conditional group that is printed, by index, and its
/// mode: the first whose first line fits is flat; when none fits, the last
/// is broken.
pub open spec fn pick(cands: Seq<Doc>, col: int, width: int) -> (Mode, int)
    decreases cands,
{
    if cands.len() == 0 {
        (Mode::Flat, 0)
    } else if flf_verdict(flf_doc(cands[0], Mode::Flat, col, width)) {
        (Mode::Flat, 0)
    } else if cands.len() == 1 {
        (Mode::Break, 0)
    } else {
        let (m, j) = pick(cands.subrange(1, cands.len() as int), col, width);
        (m, j + 1)
    }
}

pub proof fn lemma_pick_in_range(cands: Seq<Doc>, col: int, width: int)
    requires
        cands.len() > 0,
    ensures
        0 <= pick(cands, col, width).1 < cands.len(),
    decreases cands.len(),
{
    if cands.len() > 1 && !flf_verdict(flf_doc(cands[0], Mode::Flat, col, width)) {
        lemma_pick_in_range(cands.subrange(1, cands.len() as int), col, width);
    }
}

/// The first line of `d` fits from column `col`.
pub open spec fn first_line_fits(col: int, d: Doc, width: int) -> bool {
    flf_verdict(flf_doc(d, Mode::Flat, col, width))
}

/// The output after laying out `d` at indent `indent` in mode `mode`, with
/// line width `width` and indent step `unit`.
pub open spec fn layout(d: Doc, indent: int, mode: Mode, w: PState, width: int, unit: int) -> PState
    decreases d,
{
    match d {
        Doc::Nil => w,
        Doc::Text(s) => put_text(w, s),
        Doc::Verbatim { text, .. } => put_verbatim(w, text),
        Doc::Concat(items) => layout_docs(items, indent, mode, w, width, unit),
        Doc::Indent(inner) => layout(*inner, sat(indent + unit), mode, w, width, unit),
        Doc::Line => if mode == Mode::Flat {
            put_text(w, seq![' '])
        } else {
            put_newline(w, indent)
        },
        Doc::SoftLine => if mode == Mode::Break {
            put_newline(w, indent)
        } else {
            w
        },
        Doc::HardLine => put_newline(w, indent),
        Doc::EmptyLine => put_empty_line(w, indent),
        Doc::IfBreak { flat, broken } => if mode == Mode::Break {
            layout(*broken, indent, mode, w, width, unit)
        } else {
            layout(*flat, indent, mode, w, width, unit)
        },
        Doc::Group { inner, expand, hug } => {
            let m = if expand || !fits(w.col, *inner, hug, width) {
                Mode::Break
            } else {
                Mode::Flat
            };
            layout(*inner, indent, m, w, width, unit)
        },
        Doc::ConditionalGroup(cands) => {
            let (m, i) = pick(cands, w.col, width);
            if 0 <= i < cands.len() {
                layout(cands[i], indent, m, w, width, unit)
            } else {
                w
            }
        },
    }
}

pub open spec fn layout_docs(
    s: Seq<Doc>,
    indent: int,
    mode: Mode,
    w: PState,
    width: int,
    unit: int,
) -> PState
    decreases s,
{
    if s.len() == 0 {
        w
    } else {
        layout(
            s[s.len() - 1],
            indent,
            mode,
            layout_docs(s.subrange(0, s.len() - 1), indent, mode, w, width, unit),
            width,
            unit,
        )
    }
}

/// The text printed for `d` with indent `base` and the first line starting
/// at column `col`.
pub open spec fn rendered(d: Doc, base: int, col: int, width: int, unit: int) -> Seq<char> {
    layout(
        d,
        base,
        Mode::Break,
        PState { out: seq![], col, pending: 0, needs_indent: false },
        width,
        unit,
    ).out
}

/// More room never hurts a flat measurement: what still goes on keeps the
/// extra room, and a success stays a success.
proof fn lemma_fit_doc_room(d: Doc, r1: int, r2: int, hug: bool)
    requires
        0 <= r1 <= r2,
    ensures
        fit_doc(d, r1, hug) is Go ==> fit_doc(d, r1, hug)->Go_0 >= 0,
        fit_doc(d, r1, hug) is Go ==> fit_doc(d, r2, hug) == Fit::Go(fit_doc(d, r1, hug)->Go_0 + (r2 - r1)),
        fit_doc(d, r1, hug) == Fit::Stop(true) ==> fit_doc(d, r2, hug) == Fit::Stop(true),
    decreases d, 1int,
{
    match d {
        Doc::Concat(items) => {
            lemma_fit_docs_room(items, r1, r2, hug);
            assert(fit_doc(d, r1, hug) == fit_docs(items, r1, hug));
            assert(fit_doc(d, r2, hug) == fit_docs(items, r2, hug));
            assert(fit_docs(items, r1, hug) is Go ==> fit_docs(items, r2, hug) == Fit::Go(fit_docs(items, r1, hug)->Go_0 + (r2 - r1)));
        },
        Doc::Indent(inner) => lemma_fit_doc_room(*inner, r1, r2, hug),
        Doc::IfBreak { flat, .. } => lemma_fit_doc_room(*flat, r1, r2, hug),
        Doc::Group { inner, .. } => lemma_fit_doc_room(*inner, r1, r2, hug),
        Doc::ConditionalGroup(cands) => {
            if cands.len() > 0 {
                lemma_fit_doc_room(cands[0], r1, r2, hug);
            }
        },
        Doc::Text(t) => {
            if t.len() <= r1 {
                assert(fit_doc(d, r2, hug) == Fit::Go(r2 - t.len()));
            }
        },
        Doc::Verbatim { text, force_break } => {
            if !force_break && text.len() <= r1 {
                assert(fit_doc(d, r2, hug) == Fit::Go(r2 - text.len()));
            }
        },
        Doc::Line => {
            if r1 != 0 {
                assert(fit_doc(d, r2, hug) == Fit::Go(r2 - 1));
            }
        },
        _ => {},
    }
}

proof fn lemma_fit_docs_room(s: Seq<Doc>, r1: int, r2: int, hug: bool)
    requires
        0 <= r1 <= r2,
    ensures
        fit_docs(s, r1, hug) is Go ==> fit_docs(s, r1, hug)->Go_0 >= 0,
        fit_docs(s, r1, hug) is Go ==> fit_docs(s, r2, hug) == Fit::Go(fit_docs(s, r1, hug)->Go_0 + (r2 - r1)),
        fit_docs(s, r1, hug) == Fit::Stop(true) ==> fit_docs(s, r2, hug) == Fit::Stop(true),
    decreases s, 0int,
{
    if s.len() > 0 {
        let p = s.subrange(0, s.len() - 1);
        assert(p.len() < s.len());
        lemma_fit_docs_room(p, r1, r2, hug);
        if let Fit::Go(a) = fit_docs(p, r1, hug) {
            lemma_fit_doc_room(s[s.len() - 1], a, a + (r2 - r1), hug);
        }
    }
}

/// Whatever fits from a column also fits from any column to its left.
pub proof fn law_fits_monotone(c1: int, c2: int, d: Doc, hug: bool, width: int)
    requires
        c1 <= c2,
        fits(c2, d, hug, width),
    ensures
        fits(c1, d, hug, width),
{
    lemma_fit_doc_room(d, sat_sub(width, c2), sat_sub(width, c1), hug);
}

/// Once a measurement has stopped, measuring more changes nothing.
pub proof fn lemma_fit_docs_stopped(s: Seq<Doc>, n: int, rem: int, hug: bool)
    requires
        0 <= n <= s.len(),
        fit_docs(s.subrange(0, n), rem, hug) is Stop,
    ensures
        fit_docs(s, rem, hug) == fit_docs(s.subrange(0, n), rem, hug),
    decreases s.len() - n,
{
    if n < s.len() {
        assert(s.subrange(0, n + 1).subrange(0, n) =~= s.subrange(0, n));
        lemma_fit_docs_stopped(s, n + 1, rem, hug);
    } else {
        assert(s.subrange(0, n) =~= s);
    }
}

pub proof fn lemma_flf_docs_stopped(s: Seq<Doc>, n: int, mode: Mode, col: int, width: int)
    requires
        0 <= n <= s.len(),
        flf_docs(s.subrange(0, n), mode, col, width) is Stop,
    ensures
        flf_docs(s, mode, col, width) == flf_docs(s.subrange(0, n), mode, col, width),
    decreases s.len() - n,
{
    if n < s.len() {
        assert(s.subrange(0, n + 1).subrange(0, n) =~= s.subrange(0, n));
        lemma_flf_docs_stopped(s, n + 1, mode, col, width);
    } else {
        assert(s.subrange(0, n) =~= s);
    }
}

/// Without hugging, a flat measurement never stops with success.
proof fn lemma_unhugged_stop_fails(d: Doc, rem: int)
    ensures
        fit_doc(d, rem, false) matches Fit::Stop(b) ==> !b,
    decreases d,
{
    match d {
        Doc::Concat(items) => lemma_unhugged_stop_fails_docs(items, rem),
        Doc::Indent(inner) => lemma_unhugged_stop_fails(*inner, rem),
        Doc::IfBreak { flat, .. } => lemma_unhugged_stop_fails(*flat, rem),
        Doc::Group { inner, .. } => lemma_unhugged_stop_fails(*inner, rem),
        Doc::ConditionalGroup(cands) => {
            if cands.len() > 0 {
                lemma_unhugged_stop_fails(cands[0], rem);
            }
        },
        _ => {},
    }
}

proof fn lemma_unhugged_stop_fails_docs(s: Seq<Doc>, rem: int)
    ensures
        fit_docs(s, rem, false) matches Fit::Stop(b) ==> !b,
    decreases s,
{
    if s.len() > 0 {
        let p = s.subrange(0, s.len() - 1);
        lemma_unhugged_stop_fails_docs(p, rem);
        if let Fit::Go(r) = fit_docs(p, rem, false) {
            lemma_unhugged_stop_fails(s[s.len() - 1], r);
        }
    }
}

/// A document with a forced break never measures as fitting flat.
proof fn lemma_forced_fails(d: Doc, rem: int)
    requires
        doc_forced(d),
    ensures
        fit_doc(d, rem, false) == Fit::Stop(false),
    decreases d,
{
    match d {
        Doc::Concat(items) => lemma_forced_fails_docs(items, rem),
        Doc::Indent(inner) => lemma_forced_fails(*inner, rem),
        Doc::Group { inner, expand, .. } => {
            if !expand {
                lemma_forced_fails(*inner, rem);
            }
        },
        Doc::ConditionalGroup(cands) => lemma_forced_fails(cands[0], rem),
        _ => {},
    }
}

proof fn lemma_forced_fails_docs(s: Seq<Doc>, rem: int)
    requires
        docs_forced(s),
    ensures
        fit_docs(s, rem, false) == Fit::Stop(false),
    decreases s,
{
    let p = s.subrange(0, s.len() - 1);
    if docs_forced(p) {
        lemma_forced_fails_docs(p, rem);
    } else {
        lemma_unhugged_stop_fails_docs(p, rem);
        if let Fit::Go(r) = fit_docs(p, rem, false) {
            lemma_forced_fails(s[s.len() - 1], r);
        }
    }
}

/// A group whose contents hold a forced break (a hard or empty line, a
/// forced verbatim such as a comment, or an expanded group) never stays
/// flat, wherever it starts and whatever the width, unless it hugs.
pub proof fn law_forced_break_breaks_group(d: Doc, col: int, width: int)
    requires
        doc_forced(d),
    ensures
        !fits(col, d, false, width),
{
    lemma_forced_fails(d, sat_sub(width, col));
}

/// `Nil` items print nothing, so dropping them changes no layout.
proof fn lemma_layout_non_nil(s: Seq<Doc>, indent: int, mode: Mode, w: PState, width: int, unit: int)
    ensures
        layout_docs(non_nil(s), indent, mode, w, width, unit) == layout_docs(
            s,
            indent,
            mode,
            w,
            width,
            unit,
        ),
    decreases s.len(),
{
    if s.len() > 0 {
        let p = s.drop_last();
        let x = s.last();
        assert(s.subrange(0, s.len() - 1) =~= p);
        lemma_layout_non_nil(p, indent, mode, w, width, unit);
        let before = layout_docs(p, indent, mode, w, width, unit);
        assert(layout_docs(s, indent, mode, w, width, unit) == layout(
            x,
            indent,
            mode,
            before,
            width,
            unit,
        ));
        let q = non_nil(p);
        if x is Nil {
            assert(non_nil(s) == q);
            assert(layout(x, indent, mode, before, width, unit) == before);
        } else {
            assert(non_nil(s) == q.push(x));
            assert(q.push(x).subrange(0, q.len() as int) =~= q);
            assert(layout_docs(q.push(x), indent, mode, w, width, unit) == layout(
                x,
                indent,
                mode,
                layout_docs(q, indent, mode, w, width, unit),
                width,
                unit,
            ));
        }
    }
}

/// Printing what [`Ir::concat`] builds from some items gives the same
/// output as printing the items one after another.
pub proof fn law_concat_prints_items_in_order(
    s: Seq<Doc>,
    indent: int,
    mode: Mode,
    w: PState,
    width: int,
    unit: int,
)
    ensures
        layout(concat_doc(s), indent, mode, w, width, unit) == layout_docs(
            s,
            indent,
            mode,
            w,
            width,
            unit,
        ),
{
    lemma_layout_non_nil(s, indent, mode, w, width, unit);
    let kept = non_nil(s);
    if kept.len() == 0 {
        assert(layout_docs(kept, indent, mode, w, width, unit) == w);
    } else if kept.len() == 1 {
        assert(kept.subrange(0, 0) =~= Seq::<Doc>::empty());
        assert(layout_docs(kept.subrange(0, 0), indent, mode, w, width, unit) == w);
        assert(layout_docs(kept, indent, mode, w, width, unit) == layout(
            kept[0],
            indent,
            mode,
            w,
            width,
            unit,
        ));
    }
}

/// The position of the first newline of `t`, in characters.
fn first_newline(t: &str) -> (r: Option<usize>)
    ensures
        crate::ast::opt_index(r) == first_newline_from(t@, 0),
{
    let n = t.unicode_len();
    let mut i: usize = 0;
    while i < n
        invariant
            n == t@.len(),
            i <= n,
            first_newline_from(t@, 0) == first_newline_from(t@, i as int),
        decreases n - i,
    {
        if t.get_char(i) == '\n' {
            return Some(i);
        }
        i += 1;
    }
    None
}

/// `t` holds no line break.
pub open spec fn no_newline(t: Seq<char>) -> bool {
    forall|i: int| 0 <= i < t.len() ==> t[i] != '\n'
}

/// The text `d` prints when it is laid out flat.
pub open spec fn flat_text(d: Doc) -> Seq<char>
    decreases d,
{
    match d {
        Doc::Text(s) => s,
        Doc::Verbatim { text, .. } => text,
        Doc::Concat(items) => flat_texts(items),
        Doc::Indent(inner) => flat_text(*inner),
        Doc::Line => seq![' '],
        Doc::IfBreak { flat, .. } => flat_text(*flat),
        Doc::Group { inner, .. } => flat_text(*inner),
        _ => seq![],
    }
}

/// The flat texts of the documents of `s`, one after another.
pub open spec fn flat_texts(s: Seq<Doc>) -> Seq<char>
    decreases s,
{
    if s.len() == 0 {
        seq![]
    } else {
        flat_texts(s.subrange(0, s.len() - 1)) + flat_text(s[s.len() - 1])
    }
}

/// Laid out flat, `d` stays on one line: its texts hold no line break and
/// it holds no conditional group, which could choose a broken candidate.
pub open spec fn single_line(d: Doc) -> bool
    decreases d,
{
    match d {
        Doc::Text(s) => no_newline(s),
        Doc::Verbatim { text, .. } => no_newline(text),
        Doc::Concat(items) => single_lines(items),
        Doc::Indent(inner) => single_line(*inner),
        Doc::IfBreak { flat, .. } => single_line(*flat),
        Doc::Group { inner, .. } => single_line(*inner),
        Doc::ConditionalGroup(_) => false,
        _ => true,
    }
}

pub open spec fn single_lines(s: Seq<Doc>) -> bool
    decreases s,
{
    if s.len() == 0 {
        true
    } else {
        single_lines(s.subrange(0, s.len() - 1)) && single_line(s[s.len() - 1])
    }
}

proof fn lemma_no_last_newline(s: Seq<char>)
    requires
        no_newline(s),
    ensures
        last_newline(s) is None,
    decreases s.len(),
{
    if s.len() > 0 {
        assert(s.last() == s[s.len() - 1]);
        lemma_no_last_newline(s.drop_last());
    }
}

/// A measurement that runs to the end without stopping does not depend on
/// hugging, which only matters at a hard line break.
proof fn lemma_go_ignores_hug(d: Doc, rem: int)
    requires
        fit_doc(d, rem, false) is Go,
    ensures
        fit_doc(d, rem, true) == fit_doc(d, rem, false),
    decreases d,
{
    match d {
        Doc::Concat(items) => lemma_go_ignores_hug_docs(items, rem),
        Doc::Indent(inner) => lemma_go_ignores_hug(*inner, rem),
        Doc::IfBreak { flat, .. } => lemma_go_ignores_hug(*flat, rem),
        Doc::Group { inner, expand, .. } => {
            if !expand {
                lemma_go_ignores_hug(*inner, rem);
            }
        },
        Doc::ConditionalGroup(cands) => {
            if cands.len() > 0 {
                lemma_go_ignores_hug(cands[0], rem);
            }
        },
        _ => {},
    }
}

proof fn lemma_go_ignores_hug_docs(s: Seq<Doc>, rem: int)
    requires
        fit_docs(s, rem, false) is Go,
    ensures
        fit_docs(s, rem, true) == fit_docs(s, rem, false),
    decreases s,
{
    if s.len() > 0 {
        let p = s.subrange(0, s.len() - 1);
        lemma_go_ignores_hug_docs(p, rem);
        if let Fit::Go(r) = fit_docs(p, rem, false) {
            lemma_go_ignores_hug(s[s.len() - 1], r);
        }
    }
}

/// Laid out flat where its measurement succeeds, a one-line document
/// appends exactly its flat text and moves the column by its length.
proof fn lemma_flat_layout(d: Doc, indent: int, w: PState, width: int, unit: int)
    requires
        single_line(d),
        !w.needs_indent,
        0 <= w.col <= width <= usize::MAX,
        fit_doc(d, width - w.col, false) is Go,
    ensures
        no_newline(flat_text(d)),
        w.col + flat_text(d).len() <= width,
        fit_doc(d, width - w.col, false) == Fit::Go(width - w.col - flat_text(d).len()),
        layout(d, indent, Mode::Flat, w, width, unit) == (PState {
            out: w.out + flat_text(d),
            col: w.col + flat_text(d).len(),
            pending: w.pending,
            needs_indent: false,
        }),
    decreases d,
{
    match d {
        Doc::Text(s) => {
            if s.len() == 0 {
                assert(w.out + s =~= w.out);
            }
        },
        Doc::Verbatim { text, .. } => {
            lemma_no_last_newline(text);
        },
        Doc::Concat(items) => lemma_flat_layout_docs(items, indent, w, width, unit),
        Doc::Indent(inner) => lemma_flat_layout(*inner, sat(indent + unit), w, width, unit),
        Doc::Line => {},
        Doc::SoftLine => {
            assert(w.out + seq![] =~= w.out);
        },
        Doc::Nil => {
            assert(w.out + seq![] =~= w.out);
        },
        Doc::IfBreak { flat, .. } => lemma_flat_layout(*flat, indent, w, width, unit),
        Doc::Group { inner, hug, .. } => {
            lemma_go_ignores_hug(*inner, width - w.col);
            lemma_flat_layout(*inner, indent, w, width, unit);
        },
        _ => {},
    }
}

proof fn lemma_flat_layout_docs(s: Seq<Doc>, indent: int, w: PState, width: int, unit: int)
    requires
        single_lines(s),
        !w.needs_indent,
        0 <= w.col <= width <= usize::MAX,
        fit_docs(s, width - w.col, false) is Go,
    ensures
        no_newline(flat_texts(s)),
        w.col + flat_texts(s).len() <= width,
        fit_docs(s, width - w.col, false) == Fit::Go(width - w.col - flat_texts(s).len()),
        layout_docs(s, indent, Mode::Flat, w, width, unit) == (PState {
            out: w.out + flat_texts(s),
            col: w.col + flat_texts(s).len(),
            pending: w.pending,
            needs_indent: false,
        }),
    decreases s,
{
    if s.len() == 0 {
        assert(w.out + seq![] =~= w.out);
    } else {
        let p = s.subrange(0, s.len() - 1);
        let x = s[s.len() - 1];
        if fit_docs(p, width - w.col, false) is Stop {
            assert(fit_docs(s, width - w.col, false) is Stop);
        }
        lemma_flat_layout_docs(p, indent, w, width, unit);
        let mid = layout_docs(p, indent, Mode::Flat, w, width, unit);
        lemma_flat_layout(x, indent, mid, width, unit);
        let a = flat_texts(p);
        let b = flat_text(x);
        assert(w.out + a + b =~= w.out + (a + b));
        assert forall|i: int| 0 <= i < (a + b).len() implies (a + b)[i] != '\n' by {
            if i < a.len() {
                assert((a + b)[i] == a[i]);
            } else {
                assert((a + b)[i] == b[i - a.len()]);
            }
        }
    }
}

/// A group that is not expanded and whose contents fit flat from the
/// current column is printed flat: it appends exactly its flat text, which
/// holds no line break, and ends within the line width. The contents hold
/// no conditional group and no text with a line break of its own, and the
/// line has no indent still owed.
pub proof fn law_fitting_group_prints_flat(
    inner: Doc,
    hug: bool,
    indent: int,
    mode: Mode,
    w: PState,
    width: int,
    unit: int,
)
    requires
        single_line(inner),
        !w.needs_indent,
        0 <= w.col <= width <= usize::MAX,
        fits(w.col, inner, false, width),
    ensures
        ({
            let after = layout(
                Doc::Group { inner: Box::new(inner), expand: false, hug },
                indent,
                mode,
                w,
                width,
                unit,
            );
            &&& after.out == w.out + flat_text(inner)
            &&& no_newline(flat_text(inner))
            &&& after.col == w.col + flat_text(inner).len()
            &&& after.col <= width
        }),
{
    lemma_unhugged_stop_fails(inner, width - w.col);
    lemma_go_ignores_hug(inner, width - w.col);
    lemma_flat_layout(inner, indent, w, width, unit);
}

/// `d` writes nothing visible: no text, no verbatim and no `Line` (which is
/// a space when flat).
pub open spec fn invisible(d: Doc) -> bool
    decreases d,
{
    match d {
        Doc::Text(s) => s.len() == 0,
        Doc::Verbatim { .. } => false,
        Doc::Line => false,
        Doc::Concat(items) => invisibles(items),
        Doc::Indent(inner) => invisible(*inner),
        Doc::IfBreak { flat, broken } => invisible(*flat) && invisible(*broken),
        Doc::Group { inner, .. } => invisible(*inner),
        Doc::ConditionalGroup(cands) => invisibles(cands),
        _ => true,
    }
}

pub open spec fn invisibles(s: Seq<Doc>) -> bool
    decreases s,
{
    if s.len() == 0 {
        true
    } else {
        invisibles(s.subrange(0, s.len() - 1)) && invisible(s[s.len() - 1])
    }
}

/// `after` is `before` followed by line breaks only.
pub open spec fn adds_only_newlines(before: Seq<char>, after: Seq<char>) -> bool {
    &&& before.len() <= after.len()
    &&& after.subrange(0, before.len() as int) == before
    &&& forall|i: int| before.len() <= i < after.len() ==> after[i] == '\n'
}

proof fn lemma_adds_only_newlines_trans(a: Seq<char>, b: Seq<char>, c: Seq<char>)
    requires
        adds_only_newlines(a, b),
        adds_only_newlines(b, c),
    ensures
        adds_only_newlines(a, c),
{
    assert forall|i: int| 0 <= i < b.len() implies c[i] == b[i] by {
        assert(c.subrange(0, b.len() as int)[i] == c[i]);
    }
    assert forall|i: int| 0 <= i < a.len() implies b[i] == a[i] by {
        assert(b.subrange(0, a.len() as int)[i] == b[i]);
    }
    assert(c.subrange(0, a.len() as int) =~= a);
    assert forall|i: int| a.len() <= i < c.len() implies c[i] == '\n' by {
        if i < b.len() {
            assert(c[i] == b[i]);
        }
    }
}

proof fn lemma_invisibles_index(s: Seq<Doc>, i: int)
    requires
        invisibles(s),
        0 <= i < s.len(),
    ensures
        invisible(s[i]),
    decreases s.len(),
{
    if i < s.len() - 1 {
        lemma_invisibles_index(s.subrange(0, s.len() - 1), i);
    }
}

proof fn lemma_invisible_layout(d: Doc, indent: int, mode: Mode, w: PState, width: int, unit: int)
    requires
        invisible(d),
    ensures
        adds_only_newlines(w.out, layout(d, indent, mode, w, width, unit).out),
    decreases d,
{
    let after = layout(d, indent, mode, w, width, unit);
    match d {
        Doc::Concat(items) => lemma_invisible_layout_docs(items, indent, mode, w, width, unit),
        Doc::Indent(inner) => lemma_invisible_layout(*inner, sat(indent + unit), mode, w, width, unit),
        Doc::IfBreak { flat, broken } => {
            if mode == Mode::Break {
                lemma_invisible_layout(*broken, indent, mode, w, width, unit);
            } else {
                lemma_invisible_layout(*flat, indent, mode, w, width, unit);
            }
        },
        Doc::Group { inner, expand, hug } => {
            let m = if expand || !fits(w.col, *inner, hug, width) {
                Mode::Break
            } else {
                Mode::Flat
            };
            lemma_invisible_layout(*inner, indent, m, w, width, unit);
        },
        Doc::ConditionalGroup(cands) => {
            let (m, i) = pick(cands, w.col, width);
            if 0 <= i < cands.len() {
                lemma_invisibles_index(cands, i);
                lemma_invisible_layout(cands[i], indent, m, w, width, unit);
            } else {
                assert(after.out.subrange(0, w.out.len() as int) =~= w.out);
            }
        },
        Doc::HardLine => {
            assert(after.out.subrange(0, w.out.len() as int) =~= w.out);
        },
        Doc::EmptyLine => {
            assert(after.out.subrange(0, w.out.len() as int) =~= w.out);
        },
        Doc::SoftLine => {
            assert(after.out.subrange(0, w.out.len() as int) =~= w.out);
        },
        _ => {
            assert(after.out.subrange(0, w.out.len() as int) =~= w.out);
        },
    }
}

proof fn lemma_invisible_layout_docs(
    s: Seq<Doc>,
    indent: int,
    mode: Mode,
    w: PState,
    width: int,
    unit: int,
)
    requires
        invisibles(s),
    ensures
        adds_only_newlines(w.out, layout_docs(s, indent, mode, w, width, unit).out),
    decreases s,
{
    if s.len() == 0 {
        assert(w.out.subrange(0, w.out.len() as int) =~= w.out);
    } else {
        let p = s.subrange(0, s.len() - 1);
        lemma_invisible_layout_docs(p, indent, mode, w, width, unit);
        let mid = layout_docs(p, indent, mode, w, width, unit);
        lemma_invisible_layout(s[s.len() - 1], indent, mode, mid, width, unit);
        lemma_adds_only_newlines_trans(
            w.out,
            mid.out,
            layout(s[s.len() - 1], indent, mode, mid, width, unit).out,
        );
    }
}

/// Indentation is written only in front of visible text, so a document
/// that writes nothing visible (only line breaks, soft lines, empty texts
/// and the groups and indents around them) adds nothing but line breaks:
/// blank lines never carry trailing spaces, whatever indent they stand at.
pub proof fn law_blank_lines_carry_no_indent(
    d: Doc,
    indent: int,
    mode: Mode,
    w: PState,
    width: int,
    unit: int,
)
    requires
        invisible(d),
    ensures
        adds_only_newlines(w.out, layout(d, indent, mode, w, width, unit).out),
{
    lemma_invisible_layout(d, indent, mode, w, width, unit);
}

/// The exec counterpart of [`Fit`].
pub enum FitStep {
    Go(usize),
    Stop(bool),
}

impl FitStep {
    pub open spec fn view(&self) -> Fit {
        match *self {
            FitStep::Go(n) => Fit::Go(n as int),
            FitStep::Stop(b) => Fit::Stop(b),
        }
    }
}

/// Accumulates output, deferring indentation until visible text is written.
pub struct Writer {
    out: String,
    col: usize,
    pending_indent: usize,
    needs_indent: bool,
}

impl Writer {
    pub closed spec fn view(&self) -> PState {
        PState {
            out: self.out@,
            col: self.col as int,
            pending: self.pending_indent as int,
            needs_indent: self.needs_indent,
        }
    }

    /// An empty output at column `col`.
    fn new(col: usize) -> (w: Writer)
        ensures
            w@ == (PState { out: seq![], col: col as int, pending: 0, needs_indent: false }),
    {
        Writer { out: String::new(), col, pending_indent: 0, needs_indent: false }
    }

    fn flush_indent(&mut self)
        ensures
            final(self)@ == flush(old(self)@),
    {
        if self.needs_indent {
            let ghost start = self.out@;
            let ghost col0 = self.col;
            let pending = self.pending_indent;
            let mut k: usize = 0;
            proof {
                assert(start + spaces(0) =~= start);
            }
            while k < pending
                invariant
                    k <= pending,
                    pending == old(self).pending_indent,
                    self.pending_indent == pending,
                    self.col == col0 == old(self).col,
                    self.needs_indent,
                    start == old(self).out@,
                    self.out@ == start + spaces(k as int),
                decreases pending - k,
            {
                proof {
                    reveal_strlit(" ");
                }
                self.out.append(" ");
                proof {
                    assert(start + spaces(k + 1) =~= start + spaces(k as int) + " "@);
                }
                k += 1;
            }
            self.col = self.col.saturating_add(self.pending_indent);
            self.needs_indent = false;
        }
    }

    /// Write text that contains no newline.
    fn write_text(&mut self, s: &str)
        ensures
            final(self)@ == put_text(old(self)@, s@),
    {
        let n = s.unicode_len();
        if n == 0 {
            return ;
        }
        self.flush_indent();
        self.out.append(s);
        self.col = self.col.saturating_add(n);
    }

    /// Move to a fresh line indented to `indent`.
    fn newline(&mut self, indent: usize)
        ensures
            final(self)@ == put_newline(old(self)@, indent as int),
    {
        proof {
            reveal_strlit("\n");
        }
        let ghost before = self.out@;
        self.out.append("\n");
        proof {
            assert(before + "\n"@ =~= before.push('\n'));
        }
        self.col = 0;
        self.pending_indent = indent;
        self.needs_indent = true;
    }

    /// A blank line, then a fresh line indented to `indent`.
    fn empty_line(&mut self, indent: usize)
        ensures
            final(self)@ == put_empty_line(old(self)@, indent as int),
    {
        proof {
            reveal_strlit("\n\n");
        }
        let ghost before = self.out@;
        self.out.append("\n\n");
        proof {
            assert(before + "\n\n"@ =~= before.push('\n').push('\n'));
        }
        self.col = 0;
        self.pending_indent = indent;
        self.needs_indent = true;
    }

    /// Splice possibly multi-line text: only a pending indent on its first
    /// line is written.
    fn write_verbatim(&mut self, s: &str)
        ensures
            final(self)@ == put_verbatim(old(self)@, s@),
    {
        self.flush_indent();
        self.out.append(s);
        let chars = chars_of(s);
        let n = chars.len();
        let mut last: Option<usize> = None;
        let mut i: usize = 0;
        proof {
            assert(chars@.subrange(0, 0).len() == 0);
        }
        while i < n
            invariant
                n == chars@.len(),
                chars@ == s@,
                i <= n,
                crate::ast::opt_index(last) == last_newline(chars@.subrange(0, i as int)),
                last matches Some(p) ==> p < i,
            decreases n - i,
        {
            proof {
                assert(chars@.subrange(0, i + 1).drop_last() =~= chars@.subrange(0, i as int));
            }
            if chars[i] == '\n' {
                last = Some(i);
            }
            i += 1;
        }
        proof {
            assert(chars@.subrange(0, n as int) =~= chars@);
        }
        match last {
            Some(p) => {
                self.col = n - p - 1;
            },
            None => {
                self.col = self.col.saturating_add(n);
            },
        }
    }
}

/// Renders documents against a line width and an indent step.
pub struct Printer {
    line_width: usize,
    indent_unit: usize,
}

impl Printer {
    pub closed spec fn width(&self) -> int {
        self.line_width as int
    }

    pub closed spec fn unit(&self) -> int {
        self.indent_unit as int
    }

    pub fn new(style: FormatStyle) -> (p: Printer)
        ensures
            p.width() == style.line_width,
            p.unit() == style.indent_width,
    {
        Printer { line_width: style.line_width, indent_unit: style.indent_width }
    }

    /// Print a complete document starting at column 0.
    pub fn print(&self, ir: &Ir) -> (r: String)
        ensures
            r@ == rendered(ir@, 0, 0, self.width(), self.unit()),
    {
        self.run(ir, 0, 0)
    }

    /// Print a document that sits at indent level `indent_level`, without
    /// its first line's indent (the caller writes that); width decisions
    /// start from the column where it actually sits.
    pub fn print_at(&self, ir: &Ir, indent_level: usize) -> (r: String)
        ensures
            r@ == rendered(
                ir@,
                sat(indent_level * self.unit()),
                sat(indent_level * self.unit()),
                self.width(),
                self.unit(),
            ),
    {
        let base = indent_level.checked_mul(self.indent_unit).unwrap_or(usize::MAX);
        proof {
            if indent_level * self.unit() > usize::MAX {
                assert(base == usize::MAX);
            }
        }
        self.run(ir, base, base)
    }

    fn run(&self, ir: &Ir, base_indent: usize, init_col: usize) -> (r: String)
        ensures
            r@ == rendered(ir@, base_indent as int, init_col as int, self.width(), self.unit()),
    {
        let mut w = Writer::new(init_col);
        self.emit(&mut w, ir, base_indent, Mode::Break);
        w.out
    }

    /// Lay out `node` onto `w`.
    fn emit(&self, w: &mut Writer, node: &Ir, indent: usize, mode: Mode)
        ensures
            final(w)@ == layout(node@, indent as int, mode, old(w)@, self.width(), self.unit()),
        decreases node,
    {
        match node {
            Ir::Nil => {},
            Ir::Text(s) => w.write_text(s.as_str()),
            Ir::Verbatim { text, .. } => w.write_verbatim(text.as_str()),
            Ir::Concat(items) => self.emit_all(w, items, indent, mode),
            Ir::Indent(inner) => {
                self.emit(w, inner, indent.saturating_add(self.indent_unit), mode);
            },
            Ir::Line => {
                proof {
                    reveal_strlit(" ");
                    assert(" "@ =~= seq![' ']);
                }
                match mode {
                    Mode::Flat => w.write_text(" "),
                    Mode::Break => w.newline(indent),
                }
            },
            Ir::SoftLine => {
                if mode == Mode::Break {
                    w.newline(indent);
                }
            },
            Ir::HardLine => w.newline(indent),
            Ir::EmptyLine => w.empty_line(indent),
            Ir::IfBreak { flat, broken } => {
                if mode == Mode::Break {
                    self.emit(w, broken, indent, mode);
                } else {
                    self.emit(w, flat, indent, mode);
                }
            },
            Ir::Group { inner, expand, hug } => {
                let m = if *expand || !self.fits(w.col, inner, *hug) {
                    Mode::Break
                } else {
                    Mode::Flat
                };
                self.emit(w, inner, indent, m);
            },
            Ir::ConditionalGroup(cands) => {
                proof {
                    lemma_irs_view(cands@);
                }
                if cands.len() > 0 {
                    let (m, k) = self.pick_candidate(w.col, cands);
                    assert(decreases_to!(cands => cands@[k as int]));
                    self.emit(w, &cands[k], indent, m);
                } else {
                    proof {
                        assert(pick(irs_view(cands@), w@.col, self.width()) == (Mode::Flat, 0int));
                    }
                }
            },
        }
    }

    /// Lay out `items` onto `w`, one after another.
    fn emit_all(&self, w: &mut Writer, items: &Vec<Ir>, indent: usize, mode: Mode)
        ensures
            final(w)@ == layout_docs(
                irs_view(items@),
                indent as int,
                mode,
                old(w)@,
                self.width(),
                self.unit(),
            ),
        decreases items,
    {
        let ghost w0 = w@;
        let ghost docs = irs_view(items@);
        proof {
            lemma_irs_view(items@);
            assert(docs.subrange(0, 0).len() == 0);
        }
        let mut i: usize = 0;
        while i < items.len()
            invariant
                i <= items@.len(),
                docs == irs_view(items@),
                docs.len() == items@.len(),
                forall|j: int| 0 <= j < items@.len() ==> #[trigger] docs[j] == ir_view(items@[j]),
                w@ == layout_docs(
                    docs.subrange(0, i as int),
                    indent as int,
                    mode,
                    w0,
                    self.width(),
                    self.unit(),
                ),
            decreases items@.len() - i,
        {
            assert(decreases_to!(items => items@[i as int]));
            self.emit(w, &items[i], indent, mode);
            proof {
                assert(docs.subrange(0, i + 1).subrange(0, i as int) =~= docs.subrange(
                    0,
                    i as int,
                ));
            }
            i += 1;
        }
        proof {
            assert(docs.subrange(0, items@.len() as int) =~= docs);
        }
    }

    /// Pick the candidate of a conditional group at column `col`.
    pub fn pick_candidate(&self, col: usize, cands: &Vec<Ir>) -> (r: (Mode, usize))
        requires
            cands@.len() > 0,
        ensures
            r.1 < cands@.len(),
            (r.0, r.1 as int) == pick(irs_view(cands@), col as int, self.width()),
        decreases cands,
    {
        let n = cands.len();
        let ghost docs = irs_view(cands@);
        proof {
            lemma_irs_view(cands@);
            assert(docs.subrange(0, n as int) =~= docs);
        }
        let mut i: usize = 0;
        while i < n
            invariant
                n == cands@.len() == docs.len(),
                i < n,
                docs == irs_view(cands@),
                forall|j: int| 0 <= j < cands@.len() ==> #[trigger] docs[j] == ir_view(cands@[j]),
                pick(docs, col as int, self.width()) == ({
                    let (m, j) = pick(docs.subrange(i as int, n as int), col as int, self.width());
                    (m, j + i)
                }),
            decreases n - i,
        {
            assert(decreases_to!(cands => cands@[i as int]));
            let fit = match self.flf_node(&cands[i], Mode::Flat, col) {
                FitStep::Stop(b) => b,
                FitStep::Go(_) => true,
            };
            proof {
                assert(docs.subrange(i as int, n as int)[0] == docs[i as int]);
            }
            if fit {
                return (Mode::Flat, i);
            }
            if i + 1 == n {
                return (Mode::Break, i);
            }
            proof {
                assert(docs.subrange(i as int, n as int).subrange(1, (n - i) as int)
                    =~= docs.subrange(i + 1, n as int));
            }
            i += 1;
        }
        (Mode::Break, 0)
    }

    /// Does `node` fit flat from column `start_col`?
    fn fits(&self, start_col: usize, node: &Ir, hug: bool) -> (b: bool)
        ensures
            b == fits(start_col as int, node@, hug, self.width()),
    {
        let remaining = self.line_width.saturating_sub(start_col);
        match self.fit_node(node, remaining, hug) {
            FitStep::Stop(b) => b,
            FitStep::Go(_) => true,
        }
    }

    fn fit_node(&self, node: &Ir, rem: usize, hug: bool) -> (r: FitStep)
        ensures
            r@ == fit_doc(node@, rem as int, hug),
            r matches FitStep::Go(k) ==> k <= rem,
        decreases node,
    {
        match node {
            Ir::Nil | Ir::SoftLine => FitStep::Go(rem),
            Ir::Text(s) => {
                let n = s.as_str().unicode_len();
                if n > rem {
                    FitStep::Stop(false)
                } else {
                    FitStep::Go(rem - n)
                }
            },
            Ir::HardLine | Ir::EmptyLine => FitStep::Stop(hug),
            Ir::Verbatim { text, force_break } => {
                if *force_break {
                    return FitStep::Stop(false);
                }
                let n = text.as_str().unicode_len();
                if n > rem {
                    FitStep::Stop(false)
                } else {
                    FitStep::Go(rem - n)
                }
            },
            Ir::Concat(items) => self.fit_all(items, rem, hug),
            Ir::Indent(inner) => self.fit_node(inner, rem, hug),
            Ir::Line => {
                if rem == 0 {
                    FitStep::Stop(false)
                } else {
                    FitStep::Go(rem - 1)
                }
            },
            Ir::IfBreak { flat, .. } => self.fit_node(flat, rem, hug),
            Ir::Group { inner, expand, .. } => {
                if *expand {
                    FitStep::Stop(false)
                } else {
                    self.fit_node(inner, rem, hug)
                }
            },
            Ir::ConditionalGroup(cands) => {
                proof {
                    lemma_irs_view(cands@);
                }
                if cands.len() > 0 {
                    assert(decreases_to!(cands => cands@[0]));
                    self.fit_node(&cands[0], rem, hug)
                } else {
                    FitStep::Go(rem)
                }
            },
        }
    }

    fn fit_all(&self, items: &Vec<Ir>, rem: usize, hug: bool) -> (r: FitStep)
        ensures
            r@ == fit_docs(irs_view(items@), rem as int, hug),
            r matches FitStep::Go(k) ==> k <= rem,
        decreases items,
    {
        let ghost docs = irs_view(items@);
        proof {
            lemma_irs_view(items@);
            assert(docs.subrange(0, 0).len() == 0);
        }
        let mut left = rem;
        let mut i: usize = 0;
        while i < items.len()
            invariant
                i <= items@.len(),
                left <= rem,
                docs == irs_view(items@),
                docs.len() == items@.len(),
                forall|j: int| 0 <= j < items@.len() ==> #[trigger] docs[j] == ir_view(items@[j]),
                fit_docs(docs.subrange(0, i as int), rem as int, hug) == Fit::Go(left as int),
            decreases items@.len() - i,
        {
            assert(decreases_to!(items => items@[i as int]));
            let step = self.fit_node(&items[i], left, hug);
            proof {
                assert(docs.subrange(0, i + 1).subrange(0, i as int) =~= docs.subrange(
                    0,
                    i as int,
                ));
            }
            match step {
                FitStep::Stop(b) => {
                    proof {
                        lemma_fit_docs_stopped(docs, i + 1, rem as int, hug);
                    }
                    return FitStep::Stop(b);
                },
                FitStep::Go(k) => {
                    left = k;
                },
            }
            i += 1;
        }
        proof {
            assert(docs.subrange(0, items@.len() as int) =~= docs);
        }
        FitStep::Go(left)
    }

    /// Does the first line of `node` fit from column `start_col`?
    fn first_line_fits(&self, start_col: usize, node: &Ir) -> (b: bool)
        ensures
            b == first_line_fits(start_col as int, node@, self.width()),
    {
        match self.flf_node(node, Mode::Flat, start_col) {
            FitStep::Stop(b) => b,
            FitStep::Go(_) => true,
        }
    }

    fn flf_node(&self, node: &Ir, mode: Mode, col: usize) -> (r: FitStep)
        ensures
            r@ == flf_doc(node@, mode, col as int, self.width()),
        decreases node,
    {
        match node {
            Ir::Nil => FitStep::Go(col),
            Ir::Text(s) => {
                let c = col.saturating_add(s.as_str().unicode_len());
                if c > self.line_width {
                    FitStep::Stop(false)
                } else {
                    FitStep::Go(c)
                }
            },
            Ir::Verbatim { text, force_break } => {
                if let Some(k) = first_newline(text.as_str()) {
                    return FitStep::Stop(col.saturating_add(k) <= self.line_width);
                }
                if *force_break {
                    return FitStep::Stop(false);
                }
                let c = col.saturating_add(text.as_str().unicode_len());
                if c > self.line_width {
                    FitStep::Stop(false)
                } else {
                    FitStep::Go(c)
                }
            },
            Ir::Concat(items) => self.flf_all(items, mode, col),
            Ir::Indent(inner) => self.flf_node(inner, mode, col),
            Ir::Line => {
                if mode == Mode::Break {
                    return FitStep::Stop(true);
                }
                let c = col.saturating_add(1);
                if c > self.line_width {
                    FitStep::Stop(false)
                } else {
                    FitStep::Go(c)
                }
            },
            Ir::SoftLine => {
                if mode == Mode::Break {
                    FitStep::Stop(true)
                } else {
                    FitStep::Go(col)
                }
            },
            Ir::HardLine | Ir::EmptyLine => FitStep::Stop(true),
            Ir::IfBreak { flat, broken } => {
                if mode == Mode::Break {
                    self.flf_node(broken, mode, col)
                } else {
                    self.flf_node(flat, mode, col)
                }
            },
            Ir::Group { inner, expand, hug } => {
                let m = if *expand || !self.fits(col, inner, *hug) {
                    Mode::Break
                } else {
                    Mode::Flat
                };
                self.flf_node(inner, m, col)
            },
            Ir::ConditionalGroup(cands) => {
                proof {
                    lemma_irs_view(cands@);
                }
                if cands.len() == 0 {
                    return FitStep::Go(col);
                }
                let (m, k) = self.pick_candidate(col, cands);
                assert(decreases_to!(cands => cands@[k as int]));
                self.flf_node(&cands[k], m, col)
            },
        }
    }

    fn flf_all(&self, items: &Vec<Ir>, mode: Mode, col: usize) -> (r: FitStep)
        ensures
            r@ == flf_docs(irs_view(items@), mode, col as int, self.width()),
        decreases items,
    {
        let ghost docs = irs_view(items@);
        proof {
            lemma_irs_view(items@);
            assert(docs.subrange(0, 0).len() == 0);
        }
        let mut c = col;
        let mut i: usize = 0;
        while i < items.len()
            invariant
                i <= items@.len(),
                docs == irs_view(items@),
                docs.len() == items@.len(),
                forall|j: int| 0 <= j < items@.len() ==> #[trigger] docs[j] == ir_view(items@[j]),
                flf_docs(docs.subrange(0, i as int), mode, col as int, self.width()) == Fit::Go(
                    c as int,
                ),
            decreases items@.len() - i,
        {
            assert(decreases_to!(items => items@[i as int]));
            let step = self.flf_node(&items[i], mode, c);
            proof {
                assert(docs.subrange(0, i + 1).subrange(0, i as int) =~= docs.subrange(
                    0,
                    i as int,
                ));
            }
            match step {
                FitStep::Stop(b) => {
                    proof {
                        lemma_flf_docs_stopped(docs, i + 1, mode, col as int, self.width());
                    }
                    return FitStep::Stop(b);
                },
                FitStep::Go(k) => {
                    c = k;
                },
            }
            i += 1;
        }
        proof {
            assert(docs.subrange(0, items@.len() as int) =~= docs);
        }
        FitStep::Go(c)
    }
}

} // verus!
