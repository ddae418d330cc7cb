//! The layout document. Each construct is turned into an [`Ir`] tree that
//! describes its possible layouts, with break points; the printer resolves it
//! against the line width. [`Doc`] is its mathematical reading.

use vstd::prelude::*;

verus! {

/// A document node describing how a piece of code may be laid out.
pub enum Ir {
    /// Literal text, without a newline.
    Text(String),
    /// Nodes printed one after another.
    Concat(Vec<Ir>),
    /// Flat: a space. Broken: a newline and the current indent.
    Line,
    /// Flat: nothing. Broken: a newline and the current indent.
    SoftLine,
    /// Always a newline and the current indent; forces enclosing groups to
    /// break.
    HardLine,
    /// A blank line, then the next line's indent; forces enclosing groups to
    /// break.
    EmptyLine,
    /// One more indent step for everything inside.
    Indent(Box<Ir>),
    /// A break decision: flat when `inner` fits flat on the line, broken
    /// otherwise; `expand` forces it broken. With `hug`, the fit measurement
    /// succeeds at the first forced newline, so a trailing block may open on
    /// the line of its prefix.
    Group { inner: Box<Ir>, expand: bool, hug: bool },
    /// `flat` inside a flat group, `broken` inside a broken one.
    IfBreak { flat: Box<Ir>, broken: Box<Ir> },
    /// Pre-rendered text spliced in as it is; `force_break` keeps the
    /// enclosing group from staying flat.
    Verbatim { text: String, force_break: bool },
    /// Candidate layouts in order of preference: the first whose first line
    /// fits is printed flat; when none does, the last is printed broken.
    ConditionalGroup(Vec<Ir>),
    /// Nothing.
    Nil,
}

/// The mathematical reading of an [`Ir`]: the same tree, with texts as
/// character sequences.
pub enum Doc {
    Text(Seq<char>),
    Concat(Seq<Doc>),
    Line,
    SoftLine,
    HardLine,
    EmptyLine,
    Indent(Box<Doc>),
    Group { inner: Box<Doc>, expand: bool, hug: bool },
    IfBreak { flat: Box<Doc>, broken: Box<Doc> },
    Verbatim { text: Seq<char>, force_break: bool },
    ConditionalGroup(Seq<Doc>),
    Nil,
}

/// The document an [`Ir`] stands for.
pub open spec fn ir_view(ir: Ir) -> Doc
    decreases ir,
{
    match ir {
        Ir::Text(s) => Doc::Text(s@),
        Ir::Concat(items) => Doc::Concat(irs_view(items@)),
        Ir::Line => Doc::Line,
        Ir::SoftLine => Doc::SoftLine,
        Ir::HardLine => Doc::HardLine,
        Ir::EmptyLine => Doc::EmptyLine,
        Ir::Indent(inner) => Doc::Indent(Box::new(ir_view(*inner))),
        Ir::Group { inner, expand, hug } => Doc::Group {
            inner: Box::new(ir_view(*inner)),
            expand,
            hug,
        },
        Ir::IfBreak { flat, broken } => Doc::IfBreak {
            flat: Box::new(ir_view(*flat)),
            broken: Box::new(ir_view(*broken)),
        },
        Ir::Verbatim { text, force_break } => Doc::Verbatim { text: text@, force_break },
        Ir::ConditionalGroup(cands) => Doc::ConditionalGroup(irs_view(cands@)),
        Ir::Nil => Doc::Nil,
    }
}

/// The documents of a sequence of nodes.
pub open spec fn irs_view(s: Seq<Ir>) -> Seq<Doc>
    decreases s,
{
    if s.len() == 0 {
        seq![]
    } else {
        irs_view(s.subrange(0, s.len() - 1)).push(ir_view(s[s.len() - 1]))
    }
}

impl Ir {
    pub open spec fn view(&self) -> Doc {
        ir_view(*self)
    }
}

pub proof fn lemma_irs_view(s: Seq<Ir>)
    ensures
        irs_view(s).len() == s.len(),
        forall|i: int| 0 <= i < s.len() ==> #[trigger] irs_view(s)[i] == ir_view(s[i]),
    decreases s.len(),
{
    if s.len() > 0 {
        lemma_irs_view(s.subrange(0, s.len() - 1));
    }
}

/// The documents of `s` are `d`, element by element.
pub proof fn lemma_irs_view_eq(s: Seq<Ir>, d: Seq<Doc>)
    requires
        s.len() == d.len(),
        forall|i: int| 0 <= i < s.len() ==> ir_view(#[trigger] s[i]) == d[i],
    ensures
        irs_view(s) == d,
{
    lemma_irs_view(s);
    assert(irs_view(s) =~= d);
}

pub proof fn lemma_irs_view_push(s: Seq<Ir>, x: Ir)
    ensures
        irs_view(s.push(x)) == irs_view(s).push(ir_view(x)),
{
    assert(s.push(x).subrange(0, s.len() as int) =~= s);
}

/// The document has a newline that no layout choice removes: a hard or empty
/// line, a forced verbatim, or an expanded group (for a conditional group,
/// its first, flattest candidate decides).
pub open spec fn doc_forced(d: Doc) -> bool
    decreases d,
{
    match d {
        Doc::HardLine | Doc::EmptyLine => true,
        Doc::Verbatim { force_break, .. } => force_break,
        Doc::Concat(items) => docs_forced(items),
        Doc::Indent(inner) => doc_forced(*inner),
        Doc::Group { inner, expand, .. } => expand || doc_forced(*inner),
        Doc::ConditionalGroup(cands) => cands.len() > 0 && doc_forced(cands[0]),
        _ => false,
    }
}

/// Some document of `s` is forced to break.
pub open spec fn docs_forced(s: Seq<Doc>) -> bool
    decreases s,
{
    if s.len() == 0 {
        false
    } else {
        docs_forced(s.subrange(0, s.len() - 1)) || doc_forced(s[s.len() - 1])
    }
}

/// The items that are not `Nil`, in order.
pub open spec fn non_nil(s: Seq<Doc>) -> Seq<Doc>
    decreases s.len(),
{
    if s.len() == 0 {
        s
    } else {
        let rest = non_nil(s.drop_last());
        if s.last() is Nil {
            rest
        } else {
            rest.push(s.last())
        }
    }
}

/// `items` with `sep` between each two of them.
pub open spec fn interleave(sep: Doc, items: Seq<Doc>) -> Seq<Doc>
    decreases items.len(),
{
    if items.len() <= 1 {
        items
    } else {
        interleave(sep, items.subrange(0, items.len() - 1)).push(sep).push(items[items.len() - 1])
    }
}

/// What [`Ir::concat`] builds from `items`.
pub open spec fn concat_doc(items: Seq<Doc>) -> Doc {
    let kept = non_nil(items);
    if kept.len() == 0 {
        Doc::Nil
    } else if kept.len() == 1 {
        kept[0]
    } else {
        Doc::Concat(kept)
    }
}

/// No conditional group of the document is empty.
pub open spec fn doc_wf(d: Doc) -> bool
    decreases d,
{
    match d {
        Doc::Concat(items) => docs_wf(items),
        Doc::Indent(inner) => doc_wf(*inner),
        Doc::Group { inner, .. } => doc_wf(*inner),
        Doc::IfBreak { flat, broken } => doc_wf(*flat) && doc_wf(*broken),
        Doc::ConditionalGroup(cands) => cands.len() > 0 && docs_wf(cands),
        _ => true,
    }
}

pub open spec fn docs_wf(s: Seq<Doc>) -> bool
    decreases s,
{
    if s.len() == 0 {
        true
    } else {
        docs_wf(s.subrange(0, s.len() - 1)) && doc_wf(s[s.len() - 1])
    }
}

impl Ir {
    /// Literal text, copied from `s`.
    pub fn text(s: &str) -> (r: Ir)
        ensures
            r@ == Doc::Text(s@),
    {
        Ir::Text(String::from_str(s))
    }

    /// Literal text, taking `s`.
    pub fn text_string(s: String) -> (r: Ir)
        ensures
            r@ == Doc::Text(s@),
    {
        Ir::Text(s)
    }

    /// The non-`Nil` items in a row: `Nil` when there are none, the item
    /// itself when there is one.
    pub fn concat(items: Vec<Ir>) -> (r: Ir)
        ensures
            r@ == concat_doc(irs_view(items@)),
    {
        let mut kept: Vec<Ir> = Vec::new();
        let mut items = items;
        let ghost all = items@;
        let mut i: usize = 0;
        let n = items.len();
        while items.len() > 0
            invariant
                i <= n == all.len(),
                items@ == all.subrange(i as int, n as int),
                irs_view(kept@) == non_nil(irs_view(all.subrange(0, i as int))),
            decreases items@.len(),
        {
            let item = items.remove(0);
            proof {
                assert(item == all[i as int]);
                assert(all.subrange(i as int, n as int).remove(0) =~= all.subrange(i + 1, n as int));
                lemma_irs_view_push(all.subrange(0, i as int), item);
                assert(all.subrange(0, i as int).push(item) =~= all.subrange(0, i + 1));
                assert(irs_view(all.subrange(0, i + 1)).drop_last() =~= irs_view(
                    all.subrange(0, i as int),
                ));
            }
            match item {
                Ir::Nil => {},
                other => {
                    proof {
                        lemma_irs_view_push(kept@, other);
                    }
                    kept.push(other);
                },
            }
            i += 1;
        }
        proof {
            assert(all.subrange(0, n as int) =~= all);
            lemma_irs_view(kept@);
        }
        if kept.len() == 0 {
            Ir::Nil
        } else if kept.len() == 1 {
            kept.pop().unwrap()
        } else {
            Ir::Concat(kept)
        }
    }

    pub fn group(inner: Ir) -> (r: Ir)
        ensures
            r@ == (Doc::Group { inner: Box::new(inner@), expand: false, hug: false }),
    {
        Ir::Group { inner: Box::new(inner), expand: false, hug: false }
    }

    pub fn group_expanded(inner: Ir) -> (r: Ir)
        ensures
            r@ == (Doc::Group { inner: Box::new(inner@), expand: true, hug: false }),
    {
        Ir::Group { inner: Box::new(inner), expand: true, hug: false }
    }

    /// A group that hugs a trailing block: flat as long as the prefix up to
    /// the block's opening brace fits.
    pub fn group_hug(inner: Ir) -> (r: Ir)
        ensures
            r@ == (Doc::Group { inner: Box::new(inner@), expand: false, hug: true }),
    {
        Ir::Group { inner: Box::new(inner), expand: false, hug: true }
    }

    /// Candidate layouts in order of preference; there must be at least one.
    pub fn conditional_group(candidates: Vec<Ir>) -> (r: Ir)
        requires
            candidates@.len() > 0,
        ensures
            r@ == Doc::ConditionalGroup(irs_view(candidates@)),
    {
        Ir::ConditionalGroup(candidates)
    }

    pub fn indent(inner: Ir) -> (r: Ir)
        ensures
            r@ == Doc::Indent(Box::new(inner@)),
    {
        Ir::Indent(Box::new(inner))
    }

    pub fn if_break(flat: Ir, broken: Ir) -> (r: Ir)
        ensures
            r@ == (Doc::IfBreak { flat: Box::new(flat@), broken: Box::new(broken@) }),
    {
        Ir::IfBreak { flat: Box::new(flat), broken: Box::new(broken) }
    }

    /// Pre-rendered text that forces a break only when it spans several
    /// lines.
    pub fn verbatim(s: &str) -> (r: Ir)
        ensures
            r@ == (Doc::Verbatim { text: s@, force_break: s@.contains('\n') }),
    {
        let chars = crate::parser::lexer::chars_of(s);
        let mut has_newline = false;
        let mut i: usize = 0;
        while i < chars.len()
            invariant
                chars@ == s@,
                i <= chars@.len(),
                has_newline == exists|j: int| 0 <= j < i && chars@[j] == '\n',
            decreases chars@.len() - i,
        {
            if chars[i] == '\n' {
                has_newline = true;
            }
            i += 1;
        }
        Ir::Verbatim { text: String::from_str(s), force_break: has_newline }
    }

    /// Pre-rendered text that always forces the enclosing group to break,
    /// such as a comment.
    pub fn verbatim_forced(s: &str) -> (r: Ir)
        ensures
            r@ == (Doc::Verbatim { text: s@, force_break: true }),
    {
        Ir::Verbatim { text: String::from_str(s), force_break: true }
    }

    pub fn line() -> (r: Ir)
        ensures
            r@ == Doc::Line,
    {
        Ir::Line
    }

    pub fn soft_line() -> (r: Ir)
        ensures
            r@ == Doc::SoftLine,
    {
        Ir::SoftLine
    }

    pub fn hard_line() -> (r: Ir)
        ensures
            r@ == Doc::HardLine,
    {
        Ir::HardLine
    }

    pub fn empty_line() -> (r: Ir)
        ensures
            r@ == Doc::EmptyLine,
    {
        Ir::EmptyLine
    }

    pub fn nil() -> (r: Ir)
        ensures
            r@ == Doc::Nil,
    {
        Ir::Nil
    }

    /// A node with the same document.
    pub fn duplicate(&self) -> (r: Ir)
        ensures
            r@ == self@,
        decreases self,
    {
        match self {
            Ir::Text(s) => Ir::Text(s.clone()),
            Ir::Concat(items) => Ir::Concat(duplicate_all(items)),
            Ir::Line => Ir::Line,
            Ir::SoftLine => Ir::SoftLine,
            Ir::HardLine => Ir::HardLine,
            Ir::EmptyLine => Ir::EmptyLine,
            Ir::Indent(inner) => Ir::Indent(Box::new(inner.duplicate())),
            Ir::Group { inner, expand, hug } => Ir::Group {
                inner: Box::new(inner.duplicate()),
                expand: *expand,
                hug: *hug,
            },
            Ir::IfBreak { flat, broken } => Ir::IfBreak {
                flat: Box::new(flat.duplicate()),
                broken: Box::new(broken.duplicate()),
            },
            Ir::Verbatim { text, force_break } => Ir::Verbatim {
                text: text.clone(),
                force_break: *force_break,
            },
            Ir::ConditionalGroup(cands) => Ir::ConditionalGroup(duplicate_all(cands)),
            Ir::Nil => Ir::Nil,
        }
    }

    /// `items` with a copy of `sep` between each two of them.
    pub fn join(sep: Ir, items: Vec<Ir>) -> (r: Ir)
        ensures
            r@ == concat_doc(interleave(sep@, irs_view(items@))),
    {
        let mut out: Vec<Ir> = Vec::new();
        let mut rest = items;
        let ghost all = items@;
        let n = rest.len();
        let mut i: usize = 0;
        proof {
            assert(irs_view(all.subrange(0, 0)) =~= Seq::<Doc>::empty());
            assert(irs_view(out@) =~= interleave(sep@, irs_view(all.subrange(0, 0))));
        }
        while rest.len() > 0
            invariant
                i <= n == all.len(),
                rest@ == all.subrange(i as int, n as int),
                irs_view(out@) == interleave(sep@, irs_view(all.subrange(0, i as int))),
            decreases rest@.len(),
        {
            let item = rest.remove(0);
            proof {
                assert(item == all[i as int]);
                assert(all.subrange(i as int, n as int).remove(0) =~= all.subrange(i + 1, n as int));
                lemma_irs_view_push(all.subrange(0, i as int), item);
                assert(all.subrange(0, i as int).push(item) =~= all.subrange(0, i + 1));
                lemma_irs_view(all.subrange(0, i as int));
                assert(irs_view(all.subrange(0, i + 1)).subrange(0, i as int) =~= irs_view(
                    all.subrange(0, i as int),
                ));
            }
            if i > 0 {
                let s = sep.duplicate();
                proof {
                    lemma_irs_view_push(out@, s);
                }
                out.push(s);
            }
            proof {
                lemma_irs_view_push(out@, item);
            }
            out.push(item);
            i += 1;
        }
        proof {
            assert(all.subrange(0, n as int) =~= all);
        }
        Ir::concat(out)
    }

    /// Whether the document has a newline that no layout choice removes.
    pub fn contains_forced_break(&self) -> (b: bool)
        ensures
            b == doc_forced(self@),
        decreases self,
    {
        match self {
            Ir::HardLine | Ir::EmptyLine => true,
            Ir::Verbatim { force_break, .. } => *force_break,
            Ir::Concat(items) => any_forced(items),
            Ir::Indent(inner) => inner.contains_forced_break(),
            Ir::Group { inner, expand, .. } => *expand || inner.contains_forced_break(),
            Ir::ConditionalGroup(cands) => {
                proof {
                    lemma_irs_view(cands@);
                }
                if cands.len() > 0 {
                    cands[0].contains_forced_break()
                } else {
                    false
                }
            },
            Ir::Text(_) | Ir::Line | Ir::SoftLine | Ir::IfBreak { .. } | Ir::Nil => false,
        }
    }
}

fn duplicate_all(items: &Vec<Ir>) -> (r: Vec<Ir>)
    ensures
        irs_view(r@) == irs_view(items@),
    decreases items,
{
    let mut out: Vec<Ir> = Vec::new();
    let mut i: usize = 0;
    proof {
        assert(irs_view(out@) =~= irs_view(items@.subrange(0, 0)));
    }
    while i < items.len()
        invariant
            i <= items@.len(),
            irs_view(out@) == irs_view(items@.subrange(0, i as int)),
        decreases items@.len() - i,
    {
        assert(decreases_to!(items => items@[i as int]));
        let d = items[i].duplicate();
        proof {
            lemma_irs_view_push(out@, d);
            lemma_irs_view_push(items@.subrange(0, i as int), items@[i as int]);
            assert(items@.subrange(0, i as int).push(items@[i as int]) =~= items@.subrange(
                0,
                i + 1,
            ));
        }
        out.push(d);
        i += 1;
    }
    proof {
        assert(items@.subrange(0, items@.len() as int) =~= items@);
    }
    out
}

fn any_forced(items: &Vec<Ir>) -> (b: bool)
    ensures
        b == docs_forced(irs_view(items@)),
    decreases items,
{
    let mut i: usize = 0;
    let mut found = false;
    proof {
        lemma_irs_view(items@);
    }
    while i < items.len()
        invariant
            i <= items@.len(),
            irs_view(items@).len() == items@.len(),
            found == docs_forced(irs_view(items@).subrange(0, i as int)),
        decreases items@.len() - i,
    {
        assert(decreases_to!(items => items@[i as int]));
        proof {
            lemma_irs_view(items@);
            assert(irs_view(items@).subrange(0, i + 1).subrange(0, i as int) =~= irs_view(
                items@,
            ).subrange(0, i as int));
        }
        let f = items[i].contains_forced_break();
        found = found || f;
        i += 1;
    }
    proof {
        assert(irs_view(items@).subrange(0, items@.len() as int) =~= irs_view(items@));
    }
    found
}

} // verus!
