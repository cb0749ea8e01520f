//! The edges of inline marks: where their delimiters stand, and how an edit keeps white
//! space from standing against them.
//!
//! A rendered view draws no glyph for a delimiter, so the two sides of one are a single
//! place on screen. The functions here move an offset from one side to the other, and
//! re-spell a run whose delimiters an edit would put out.

use vstd::prelude::*;
use vstd::utf8::*;
use crate::editor;
use crate::editor::{Ancestor, AncestorView};
use crate::marks;
use crate::marks::{InlineKind, InlineMarks};
use crate::node::{Kind, Span};
use crate::text;

verus! {

/// An inline mark that a place in the document lies in.
#[derive(Clone, Copy, PartialEq, Eq, Debug, Structural)]
pub struct MarkAt {
    pub kind: InlineKind,
    /// The bytes of the run, its delimiters included.
    pub span: Span,
    /// The bytes between the delimiters, where they are known.
    pub content: Option<Span>,
    /// The node's number in the tree.
    pub id: u32,
}

/// Whether a range lies in a text, between its characters.
pub open spec fn fits(source: Seq<char>, span: Span) -> bool {
    &&& span.start <= span.end <= text::byte_len(source)
    &&& text::boundary(source, span.start as int)
    &&& text::boundary(source, span.end as int)
}

/// Whether a run lies in a text and its content in the run.
pub open spec fn run_fits(source: Seq<char>, span: Span, content: Option<Span>) -> bool {
    fits(source, span) && (content matches Some(c) ==> fits(source, c) && span.start <= c.start
        && c.end <= span.end)
}

/// Whether every run of some marks lies in a text.
pub open spec fn all_fit(source: Seq<char>, runs: Seq<MarkAt>) -> bool {
    forall|i: int| 0 <= i < runs.len() ==> run_fits(source, (#[trigger] runs[i]).span, runs[i].content)
}

/// The marks of a chain of nodes that lie in a text, in order.
pub open spec fn marks_of(chain: Seq<AncestorView>, source: Seq<char>) -> Seq<MarkAt>
    decreases chain.len(),
{
    if chain.len() == 0 {
        Seq::empty()
    } else {
        let rest = marks_of(chain.drop_last(), source);
        let m = chain.last();
        match marks::mark_of(Kind::named(m.name)) {
            Some(kind) => if run_fits(source, m.span, m.content) {
                rest.push(MarkAt { kind, span: m.span, content: m.content, id: m.id })
            } else {
                rest
            },
            None => rest,
        }
    }
}

/// Whether a range lies in a text, between its characters.
pub fn span_fits(source: &str, span: Span) -> (r: bool)
    ensures
        r == fits(source@, span),
{
    span.start <= span.end && span.end <= text::len(source) && source.is_char_boundary(span.start)
        && source.is_char_boundary(span.end)
}

/// The marks of a chain of nodes that lie in `source`, in order.
pub fn marks_in(chain: &Vec<Ancestor>, source: &str) -> (r: Vec<MarkAt>)
    ensures
        r@ == marks_of(editor::chain_view(chain@), source@),
        all_fit(source@, r@),
{
    let ghost views = editor::chain_view(chain@);
    let mut out: Vec<MarkAt> = Vec::new();
    let mut i: usize = 0;
    while i < chain.len()
        invariant
            i <= chain@.len(),
            views == editor::chain_view(chain@),
            out@ == marks_of(views.take(i as int), source@),
            all_fit(source@, out@),
        decreases chain@.len() - i,
    {
        let m = &chain[i];
        assert(views.take(i + 1).drop_last() =~= views.take(i as int));
        assert(views.take(i + 1).last() == m@);
        if let Some(kind) = marks::inline_kind(Kind::from_name(m.name.as_str())) {
            let inside = match m.content {
                Some(c) => span_fits(source, c) && m.span.start <= c.start && c.end <= m.span.end,
                None => true,
            };
            if span_fits(source, m.span) && inside {
                out.push(MarkAt { kind, span: m.span, content: m.content, id: m.id });
            }
        }
        i = i + 1;
    }
    assert(views.take(i as int) =~= views);
    out
}

// ── the two sides of a delimiter ───────────────────────────────────────────────
/// Past the closing delimiters that stand at `off`: the furthest end of a run whose
/// content ends there, or `off`.
pub open spec fn close_past(runs: Seq<MarkAt>, off: int) -> int
    decreases runs.len(),
{
    if runs.len() == 0 {
        off
    } else {
        let best = close_past(runs.drop_last(), off);
        let m = runs.last();
        if m.content is Some && m.content->0.end == off && off < m.span.end && m.span.end > best {
            m.span.end as int
        } else {
            best
        }
    }
}

/// In front of the opening delimiters that end at `off`: the first start of a run whose
/// content starts there, or `off`.
pub open spec fn open_before(runs: Seq<MarkAt>, off: int) -> int
    decreases runs.len(),
{
    if runs.len() == 0 {
        off
    } else {
        let best = open_before(runs.drop_last(), off);
        let m = runs.last();
        if m.content is Some && m.content->0.start == off && m.span.start < off && m.span.start
            < best {
            m.span.start as int
        } else {
            best
        }
    }
}

/// Inside one of the runs that end at `off`: the furthest end of the content of one, where
/// it is not `off` itself.
pub open spec fn close_inside(runs: Seq<MarkAt>, off: int) -> Option<int>
    decreases runs.len(),
{
    if runs.len() == 0 {
        None
    } else {
        let best = close_inside(runs.drop_last(), off);
        let m = runs.last();
        if m.span.end == off && m.content is Some && m.content->0.end < off && (best is None
            || m.content->0.end > best->0) {
            Some(m.content->0.end as int)
        } else {
            best
        }
    }
}

/// Inside one of the runs that start at `off`: the first start of the content of one,
/// where it is not `off` itself.
pub open spec fn open_inside(runs: Seq<MarkAt>, off: int) -> Option<int>
    decreases runs.len(),
{
    if runs.len() == 0 {
        None
    } else {
        let best = open_inside(runs.drop_last(), off);
        let m = runs.last();
        if m.span.start == off && m.content is Some && m.content->0.start > off && (best is None
            || m.content->0.start < best->0) {
            Some(m.content->0.start as int)
        } else {
            best
        }
    }
}

/// The first of the runs that end at `off` whose content is known: its mark, and where
/// its content ends.
pub open spec fn first_closing(runs: Seq<MarkAt>, off: int) -> Option<(InlineKind, int)>
    decreases runs.len(),
{
    if runs.len() == 0 {
        None
    } else {
        let first = first_closing(runs.drop_last(), off);
        let m = runs.last();
        if first is Some {
            first
        } else if m.span.end == off && m.content is Some {
            Some((m.kind, m.content->0.end as int))
        } else {
            None
        }
    }
}

/// Past the closing delimiters that stand at `off`, so that a break put there parts no
/// delimiter from its content.
pub fn skip_trailing_close_delims(source: &str, runs: &Vec<MarkAt>, off: usize) -> (r: usize)
    requires
        all_fit(source@, runs@),
        off <= text::byte_len(source@),
        text::boundary(source@, off as int),
    ensures
        r == close_past(runs@, off as int),
        off <= r <= text::byte_len(source@),
        text::boundary(source@, r as int),
{
    let mut best: usize = off;
    let mut i: usize = 0;
    while i < runs.len()
        invariant
            i <= runs@.len(),
            all_fit(source@, runs@),
            best == close_past(runs@.take(i as int), off as int),
            off <= best <= text::byte_len(source@),
            text::boundary(source@, best as int),
        decreases runs@.len() - i,
    {
        let m = runs[i];
        assert(runs@.take(i + 1).drop_last() =~= runs@.take(i as int));
        if let Some(c) = m.content {
            if c.end == off && off < m.span.end && m.span.end > best {
                best = m.span.end;
            }
        }
        i = i + 1;
    }
    assert(runs@.take(i as int) =~= runs@);
    best
}

/// In front of the opening delimiters that end at `off`: a delete aimed at the character
/// before `off` steps over them.
pub fn skip_leading_open_delims(source: &str, runs: &Vec<MarkAt>, off: usize) -> (r: usize)
    requires
        all_fit(source@, runs@),
        off <= text::byte_len(source@),
        text::boundary(source@, off as int),
    ensures
        r == open_before(runs@, off as int),
        r <= off,
        text::boundary(source@, r as int),
{
    let mut best: usize = off;
    let mut i: usize = 0;
    while i < runs.len()
        invariant
            i <= runs@.len(),
            all_fit(source@, runs@),
            best == open_before(runs@.take(i as int), off as int),
            best <= off,
            text::boundary(source@, best as int),
        decreases runs@.len() - i,
    {
        let m = runs[i];
        assert(runs@.take(i + 1).drop_last() =~= runs@.take(i as int));
        if let Some(c) = m.content {
            if c.start == off && m.span.start < off && m.span.start < best {
                best = m.span.start;
            }
        }
        i = i + 1;
    }
    assert(runs@.take(i as int) =~= runs@);
    best
}

/// One step in through the closing delimiters that end at `off`.
pub fn step_inside_close(source: &str, runs: &Vec<MarkAt>, off: usize) -> (r: Option<usize>)
    requires
        all_fit(source@, runs@),
    ensures
        match r {
            Some(inner) => close_inside(runs@, off as int) == Some(inner as int) && inner < off
                && text::boundary(source@, inner as int),
            None => close_inside(runs@, off as int) is None,
        },
{
    let mut best: Option<usize> = None;
    let mut i: usize = 0;
    while i < runs.len()
        invariant
            i <= runs@.len(),
            all_fit(source@, runs@),
            match best {
                Some(inner) => close_inside(runs@.take(i as int), off as int) == Some(inner as int)
                    && inner < off && text::boundary(source@, inner as int),
                None => close_inside(runs@.take(i as int), off as int) is None,
            },
        decreases runs@.len() - i,
    {
        let m = runs[i];
        assert(runs@.take(i + 1).drop_last() =~= runs@.take(i as int));
        if let Some(c) = m.content {
            let further = match best {
                Some(inner) => c.end > inner,
                None => true,
            };
            if m.span.end == off && c.end < off && further {
                best = Some(c.end);
            }
        }
        i = i + 1;
    }
    assert(runs@.take(i as int) =~= runs@);
    best
}

/// One step in through the opening delimiters that start at `off`.
pub fn step_inside_open(source: &str, runs: &Vec<MarkAt>, off: usize) -> (r: Option<usize>)
    requires
        all_fit(source@, runs@),
    ensures
        match r {
            Some(inner) => open_inside(runs@, off as int) == Some(inner as int) && inner > off
                && inner <= text::byte_len(source@) && text::boundary(source@, inner as int),
            None => open_inside(runs@, off as int) is None,
        },
{
    let mut best: Option<usize> = None;
    let mut i: usize = 0;
    while i < runs.len()
        invariant
            i <= runs@.len(),
            all_fit(source@, runs@),
            match best {
                Some(inner) => open_inside(runs@.take(i as int), off as int) == Some(inner as int)
                    && inner > off && inner <= text::byte_len(source@) && text::boundary(
                    source@,
                    inner as int,
                ),
                None => open_inside(runs@.take(i as int), off as int) is None,
            },
        decreases runs@.len() - i,
    {
        let m = runs[i];
        assert(runs@.take(i + 1).drop_last() =~= runs@.take(i as int));
        if let Some(c) = m.content {
            let nearer = match best {
                Some(inner) => c.start < inner,
                None => true,
            };
            if m.span.start == off && c.start > off && nearer {
                best = Some(c.start);
            }
        }
        i = i + 1;
    }
    assert(runs@.take(i as int) =~= runs@);
    best
}

/// The first of the runs that end at `off` whose content is known.
pub fn closing_at(source: &str, runs: &Vec<MarkAt>, off: usize) -> (r: Option<(InlineKind, usize)>)
    requires
        all_fit(source@, runs@),
    ensures
        match r {
            Some((kind, inner)) => first_closing(runs@, off as int) == Some((kind, inner as int))
                && text::boundary(source@, inner as int) && inner <= off,
            None => first_closing(runs@, off as int) is None,
        },
{
    let mut first: Option<(InlineKind, usize)> = None;
    let mut i: usize = 0;
    while i < runs.len()
        invariant
            i <= runs@.len(),
            all_fit(source@, runs@),
            match first {
                Some((kind, inner)) => first_closing(runs@.take(i as int), off as int) == Some(
                    (kind, inner as int),
                ) && text::boundary(source@, inner as int) && inner <= off,
                None => first_closing(runs@.take(i as int), off as int) is None,
            },
        decreases runs@.len() - i,
    {
        let m = runs[i];
        assert(runs@.take(i + 1).drop_last() =~= runs@.take(i as int));
        if first.is_none() && m.span.end == off {
            if let Some(c) = m.content {
                first = Some((m.kind, c.end));
            }
        }
        i = i + 1;
    }
    assert(runs@.take(i as int) =~= runs@);
    first
}

/// Past a run's closing delimiter and in again is where it was: no delimiter is passed
/// twice, and none is half passed.
pub proof fn law_sides_of_one_delimiter(run: MarkAt)
    requires
        run.content matches Some(c) && run.span.start < c.start <= c.end < run.span.end,
    ensures
        ({
            let c = run.content->0;
            &&& close_past(seq![run], c.end as int) == run.span.end
            &&& close_inside(seq![run], run.span.end as int) == Some(c.end as int)
            &&& open_before(seq![run], c.start as int) == run.span.start
            &&& open_inside(seq![run], run.span.start as int) == Some(c.start as int)
        }),
{
    let one = seq![run];
    assert(one.drop_last() =~= Seq::<MarkAt>::empty());
    assert(one.last() == run);
    let c = run.content->0;
    assert(close_past(one.drop_last(), c.end as int) == c.end);
    assert(open_before(one.drop_last(), c.start as int) == c.start);
    assert(close_inside(one.drop_last(), run.span.end as int) is None);
    assert(open_inside(one.drop_last(), run.span.start as int) is None);
}

// ── the marks in force ─────────────────────────────────────────────────────────
/// Whether a mark of a kind reaches past `off`.
pub open spec fn reaches(runs: Seq<MarkAt>, off: int, kind: InlineKind) -> bool {
    exists|i: int| 0 <= i < runs.len() && (#[trigger] runs[i]).kind == kind && off < runs[i].span.end
}

/// The marks in force at `off`: those of the runs that reach past it.
pub open spec fn in_force(runs: Seq<MarkAt>, off: int) -> InlineMarks {
    marks::marks_where(|k: InlineKind| reaches(runs, off, k))
}

/// The marks in force at `off`.
pub fn marks_in_force(runs: &Vec<MarkAt>, off: usize) -> (r: InlineMarks)
    ensures
        r == in_force(runs@, off as int),
        forall|k: InlineKind| #[trigger] r.has(k) == reaches(runs@, off as int, k),
{
    let mut set = InlineMarks::empty();
    let mut i: usize = 0;
    while i < runs.len()
        invariant
            i <= runs@.len(),
            forall|k: InlineKind| #[trigger]
                set.has(k) == reaches(runs@.take(i as int), off as int, k),
        decreases runs@.len() - i,
    {
        let m = runs[i];
        let ghost before = set;
        let ghost head = runs@.take(i as int);
        let ghost more = runs@.take(i + 1);
        if off < m.span.end {
            set.insert(m.kind);
        }
        assert forall|k: InlineKind| #[trigger] set.has(k) == reaches(more, off as int, k) by {
            assert(more[i as int] == m);
            assert(forall|j: int| 0 <= j < i ==> head[j] == more[j]);
            assert(before.has(k) == reaches(head, off as int, k));
            if reaches(head, off as int, k) {
                let j = choose|j: int|
                    0 <= j < head.len() && (#[trigger] head[j]).kind == k && off < head[j].span.end;
                assert(more[j].kind == k && off < more[j].span.end);
            }
            if reaches(more, off as int, k) {
                let j = choose|j: int|
                    0 <= j < more.len() && (#[trigger] more[j]).kind == k && off < more[j].span.end;
                if j < i {
                    assert(head[j].kind == k && off < head[j].span.end);
                }
            }
        }
        i = i + 1;
    }
    assert(runs@.take(i as int) =~= runs@);
    proof {
        marks::lemma_marks_where(set, |k: InlineKind| reaches(runs@, off as int, k));
    }
    set
}

/// Past the runs of some marks that `off` lies in: where text that sheds those marks goes.
pub open spec fn shed_past(runs: Seq<MarkAt>, off: int, shed: InlineMarks) -> int
    decreases runs.len(),
{
    if runs.len() == 0 {
        off
    } else {
        let best = shed_past(runs.drop_last(), off, shed);
        let m = runs.last();
        if off < m.span.end && shed.has(m.kind) && m.span.end > best {
            m.span.end as int
        } else {
            best
        }
    }
}

/// Past the runs of some marks that `off` lies in.
pub fn step_past_marks(source: &str, runs: &Vec<MarkAt>, off: usize, shed: InlineMarks) -> (r:
    usize)
    requires
        all_fit(source@, runs@),
        off <= text::byte_len(source@),
        text::boundary(source@, off as int),
    ensures
        r == shed_past(runs@, off as int, shed),
        off <= r <= text::byte_len(source@),
        text::boundary(source@, r as int),
{
    let mut best: usize = off;
    let mut i: usize = 0;
    while i < runs.len()
        invariant
            i <= runs@.len(),
            all_fit(source@, runs@),
            best == shed_past(runs@.take(i as int), off as int, shed),
            off <= best <= text::byte_len(source@),
            text::boundary(source@, best as int),
        decreases runs@.len() - i,
    {
        let m = runs[i];
        assert(runs@.take(i + 1).drop_last() =~= runs@.take(i as int));
        if off < m.span.end && shed.contains(m.kind) && m.span.end > best {
            best = m.span.end;
        }
        i = i + 1;
    }
    assert(runs@.take(i as int) =~= runs@);
    best
}

} // verus!
