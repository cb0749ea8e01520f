//! Re-spelling a run of an inline mark so that no white space stands against its
//! delimiters.
//!
//! A delimiter that stands against white space is no delimiter: the run is put out, and
//! its markup shows as text. The re-spelling moves the white space outside.

use vstd::prelude::*;
use vstd::utf8::*;
use crate::edges;
use crate::edges::MarkAt;
use crate::marks;
use crate::marks::{InlineKind, InlineMarks};
use crate::node::Span;
use crate::text;

verus! {

/// The last run whose known content holds a whole range: the one whose text the range is.
pub open spec fn innermost(runs: Seq<MarkAt>, start: int, end: int) -> Option<(InlineKind, Span, Span)>
    decreases runs.len(),
{
    if runs.len() == 0 {
        None
    } else {
        let m = runs.last();
        if m.content matches Some(c) && c.start <= start && end <= c.end {
            Some((m.kind, m.span, m.content->0))
        } else {
            innermost(runs.drop_last(), start, end)
        }
    }
}

/// The start of the first run whose content starts at `at`.
pub open spec fn first_opening(runs: Seq<MarkAt>, at: int) -> Option<int>
    decreases runs.len(),
{
    if runs.len() == 0 {
        None
    } else {
        let first = first_opening(runs.drop_last(), at);
        let m = runs.last();
        if first is Some {
            first
        } else if m.content matches Some(c) && c.start == at {
            Some(m.span.start as int)
        } else {
            None
        }
    }
}

/// The end of the first run whose content ends at `at`.
pub open spec fn first_ending(runs: Seq<MarkAt>, at: int) -> Option<int>
    decreases runs.len(),
{
    if runs.len() == 0 {
        None
    } else {
        let first = first_ending(runs.drop_last(), at);
        let m = runs.last();
        if first is Some {
            first
        } else if m.content matches Some(c) && c.end == at {
            Some(m.span.end as int)
        } else {
            None
        }
    }
}

/// Out through the runs that open one right inside the other, as many steps as there are.
pub open spec fn opening_edge(runs: Seq<MarkAt>, at: int, steps: nat) -> int
    decreases steps,
{
    if steps == 0 {
        at
    } else {
        match first_opening(runs, at) {
            Some(out) => opening_edge(runs, out, (steps - 1) as nat),
            None => at,
        }
    }
}

/// Out through the runs that close one right inside the other.
pub open spec fn closing_edge(runs: Seq<MarkAt>, at: int, steps: nat) -> int
    decreases steps,
{
    if steps == 0 {
        at
    } else {
        match first_ending(runs, at) {
            Some(out) => closing_edge(runs, out, (steps - 1) as nat),
            None => at,
        }
    }
}

/// What the content of a run becomes by an edit in it.
pub open spec fn body_of(source: Seq<char>, content: Span, start: int, end: int, text: Seq<char>) -> Seq<
    char,
> {
    text::slice(source, content.start as int, start) + text + text::slice(
        source,
        end,
        content.end as int,
    )
}

/// Where the text of a content starts, past the white space at its start.
pub open spec fn core_start(body: Seq<char>) -> int {
    text::space_end(body, 0, body.len() as int)
}

/// Where the text of a content ends, before the white space at its end.
pub open spec fn core_end(body: Seq<char>) -> int {
    if core_start(body) == body.len() {
        body.len() as int
    } else {
        text::space_start(body, 0, body.len() as int)
    }
}

/// A content with its delimiters: the white space at its ends outside them, and nothing
/// but the white space where there is nothing else.
pub open spec fn respelt(body: Seq<char>, open: Seq<char>, close: Seq<char>) -> Seq<char> {
    let core = body.subrange(core_start(body), core_end(body));
    if core.len() == 0 {
        body
    } else {
        body.take(core_start(body)) + open + core + close + body.skip(core_end(body))
    }
}

/// A re-spelling of one run, held ready in case the edit about to happen breaks it. Its
/// offsets are those of the document after the plain edit.
pub struct MarkEdgeFix {
    /// The run's mark, and an offset that was inside its content: together they tell
    /// whether the plain edit broke it.
    pub kind: InlineKind,
    pub probe: usize,
    /// The bytes to re-spell, the delimiters included, and their new spelling.
    pub start: usize,
    pub end: usize,
    pub text: String,
    /// Where the caret belongs afterwards.
    pub caret: usize,
    /// The marks in force for text typed there.
    pub want: InlineMarks,
}

/// What a [`MarkEdgeFix`] says.
pub struct FixView {
    pub kind: InlineKind,
    pub probe: int,
    pub start: int,
    pub end: int,
    pub text: Seq<char>,
    pub caret: int,
    pub want: InlineMarks,
}

impl View for MarkEdgeFix {
    type V = FixView;

    open spec fn view(&self) -> FixView {
        FixView {
            kind: self.kind,
            probe: self.probe as int,
            start: self.start as int,
            end: self.end as int,
            text: self.text@,
            caret: self.caret as int,
            want: self.want,
        }
    }
}

/// Where the caret goes: `pos` bytes into the new content, which starts at `at` in the
/// document. In the white space it stands outside the delimiters.
pub open spec fn caret_in(
    at: int,
    pos: int,
    lead: int,
    open: int,
    core: int,
    close: int,
) -> int {
    if core == 0 || pos <= lead {
        at + pos
    } else if pos >= lead + core {
        at + open + close + pos
    } else {
        at + open + pos
    }
}

/// The re-spelling that keeps white space off the delimiters when `[start, end)` becomes
/// `text`. None where the edit is in no run, or leaves text against both delimiters.
pub open spec fn edge_fix(
    source: Seq<char>,
    runs: Seq<MarkAt>,
    start: int,
    end: int,
    text: Seq<char>,
    pending: InlineMarks,
) -> Option<FixView> {
    if start > end || end > text::byte_len(source) || text::byte_len(source) + text::byte_len(text)
        > usize::MAX {
        None
    } else {
        match innermost(runs, start, end) {
            None => None,
            Some((kind, span, content)) => {
                let body = body_of(source, content, start, end, text);
                let lead = core_start(body);
                let tail = core_end(body);
                if lead == 0 && tail == body.len() && body.len() > 0 {
                    None
                } else {
                    let open_at = opening_edge(runs, span.start as int, runs.len());
                    let close_at = closing_edge(runs, span.end as int, runs.len());
                    let open = text::slice(source, open_at, content.start as int);
                    let close = text::slice(source, content.end as int, close_at);
                    Some(
                        FixView {
                            kind,
                            probe: content.start as int,
                            start: open_at,
                            end: close_at + text::byte_len(text) - (end - start),
                            text: respelt(body, open, close),
                            caret: caret_in(
                                open_at,
                                start - content.start + text::byte_len(text),
                                text::byte_len(body.take(lead)),
                                text::byte_len(open),
                                text::byte_len(body.subrange(lead, tail)),
                                text::byte_len(close),
                            ),
                            want: marks::marks_xor(edges::in_force(known(runs), start), pending),
                        },
                    )
                }
            },
        }
    }
}

/// The runs whose content is known.
pub open spec fn known(runs: Seq<MarkAt>) -> Seq<MarkAt>
    decreases runs.len(),
{
    if runs.len() == 0 {
        Seq::empty()
    } else if runs.last().content is Some {
        known(runs.drop_last()).push(runs.last())
    } else {
        known(runs.drop_last())
    }
}

/// The runs whose content is known.
fn known_runs(runs: &Vec<MarkAt>) -> (r: Vec<MarkAt>)
    ensures
        r@ == known(runs@),
{
    let mut out: Vec<MarkAt> = Vec::new();
    let mut i: usize = 0;
    while i < runs.len()
        invariant
            i <= runs@.len(),
            out@ == known(runs@.take(i as int)),
        decreases runs@.len() - i,
    {
        assert(runs@.take(i + 1).drop_last() =~= runs@.take(i as int));
        if runs[i].content.is_some() {
            out.push(runs[i]);
        }
        i = i + 1;
    }
    assert(runs@.take(i as int) =~= runs@);
    out
}

/// The last run whose known content holds a whole range.
fn find_innermost(source: &str, runs: &Vec<MarkAt>, start: usize, end: usize) -> (r: Option<
    (InlineKind, Span, Span),
>)
    requires
        edges::all_fit(source@, runs@),
    ensures
        r == innermost(runs@, start as int, end as int),
        r matches Some(found) ==> edges::run_fits(source@, found.1, Some(found.2)) && found.2.start
            <= start && end <= found.2.end,
{
    let mut i: usize = runs.len();
    assert(runs@.take(i as int) =~= runs@);
    while i > 0
        invariant
            i <= runs@.len(),
            edges::all_fit(source@, runs@),
            innermost(runs@, start as int, end as int) == innermost(
                runs@.take(i as int),
                start as int,
                end as int,
            ),
        decreases i,
    {
        assert(runs@.take(i as int).drop_last() =~= runs@.take(i - 1));
        i = i - 1;
        let m = runs[i];
        if let Some(c) = m.content {
            if c.start <= start && end <= c.end {
                return Some((m.kind, m.span, c));
            }
        }
    }
    None
}

/// The start of the first run whose content starts at `at`.
fn find_opening(source: &str, runs: &Vec<MarkAt>, at: usize) -> (r: Option<usize>)
    requires
        edges::all_fit(source@, runs@),
    ensures
        match r {
            Some(out) => first_opening(runs@, at as int) == Some(out as int) && out <= at
                && text::boundary(source@, out as int),
            None => first_opening(runs@, at as int) is None,
        },
{
    let mut i: usize = 0;
    while i < runs.len()
        invariant
            i <= runs@.len(),
            edges::all_fit(source@, runs@),
            first_opening(runs@.take(i as int), at as int) is None,
        decreases runs@.len() - i,
    {
        assert(runs@.take(i + 1).drop_last() =~= runs@.take(i as int));
        let m = runs[i];
        if let Some(c) = m.content {
            if c.start == at {
                proof {
                    lemma_first_opening(runs@, i + 1, at as int);
                }
                return Some(m.span.start);
            }
        }
        i = i + 1;
    }
    assert(runs@.take(i as int) =~= runs@);
    None
}

/// The first opening among some of the runs is the first among all.
proof fn lemma_first_opening(runs: Seq<MarkAt>, n: int, at: int)
    requires
        0 <= n <= runs.len(),
        first_opening(runs.take(n), at) is Some,
    ensures
        first_opening(runs, at) == first_opening(runs.take(n), at),
    decreases runs.len(),
{
    if n == runs.len() {
        assert(runs.take(n) =~= runs);
    } else {
        assert(runs.drop_last().take(n) =~= runs.take(n));
        lemma_first_opening(runs.drop_last(), n, at);
    }
}

/// The end of the first run whose content ends at `at`.
fn find_ending(source: &str, runs: &Vec<MarkAt>, at: usize) -> (r: Option<usize>)
    requires
        edges::all_fit(source@, runs@),
    ensures
        match r {
            Some(out) => first_ending(runs@, at as int) == Some(out as int) && at <= out
                <= text::byte_len(source@) && text::boundary(source@, out as int),
            None => first_ending(runs@, at as int) is None,
        },
{
    let mut i: usize = 0;
    while i < runs.len()
        invariant
            i <= runs@.len(),
            edges::all_fit(source@, runs@),
            first_ending(runs@.take(i as int), at as int) is None,
        decreases runs@.len() - i,
    {
        assert(runs@.take(i + 1).drop_last() =~= runs@.take(i as int));
        let m = runs[i];
        if let Some(c) = m.content {
            if c.end == at {
                proof {
                    lemma_first_ending(runs@, i + 1, at as int);
                }
                return Some(m.span.end);
            }
        }
        i = i + 1;
    }
    assert(runs@.take(i as int) =~= runs@);
    None
}

/// The first ending among some of the runs is the first among all.
proof fn lemma_first_ending(runs: Seq<MarkAt>, n: int, at: int)
    requires
        0 <= n <= runs.len(),
        first_ending(runs.take(n), at) is Some,
    ensures
        first_ending(runs, at) == first_ending(runs.take(n), at),
    decreases runs.len(),
{
    if n == runs.len() {
        assert(runs.take(n) =~= runs);
    } else {
        assert(runs.drop_last().take(n) =~= runs.take(n));
        lemma_first_ending(runs.drop_last(), n, at);
    }
}

/// Out through the runs that open one right inside the other.
fn walk_open(source: &str, runs: &Vec<MarkAt>, from: usize) -> (r: usize)
    requires
        edges::all_fit(source@, runs@),
        text::boundary(source@, from as int),
    ensures
        r == opening_edge(runs@, from as int, runs@.len()),
        r <= from,
        text::boundary(source@, r as int),
{
    let mut at: usize = from;
    let mut left: usize = runs.len();
    while left > 0
        invariant
            edges::all_fit(source@, runs@),
            at <= from,
            text::boundary(source@, at as int),
            opening_edge(runs@, from as int, runs@.len()) == opening_edge(
                runs@,
                at as int,
                left as nat,
            ),
        decreases left,
    {
        match find_opening(source, runs, at) {
            Some(out) => {
                at = out;
            },
            None => {
                return at;
            },
        }
        left = left - 1;
    }
    at
}

/// Out through the runs that close one right inside the other.
fn walk_close(source: &str, runs: &Vec<MarkAt>, from: usize) -> (r: usize)
    requires
        edges::all_fit(source@, runs@),
        from <= text::byte_len(source@),
        text::boundary(source@, from as int),
    ensures
        r == closing_edge(runs@, from as int, runs@.len()),
        from <= r <= text::byte_len(source@),
        text::boundary(source@, r as int),
{
    let mut at: usize = from;
    let mut left: usize = runs.len();
    while left > 0
        invariant
            edges::all_fit(source@, runs@),
            from <= at <= text::byte_len(source@),
            text::boundary(source@, at as int),
            closing_edge(runs@, from as int, runs@.len()) == closing_edge(
                runs@,
                at as int,
                left as nat,
            ),
        decreases left,
    {
        match find_ending(source, runs, at) {
            Some(out) => {
                at = out;
            },
            None => {
                return at;
            },
        }
        left = left - 1;
    }
    at
}

/// Whether a content has text against both delimiters.
fn unbroken(body: &[char]) -> (r: bool)
    ensures
        r == (core_start(body@) == 0 && core_end(body@) == body@.len() && body@.len() > 0),
{
    let lead = text::skip_space(body, 0, body.len());
    let tail: usize = if lead == body.len() {
        lead
    } else {
        text::skip_space_back(body, 0, body.len())
    };
    lead == 0 && tail == body.len() && body.len() > 0
}

/// A content re-spelt, and how many bytes the white space at its start and its text take.
fn spell(body: &[char], open: &str, close: &str) -> (r: (String, usize, usize))
    ensures
        r.0@ == respelt(body@, open@, close@),
        r.1 == text::byte_len(body@.take(core_start(body@))),
        r.2 == text::byte_len(body@.subrange(core_start(body@), core_end(body@))),
        r.1 + r.2 <= text::byte_len(body@),
{
    let lead = text::skip_space(body, 0, body.len());
    let tail: usize = if lead == body.len() {
        lead
    } else {
        text::skip_space_back(body, 0, body.len())
    };
    proof {
        lemma_core(body@);
    }
    let head = text::string_of(body, 0, lead);
    let core = text::string_of(body, lead, tail);
    let mut spelling: Vec<char> = Vec::new();
    if lead == tail {
        text::append_chars(&mut spelling, body, 0, body.len());
        assert(spelling@ =~= body@);
    } else {
        text::append_chars(&mut spelling, body, 0, lead);
        text::append_str(&mut spelling, open);
        text::append_chars(&mut spelling, body, lead, tail);
        text::append_str(&mut spelling, close);
        text::append_chars(&mut spelling, body, tail, body.len());
        assert(spelling@ =~= body@.take(lead as int) + open@ + body@.subrange(
            lead as int,
            tail as int,
        ) + close@ + body@.skip(tail as int));
    }
    let spelt = text::string_of(spelling.as_slice(), 0, spelling.len());
    proof {
        assert(spelt@ =~= spelling@);
        assert(head@ =~= body@.take(lead as int));
        text::lemma_encode_concat(head@ + core@, body@.skip(tail as int));
        text::lemma_encode_concat(head@, core@);
        assert(body@ =~= head@ + core@ + body@.skip(tail as int));
    }
    (spelt, text::len(head.as_str()), text::len(core.as_str()))
}

/// How many bytes the content of a run takes once an edit is in it.
proof fn lemma_body_len(source: Seq<char>, content: Span, start: int, end: int, text: Seq<char>)
    requires
        edges::fits(source, content),
        content.start <= start <= end <= content.end,
        text::boundary(source, start),
        text::boundary(source, end),
    ensures
        text::byte_len(body_of(source, content, start, end, text)) == start - content.start
            + text::byte_len(text) + content.end - end,
{
    let before = text::slice(source, content.start as int, start);
    let after = text::slice(source, end, content.end as int);
    text::lemma_slice(source, content.start as int, start);
    text::lemma_slice(source, end, content.end as int);
    text::lemma_encode_concat(before + text, after);
    text::lemma_encode_concat(before, text);
}

/// The re-spelling that keeps white space off the delimiters for the edit of
/// `[start, end)` to `text`. `pending` is the armed delta of the marks.
pub fn mark_edge_fix(
    source: &str,
    runs: &Vec<MarkAt>,
    start: usize,
    end: usize,
    text: &str,
    pending: InlineMarks,
) -> (r: Option<MarkEdgeFix>)
    requires
        edges::all_fit(source@, runs@),
        start <= end <= text::byte_len(source@) ==> text::boundary(source@, start as int)
            && text::boundary(source@, end as int),
    ensures
        match r {
            Some(fix) => edge_fix(source@, runs@, start as int, end as int, text@, pending) == Some(
                fix@,
            ),
            None => edge_fix(source@, runs@, start as int, end as int, text@, pending) is None,
        },
{
    let source_len = text::len(source);
    let text_len = text::len(text);
    if start > end || end > source_len || text_len > usize::MAX - source_len {
        return None;
    }
    let (kind, span, content) = match find_innermost(source, runs, start, end) {
        Some(found) => found,
        None => {
            return None;
        },
    };
    let before = text::substr(source, content.start, start);
    let after = text::substr(source, end, content.end);
    let mut body: Vec<char> = text::chars_of(before);
    text::append_str(&mut body, text);
    text::append_str(&mut body, after);
    assert(body@ =~= body_of(source@, content, start as int, end as int, text@));
    if unbroken(body.as_slice()) {
        return None;
    }
    let open_at = walk_open(source, runs, span.start);
    let close_at = walk_close(source, runs, span.end);
    let open = text::substr(source, open_at, content.start);
    let close = text::substr(source, content.end, close_at);
    let (spelt, lead_len, core_len) = spell(body.as_slice(), open, close);
    let open_len = text::len(open);
    let close_len = text::len(close);
    let pos: usize = start - content.start + text_len;
    proof {
        lemma_body_len(source@, content, start as int, end as int, text@);
    }
    assert(open_len == content.start - open_at);
    assert(close_len == close_at - content.end);
    assert(pos <= text::byte_len(body@));
    let caret: usize = if core_len == 0 || pos <= lead_len {
        open_at + pos
    } else if pos >= lead_len + core_len {
        open_at + open_len + close_len + pos
    } else {
        open_at + open_len + pos
    };
    let known = known_runs(runs);
    let want = edges::marks_in_force(&known, start).xor(pending);
    Some(
        MarkEdgeFix {
            kind,
            probe: content.start,
            start: open_at,
            end: close_at - (end - start) + text_len,
            text: spelt,
            caret,
            want,
        },
    )
}

/// Where the text of a content starts and ends.
proof fn lemma_core(body: Seq<char>)
    ensures
        0 <= core_start(body) <= core_end(body) <= body.len(),
{
    text::lemma_space_end(body, 0, body.len() as int);
    text::lemma_space_start(body, 0, body.len() as int);
    let lead = core_start(body);
    if lead < body.len() {
        let tail = text::space_start(body, 0, body.len() as int);
        if tail <= lead {
            assert(text::whitespace(body[lead]));
        }
    }
}

/// A re-spelt content keeps the mark-edge rule: between its delimiters stands text with no
/// white space at either end. And it keeps the text: without the delimiters, it is the
/// content that the edit made.
pub proof fn law_respelt(body: Seq<char>, open: Seq<char>, close: Seq<char>)
    ensures
        ({
            let core = body.subrange(core_start(body), core_end(body));
            &&& 0 <= core_start(body) <= core_end(body) <= body.len()
            &&& core.len() > 0 ==> !text::whitespace(core[0]) && !text::whitespace(core.last())
            &&& core.len() > 0 ==> respelt(body, open, close) == body.take(core_start(body)) + open
                + core + close + body.skip(core_end(body))
            &&& core.len() == 0 ==> respelt(body, open, close) == body && text::all_space(body)
            &&& body == body.take(core_start(body)) + core + body.skip(core_end(body))
        }),
{
    lemma_core(body);
    text::lemma_space_end(body, 0, body.len() as int);
    text::lemma_space_start(body, 0, body.len() as int);
    assert(body =~= body.take(core_start(body)) + body.subrange(core_start(body), core_end(body))
        + body.skip(core_end(body)));
    let lead = core_start(body);
    if lead < body.len() {
        assert(!text::whitespace(body[lead]));
        let tail = core_end(body);
        assert(tail > lead) by {
            if tail <= lead {
                assert(text::whitespace(body[lead]));
            }
        }
    }
}

} // verus!
