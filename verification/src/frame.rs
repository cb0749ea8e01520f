//! What one frame's rows are as a change from the frame before's.
//!
//! A frontend keeps the rows it last painted; what has to reach it is the span of rows
//! that changed and the offset that the rows after it moved by. The shift is read off the
//! rows and checked on every row it is claimed for, so a frame reproduces the rows
//! exactly or names the row as changed.

use vstd::prelude::*;

verus! {

/// Where two frames' rows differ: the span of the old rows a span of the new ones
/// replaces, and the offset the rows after it moved by. See [`row_delta`].
#[derive(Clone, Copy, Debug, PartialEq, Eq, Structural)]
pub struct RowDelta {
    /// The first row that differs: the length of the common prefix.
    pub start: usize,
    /// How many of the old rows, from `start`, the new span replaces.
    pub replaced: usize,
    /// How many new rows stand in their place.
    pub len: usize,
    /// The byte offset every source offset in a row after the span moved by. Zero when
    /// nothing moved, and when no row after the span carries an offset to move.
    pub src_shift: i64,
}

impl RowDelta {
    /// Whether the two frames' rows are the same rows.
    pub fn is_empty(&self) -> (r: bool)
        ensures
            r == (self.replaced == 0 && self.len == 0),
    {
        self.replaced == 0 && self.len == 0
    }
}

/// The row that stands `k` rows before the end.
pub open spec fn from_end<R>(rows: Seq<R>, k: int) -> R {
    rows[rows.len() - 1 - k]
}

/// Whether `delta` says how `old` became `new`: `bare` rows at the end carry no offset,
/// and the row before those, where it is kept, is the one that the shift was read off.
pub open spec fn describes<R, S: Fn(&R, &R, i64) -> bool, B: Fn(&R, &R) -> Option<i64>>(
    delta: RowDelta,
    old_rows: Seq<R>,
    new_rows: Seq<R>,
    same: S,
    shift_between: B,
    bare: int,
) -> bool {
    let kept = old_rows.len() - delta.start - delta.replaced;
    &&& delta.start + delta.replaced <= old_rows.len()
    &&& delta.start + delta.len <= new_rows.len()
    &&& kept == new_rows.len() - delta.start - delta.len
    &&& 0 <= bare <= kept
    // The rows before the span are the old ones, as many as can be.
    &&& forall|i: int|
        0 <= i < delta.start ==> #[trigger] same.ensures((&old_rows[i], &new_rows[i], 0i64), true)
    &&& delta.start < old_rows.len() && delta.start < new_rows.len() ==> same.ensures(
        (&old_rows[delta.start as int], &new_rows[delta.start as int], 0i64),
        false,
    )
    // The rows after the span are the old ones, moved.
    &&& forall|k: int|
        0 <= k < bare ==> #[trigger] shift_between.ensures(
            (&from_end(old_rows, k), &from_end(new_rows, k)),
            None,
        )
    &&& forall|k: int|
        0 <= k < bare ==> #[trigger] same.ensures(
            (&from_end(old_rows, k), &from_end(new_rows, k), 0i64),
            true,
        )
    &&& bare == kept ==> delta.src_shift == 0
    &&& bare < kept ==> shift_between.ensures(
        (&from_end(old_rows, bare), &from_end(new_rows, bare)),
        Some(delta.src_shift),
    )
    &&& forall|k: int|
        bare <= k < kept ==> #[trigger] same.ensures(
            (&from_end(old_rows, k), &from_end(new_rows, k), delta.src_shift),
            true,
        )
    // The span ends at a row that does not stand at the shift.
    &&& delta.replaced > 0 && delta.len > 0 ==> if bare < kept {
        same.ensures(
            (&from_end(old_rows, kept), &from_end(new_rows, kept), delta.src_shift),
            false,
        )
    } else {
        exists|c: Option<i64>| #[trigger]
            shift_between.ensures((&from_end(old_rows, kept), &from_end(new_rows, kept)), c)
                && same.ensures(
                (
                    &from_end(old_rows, kept),
                    &from_end(new_rows, kept),
                    match c {
                        Some(s) => s,
                        None => 0i64,
                    },
                ),
                false,
            )
    }
}

/// Two frames of the same rows differ in an empty span at their end, and nothing moved.
pub proof fn law_same_rows_are_an_empty_span<
    R,
    S: Fn(&R, &R, i64) -> bool,
    B: Fn(&R, &R) -> Option<i64>,
>(
    delta: RowDelta,
    old_rows: Seq<R>,
    new_rows: Seq<R>,
    same: S,
    shift_between: B,
    bare: int,
)
    requires
        describes(delta, old_rows, new_rows, same, shift_between, bare),
        old_rows.len() == new_rows.len(),
        forall|i: int|
            0 <= i < old_rows.len() ==> !#[trigger] same.ensures(
                (&old_rows[i], &new_rows[i], 0i64),
                false,
            ),
    ensures
        delta.start == old_rows.len(),
        delta.replaced == 0,
        delta.len == 0,
        delta.src_shift == 0,
{
}

/// The change from `old_rows` to `new_rows`, as the span outside their common prefix and
/// suffix.
///
/// `same(a, b, shift)` says whether `b` is `a` with every source offset it carries moved
/// by `shift`. `shift_between(a, b)` reads the shift that `b`'s offsets stand at from
/// `a`'s, or `None` when `a` carries none.
///
/// The prefix is matched at shift zero: nothing before an edit moves. The suffix is
/// matched from the end, at whichever shift the first offset-bearing row from the end
/// stands at, and a row that does not stand at it ends the suffix and is part of the span.
pub fn row_delta<R>(
    old_rows: &[R],
    new_rows: &[R],
    same: impl Fn(&R, &R, i64) -> bool,
    shift_between: impl Fn(&R, &R) -> Option<i64>,
) -> (delta: RowDelta)
    requires
        forall|a: &R, b: &R, s: i64| same.requires((a, b, s)),
        forall|a: &R, b: &R| shift_between.requires((a, b)),
    ensures
        exists|bare: int| #[trigger]
            describes(delta, old_rows@, new_rows@, same, shift_between, bare),
{
    let shortest: usize = if old_rows.len() <= new_rows.len() {
        old_rows.len()
    } else {
        new_rows.len()
    };
    let mut start: usize = 0;
    while start < shortest && same(&old_rows[start], &new_rows[start], 0)
        invariant
            start <= shortest <= old_rows@.len(),
            shortest <= new_rows@.len(),
            forall|a: &R, b: &R, s: i64| same.requires((a, b, s)),
            forall|i: int|
                0 <= i < start ==> #[trigger] same.ensures(
                    (&old_rows@[i], &new_rows@[i], 0i64),
                    true,
                ),
        ensures
            start < shortest ==> same.ensures(
                (&old_rows@[start as int], &new_rows@[start as int], 0i64),
                false,
            ),
        decreases shortest - start,
    {
        start = start + 1;
    }
    let mut suffix: usize = 0;
    let mut shift: Option<i64> = None;
    let ghost mut bare: int = 0;
    let ghost mut last: Option<i64> = None;
    while suffix < shortest - start
        invariant
            start + suffix <= shortest <= old_rows@.len(),
            shortest <= new_rows@.len(),
            forall|a: &R, b: &R, s: i64| same.requires((a, b, s)),
            forall|a: &R, b: &R| shift_between.requires((a, b)),
            0 <= bare <= suffix,
            shift is None <==> bare == suffix,
            forall|k: int|
                0 <= k < bare ==> #[trigger] shift_between.ensures(
                    (&from_end(old_rows@, k), &from_end(new_rows@, k)),
                    None,
                ),
            forall|k: int|
                0 <= k < bare ==> #[trigger] same.ensures(
                    (&from_end(old_rows@, k), &from_end(new_rows@, k), 0i64),
                    true,
                ),
            shift matches Some(s) ==> shift_between.ensures(
                (&from_end(old_rows@, bare), &from_end(new_rows@, bare)),
                Some(s),
            ),
            shift matches Some(s) ==> forall|k: int|
                bare <= k < suffix ==> #[trigger] same.ensures(
                    (&from_end(old_rows@, k), &from_end(new_rows@, k), s),
                    true,
                ),
        ensures
            suffix < shortest - start ==> same.ensures(
                (
                    &from_end(old_rows@, suffix as int),
                    &from_end(new_rows@, suffix as int),
                    match last {
                        Some(s) => s,
                        None => 0i64,
                    },
                ),
                false,
            ) && (match shift {
                Some(s) => last == shift,
                None => shift_between.ensures(
                    (&from_end(old_rows@, suffix as int), &from_end(new_rows@, suffix as int)),
                    last,
                ),
            }),
        decreases shortest - start - suffix,
    {
        let a = &old_rows[old_rows.len() - 1 - suffix];
        let b = &new_rows[new_rows.len() - 1 - suffix];
        let candidate: Option<i64> = match shift {
            Some(s) => Some(s),
            None => shift_between(a, b),
        };
        let by: i64 = match candidate {
            Some(s) => s,
            None => 0,
        };
        if !same(a, b, by) {
            proof {
                last = candidate;
            }
            break;
        }
        proof {
            if candidate is None {
                bare = bare + 1;
            }
        }
        shift = candidate;
        suffix = suffix + 1;
    }
    let delta = RowDelta {
        start,
        replaced: old_rows.len() - start - suffix,
        len: new_rows.len() - start - suffix,
        src_shift: match shift {
            Some(s) => s,
            None => 0,
        },
    };
    assert(describes(delta, old_rows@, new_rows@, same, shift_between, bare));
    delta
}

/// Whether `after` is the rows `before` with the span of `delta` replaced by `span` and
/// the rows after it moved: `moves(row, by, result)` says that `result` is a row that the
/// moving makes of `row`.
pub open spec fn applied<R: Clone>(
    before: Seq<R>,
    delta: RowDelta,
    span: Seq<R>,
    moves: spec_fn(R, i64, R) -> bool,
    after: Seq<R>,
) -> bool {
    &&& after.len() == before.len() - delta.replaced + span.len()
    &&& forall|i: int| 0 <= i < delta.start ==> #[trigger] after[i] == before[i]
    &&& forall|i: int| 0 <= i < span.len() ==> cloned(#[trigger] span[i], after[delta.start + i])
    &&& forall|i: int|
        delta.start + span.len() <= i < after.len() ==> if delta.src_shift == 0 {
            #[trigger] after[i] == before[i - span.len() + delta.replaced]
        } else {
            moves(before[i - span.len() + delta.replaced], delta.src_shift, after[i])
        }
}

/// Whether the first `n` of the rows `after` are those of `before`, moved.
spec fn all_moved<R>(
    before: Seq<R>,
    by: i64,
    after: Seq<R>,
    n: int,
    moves: spec_fn(R, i64, R) -> bool,
) -> bool {
    forall|j: int| 0 <= j < n ==> moves(before[j], by, #[trigger] after[j])
}

/// Apply `delta`, with the rows `span` it stands for, to `rows`, so they become the new
/// frame's. `shift(row, by)` moves every offset the row carries.
pub fn apply_row_delta<R: Clone>(
    rows: &mut Vec<R>,
    delta: RowDelta,
    span: &[R],
    shift: impl Fn(&mut R, i64),
)
    requires
        delta.start + delta.replaced <= old(rows)@.len(),
        span@.len() == delta.len,
        forall|row: &mut R, by: i64| shift.requires((row, by)),
    ensures
        forall|moves: spec_fn(R, i64, R) -> bool|
            (forall|row: &mut R, by: i64| #[trigger]
                shift.ensures((row, by), ()) ==> moves(*row, by, *final(row)))
                ==> #[trigger] applied(old(rows)@, delta, span@, moves, final(rows)@),
{
    let ghost before = rows@;
    let total: usize = rows.len();
    assert(delta.start + delta.replaced <= total);
    let mut tail = rows.split_off(delta.start + delta.replaced);
    rows.truncate(delta.start);
    let mut i: usize = 0;
    while i < span.len()
        invariant
            i <= span@.len(),
            rows@.len() == delta.start + i,
            delta.start <= before.len(),
            forall|k: int| 0 <= k < delta.start ==> #[trigger] rows@[k] == before[k],
            forall|k: int| 0 <= k < i ==> cloned(#[trigger] span@[k], rows@[delta.start + k]),
        decreases span@.len() - i,
    {
        rows.push(span[i].clone());
        i = i + 1;
    }
    let ghost fresh = rows@;
    let ghost end = tail@;
    if delta.src_shift != 0 {
        let mut k: usize = 0;
        while k < tail.len()
            invariant
                k <= tail@.len() == end.len(),
                forall|row: &mut R, by: i64| shift.requires((row, by)),
                forall|j: int| k <= j < end.len() ==> tail@[j] == end[j],
                forall|moves: spec_fn(R, i64, R) -> bool|
                    (forall|row: &mut R, by: i64| #[trigger]
                        shift.ensures((row, by), ()) ==> moves(*row, by, *final(row)))
                        ==> #[trigger] all_moved(end, delta.src_shift, tail@, k as int, moves),
            decreases tail@.len() - k,
        {
            let ghost so_far = tail@;
            shift(&mut tail[k], delta.src_shift);
            assert forall|moves: spec_fn(R, i64, R) -> bool|
                (forall|row: &mut R, by: i64| #[trigger]
                    shift.ensures((row, by), ()) ==> moves(*row, by, *final(row))) implies #[trigger] all_moved(
                end,
                delta.src_shift,
                tail@,
                k + 1,
                moves,
            ) by {
                assert(all_moved(end, delta.src_shift, so_far, k as int, moves));
                assert forall|j: int| 0 <= j < k + 1 implies moves(
                    end[j],
                    delta.src_shift,
                    #[trigger] tail@[j],
                ) by {
                    if j < k {
                        assert(tail@[j] == so_far[j]);
                    }
                }
            }
            k = k + 1;
        }
    }
    let ghost moved = tail@;
    rows.append(&mut tail);
    proof {
        assert(rows@ == fresh + moved);
        assert forall|moves: spec_fn(R, i64, R) -> bool|
            (forall|row: &mut R, by: i64| #[trigger]
                shift.ensures((row, by), ()) ==> moves(*row, by, *final(row))) implies #[trigger] applied(
            before,
            delta,
            span@,
            moves,
            rows@,
        ) by {
            assert forall|j: int|
                delta.start + span@.len() <= j < rows@.len() implies if delta.src_shift == 0 {
                #[trigger] rows@[j] == before[j - span@.len() + delta.replaced]
            } else {
                moves(before[j - span@.len() + delta.replaced], delta.src_shift, rows@[j])
            } by {
                let m = j - delta.start - span@.len();
                assert(delta.src_shift != 0 ==> all_moved(
                    end,
                    delta.src_shift,
                    moved,
                    end.len() as int,
                    moves,
                ));
                assert(rows@[j] == moved[m]);
                assert(end[m] == before[j - span@.len() + delta.replaced]);
            }
        }
    }
}

/// Whatever the change was, applying its delta reproduces the new rows.
///
/// `moved` is the moving of a row's offsets that `same` and `shift_between` are about, and
/// that was applied: a row moved by nothing is that row, and a row that carries no offset to read a
/// shift off is the same wherever it is moved.
pub proof fn law_apply_reproduces<
    R: Clone,
    S: Fn(&R, &R, i64) -> bool,
    B: Fn(&R, &R) -> Option<i64>,
>(
    old_rows: Seq<R>,
    new_rows: Seq<R>,
    result: Seq<R>,
    delta: RowDelta,
    same: S,
    shift_between: B,
    moved: spec_fn(R, i64) -> R,
)
    requires
        exists|bare: int| #[trigger]
            describes(delta, old_rows, new_rows, same, shift_between, bare),
        applied(
            old_rows,
            delta,
            new_rows.subrange(delta.start as int, delta.start + delta.len),
            |row: R, by: i64, after: R| after == moved(row, by),
            result,
        ),
        forall|a: R| #[trigger] moved(a, 0i64) == a,
        forall|a: R, b: R, s: i64| #[trigger] same.ensures((&a, &b, s), true) ==> b == moved(a, s),
        forall|a: R, b: R, s: i64| #[trigger]
            shift_between.ensures((&a, &b), None) && same.ensures((&a, &b, 0i64), true)
                ==> #[trigger] moved(a, s) == a,
        forall|a: R, b: R| #[trigger] cloned(a, b) ==> a == b,
    ensures
        result == new_rows,
{
    let bare = choose|bare: int| #[trigger]
        describes(delta, old_rows, new_rows, same, shift_between, bare);
    let span = new_rows.subrange(delta.start as int, delta.start + delta.len);
    let kept = old_rows.len() - delta.start - delta.replaced;
    assert(result.len() == new_rows.len());
    assert forall|i: int| 0 <= i < result.len() implies result[i] == new_rows[i] by {
        if i < delta.start {
            assert(result[i] == old_rows[i]);
            assert(same.ensures((&old_rows[i], &new_rows[i], 0i64), true));
        } else if i < delta.start + delta.len {
            assert(cloned(span[i - delta.start], result[delta.start + (i - delta.start)]));
        } else {
            let k = new_rows.len() - 1 - i;
            let a = old_rows[i - span.len() + delta.replaced];
            assert(a == from_end(old_rows, k));
            assert(new_rows[i] == from_end(new_rows, k));
            if delta.src_shift == 0 {
                assert(result[i] == a);
            } else {
                assert(result[i] == moved(a, delta.src_shift));
            }
            assert(result[i] == moved(a, delta.src_shift));
            if k < bare {
                assert(same.ensures((&a, &new_rows[i], 0i64), true));
                assert(shift_between.ensures((&a, &new_rows[i]), None));
            } else {
                assert(same.ensures((&a, &new_rows[i], delta.src_shift), true));
            }
        }
    }
    assert(result =~= new_rows);
}

} // verus!
