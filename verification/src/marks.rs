//! The inline marks, and sets of them.

use vstd::prelude::*;
use crate::node::Kind;

verus! {

/// An inline mark.
#[derive(Clone, Copy, PartialEq, Eq, Debug, Structural)]
pub enum InlineKind {
    Strong,
    Emph,
    Verbatim,
    Mark,
    Superscript,
    Subscript,
    Insert,
    Delete,
}

impl InlineKind {
    /// The word for a mark.
    pub open spec fn word(self) -> Seq<char> {
        match self {
            InlineKind::Strong => "Strong"@,
            InlineKind::Emph => "Emph"@,
            InlineKind::Verbatim => "Verbatim"@,
            InlineKind::Mark => "Mark"@,
            InlineKind::Superscript => "Superscript"@,
            InlineKind::Subscript => "Subscript"@,
            InlineKind::Insert => "Insert"@,
            InlineKind::Delete => "Delete"@,
        }
    }

    /// The word for the mark, as a status line shows it.
    pub fn label(self) -> (r: &'static str)
        ensures
            r@ == self.word(),
    {
        match self {
            InlineKind::Strong => "Strong",
            InlineKind::Emph => "Emph",
            InlineKind::Verbatim => "Verbatim",
            InlineKind::Mark => "Mark",
            InlineKind::Superscript => "Superscript",
            InlineKind::Subscript => "Subscript",
            InlineKind::Insert => "Insert",
            InlineKind::Delete => "Delete",
        }
    }
}

/// The mark that a kind of node is. `None` for every other kind, including the inline
/// nodes that are not marks: they are things a caret stands in, not formatting that a
/// button toggles.
pub open spec fn mark_of(kind: Kind) -> Option<InlineKind> {
    match kind {
        Kind::Strong => Some(InlineKind::Strong),
        Kind::Emph => Some(InlineKind::Emph),
        Kind::Verbatim => Some(InlineKind::Verbatim),
        Kind::Mark => Some(InlineKind::Mark),
        Kind::Superscript => Some(InlineKind::Superscript),
        Kind::Subscript => Some(InlineKind::Subscript),
        Kind::Insert => Some(InlineKind::Insert),
        Kind::Delete => Some(InlineKind::Delete),
        _ => None,
    }
}

/// The mark that a kind of node is.
pub fn inline_kind(kind: Kind) -> (r: Option<InlineKind>)
    ensures
        r == mark_of(kind),
{
    match kind {
        Kind::Strong => Some(InlineKind::Strong),
        Kind::Emph => Some(InlineKind::Emph),
        Kind::Verbatim => Some(InlineKind::Verbatim),
        Kind::Mark => Some(InlineKind::Mark),
        Kind::Superscript => Some(InlineKind::Superscript),
        Kind::Subscript => Some(InlineKind::Subscript),
        Kind::Insert => Some(InlineKind::Insert),
        Kind::Delete => Some(InlineKind::Delete),
        _ => None,
    }
}

/// The inline marks in force at a point in the document: what a toolbar lights up.
#[derive(Clone, Copy, PartialEq, Eq, Debug, Structural)]
pub struct InlineMarks(u8);

spec fn bit_of(kind: InlineKind) -> u8 {
    match kind {
        InlineKind::Strong => 1,
        InlineKind::Emph => 2,
        InlineKind::Verbatim => 4,
        InlineKind::Mark => 8,
        InlineKind::Superscript => 16,
        InlineKind::Subscript => 32,
        InlineKind::Insert => 64,
        InlineKind::Delete => 128,
    }
}

/// What setting, flipping and comparing one bit does to it and to another bit.
proof fn lemma_bits(a: u8, b: u8, m: u8, n: u8)
    by (bit_vector)
    requires
        m == 1 || m == 2 || m == 4 || m == 8 || m == 16 || m == 32 || m == 64 || m == 128,
        n == 1 || n == 2 || n == 4 || n == 8 || n == 16 || n == 32 || n == 64 || n == 128,
    ensures
        (a | m) & m != 0,
        m != n ==> ((a | m) & n != 0) == (a & n != 0),
        ((a ^ b) & n != 0) == ((a & n != 0) != (b & n != 0)),
        (m & n != 0) == (m == n),
        0u8 & n == 0,
{
}

/// Numbers with the same bits are the same.
proof fn lemma_same_bits(a: u8, b: u8)
    by (bit_vector)
    requires
        (a & 1 != 0) == (b & 1 != 0),
        (a & 2 != 0) == (b & 2 != 0),
        (a & 4 != 0) == (b & 4 != 0),
        (a & 8 != 0) == (b & 8 != 0),
        (a & 16 != 0) == (b & 16 != 0),
        (a & 32 != 0) == (b & 32 != 0),
        (a & 64 != 0) == (b & 64 != 0),
        (a & 128 != 0) == (b & 128 != 0),
    ensures
        a == b,
{
}

impl InlineMarks {
    /// Every kind, in the order in which [`iter`](Self::iter) gives them.
    pub const ALL: [InlineKind; 8] = [
        InlineKind::Strong,
        InlineKind::Emph,
        InlineKind::Verbatim,
        InlineKind::Mark,
        InlineKind::Superscript,
        InlineKind::Subscript,
        InlineKind::Insert,
        InlineKind::Delete,
    ];

    /// Whether `kind` is in the set.
    pub closed spec fn has(self, kind: InlineKind) -> bool {
        self.0 & bit_of(kind) != 0
    }

    /// Two sets with the same marks are the same.
    pub proof fn lemma_same(self, other: InlineMarks)
        requires
            forall|k: InlineKind| self.has(k) == other.has(k),
        ensures
            self == other,
    {
        assert(self.has(InlineKind::Strong) == other.has(InlineKind::Strong));
        assert(self.has(InlineKind::Emph) == other.has(InlineKind::Emph));
        assert(self.has(InlineKind::Verbatim) == other.has(InlineKind::Verbatim));
        assert(self.has(InlineKind::Mark) == other.has(InlineKind::Mark));
        assert(self.has(InlineKind::Superscript) == other.has(InlineKind::Superscript));
        assert(self.has(InlineKind::Subscript) == other.has(InlineKind::Subscript));
        assert(self.has(InlineKind::Insert) == other.has(InlineKind::Insert));
        assert(self.has(InlineKind::Delete) == other.has(InlineKind::Delete));
        lemma_same_bits(self.0, other.0);
    }

    /// The set without marks.
    pub fn empty() -> (r: InlineMarks)
        ensures
            r == no_marks(),
            forall|k: InlineKind| !#[trigger] r.has(k),
    {
        assert forall|k: InlineKind| !#[trigger] InlineMarks(0).has(k) by {
            lemma_bits(0, 0, bit_of(k), bit_of(k));
        }
        proof {
            lemma_marks_where(InlineMarks(0), |k: InlineKind| false);
        }
        InlineMarks(0)
    }

    fn bit(kind: InlineKind) -> (r: u8)
        ensures
            r == bit_of(kind),
    {
        match kind {
            InlineKind::Strong => 1,
            InlineKind::Emph => 2,
            InlineKind::Verbatim => 4,
            InlineKind::Mark => 8,
            InlineKind::Superscript => 16,
            InlineKind::Subscript => 32,
            InlineKind::Insert => 64,
            InlineKind::Delete => 128,
        }
    }

    /// Put `kind` in the set.
    pub fn insert(&mut self, kind: InlineKind)
        ensures
            *final(self) == marks_with(*old(self), kind),
            forall|k: InlineKind| #[trigger]
                final(self).has(k) == (k == kind || old(self).has(k)),
    {
        let ghost before = *self;
        assert forall|k: InlineKind| #[trigger]
            InlineMarks(before.0 | bit_of(kind)).has(k) == (k == kind || before.has(k)) by {
            lemma_bits(before.0, 0, bit_of(kind), bit_of(k));
        }
        self.0 = self.0 | Self::bit(kind);
        proof {
            lemma_marks_with(*self, before, kind);
        }
    }

    /// Flip `kind` in the set.
    pub fn flip(&mut self, kind: InlineKind)
        ensures
            *final(self) == marks_flip(*old(self), kind),
            forall|k: InlineKind| #[trigger]
                final(self).has(k) == (if k == kind {
                    !old(self).has(k)
                } else {
                    old(self).has(k)
                }),
    {
        let ghost before = *self;
        assert forall|k: InlineKind| #[trigger]
            InlineMarks(before.0 ^ bit_of(kind)).has(k) == (if k == kind {
                !before.has(k)
            } else {
                before.has(k)
            }) by {
            lemma_bits(before.0, bit_of(kind), bit_of(kind), bit_of(k));
        }
        self.0 = self.0 ^ Self::bit(kind);
        proof {
            lemma_marks_flip(*self, before, kind);
        }
    }

    /// The marks that one of the sets has and the other has not.
    pub fn xor(self, other: InlineMarks) -> (r: InlineMarks)
        ensures
            r == marks_xor(self, other),
            forall|k: InlineKind| #[trigger] r.has(k) == (self.has(k) != other.has(k)),
    {
        assert forall|k: InlineKind| #[trigger]
            InlineMarks(self.0 ^ other.0).has(k) == (self.has(k) != other.has(k)) by {
            lemma_bits(self.0, other.0, bit_of(k), bit_of(k));
        }
        proof {
            lemma_marks_where(
                InlineMarks(self.0 ^ other.0),
                |k: InlineKind| self.has(k) != other.has(k),
            );
        }
        InlineMarks(self.0 ^ other.0)
    }

    /// Whether `kind` is in force.
    pub fn contains(self, kind: InlineKind) -> (r: bool)
        ensures
            r == self.has(kind),
    {
        self.0 & Self::bit(kind) != 0
    }

    /// Whether no mark is in force.
    pub fn is_empty(self) -> (r: bool)
        ensures
            r == (self == no_marks()),
            r == (forall|k: InlineKind| !#[trigger] self.has(k)),
    {
        proof {
            assert forall|k: InlineKind| !#[trigger] InlineMarks(0).has(k) by {
                lemma_bits(0, 0, bit_of(k), bit_of(k));
            }
            lemma_marks_where(InlineMarks(0), |k: InlineKind| false);
            if forall|k: InlineKind| !#[trigger] self.has(k) {
                self.lemma_same(InlineMarks(0));
            }
        }
        self.0 == 0
    }

    /// The marks in force, in the order of [`ALL`](Self::ALL).
    pub fn iter(self) -> (r: Vec<InlineKind>)
        ensures
            r@ == self.members(),
    {
        let all = Self::ALL;
        let mut out: Vec<InlineKind> = Vec::new();
        let mut i: usize = 0;
        while i < 8
            invariant
                i <= 8,
                all@ == Self::ALL@,
                out@ == members_of(Self::ALL@.take(i as int), self),
            decreases 8 - i,
        {
            assert(Self::ALL@.take(i + 1).drop_last() == Self::ALL@.take(i as int));
            assert(Self::ALL@.take(i + 1).last() == Self::ALL@[i as int]);
            if self.contains(all[i]) {
                out.push(all[i]);
            }
            i = i + 1;
        }
        assert(Self::ALL@.take(8) == Self::ALL@);
        out
    }

    /// The marks in force, in the order of [`ALL`](Self::ALL).
    pub open spec fn members(self) -> Seq<InlineKind> {
        members_of(Self::ALL@, self)
    }
}

/// The kinds of a list that are in a set.
pub open spec fn members_of(kinds: Seq<InlineKind>, set: InlineMarks) -> Seq<InlineKind>
    decreases kinds.len(),
{
    if kinds.len() == 0 {
        Seq::empty()
    } else if set.has(kinds.last()) {
        members_of(kinds.drop_last(), set).push(kinds.last())
    } else {
        members_of(kinds.drop_last(), set)
    }
}

impl Default for InlineMarks {
    fn default() -> (r: InlineMarks)
        ensures
            forall|k: InlineKind| !#[trigger] r.has(k),
    {
        InlineMarks::empty()
    }
}

/// Whether a set has the marks that a test picks, and no others.
pub open spec fn picked(m: InlineMarks, picks: spec_fn(InlineKind) -> bool) -> bool {
    forall|k: InlineKind| #[trigger] m.has(k) == picks(k)
}

/// The set of the marks that a test picks.
pub open spec fn marks_where(picks: spec_fn(InlineKind) -> bool) -> InlineMarks {
    choose|m: InlineMarks| picked(m, picks)
}

/// The set that a test picks is the one that has those marks and no others.
pub proof fn lemma_marks_where(m: InlineMarks, picks: spec_fn(InlineKind) -> bool)
    requires
        forall|k: InlineKind| #[trigger] m.has(k) == picks(k),
    ensures
        marks_where(picks) == m,
{
    let chosen = marks_where(picks);
    assert(picked(m, picks));
    assert(picked(chosen, picks));
    assert forall|k: InlineKind| chosen.has(k) == m.has(k) by {}
    chosen.lemma_same(m);
}

/// The set without marks.
pub open spec fn no_marks() -> InlineMarks {
    marks_where(|k: InlineKind| false)
}

/// The marks that one of two sets has and the other has not.
pub open spec fn marks_xor(a: InlineMarks, b: InlineMarks) -> InlineMarks {
    marks_where(|k: InlineKind| a.has(k) != b.has(k))
}

/// Whether a set has a mark once another is flipped in it.
pub open spec fn has_flipped(a: InlineMarks, kind: InlineKind, k: InlineKind) -> bool {
    if k == kind {
        !a.has(k)
    } else {
        a.has(k)
    }
}

/// A set with a mark flipped.
pub open spec fn marks_flip(a: InlineMarks, kind: InlineKind) -> InlineMarks {
    marks_where(|k: InlineKind| has_flipped(a, kind, k))
}

/// Whether a set has a mark once another is put in it.
pub open spec fn has_with(a: InlineMarks, kind: InlineKind, k: InlineKind) -> bool {
    k == kind || a.has(k)
}

/// A set with a mark put in it.
pub open spec fn marks_with(a: InlineMarks, kind: InlineKind) -> InlineMarks {
    marks_where(|k: InlineKind| has_with(a, kind, k))
}

proof fn lemma_marks_with(m: InlineMarks, a: InlineMarks, kind: InlineKind)
    requires
        forall|k: InlineKind| #[trigger] m.has(k) == (k == kind || a.has(k)),
    ensures
        marks_with(a, kind) == m,
{
    lemma_marks_where(m, |k: InlineKind| has_with(a, kind, k));
}

proof fn lemma_marks_flip(m: InlineMarks, a: InlineMarks, kind: InlineKind)
    requires
        forall|k: InlineKind| #[trigger]
            m.has(k) == (if k == kind {
                !a.has(k)
            } else {
                a.has(k)
            }),
    ensures
        marks_flip(a, kind) == m,
{
    lemma_marks_where(m, |k: InlineKind| has_flipped(a, kind, k));
}

/// What a set with a mark flipped has.
pub proof fn lemma_flip_has(a: InlineMarks, kind: InlineKind)
    ensures
        forall|k: InlineKind| #[trigger] marks_flip(a, kind).has(k) == has_flipped(a, kind, k),
{
    let m = InlineMarks(a.0 ^ bit_of(kind));
    assert forall|k: InlineKind| #[trigger] m.has(k) == has_flipped(a, kind, k) by {
        lemma_bits(a.0, bit_of(kind), bit_of(kind), bit_of(k));
    }
    lemma_marks_flip(m, a, kind);
}

/// Comparing a set twice with the same delta gives it back: what is armed is disarmed by
/// arming it again.
pub proof fn law_xor_undoes(base: InlineMarks, delta: InlineMarks, once: InlineMarks, twice: InlineMarks)
    requires
        forall|k: InlineKind| #[trigger] once.has(k) == (base.has(k) != delta.has(k)),
        forall|k: InlineKind| #[trigger] twice.has(k) == (once.has(k) != delta.has(k)),
    ensures
        twice == base,
{
    assert forall|k: InlineKind| twice.has(k) == base.has(k) by {}
    twice.lemma_same(base);
}

/// What one of two sets has and the other has not is told mark by mark, and nothing is in
/// the empty set.
pub proof fn law_marks_differ_one_by_one(a: InlineMarks, b: InlineMarks)
    ensures
        forall|k: InlineKind| #[trigger] marks_xor(a, b).has(k) == (a.has(k) != b.has(k)),
        forall|k: InlineKind| !#[trigger] no_marks().has(k),
{
    let m = InlineMarks(a.0 ^ b.0);
    assert forall|k: InlineKind| #[trigger] m.has(k) == (a.has(k) != b.has(k)) by {
        lemma_bits(a.0, b.0, bit_of(k), bit_of(k));
    }
    lemma_marks_where(m, |k: InlineKind| a.has(k) != b.has(k));
    let none = InlineMarks(0u8);
    assert forall|k: InlineKind| #[trigger] none.has(k) == false by {
        lemma_bits(0u8, 0u8, bit_of(k), bit_of(k));
    }
    lemma_marks_where(none, |k: InlineKind| false);
}

/// Each mark is one kind of node and no other is it.
pub proof fn law_each_mark_is_one_kind_of_node(kind: Kind)
    ensures
        mark_of(kind) == Some(InlineKind::Strong) <==> kind == Kind::Strong,
        mark_of(kind) == Some(InlineKind::Emph) <==> kind == Kind::Emph,
        mark_of(kind) == Some(InlineKind::Verbatim) <==> kind == Kind::Verbatim,
        mark_of(kind) == Some(InlineKind::Mark) <==> kind == Kind::Mark,
        mark_of(kind) == Some(InlineKind::Superscript) <==> kind == Kind::Superscript,
        mark_of(kind) == Some(InlineKind::Subscript) <==> kind == Kind::Subscript,
        mark_of(kind) == Some(InlineKind::Insert) <==> kind == Kind::Insert,
        mark_of(kind) == Some(InlineKind::Delete) <==> kind == Kind::Delete,
{
}

} // verus!
