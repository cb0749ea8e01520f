//! Word boundaries: the shared primitive behind word-wise motion, word deletion and
//! double-click selection. A "word" is a maximal run of one character class; white space
//! and punctuation are classes of their own.

use vstd::prelude::*;
use vstd::utf8::*;
use crate::text;

verus! {

/// The class of a character.
#[derive(Clone, Copy, PartialEq, Eq, Debug, Structural)]
pub enum Class {
    Word,
    Space,
    Other,
}

/// Whether a character is an ASCII one.
pub open spec fn ascii(c: char) -> bool {
    c as int <= 127
}

/// Whether a character is an ASCII letter or digit.
pub open spec fn ascii_alphanumeric(c: char) -> bool {
    text::ascii_alphabetic(c) || text::ascii_digit(c)
}

/// Whether a character beyond ASCII is alphabetic or numeric.
pub uninterp spec fn wide_alphanumeric(c: char) -> bool;

/// Whether a character is alphabetic or numeric.
pub open spec fn alphanumeric(c: char) -> bool {
    if ascii(c) {
        ascii_alphanumeric(c)
    } else {
        wide_alphanumeric(c)
    }
}

/// `char::is_alphanumeric`: of the ASCII characters its letters and digits, and of the
/// others those that [`wide_alphanumeric`] says.
#[verifier::external_body]
fn is_alphanumeric(c: char) -> (r: bool)
    ensures
        ascii(c) ==> r == ascii_alphanumeric(c),
        !ascii(c) ==> r == wide_alphanumeric(c),
{
    c.is_alphanumeric()
}

/// The class of a character.
pub open spec fn class_of(c: char) -> Class {
    if c == '_' || alphanumeric(c) {
        Class::Word
    } else if text::whitespace(c) {
        Class::Space
    } else {
        Class::Other
    }
}

/// The class of a character.
pub fn classify(c: char) -> (r: Class)
    ensures
        r == class_of(c),
{
    if c == '_' || is_alphanumeric(c) {
        Class::Word
    } else if text::is_whitespace(c) {
        Class::Space
    } else {
        Class::Other
    }
}

/// The end of the next word, from the character `k` on: past what is no word, then past
/// the word. `in_word` says that a word has begun.
pub open spec fn word_end_from(t: Seq<char>, k: int, in_word: bool) -> int
    decreases t.len() - k,
{
    if k >= t.len() {
        t.len() as int
    } else if class_of(t[k]) == Class::Word {
        word_end_from(t, k + 1, true)
    } else if in_word {
        k
    } else {
        word_end_from(t, k + 1, false)
    }
}

/// The start of the word before the character `k`.
pub open spec fn word_start_from(t: Seq<char>, k: int, in_word: bool) -> int
    decreases k,
{
    if k <= 0 {
        0
    } else if class_of(t[k - 1]) == Class::Word {
        word_start_from(t, k - 1, true)
    } else if in_word {
        k
    } else {
        word_start_from(t, k - 1, false)
    }
}

/// The end of the run of one class that stands at the character `k`.
pub open spec fn run_end(t: Seq<char>, k: int, class: Class) -> int
    decreases t.len() - k,
{
    if k < t.len() && class_of(t[k]) == class {
        run_end(t, k + 1, class)
    } else {
        k
    }
}

/// The start of the run of one class that ends at the character `k`.
pub open spec fn run_start(t: Seq<char>, k: int, class: Class) -> int
    decreases k,
{
    if k > 0 && class_of(t[k - 1]) == class {
        run_start(t, k - 1, class)
    } else {
        k
    }
}

/// The offset at the end of the next word to the right of `i`.
pub open spec fn word_right(s: Seq<char>, i: int) -> int {
    let t = text::slice(s, i, text::byte_len(s));
    i + text::offset_of(t, word_end_from(t, 0, false))
}

/// The offset at the start of the word to the left of `i`.
pub open spec fn word_left(s: Seq<char>, i: int) -> int {
    let t = text::slice(s, 0, i);
    text::offset_of(t, word_start_from(t, t.len() as int, false))
}

/// The run of one class around `off`: the class of the character at `off`, or at the end
/// of the text that of the last one.
pub open spec fn word_around(s: Seq<char>, off: int) -> (int, int) {
    let before = text::slice(s, 0, off);
    let after = text::slice(s, off, text::byte_len(s));
    if s.len() == 0 {
        (0, 0)
    } else {
        let class = if after.len() > 0 {
            class_of(after[0])
        } else {
            class_of(before.last())
        };
        (
            text::offset_of(before, run_start(before, before.len() as int, class)),
            off + text::offset_of(after, run_end(after, 0, class)),
        )
    }
}

/// The offset of a character in the tail of a text is as far behind the cut.
proof fn lemma_tail_offset(s: Seq<char>, at: int, n: int)
    requires
        text::boundary(s, at),
        0 <= n <= text::slice(s, at, text::byte_len(s)).len(),
    ensures
        text::boundary(s, at + text::offset_of(text::slice(s, at, text::byte_len(s)), n)),
        at + text::offset_of(text::slice(s, at, text::byte_len(s)), n) <= text::byte_len(s),
{
    let t = text::slice(s, at, text::byte_len(s));
    let head = text::slice(s, 0, at);
    text::lemma_cut(s, at);
    text::lemma_encode_concat(head, t.take(n));
    assert(t =~= t.take(n) + t.skip(n));
    assert(s =~= (head + t.take(n)) + t.skip(n));
    text::lemma_seam(head + t.take(n), t.skip(n));
    text::lemma_offset_of(t, n);
}

/// The offset of a character in the head of a text is its offset in the text.
proof fn lemma_head_offset(s: Seq<char>, at: int, n: int)
    requires
        text::boundary(s, at),
        0 <= n <= text::slice(s, 0, at).len(),
    ensures
        text::boundary(s, text::offset_of(text::slice(s, 0, at), n)),
        text::offset_of(text::slice(s, 0, at), n) <= at,
{
    let t = text::slice(s, 0, at);
    let rest = text::slice(s, at, text::byte_len(s));
    text::lemma_cut(s, at);
    assert(t =~= t.take(n) + t.skip(n));
    assert(s =~= t.take(n) + (t.skip(n) + rest));
    text::lemma_seam(t.take(n), t.skip(n) + rest);
    text::lemma_offset_of(t, n);
}

/// The offset at the end of the next word to the right of `i`: skip any leading
/// separators, then consume the following word run.
pub fn next_word(s: &str, i: usize) -> (r: usize)
    requires
        text::boundary(s@, i as int),
    ensures
        r == word_right(s@, i as int),
        text::boundary(s@, r as int),
        i <= r <= text::byte_len(s@),
{
    proof {
        text::lemma_boundary_range(s@, i as int);
        text::lemma_boundary_ends(s@);
        text::lemma_cut(s@, i as int);
    }
    let tail = text::chars_of(text::substr(s, i, text::len(s)));
    let ghost t = tail@;
    let mut off: usize = i;
    let mut in_word = false;
    let mut k: usize = 0;
    proof {
        assert(t.take(0) =~= Seq::<char>::empty());
    }
    while k < tail.len()
        invariant
            k <= tail@.len(),
            t == tail@,
            i + text::byte_len(t) == text::byte_len(s@),
            text::byte_len(s@) <= usize::MAX,
            off == i + text::offset_of(t, k as int),
            word_end_from(t, 0, false) == word_end_from(t, k as int, in_word),
        ensures
            off == i + text::offset_of(t, k as int),
            k == word_end_from(t, 0, false),
            k <= t.len(),
        decreases tail@.len() - k,
    {
        let c = tail[k];
        if classify(c) == Class::Word {
            in_word = true;
        } else if in_word {
            break;
        }
        proof {
            text::lemma_next_offset(t, k as int);
        }
        off = off + text::char_len(c);
        k = k + 1;
    }
    proof {
        lemma_tail_offset(s@, i as int, k as int);
    }
    off
}

/// The offset at the start of the word to the left of `i`: skip separators walking left,
/// then consume the preceding word run.
pub fn prev_word(s: &str, i: usize) -> (r: usize)
    requires
        text::boundary(s@, i as int),
    ensures
        r == word_left(s@, i as int),
        text::boundary(s@, r as int),
        r <= i,
{
    proof {
        text::lemma_boundary_range(s@, i as int);
        text::lemma_boundary_ends(s@);
        text::lemma_cut(s@, i as int);
    }
    let head = text::chars_of(text::substr(s, 0, i));
    let ghost t = head@;
    let mut off: usize = i;
    let mut in_word = false;
    let mut k: usize = head.len();
    proof {
        assert(t.take(t.len() as int) =~= t);
    }
    while k > 0
        invariant
            k <= head@.len(),
            t == head@,
            off == text::offset_of(t, k as int),
            word_start_from(t, t.len() as int, false) == word_start_from(t, k as int, in_word),
        ensures
            off == text::offset_of(t, k as int),
            k == word_start_from(t, t.len() as int, false),
            k <= t.len(),
        decreases k,
    {
        let c = head[k - 1];
        if classify(c) == Class::Word {
            in_word = true;
        } else if in_word {
            break;
        }
        proof {
            text::lemma_next_offset(t, k - 1);
        }
        off = off - text::char_len(c);
        k = k - 1;
    }
    proof {
        lemma_head_offset(s@, i as int, k as int);
    }
    off
}

/// The run of same-class characters surrounding `off`: the word, white space or
/// punctuation that a double click selects. At the end of the text the run ending there
/// is used.
pub fn word_range_at(s: &str, off: usize) -> (r: (usize, usize))
    requires
        off <= text::byte_len(s@) ==> text::boundary(s@, off as int),
    ensures
        (r.0 as int, r.1 as int) == word_around(
            s@,
            text::least(off as int, text::byte_len(s@)),
        ),
        text::boundary(s@, r.0 as int),
        text::boundary(s@, r.1 as int),
        r.0 <= r.1,
{
    proof {
        text::lemma_boundary_ends(s@);
    }
    let len = text::len(s);
    let off: usize = if off <= len {
        off
    } else {
        len
    };
    proof {
        text::lemma_cut(s@, off as int);
    }
    let before = text::chars_of(text::substr(s, 0, off));
    let after = text::chars_of(text::substr(s, off, len));
    if before.len() == 0 && after.len() == 0 {
        return (0, 0);
    }
    let class = if after.len() > 0 {
        classify(after[0])
    } else {
        classify(before[before.len() - 1])
    };
    let ghost b = before@;
    let ghost a = after@;
    let mut start: usize = off;
    let mut k: usize = before.len();
    proof {
        assert(b.take(b.len() as int) =~= b);
        assert(a.take(0) =~= Seq::<char>::empty());
    }
    while k > 0 && classify(before[k - 1]) == class
        invariant
            k <= before@.len(),
            b == before@,
            start == text::offset_of(b, k as int),
            run_start(b, b.len() as int, class) == run_start(b, k as int, class),
        decreases k,
    {
        proof {
            text::lemma_next_offset(b, k - 1);
        }
        start = start - text::char_len(before[k - 1]);
        k = k - 1;
    }
    let mut end: usize = off;
    let mut n: usize = 0;
    while n < after.len() && classify(after[n]) == class
        invariant
            n <= after@.len(),
            a == after@,
            off + text::byte_len(a) <= usize::MAX,
            end == off + text::offset_of(a, n as int),
            run_end(a, 0, class) == run_end(a, n as int, class),
        decreases after@.len() - n,
    {
        proof {
            text::lemma_next_offset(a, n as int);
        }
        end = end + text::char_len(after[n]);
        n = n + 1;
    }
    proof {
        lemma_head_offset(s@, off as int, k as int);
        lemma_tail_offset(s@, off as int, n as int);
    }
    (start, end)
}

// ── what a word is ─────────────────────────────────────────────────────────────
/// Letters, digits and the underscore make words, white space parts them, and anything else
/// does neither.
pub proof fn law_what_makes_a_word(c: char)
    ensures
        class_of(c) == Class::Word <==> c == '_' || text::ascii_alphabetic(c) || text::ascii_digit(
            c,
        ) || (c as int > 127 && wide_alphanumeric(c)),
        text::whitespace(c) && c as int <= 127 ==> class_of(c) == Class::Space,
        class_of(c) == Class::Space ==> text::whitespace(c),
{
}

/// Whether no character of a text is of a word, or all are.
pub open spec fn all_of(t: Seq<char>, word: bool) -> bool {
    forall|i: int| 0 <= i < t.len() ==> (class_of(#[trigger] t[i]) == Class::Word) == word
}

proof fn lemma_word_end(t: Seq<char>, k: int, gap: int, end: int, in_word: bool)
    requires
        0 <= k <= end <= t.len(),
        gap <= end,
        in_word ==> gap <= k,
        !in_word ==> k <= gap < end,
        forall|i: int| k <= i < gap ==> class_of(#[trigger] t[i]) != Class::Word,
        forall|i: int| gap <= i < end ==> class_of(#[trigger] t[i]) == Class::Word,
        end < t.len() ==> class_of(t[end]) != Class::Word,
    ensures
        word_end_from(t, k, in_word) == end,
    decreases end - k,
{
    if k < end {
        lemma_word_end(t, k + 1, gap, end, k >= gap);
    }
}

proof fn lemma_word_start(t: Seq<char>, k: int, gap: int, start: int, in_word: bool)
    requires
        0 <= start <= k <= t.len(),
        start <= gap,
        in_word ==> k <= gap,
        !in_word ==> start < gap <= k,
        forall|i: int| gap <= i < k ==> class_of(#[trigger] t[i]) != Class::Word,
        forall|i: int| start <= i < gap ==> class_of(#[trigger] t[i]) == Class::Word,
        start > 0 ==> class_of(t[start - 1]) != Class::Word,
    ensures
        word_start_from(t, k, in_word) == start,
    decreases k - start,
{
    if k > start {
        lemma_word_start(t, k - 1, gap, start, k <= gap);
    }
}

/// A word to the right ends behind the next word: past what parts it from the place, and at
/// the end of its letters.
pub proof fn law_a_word_to_the_right_ends_behind_it(
    before: Seq<char>,
    gap: Seq<char>,
    word: Seq<char>,
    after: Seq<char>,
)
    requires
        all_of(gap, false),
        all_of(word, true),
        word.len() > 0,
        after.len() > 0 ==> class_of(after[0]) != Class::Word,
    ensures
        word_right(before + (gap + word + after), text::byte_len(before)) == text::byte_len(before)
            + text::byte_len(gap) + text::byte_len(word),
{
    let t = gap + word + after;
    let n = gap.len() + word.len();
    text::lemma_seam(before, t);
    assert forall|i: int| 0 <= i < gap.len() implies class_of(#[trigger] t[i]) != Class::Word by {
        assert(t[i] == gap[i]);
    }
    assert forall|i: int| gap.len() <= i < n implies class_of(#[trigger] t[i]) == Class::Word by {
        assert(t[i] == word[i - gap.len()]);
    }
    if after.len() > 0 {
        assert(t[n as int] == after[0]);
    }
    lemma_word_end(t, 0, gap.len() as int, n as int, false);
    assert(t.take(n as int) =~= gap + word);
    text::lemma_encode_concat(gap, word);
}

/// A word to the left starts at the first of its letters: past what parts it from the place.
pub proof fn law_a_word_to_the_left_starts_at_it(
    before: Seq<char>,
    word: Seq<char>,
    gap: Seq<char>,
    after: Seq<char>,
)
    requires
        all_of(gap, false),
        all_of(word, true),
        word.len() > 0,
        before.len() > 0 ==> class_of(before.last()) != Class::Word,
    ensures
        word_left((before + word + gap) + after, text::byte_len(before + word + gap))
            == text::byte_len(before),
{
    let t = before + word + gap;
    let (start, end) = (before.len() as int, (before.len() + word.len()) as int);
    text::lemma_seam(t, after);
    assert forall|i: int| start <= i < end implies class_of(#[trigger] t[i]) == Class::Word by {
        assert(t[i] == word[i - start]);
    }
    assert forall|i: int| end <= i < t.len() implies class_of(#[trigger] t[i]) != Class::Word by {
        assert(t[i] == gap[i - end]);
    }
    if start > 0 {
        assert(t[start - 1] == before.last());
    }
    lemma_word_start(t, t.len() as int, end, start, false);
    assert(t.take(start) =~= before);
}

/// The word around a place is the whole run of one class that the character there is of, and
/// nothing of another.
pub proof fn law_the_word_around_is_a_whole_run(
    before: Seq<char>,
    head: Seq<char>,
    tail: Seq<char>,
    after: Seq<char>,
    class: Class,
)
    requires
        tail.len() > 0,
        forall|i: int| 0 <= i < head.len() ==> class_of(#[trigger] head[i]) == class,
        forall|i: int| 0 <= i < tail.len() ==> class_of(#[trigger] tail[i]) == class,
        before.len() > 0 ==> class_of(before.last()) != class,
        after.len() > 0 ==> class_of(after[0]) != class,
    ensures
        word_around((before + head) + (tail + after), text::byte_len(before + head)) == (
            text::byte_len(before),
            text::byte_len(before) + text::byte_len(head) + text::byte_len(tail),
        ),
{
    let (a, b) = (before + head, tail + after);
    text::lemma_seam(a, b);
    text::lemma_encode_concat(before, head);
    assert(b[0] == tail[0]);
    lemma_run_start(before, head, class, head.len() as int);
    lemma_run_end(tail, after, class, 0);
    assert(a.take(before.len() as int) =~= before);
    assert(b.take(tail.len() as int) =~= tail);
}

proof fn lemma_run_start(before: Seq<char>, head: Seq<char>, class: Class, k: int)
    requires
        0 <= k <= head.len(),
        forall|i: int| 0 <= i < head.len() ==> class_of(#[trigger] head[i]) == class,
        before.len() > 0 ==> class_of(before.last()) != class,
    ensures
        run_start(before + head, before.len() + k, class) == before.len(),
    decreases k,
{
    let t = before + head;
    if k > 0 {
        assert(t[before.len() + k - 1] == head[k - 1]);
        lemma_run_start(before, head, class, k - 1);
    } else if before.len() > 0 {
        assert(t[before.len() - 1] == before.last());
    }
}

proof fn lemma_run_end(tail: Seq<char>, after: Seq<char>, class: Class, k: int)
    requires
        0 <= k <= tail.len(),
        forall|i: int| 0 <= i < tail.len() ==> class_of(#[trigger] tail[i]) == class,
        after.len() > 0 ==> class_of(after[0]) != class,
    ensures
        run_end(tail + after, k, class) == tail.len(),
    decreases tail.len() - k,
{
    let t = tail + after;
    if k < tail.len() {
        assert(t[k] == tail[k]);
        lemma_run_end(tail, after, class, k + 1);
    } else if after.len() > 0 {
        assert(t[k] == after[0]);
    }
}

} // verus!
