//! List markers and indentation, as they are written.

use vstd::prelude::*;
use vstd::utf8::*;
use crate::lines;
use crate::text;

verus! {

// ── markers ────────────────────────────────────────────────────────────────────
/// A space or a tab.
pub open spec fn blank(c: u8) -> bool {
    c == 32 || c == 9
}

/// The end of the spaces and tabs that stand at `i`.
pub open spec fn blanks_end(b: Seq<u8>, i: int) -> int
    decreases b.len() - i,
{
    if i < b.len() && blank(b[i]) {
        blanks_end(b, i + 1)
    } else {
        i
    }
}

/// The end of the digits that stand at `i`.
pub open spec fn digits_end(b: Seq<u8>, i: int) -> int
    decreases b.len() - i,
{
    if i < b.len() && 48 <= b[i] <= 57 {
        digits_end(b, i + 1)
    } else {
        i
    }
}

/// The end of the bullet, or of the number with its `.` or `)`, that stands at `i`.
pub open spec fn sign_end(b: Seq<u8>, i: int) -> Option<int> {
    let d = digits_end(b, i);
    if i < b.len() && (b[i] == 45 || b[i] == 42 || b[i] == 43) {
        Some(i + 1)
    } else if d == i || d >= b.len() || !(b[d] == 46 || b[d] == 41) {
        None
    } else {
        Some(d + 1)
    }
}

/// The list marker that a line opens with at `from`: where its sign starts, behind the
/// indentation, and where it ends, behind the blanks it needs after it.
pub open spec fn marker_at(b: Seq<u8>, from: int) -> Option<(int, int)> {
    let start = blanks_end(b, from);
    match sign_end(b, start) {
        None => None,
        Some(sign) => if blanks_end(b, sign) == sign {
            None
        } else {
            Some((start, blanks_end(b, sign)))
        },
    }
}

proof fn lemma_blanks_end(b: Seq<u8>, i: int)
    requires
        0 <= i <= b.len(),
    ensures
        i <= blanks_end(b, i) <= b.len(),
        forall|k: int| i <= k < blanks_end(b, i) ==> blank(b[k]),
    decreases b.len() - i,
{
    if i < b.len() && blank(b[i]) {
        lemma_blanks_end(b, i + 1);
    }
}

proof fn lemma_digits_end(b: Seq<u8>, i: int)
    requires
        0 <= i <= b.len(),
    ensures
        i <= digits_end(b, i) <= b.len(),
        forall|k: int| i <= k < digits_end(b, i) ==> 48 <= #[trigger] b[k] <= 57,
    decreases b.len() - i,
{
    if i < b.len() && 48 <= b[i] <= 57 {
        lemma_digits_end(b, i + 1);
    }
}

/// A marker is made of ASCII, and holds no newline.
pub proof fn lemma_marker_at(b: Seq<u8>, from: int)
    requires
        0 <= from <= b.len(),
    ensures
        marker_at(b, from) matches Some(m) ==> from <= m.0 < m.1 <= b.len() && (forall|k: int|
            from <= k < m.1 ==> b[k] < 0x80 && b[k] != 10),
{
    let start = blanks_end(b, from);
    lemma_blanks_end(b, from);
    lemma_digits_end(b, start);
    if let Some(sign) = sign_end(b, start) {
        lemma_blanks_end(b, sign);
    }
}

/// Skip spaces and tabs.
fn skip_blanks(b: &[u8], from: usize) -> (r: usize)
    requires
        from <= b@.len(),
    ensures
        r == blanks_end(b@, from as int),
        from <= r <= b@.len(),
{
    let mut i: usize = from;
    while i < b.len() && (b[i] == 32 || b[i] == 9)
        invariant
            from <= i <= b@.len(),
            blanks_end(b@, from as int) == blanks_end(b@, i as int),
        decreases b@.len() - i,
    {
        i = i + 1;
    }
    i
}

/// The list marker that a line opens with at `from`.
pub(crate) fn find_marker(b: &[u8], from: usize) -> (r: Option<(usize, usize)>)
    requires
        from <= b@.len(),
    ensures
        match r {
            Some(m) => marker_at(b@, from as int) == Some((m.0 as int, m.1 as int)),
            None => marker_at(b@, from as int) is None,
        },
{
    let start = skip_blanks(b, from);
    let mut i: usize = start;
    if i < b.len() && (b[i] == 45 || b[i] == 42 || b[i] == 43) {
        i = i + 1;
    } else {
        while i < b.len() && 48 <= b[i] && b[i] <= 57
            invariant
                start <= i <= b@.len(),
                digits_end(b@, start as int) == digits_end(b@, i as int),
            decreases b@.len() - i,
        {
            i = i + 1;
        }
        if i == start || i >= b.len() || !(b[i] == 46 || b[i] == 41) {
            return None;
        }
        i = i + 1;
    }
    let end = skip_blanks(b, i);
    if end == i {
        return None;
    }
    Some((start, end))
}

/// The width of the list marker `line` opens with: the bullet or number through its
/// trailing blanks, *excluding* any indentation before it, or `None` when the line is no
/// list item.
pub fn list_marker_width(line: &str) -> (r: Option<usize>)
    ensures
        match marker_at(encode_utf8(line@), 0) {
            Some(m) => r == Some((m.1 - m.0) as usize) && 0 < m.1 - m.0 <= usize::MAX,
            None => r is None,
        },
{
    proof {
        lemma_marker_at(encode_utf8(line@), 0);
    }
    match find_marker(line.as_bytes(), 0) {
        Some((start, end)) => Some(end - start),
        None => None,
    }
}

/// The list marker at the start of the line that holds `off`, with its indentation, and
/// where that line starts.
pub fn list_marker_on_line(source: &str, off: usize) -> (r: Option<(usize, String)>)
    ensures
        ({
            let b = encode_utf8(source@);
            let start = lines::bol(b, text::least(off as int, text::byte_len(source@)));
            match marker_at(b, start) {
                Some(m) => r matches Some(found) && found.0 == start && found.1@ == text::slice(
                    source@,
                    start,
                    m.1,
                ) && encode_utf8(found.1@) == b.subrange(start, m.1) && text::boundary(
                    source@,
                    m.1,
                ) && text::boundary(source@, start) && start < m.1 <= b.len(),
                None => r is None,
            }
        }),
{
    let len = text::len(source);
    let off: usize = if off <= len {
        off
    } else {
        len
    };
    let start = lines::start_of_line(source, off);
    match find_marker(source.as_bytes(), start) {
        Some((_, end)) => {
            proof {
                lemma_marker_at(encode_utf8(source@), start as int);
                text::lemma_ascii_boundary(source@, end - 1);
            }
            let part = text::substr(source, start, end);
            Some((start, part.to_owned()))
        },
        None => None,
    }
}

// ── the next marker ────────────────────────────────────────────────────────────
/// A number written in decimal.
pub open spec fn numeral(n: nat) -> Seq<char>
    decreases n,
{
    let digit = (48 + n % 10) as char;
    if n < 10 {
        seq![digit]
    } else {
        numeral(n / 10).push(digit)
    }
}

/// What a written number spells is that number.
pub proof fn law_numeral_is_decimal(n: nat)
    ensures
        text::all_digits(numeral(n)),
        numeral(n).len() > 0,
        text::decimal(numeral(n)) == n,
    decreases n,
{
    let digit = (48 + n % 10) as char;
    assert(digit as u32 == 48 + n % 10);
    if n < 10 {
        assert(seq![digit].drop_last() =~= Seq::<char>::empty());
        reveal_with_fuel(text::decimal, 2);
    } else {
        law_numeral_is_decimal(n / 10);
        assert(numeral(n).drop_last() =~= numeral(n / 10));
        assert(numeral(n).last() == digit);
    }
}

/// The end of the digits that stand in `s` at `i`.
pub open spec fn digit_run(s: Seq<char>, i: int) -> int
    decreases s.len() - i,
{
    if i < s.len() && text::ascii_digit(s[i]) {
        digit_run(s, i + 1)
    } else {
        i
    }
}

/// The number that a marker carries, behind its indentation: where it has digits, and they
/// spell a number of 64 bits.
pub open spec fn marker_number(marker: Seq<char>) -> Option<nat> {
    let from = text::space_end(marker, 0, marker.len() as int);
    let to = digit_run(marker, from);
    let digits = marker.subrange(from, to);
    if digits.len() > 0 && text::decimal(digits) <= u64::MAX {
        Some(text::decimal(digits))
    } else {
        None
    }
}

/// The marker of the next item: one more than a number, or the same bullet.
pub open spec fn marker_after(marker: Seq<char>) -> Seq<char> {
    let from = text::space_end(marker, 0, marker.len() as int);
    let to = digit_run(marker, from);
    match marker_number(marker) {
        Some(n) => marker.subrange(0, from) + numeral(n + 1) + marker.subrange(
            to,
            marker.len() as int,
        ),
        None => marker,
    }
}

proof fn lemma_digit_run(s: Seq<char>, i: int)
    requires
        0 <= i <= s.len(),
    ensures
        i <= digit_run(s, i) <= s.len(),
        forall|k: int| i <= k < digit_run(s, i) ==> text::ascii_digit(s[k]),
    decreases s.len() - i,
{
    if i < s.len() && text::ascii_digit(s[i]) {
        lemma_digit_run(s, i + 1);
    }
}

/// Write a number in decimal behind `out`.
pub(crate) fn push_numeral(out: &mut Vec<char>, n: u128)
    ensures
        final(out)@ == old(out)@ + numeral(n as nat),
    decreases n,
{
    let d: u8 = 48 + (n % 10) as u8;
    let digit: char = d as char;
    if n >= 10 {
        push_numeral(out, n / 10);
    }
    out.push(digit);
    assert(digit as u32 == 48 + n % 10);
}

/// The marker for the *next* list item given the current one: a bullet repeats, an ordered
/// marker increments, keeping any leading indentation and the delimiter and spacing.
pub fn next_list_marker(marker: &str) -> (r: String)
    ensures
        r@ == marker_after(marker@),
{
    let chars = text::chars_of(marker);
    let m = chars.as_slice();
    let from = text::skip_space(m, 0, m.len());
    let mut to: usize = from;
    while to < m.len() && text::is_ascii_digit(m[to])
        invariant
            from <= to <= m@.len(),
            digit_run(m@, from as int) == digit_run(m@, to as int),
        decreases m@.len() - to,
    {
        to = to + 1;
    }
    let ghost digits = m@.subrange(from as int, to as int);
    proof {
        lemma_digit_run(m@, from as int);
        assert(text::all_digits(digits)) by {
            assert forall|k: int| 0 <= k < digits.len() implies text::ascii_digit(
                #[trigger] digits[k],
            ) by {
                assert(digits[k] == m@[from + k]);
            }
        }
    }
    let number = text::string_of(m, from, to);
    let digit_chars = text::chars_of(number.as_str());
    assert(digits.len() > 0 ==> text::ascii_digit(digits[0]));
    match text::parse_decimal(digit_chars.as_slice(), u64::MAX) {
        Some(n) => {
            let mut out: Vec<char> = Vec::new();
            text::append_chars(&mut out, m, 0, from);
            push_numeral(&mut out, n as u128 + 1);
            text::append_chars(&mut out, m, to, m.len());
            assert(out@ =~= marker_after(marker@));
            text::string_of(out.as_slice(), 0, out.len())
        },
        None => marker.to_owned(),
    }
}

// ── indentation ────────────────────────────────────────────────────────────────
/// One indent level: two spaces.
///
/// Four columns at the head of a line are the marker of an indented code block, and two
/// are exactly where a `- ` bullet's content starts.
pub const INDENT: usize = 2;

/// How many spaces stand at the head of `b`, no more than `most`.
pub open spec fn leading_spaces(b: Seq<u8>, most: int) -> int
    decreases b.len(),
{
    if most > 0 && b.len() > 0 && b[0] == 32 {
        1 + leading_spaces(b.skip(1), most - 1)
    } else {
        0
    }
}

/// How many bytes an outdent takes off a line: a tab, which is a level on its own, or the
/// spaces at its head, no more than a level.
pub open spec fn outdent_of(b: Seq<u8>, unit: int) -> int {
    if b.len() > 0 && b[0] == 9 {
        1
    } else {
        leading_spaces(b, unit)
    }
}

/// The indentation step for a line: the width of the list marker it opens with, or the
/// ordinary step.
pub open spec fn unit_of(b: Seq<u8>) -> int {
    match marker_at(b, 0) {
        Some(m) => m.1 - m.0,
        None => INDENT as int,
    }
}

/// What is counted as indentation is.
pub proof fn lemma_leading_spaces(b: Seq<u8>, most: int)
    requires
        most >= 0,
    ensures
        0 <= leading_spaces(b, most) <= most,
        leading_spaces(b, most) <= b.len(),
        forall|k: int| 0 <= k < leading_spaces(b, most) ==> b[k] == 32,
        leading_spaces(b, most) < most ==> leading_spaces(b, most) == b.len() || b[leading_spaces(
            b,
            most,
        )] != 32,
    decreases b.len(),
{
    if most > 0 && b.len() > 0 && b[0] == 32 {
        lemma_leading_spaces(b.skip(1), most - 1);
        let n = leading_spaces(b.skip(1), most - 1);
        assert forall|k: int| 0 <= k < 1 + n implies b[k] == 32 by {
            if k > 0 {
                assert(b.skip(1)[k - 1] == b[k]);
            }
        }
        if n < most - 1 && n < b.len() - 1 {
            assert(b.skip(1)[n] == b[n + 1]);
        }
    }
}

/// How many leading bytes an outdent takes off `line`: a whole indent level where the line
/// has one, and whatever it has where it has less. A leading tab counts as a level.
pub fn outdent_width(line: &str, unit: usize) -> (r: usize)
    ensures
        r == outdent_of(encode_utf8(line@), unit as int),
        r <= text::byte_len(line@),
{
    let b = line.as_bytes();
    proof {
        lemma_leading_spaces(b@, unit as int);
    }
    if b.len() > 0 && b[0] == 9 {
        return 1;
    }
    let mut n: usize = 0;
    assert(b@.skip(0) =~= b@);
    while n < unit && n < b.len() && b[n] == 32
        invariant
            n <= unit,
            n <= b@.len(),
            leading_spaces(b@, unit as int) == n + leading_spaces(b@.skip(n as int), unit - n),
        decreases b@.len() - n,
    {
        assert(b@.skip(n as int).skip(1) =~= b@.skip(n + 1));
        n = n + 1;
    }
    n
}

/// The indentation step for `line`: one list-marker width when the line opens a list item,
/// so that a Tab nests it, otherwise the ordinary step.
pub fn indent_unit(line: &str) -> (r: usize)
    ensures
        r == unit_of(encode_utf8(line@)),
        r > 0,
{
    match list_marker_width(line) {
        Some(width) => width,
        None => INDENT,
    }
}

/// Taking a level of spaces off a line that has just been given one leaves the line as it
/// was.
pub proof fn law_outdent_undoes_indent(b: Seq<u8>, unit: nat)
    ensures
        ({
            let indented = Seq::new(unit, |k: int| 32u8) + b;
            unit > 0 ==> indented.skip(outdent_of(indented, unit as int)) == b
        }),
{
    let pad = Seq::new(unit, |k: int| 32u8);
    let indented = pad + b;
    if unit > 0 {
        assert(indented[0] == 32);
        lemma_leading_spaces(indented, unit as int);
        let n = leading_spaces(indented, unit as int);
        if n < unit {
            assert(indented[n] == pad[n]);
        }
        assert(indented.skip(unit as int) =~= b);
    }
}

// ── what a marker is ───────────────────────────────────────────────────────────
proof fn lemma_digit_run_ends(s: Seq<char>, i: int, end: int)
    requires
        0 <= i <= end <= s.len(),
        forall|k: int| i <= k < end ==> text::ascii_digit(#[trigger] s[k]),
        end < s.len() ==> !text::ascii_digit(s[end]),
    ensures
        digit_run(s, i) == end,
    decreases end - i,
{
    if i < end {
        lemma_digit_run_ends(s, i + 1, end);
    }
}

/// The item behind a numbered one has the next number, and the same indentation, delimiter
/// and spacing.
pub proof fn law_the_next_item_has_the_next_number(
    pre: Seq<char>,
    digits: Seq<char>,
    post: Seq<char>,
)
    requires
        text::all_space(pre),
        text::all_digits(digits),
        digits.len() > 0,
        text::decimal(digits) <= u64::MAX,
        post.len() > 0 ==> !text::ascii_digit(post[0]),
    ensures
        marker_after(pre + digits + post) == pre + numeral(text::decimal(digits) + 1) + post,
{
    let m = pre + digits + post;
    let (from, to) = (pre.len() as int, (pre.len() + digits.len()) as int);
    text::lemma_space_end(m, 0, m.len() as int);
    let e = text::space_end(m, 0, m.len() as int);
    assert(m[from] == digits[0]);
    assert(text::ascii_digit(digits[0]));
    if e < from {
        assert(m[e] == pre[e]);
    }
    assert(e == from);
    assert forall|k: int| from <= k < to implies text::ascii_digit(#[trigger] m[k]) by {
        assert(m[k] == digits[k - from]);
    }
    if to < m.len() {
        assert(m[to] == post[0]);
    }
    lemma_digit_run_ends(m, from, to);
    assert(m.subrange(from, to) =~= digits);
    assert(m.subrange(0, from) =~= pre);
    assert(m.subrange(to, m.len() as int) =~= post);
}

/// The item behind a bulleted one has the same bullet.
pub proof fn law_the_next_item_has_the_same_bullet(pre: Seq<char>, post: Seq<char>)
    requires
        text::all_space(pre),
        post.len() > 0,
        !text::whitespace(post[0]),
        !text::ascii_digit(post[0]),
    ensures
        marker_after(pre + post) == pre + post,
{
    let m = pre + post;
    text::lemma_space_end(m, 0, m.len() as int);
    let e = text::space_end(m, 0, m.len() as int);
    if e < pre.len() {
        assert(m[e] == pre[e]);
    }
    assert(m[pre.len() as int] == post[0]);
    assert(e == pre.len());
}

proof fn lemma_blanks_end_at(b: Seq<u8>, i: int, end: int)
    requires
        0 <= i <= end <= b.len(),
        forall|k: int| i <= k < end ==> #[trigger] b[k] == 32 || b[k] == 9,
        end < b.len() ==> b[end] != 32 && b[end] != 9,
    ensures
        blanks_end(b, i) == end,
    decreases end - i,
{
    if i < end {
        assert(b[i] == 32 || b[i] == 9);
        lemma_blanks_end_at(b, i + 1, end);
    }
}

proof fn lemma_digits_end_at(b: Seq<u8>, i: int, end: int)
    requires
        0 <= i <= end <= b.len(),
        forall|k: int| i <= k < end ==> 48 <= #[trigger] b[k] <= 57,
        end < b.len() ==> !(48 <= b[end] <= 57),
    ensures
        digits_end(b, i) == end,
    decreases end - i,
{
    if i < end {
        lemma_digits_end_at(b, i + 1, end);
    }
}

/// A line is a list item where it opens, behind its indentation, with a dash, a star or a
/// plus sign, or with a number and a full stop or a bracket, and blanks behind them. The
/// marker reaches over those blanks.
pub proof fn law_what_a_list_marker_is(b: Seq<u8>, from: int, sign: int, stop: int, end: int)
    requires
        0 <= from <= sign < stop <= end <= b.len(),
        forall|k: int| from <= k < sign ==> #[trigger] b[k] == 32 || b[k] == 9,
        forall|k: int| stop <= k < end ==> #[trigger] b[k] == 32 || b[k] == 9,
        end < b.len() ==> b[end] != 32 && b[end] != 9,
        (stop == sign + 1 && (b[sign] == 45 || b[sign] == 42 || b[sign] == 43)) || (stop > sign + 1
            && (forall|k: int| sign <= k < stop - 1 ==> 48 <= #[trigger] b[k] <= 57) && (b[stop - 1]
            == 46 || b[stop - 1] == 41)),
    ensures
        marker_at(b, from) == (if stop < end {
            Some((sign, end))
        } else {
            None
        }),
{
    assert(b[sign] != 32 && b[sign] != 9) by {
        if stop > sign + 1 {
            assert(48 <= b[sign] <= 57);
        }
    }
    lemma_blanks_end_at(b, from, sign);
    lemma_blanks_end_at(b, stop, end);
    if stop > sign + 1 {
        lemma_digits_end_at(b, sign, stop - 1);
        assert(48 <= b[sign] <= 57);
    }
}

/// A line that opens with anything else is none.
pub proof fn law_what_no_list_marker_is(b: Seq<u8>, from: int, sign: int)
    requires
        0 <= from <= sign < b.len(),
        forall|k: int| from <= k < sign ==> #[trigger] b[k] == 32 || b[k] == 9,
        b[sign] != 32 && b[sign] != 9 && b[sign] != 45 && b[sign] != 42 && b[sign] != 43,
        !(48 <= b[sign] <= 57),
    ensures
        marker_at(b, from) is None,
        unit_of(b.subrange(from, b.len() as int)) == 2,
{
    lemma_blanks_end_at(b, from, sign);
    lemma_digits_end_at(b, sign, sign);
    let t = b.subrange(from, b.len() as int);
    assert forall|k: int| 0 <= k < sign - from implies #[trigger] t[k] == 32 || t[k] == 9 by {
        assert(t[k] == b[from + k]);
    }
    lemma_blanks_end_at(t, 0, sign - from);
    lemma_digits_end_at(t, sign - from, sign - from);
}

/// An outdent takes a tab whole, and of spaces no more than a level and no more than there
/// are.
pub proof fn law_an_outdent_takes_a_level(b: Seq<u8>, spaces: int, unit: int)
    requires
        0 <= spaces <= b.len(),
        0 <= unit,
        forall|k: int| 0 <= k < spaces ==> #[trigger] b[k] == 32,
        spaces < b.len() ==> b[spaces] != 32,
    ensures
        b.len() > 0 && b[0] == 9 ==> outdent_of(b, unit) == 1,
        !(b.len() > 0 && b[0] == 9) ==> outdent_of(b, unit) == text::least(spaces, unit),
{
    lemma_leading_spaces(b, unit);
}

} // verus!
