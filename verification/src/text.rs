//! Characters and character sequences: the scanning vocabulary that the rest of the
//! crate is written in.

use vstd::prelude::*;
use vstd::string::StringExecFns;
use vstd::string::StringSliceAdditionalSpecFns;
use vstd::utf8::*;
use vstd::std_specs::iter::IteratorSpec;

verus! {

// ── characters ─────────────────────────────────────────────────────────────────
/// The characters with the Unicode property `White_Space`.
pub open spec fn whitespace(c: char) -> bool {
    ||| 0x9 <= c as u32 <= 0xd
    ||| c as u32 == 0x20
    ||| c as u32 == 0x85
    ||| c as u32 == 0xa0
    ||| c as u32 == 0x1680
    ||| 0x2000 <= c as u32 <= 0x200a
    ||| c as u32 == 0x2028
    ||| c as u32 == 0x2029
    ||| c as u32 == 0x202f
    ||| c as u32 == 0x205f
    ||| c as u32 == 0x3000
}

/// Whether `c` is white space.
pub fn is_whitespace(c: char) -> (r: bool)
    ensures
        r == whitespace(c),
{
    let u: u32 = c as u32;
    (0x9 <= u && u <= 0xd) || u == 0x20 || u == 0x85 || u == 0xa0 || u == 0x1680 || (0x2000 <= u
        && u <= 0x200a) || u == 0x2028 || u == 0x2029 || u == 0x202f || u == 0x205f || u == 0x3000
}

/// `0`–`9`.
pub open spec fn ascii_digit(c: char) -> bool {
    '0' <= c <= '9'
}

/// `a`–`z` and `A`–`Z`.
pub open spec fn ascii_alphabetic(c: char) -> bool {
    'a' <= c <= 'z' || 'A' <= c <= 'Z'
}

/// Whether `c` is an ASCII digit.
pub fn is_ascii_digit(c: char) -> (r: bool)
    ensures
        r == ascii_digit(c),
{
    '0' <= c && c <= '9'
}

/// Whether `c` is an ASCII letter.
pub fn is_ascii_alphabetic(c: char) -> (r: bool)
    ensures
        r == ascii_alphabetic(c),
{
    ('a' <= c && c <= 'z') || ('A' <= c && c <= 'Z')
}

/// `c` with an ASCII capital made small.
pub open spec fn lower_char(c: char) -> char {
    if 'A' <= c <= 'Z' {
        (c as u32 + 32) as char
    } else {
        c
    }
}

/// `s` with its ASCII capitals made small.
pub open spec fn lower(s: Seq<char>) -> Seq<char> {
    Seq::new(s.len(), |i: int| lower_char(s[i]))
}

/// `c` with an ASCII capital made small.
pub fn to_lower_char(c: char) -> (r: char)
    ensures
        r == lower_char(c),
{
    if 'A' <= c && c <= 'Z' {
        let b: u8 = c as u8 + 32;
        b as char
    } else {
        c
    }
}

// ── strings and their characters ───────────────────────────────────────────────
/// `String::push`: the character goes on the end.
#[verifier::external_body]
pub(crate) fn push_char(s: &mut String, c: char)
    ensures
        final(s)@ == old(s)@.push(c),
{
    s.push(c)
}

/// `String::from_utf8`: the bytes as a string where they are UTF-8, and `None` where they
/// are not.
#[verifier::external_body]
pub(crate) fn utf8_string(bytes: Vec<u8>) -> (r: Option<String>)
    ensures
        match r {
            Some(s) => valid_utf8(bytes@) && encode_utf8(s@) == bytes@,
            None => !valid_utf8(bytes@),
        },
{
    String::from_utf8(bytes).ok()
}

/// The characters of `s`, in order.
pub fn chars_of(s: &str) -> (r: Vec<char>)
    ensures
        r@ == s@,
{
    let mut out: Vec<char> = Vec::new();
    for c in it: s.chars()
        invariant
            out@ == it.seq().take(it.index() as int),
    {
        out.push(c);
    }
    out
}

/// The characters `from..to` of `chars`, as a string.
pub fn string_of(chars: &[char], from: usize, to: usize) -> (r: String)
    requires
        from <= to <= chars@.len(),
    ensures
        r@ == chars@.subrange(from as int, to as int),
{
    let mut out = String::new();
    let mut i: usize = from;
    while i < to
        invariant
            from <= i <= to <= chars@.len(),
            out@ == chars@.subrange(from as int, i as int),
        decreases to - i,
    {
        push_char(&mut out, chars[i]);
        i = i + 1;
    }
    out
}

/// The characters of `chars` put at the end of `out`.
pub fn append_chars(out: &mut Vec<char>, chars: &[char], from: usize, to: usize)
    requires
        from <= to <= chars@.len(),
    ensures
        final(out)@ == old(out)@ + chars@.subrange(from as int, to as int),
{
    let ghost before = out@;
    let mut i: usize = from;
    while i < to
        invariant
            from <= i <= to <= chars@.len(),
            out@ == before + chars@.subrange(from as int, i as int),
        decreases to - i,
    {
        out.push(chars[i]);
        i = i + 1;
    }
}

/// The characters of `text` put at the end of `out`.
pub fn append_str(out: &mut Vec<char>, text: &str)
    ensures
        final(out)@ == old(out)@ + text@,
{
    let chars = chars_of(text);
    append_chars(out, chars.as_slice(), 0, chars.len());
    assert(chars@.subrange(0, chars@.len() as int) == chars@);
}

/// Two texts, one after the other.
pub fn concat(a: &str, b: &str) -> (r: String)
    ensures
        r@ == a@ + b@,
{
    let mut out = chars_of(a);
    append_str(&mut out, b);
    let r = string_of(out.as_slice(), 0, out.len());
    assert(r@ =~= a@ + b@);
    r
}

/// `chars` with its ASCII capitals made small.
pub fn lower_chars(chars: &[char]) -> (r: Vec<char>)
    ensures
        r@ == lower(chars@),
{
    let mut out: Vec<char> = Vec::new();
    let mut i: usize = 0;
    while i < chars.len()
        invariant
            i <= chars@.len(),
            out@ == lower(chars@).subrange(0, i as int),
        decreases chars@.len() - i,
    {
        out.push(to_lower_char(chars[i]));
        i = i + 1;
    }
    assert(lower(chars@).subrange(0, i as int) == lower(chars@));
    out
}

/// The characters `from..to` of `chars` with their ASCII capitals made small, as a
/// string.
pub fn lower_string(chars: &[char], from: usize, to: usize) -> (r: String)
    requires
        from <= to <= chars@.len(),
    ensures
        r@ == lower(chars@.subrange(from as int, to as int)),
{
    let ghost whole = lower(chars@.subrange(from as int, to as int));
    let mut out = String::new();
    let mut i: usize = from;
    while i < to
        invariant
            from <= i <= to <= chars@.len(),
            whole == lower(chars@.subrange(from as int, to as int)),
            out@ == whole.subrange(0, i - from),
        decreases to - i,
    {
        push_char(&mut out, to_lower_char(chars[i]));
        i = i + 1;
    }
    assert(whole.subrange(0, to - from) == whole);
    out
}

/// Two strings with the same bytes have the same characters.
pub proof fn lemma_same_bytes_same_chars(a: Seq<char>, b: Seq<char>)
    ensures
        encode_utf8(a) == encode_utf8(b) <==> a == b,
{
    encode_utf8_decode_utf8(a);
    encode_utf8_decode_utf8(b);
}

/// Whether two strings are the same text.
pub fn str_eq(a: &str, b: &str) -> (r: bool)
    ensures
        r == (a@ == b@),
{
    proof {
        lemma_same_bytes_same_chars(a@, b@);
    }
    let x = a.as_bytes();
    let y = b.as_bytes();
    if x.len() != y.len() {
        return false;
    }
    let mut i: usize = 0;
    while i < x.len()
        invariant
            i <= x@.len() == y@.len(),
            x@ == encode_utf8(a@),
            y@ == encode_utf8(b@),
            encode_utf8(a@) == encode_utf8(b@) <==> a@ == b@,
            forall|k: int| 0 <= k < i ==> x@[k] == y@[k],
        decreases x@.len() - i,
    {
        if x[i] != y[i] {
            return false;
        }
        i = i + 1;
    }
    assert(x@ =~= y@);
    true
}

// ── scanning ───────────────────────────────────────────────────────────────────
/// The first place at or after `from` where `s` holds `c`, or the end of `s`.
pub open spec fn seek(s: Seq<char>, from: int, c: char) -> int
    decreases s.len() - from,
{
    if from >= s.len() {
        s.len() as int
    } else if s[from] == c {
        from
    } else {
        seek(s, from + 1, c)
    }
}

/// Whether `needle` stands in `s` at `at`.
pub open spec fn occurs_at(s: Seq<char>, at: int, needle: Seq<char>) -> bool {
    0 <= at && at + needle.len() <= s.len() && s.subrange(at, at + needle.len()) == needle
}

/// The first place at or after `from` where `needle` stands in `s`.
pub open spec fn seek_seq(s: Seq<char>, from: int, needle: Seq<char>) -> Option<int>
    decreases s.len() + 1 - from,
{
    if from > s.len() {
        None
    } else if occurs_at(s, from, needle) {
        Some(from)
    } else {
        seek_seq(s, from + 1, needle)
    }
}

/// The end of the white space that stands in `s` at `from`, no further than `to`.
pub open spec fn space_end(s: Seq<char>, from: int, to: int) -> int
    decreases to - from,
{
    if from < to && whitespace(s[from]) {
        space_end(s, from + 1, to)
    } else {
        from
    }
}

/// The start of the white space that ends in `s` at `to`, no earlier than `from`.
pub open spec fn space_start(s: Seq<char>, from: int, to: int) -> int
    decreases to - from,
{
    if from < to && whitespace(s[to - 1]) {
        space_start(s, from, to - 1)
    } else {
        to
    }
}

/// The end of the run without white space that stands in `s` at `from`.
pub open spec fn word_end(s: Seq<char>, from: int) -> int
    decreases s.len() - from,
{
    if from < s.len() && !whitespace(s[from]) {
        word_end(s, from + 1)
    } else {
        from
    }
}

/// `s` without the white space at its start.
pub open spec fn trimmed_start(s: Seq<char>) -> Seq<char> {
    s.subrange(space_end(s, 0, s.len() as int), s.len() as int)
}

/// `s` without the white space at its end.
pub open spec fn trimmed_end(s: Seq<char>) -> Seq<char> {
    s.subrange(0, space_start(s, 0, s.len() as int))
}

/// `s` without the white space at either end.
pub open spec fn trimmed(s: Seq<char>) -> Seq<char> {
    let from = space_end(s, 0, s.len() as int);
    s.subrange(from, space_start(s, from, s.len() as int))
}

/// Where a search for a character ends.
pub proof fn lemma_seek(s: Seq<char>, from: int, c: char)
    requires
        0 <= from <= s.len(),
    ensures
        from <= seek(s, from, c) <= s.len(),
        seek(s, from, c) < s.len() ==> s[seek(s, from, c)] == c,
        forall|k: int| from <= k < seek(s, from, c) ==> s[k] != c,
    decreases s.len() - from,
{
    if from < s.len() && s[from] != c {
        lemma_seek(s, from + 1, c);
    }
}

/// Where a search for a sequence ends.
pub proof fn lemma_seek_seq(s: Seq<char>, from: int, needle: Seq<char>)
    requires
        0 <= from,
    ensures
        match seek_seq(s, from, needle) {
            Some(at) => from <= at && occurs_at(s, at, needle) && (forall|k: int|
                from <= k < at ==> !occurs_at(s, k, needle)),
            None => forall|k: int| from <= k ==> !occurs_at(s, k, needle),
        },
    decreases s.len() + 1 - from,
{
    if from <= s.len() && !occurs_at(s, from, needle) {
        lemma_seek_seq(s, from + 1, needle);
    }
}

/// White space that is stepped over is white space, and what follows it is not.
pub proof fn lemma_space_end(s: Seq<char>, from: int, to: int)
    requires
        0 <= from <= to <= s.len(),
    ensures
        from <= space_end(s, from, to) <= to,
        forall|k: int| from <= k < space_end(s, from, to) ==> whitespace(s[k]),
        space_end(s, from, to) < to ==> !whitespace(s[space_end(s, from, to)]),
    decreases to - from,
{
    if from < to && whitespace(s[from]) {
        lemma_space_end(s, from + 1, to);
    }
}

/// White space that is stepped back over is white space, and what precedes it is not.
pub proof fn lemma_space_start(s: Seq<char>, from: int, to: int)
    requires
        0 <= from <= to <= s.len(),
    ensures
        from <= space_start(s, from, to) <= to,
        forall|k: int| space_start(s, from, to) <= k < to ==> whitespace(s[k]),
        space_start(s, from, to) > from ==> !whitespace(s[space_start(s, from, to) - 1]),
    decreases to - from,
{
    if from < to && whitespace(s[to - 1]) {
        lemma_space_start(s, from, to - 1);
    }
}

/// A run without white space that starts with a character ends past it.
pub proof fn lemma_word_end(s: Seq<char>, from: int)
    requires
        0 <= from <= s.len(),
    ensures
        from <= word_end(s, from) <= s.len(),
        from < s.len() && !whitespace(s[from]) ==> from < word_end(s, from),
    decreases s.len() - from,
{
    if from < s.len() && !whitespace(s[from]) {
        lemma_word_end(s, from + 1);
    }
}

/// The end of the run without white space that stands at `from`.
pub fn find_word_end(chars: &[char], from: usize) -> (r: usize)
    requires
        from <= chars@.len(),
    ensures
        r == word_end(chars@, from as int),
        from <= r <= chars@.len(),
{
    let mut to: usize = from;
    while to < chars.len() && !is_whitespace(chars[to])
        invariant
            from <= to <= chars@.len(),
            word_end(chars@, from as int) == word_end(chars@, to as int),
        decreases chars@.len() - to,
    {
        to = to + 1;
    }
    to
}

/// The first place at or after `from` that holds `c`, or the length.
pub fn find_char(chars: &[char], from: usize, c: char) -> (r: usize)
    requires
        from <= chars@.len(),
    ensures
        r == seek(chars@, from as int, c),
        from <= r <= chars@.len(),
{
    let mut i: usize = from;
    while i < chars.len()
        invariant
            from <= i <= chars@.len(),
            seek(chars@, from as int, c) == seek(chars@, i as int, c),
        decreases chars@.len() - i,
    {
        if chars[i] == c {
            return i;
        }
        i = i + 1;
    }
    i
}

/// Whether `text` stands in `chars` at `at`.
pub fn starts_at(chars: &[char], at: usize, text: &str) -> (r: bool)
    requires
        at <= chars@.len(),
    ensures
        r == occurs_at(chars@, at as int, text@),
{
    let needle = chars_of(text);
    needle_at(chars, at, needle.as_slice())
}

/// Whether `needle` stands in `chars` at `at`.
pub fn needle_at(chars: &[char], at: usize, needle: &[char]) -> (r: bool)
    requires
        at <= chars@.len(),
    ensures
        r == occurs_at(chars@, at as int, needle@),
{
    if needle.len() > chars.len() - at {
        return false;
    }
    let total: usize = chars.len();
    let mut i: usize = 0;
    while i < needle.len()
        invariant
            i <= needle@.len(),
            at + needle@.len() <= chars@.len() == total,
            forall|k: int| 0 <= k < i ==> chars@[at + k] == needle@[k],
        decreases needle@.len() - i,
    {
        if chars[at + i] != needle[i] {
            assert(chars@.subrange(at as int, at + needle@.len())[i as int] != needle@[i as int]);
            return false;
        }
        i = i + 1;
    }
    assert(chars@.subrange(at as int, at + needle@.len()) =~= needle@);
    true
}

/// The first place at or after `from` where `needle` stands in `chars`.
pub fn find_seq(chars: &[char], from: usize, needle: &[char]) -> (r: Option<usize>)
    requires
        from <= chars@.len(),
    ensures
        match r {
            Some(at) => seek_seq(chars@, from as int, needle@) == Some(at as int) && from <= at
                && at + needle@.len() <= chars@.len(),
            None => seek_seq(chars@, from as int, needle@) is None,
        },
{
    let mut i: usize = from;
    loop
        invariant
            from <= i <= chars@.len(),
            seek_seq(chars@, from as int, needle@) == seek_seq(chars@, i as int, needle@),
        decreases chars@.len() - i,
    {
        if needle_at(chars, i, needle) {
            return Some(i);
        }
        if i == chars.len() {
            assert(seek_seq(chars@, i + 1, needle@) is None);
            return None;
        }
        i = i + 1;
    }
}

/// The end of the white space at `from`, no further than `to`.
pub fn skip_space(chars: &[char], from: usize, to: usize) -> (r: usize)
    requires
        from <= to <= chars@.len(),
    ensures
        r == space_end(chars@, from as int, to as int),
        from <= r <= to,
{
    let mut i: usize = from;
    while i < to && is_whitespace(chars[i])
        invariant
            from <= i <= to <= chars@.len(),
            space_end(chars@, from as int, to as int) == space_end(chars@, i as int, to as int),
        decreases to - i,
    {
        i = i + 1;
    }
    i
}

/// The start of the white space that ends at `to`, no earlier than `from`.
pub fn skip_space_back(chars: &[char], from: usize, to: usize) -> (r: usize)
    requires
        from <= to <= chars@.len(),
    ensures
        r == space_start(chars@, from as int, to as int),
        from <= r <= to,
{
    let mut i: usize = to;
    while i > from && is_whitespace(chars[i - 1])
        invariant
            from <= i <= to <= chars@.len(),
            space_start(chars@, from as int, to as int) == space_start(
                chars@,
                from as int,
                i as int,
            ),
        decreases i,
    {
        i = i - 1;
    }
    i
}

/// `text` without the white space at either end.
pub fn trim(text: &str) -> (r: String)
    ensures
        r@ == trimmed(text@),
{
    let chars = chars_of(text);
    let from = skip_space(chars.as_slice(), 0, chars.len());
    let to = skip_space_back(chars.as_slice(), from, chars.len());
    string_of(chars.as_slice(), from, to)
}

// ── decimal numbers ────────────────────────────────────────────────────────────
/// Whether `s` is made of ASCII digits.
pub open spec fn all_digits(s: Seq<char>) -> bool {
    forall|i: int| 0 <= i < s.len() ==> ascii_digit(#[trigger] s[i])
}

/// The number that a sequence of decimal digits spells.
pub open spec fn decimal(s: Seq<char>) -> nat
    decreases s.len(),
{
    if s.len() == 0 {
        0
    } else {
        decimal(s.drop_last()) * 10 + (s.last() as u32 - '0' as u32) as nat
    }
}

/// The number that `s` spells in decimal, an optional `+` before its digits.
pub open spec fn parsed(s: Seq<char>) -> Option<nat> {
    let digits = if s.len() > 0 && s[0] == '+' {
        s.subrange(1, s.len() as int)
    } else {
        s
    };
    if digits.len() > 0 && all_digits(digits) {
        Some(decimal(digits))
    } else {
        None
    }
}

/// The number that `chars` spells in decimal, an optional `+` before its digits, where
/// it is no larger than `max`.
pub fn parse_decimal(chars: &[char], max: u64) -> (r: Option<u64>)
    ensures
        match parsed(chars@) {
            Some(n) => if n <= max {
                r == Some(n as u64)
            } else {
                r is None
            },
            None => r is None,
        },
{
    let start: usize = if chars.len() > 0 && chars[0] == '+' {
        1
    } else {
        0
    };
    let ghost digits = chars@.subrange(start as int, chars@.len() as int);
    assert(start == 0 ==> digits == chars@);
    if start == chars.len() {
        return None;
    }
    let mut n: u64 = 0;
    let mut over = false;
    let mut i: usize = start;
    while i < chars.len()
        invariant
            start <= i <= chars@.len(),
            digits == chars@.subrange(start as int, chars@.len() as int),
            parsed(chars@) == (if digits.len() > 0 && all_digits(digits) {
                Some(decimal(digits))
            } else {
                None
            }),
            forall|k: int| 0 <= k < i - start ==> ascii_digit(#[trigger] digits[k]),
            over <==> decimal(digits.subrange(0, i - start)) > max,
            !over ==> n == decimal(digits.subrange(0, i - start)),
        decreases chars@.len() - i,
    {
        let c = chars[i];
        assert(c == digits[i - start]);
        if !is_ascii_digit(c) {
            return None;
        }
        let d: u64 = (c as u32 - '0' as u32) as u64;
        proof {
            let head = digits.subrange(0, i - start);
            let next = digits.subrange(0, i - start + 1);
            assert(next.drop_last() == head);
            assert(next.last() == c);
            assert(decimal(next) == decimal(head) * 10 + d);
        }
        if !over {
            if n > max / 10 || d > max - n * 10 {
                over = true;
            } else {
                n = n * 10 + d;
            }
        }
        i = i + 1;
    }
    assert(digits.subrange(0, digits.len() as int) == digits);
    if over {
        None
    } else {
        Some(n)
    }
}

/// The smaller of two offsets.
pub open spec fn least(a: int, b: int) -> int {
    if a <= b {
        a
    } else {
        b
    }
}

// ── byte offsets ───────────────────────────────────────────────────────────────
/// Whether the byte offset `at` stands between two characters of `s`, or at its ends.
pub open spec fn boundary(s: Seq<char>, at: int) -> bool {
    is_char_boundary(encode_utf8(s), at)
}

/// The characters of `s` between two byte offsets that stand between characters.
pub open spec fn slice(s: Seq<char>, from: int, to: int) -> Seq<char> {
    decode_utf8(encode_utf8(s).subrange(from, to))
}

/// Cutting a text between characters cuts its bytes there.
pub proof fn lemma_slice(s: Seq<char>, from: int, to: int)
    requires
        boundary(s, from),
        boundary(s, to),
        0 <= from <= to <= encode_utf8(s).len(),
    ensures
        valid_utf8(encode_utf8(s).subrange(from, to)),
        encode_utf8(slice(s, from, to)) == encode_utf8(s).subrange(from, to),
{
    let b = encode_utf8(s);
    encode_utf8_valid_utf8(s);
    let head = b.subrange(0, to);
    valid_utf8_split(b, to);
    assert(is_char_boundary(head, from)) by {
        lemma_boundary_in_prefix(b, from, to);
    }
    valid_utf8_split(head, from);
    assert(head.subrange(from, to) == b.subrange(from, to));
    decode_utf8_encode_utf8(b.subrange(from, to));
}

/// An offset between characters is one in every start of the text that reaches it.
pub proof fn lemma_boundary_in_prefix(b: Seq<u8>, at: int, to: int)
    requires
        valid_utf8(b),
        is_char_boundary(b, at),
        is_char_boundary(b, to),
        0 <= at <= to <= b.len(),
    ensures
        is_char_boundary(b.subrange(0, to), at),
{
    let head = b.subrange(0, to);
    valid_utf8_split(b, to);
    if at == to {
        is_char_boundary_start_end_of_seq(head);
    } else {
        is_char_boundary_iff_not_is_continuation_byte(b, at);
        is_char_boundary_iff_not_is_continuation_byte(head, at);
        assert(head[at] == b[at]);
    }
}

/// The part of `s` between two byte offsets.
pub fn substr(s: &str, from: usize, to: usize) -> (r: &str)
    requires
        boundary(s@, from as int),
        boundary(s@, to as int),
        from <= to <= encode_utf8(s@).len(),
    ensures
        r@ == slice(s@, from as int, to as int),
        encode_utf8(r@) == encode_utf8(s@).subrange(from as int, to as int),
{
    let (head, _) = s.split_at(to);
    proof {
        lemma_slice(s@, from as int, to as int);
        encode_utf8_valid_utf8(s@);
        lemma_boundary_in_prefix(encode_utf8(s@), from as int, to as int);
    }
    let (_, part) = head.split_at(from);
    proof {
        assert(encode_utf8(part@) =~= encode_utf8(s@).subrange(from as int, to as int));
        encode_utf8_decode_utf8(part@);
    }
    part
}

/// Whether every character of `s` is white space.
pub open spec fn all_space(s: Seq<char>) -> bool {
    forall|i: int| 0 <= i < s.len() ==> whitespace(#[trigger] s[i])
}

/// Whether every character of `s` is white space.
pub fn is_blank(s: &str) -> (r: bool)
    ensures
        r == all_space(s@),
{
    let chars = chars_of(s);
    let mut i: usize = 0;
    while i < chars.len()
        invariant
            i <= chars@.len(),
            chars@ == s@,
            forall|k: int| 0 <= k < i ==> whitespace(#[trigger] s@[k]),
        decreases chars@.len() - i,
    {
        if !is_whitespace(chars[i]) {
            return false;
        }
        i = i + 1;
    }
    true
}

/// How many bytes `s` takes in UTF-8.
pub open spec fn byte_len(s: Seq<char>) -> int {
    encode_utf8(s).len() as int
}

/// The byte offset of the character `n` of `s`.
pub open spec fn offset_of(s: Seq<char>, n: int) -> int {
    byte_len(s.take(n))
}

/// An offset between characters is no further than the end.
pub proof fn lemma_boundary_range(s: Seq<char>, at: int)
    requires
        boundary(s, at),
    ensures
        0 <= at <= byte_len(s),
{
    encode_utf8_valid_utf8(s);
}

/// The ends of a text are boundaries.
pub proof fn lemma_boundary_ends(s: Seq<char>)
    ensures
        boundary(s, 0),
        boundary(s, byte_len(s)),
{
    encode_utf8_valid_utf8(s);
    is_char_boundary_start_end_of_seq(encode_utf8(s));
}

/// The bytes of two texts one after the other are those of the two.
pub proof fn lemma_encode_concat(a: Seq<char>, b: Seq<char>)
    ensures
        encode_utf8(a + b) == encode_utf8(a) + encode_utf8(b),
        byte_len(a + b) == byte_len(a) + byte_len(b),
    decreases a.len(),
{
    if a.len() == 0 {
        assert(a + b =~= b);
        assert(encode_utf8(a) + encode_utf8(b) =~= encode_utf8(b));
    } else {
        assert((a + b).drop_first() =~= a.drop_first() + b);
        lemma_encode_concat(a.drop_first(), b);
        assert(encode_utf8(a + b) =~= encode_utf8(a) + encode_utf8(b));
    }
}

/// A boundary cuts a text in two.
pub proof fn lemma_cut(s: Seq<char>, at: int)
    requires
        boundary(s, at),
    ensures
        0 <= at <= byte_len(s),
        s == slice(s, 0, at) + slice(s, at, byte_len(s)),
        byte_len(slice(s, 0, at)) == at,
        byte_len(slice(s, at, byte_len(s))) == byte_len(s) - at,
        slice(s, 0, byte_len(s)) == s,
{
    let b = encode_utf8(s);
    encode_utf8_valid_utf8(s);
    lemma_boundary_range(s, at);
    lemma_boundary_ends(s);
    decode_utf8_split(b, at);
    encode_utf8_decode_utf8(s);
    lemma_slice(s, 0, at);
    lemma_slice(s, at, byte_len(s));
    assert(b.subrange(0, b.len() as int) =~= b);
}

/// Where two texts meet is a boundary of the two together.
pub proof fn lemma_seam(a: Seq<char>, b: Seq<char>)
    ensures
        boundary(a + b, byte_len(a)),
        slice(a + b, 0, byte_len(a)) == a,
        slice(a + b, byte_len(a), byte_len(a + b)) == b,
    decreases a.len(),
{
    let whole = a + b;
    lemma_encode_concat(a, b);
    encode_utf8_valid_utf8(whole);
    encode_utf8_valid_utf8(b);
    encode_utf8_valid_utf8(a);
    if b.len() == 0 {
        assert(whole =~= a);
        lemma_boundary_ends(whole);
    } else {
        encode_utf8_first_scalar(b);
        let i = byte_len(a);
        let bytes = encode_utf8(whole);
        assert(bytes[i] == encode_utf8(b)[0]);
        is_char_boundary_start_end_of_seq(encode_utf8(b));
        is_char_boundary_iff_not_is_continuation_byte(encode_utf8(b), 0);
        is_char_boundary_iff_not_is_continuation_byte(bytes, i);
    }
    assert(encode_utf8(whole).subrange(0, byte_len(a)) =~= encode_utf8(a));
    assert(encode_utf8(whole).subrange(byte_len(a), byte_len(whole)) =~= encode_utf8(b));
    encode_utf8_decode_utf8(a);
    encode_utf8_decode_utf8(b);
}

/// The offset of a character is a boundary, and cuts the text there.
pub proof fn lemma_offset_of(s: Seq<char>, n: int)
    requires
        0 <= n <= s.len(),
    ensures
        boundary(s, offset_of(s, n)),
        0 <= offset_of(s, n) <= byte_len(s),
        slice(s, 0, offset_of(s, n)) == s.take(n),
        slice(s, offset_of(s, n), byte_len(s)) == s.skip(n),
{
    assert(s.take(n) + s.skip(n) =~= s);
    lemma_seam(s.take(n), s.skip(n));
    lemma_boundary_range(s, offset_of(s, n));
}

/// The offsets on both sides of an ASCII byte are boundaries.
pub proof fn lemma_ascii_boundary(s: Seq<char>, i: int)
    requires
        0 <= i < byte_len(s),
        encode_utf8(s)[i] < 0x80,
    ensures
        boundary(s, i),
        boundary(s, i + 1),
{
    let b = encode_utf8(s);
    encode_utf8_valid_utf8(s);
    assert(!is_continuation_byte(b[i]));
    is_char_boundary_iff_not_is_continuation_byte(b, i);
    lemma_cut(s, i);
    let tail = slice(s, i, byte_len(s));
    lemma_boundary_ends(s);
    lemma_slice(s, i, byte_len(s));
    assert(encode_utf8(tail)[0] == b[i]);
    assert(tail.len() > 0);
    encode_utf8_first_scalar(tail);
    assert(length_of_first_scalar(encode_utf8(tail)) == 1);
    let head = slice(s, 0, i);
    let one = tail.take(1);
    assert(tail =~= one + tail.skip(1));
    assert(byte_len(one) == 1) by {
        reveal_with_fuel(encode_utf8, 2);
        assert(one[0] == tail[0]);
        assert(one.drop_first() =~= Seq::<char>::empty());
    }
    lemma_encode_concat(head, one);
    lemma_seam(head + one, tail.skip(1));
    assert(s =~= (head + one) + tail.skip(1));
}

/// How many bytes `c` takes in UTF-8.
pub fn char_len(c: char) -> (r: usize)
    ensures
        r == encode_scalar(c as u32).len(),
        1 <= r <= 4,
{
    let u: u32 = c as u32;
    proof {
        char_is_scalar(c);
    }
    if u < 0x80 {
        1
    } else if u < 0x800 {
        2
    } else if u < 0x10000 {
        3
    } else {
        4
    }
}

/// One character more is that many bytes more.
pub proof fn lemma_next_offset(s: Seq<char>, n: int)
    requires
        0 <= n < s.len(),
    ensures
        offset_of(s, n + 1) == offset_of(s, n) + encode_scalar(s[n] as u32).len(),
        offset_of(s, n + 1) <= byte_len(s),
{
    let one = seq![s[n]];
    assert(s.take(n + 1) =~= s.take(n) + one);
    lemma_encode_concat(s.take(n), one);
    reveal_with_fuel(encode_utf8, 2);
    assert(one.drop_first() =~= Seq::<char>::empty());
    lemma_offset_of(s, n + 1);
}

/// The offset of the first boundary at or before `at`.
pub open spec fn floor_boundary(s: Seq<char>, at: int) -> int
    decreases at,
{
    if at <= 0 || boundary(s, at) {
        at
    } else {
        floor_boundary(s, at - 1)
    }
}

/// Stepping back to a boundary stops at one.
pub proof fn lemma_floor_boundary(s: Seq<char>, at: int)
    requires
        0 <= at,
    ensures
        0 <= floor_boundary(s, at) <= at,
        boundary(s, floor_boundary(s, at)),
        boundary(s, at) ==> floor_boundary(s, at) == at,
    decreases at,
{
    lemma_boundary_ends(s);
    if at > 0 && !boundary(s, at) {
        lemma_floor_boundary(s, at - 1);
    }
}

/// The first boundary at or before `at`.
pub fn step_to_boundary(s: &str, at: usize) -> (r: usize)
    requires
        at <= byte_len(s@),
    ensures
        r == floor_boundary(s@, at as int),
        boundary(s@, r as int),
        r <= at,
{
    let mut i: usize = at;
    proof {
        lemma_boundary_ends(s@);
    }
    while i > 0 && !s.is_char_boundary(i)
        invariant
            i <= at,
            floor_boundary(s@, at as int) == floor_boundary(s@, i as int),
            boundary(s@, 0),
        decreases i,
    {
        i = i - 1;
    }
    i
}

/// The length of `s` in bytes.
pub fn len(s: &str) -> (r: usize)
    ensures
        r == byte_len(s@),
{
    s.as_bytes().len()
}

/// Only an empty text takes no bytes.
pub proof fn lemma_empty(s: Seq<char>)
    ensures
        byte_len(s) == 0 <==> s.len() == 0,
{
    if s.len() > 0 {
        lemma_next_offset(s, 0);
        lemma_offset_of(s, 1);
        lemma_offset_of(s, 0);
        char_is_scalar(s[0]);
    } else {
        assert(encode_utf8(s) =~= Seq::<u8>::empty());
    }
}

} // verus!
