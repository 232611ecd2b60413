//! Byte-level text helpers over UTF-8 encoded text: line splitting,
//! whitespace trimming, prefix tests, searching and number formatting.
//!
//! Whitespace follows `char::is_whitespace` (the Unicode `White_Space`
//! property), recognised through the UTF-8 encodings of its code points:
//! on valid UTF-8 a complete encoding at the end (or start) of the bytes is
//! exactly the last (or first) character.

use vstd::prelude::*;

verus! {

/// The one-byte whitespace characters: U+0009..=U+000D and U+0020.
pub open spec fn is_ascii_ws(b: u8) -> bool {
    b == 0x20 || (0x09 <= b && b <= 0x0d)
}

/// The three-byte encodings of whitespace characters: U+1680,
/// U+2000..=U+200A, U+2028, U+2029, U+202F, U+205F and U+3000.
pub open spec fn is_ws3(a: u8, b: u8, c: u8) -> bool {
    ||| (a == 0xe1 && b == 0x9a && c == 0x80)
    ||| (a == 0xe2 && b == 0x80 && ((0x80 <= c && c <= 0x8a) || c == 0xa8 || c == 0xa9 || c
        == 0xaf))
    ||| (a == 0xe2 && b == 0x81 && c == 0x9f)
    ||| (a == 0xe3 && b == 0x80 && c == 0x80)
}

/// The two-byte encodings of whitespace characters: U+0085 and U+00A0.
pub open spec fn is_ws2(a: u8, b: u8) -> bool {
    a == 0xc2 && (b == 0x85 || b == 0xa0)
}

/// Length of the whitespace character that `s` ends with, or 0.
pub open spec fn ws_suffix_len(s: Seq<u8>) -> int {
    let n = s.len() as int;
    if n >= 1 && is_ascii_ws(s[n - 1]) {
        1
    } else if n >= 2 && is_ws2(s[n - 2], s[n - 1]) {
        2
    } else if n >= 3 && is_ws3(s[n - 3], s[n - 2], s[n - 1]) {
        3
    } else {
        0
    }
}

/// Length of the whitespace character that `s` starts with, or 0.
pub open spec fn ws_prefix_len(s: Seq<u8>) -> int {
    if s.len() >= 1 && is_ascii_ws(s[0]) {
        1
    } else if s.len() >= 2 && is_ws2(s[0], s[1]) {
        2
    } else if s.len() >= 3 && is_ws3(s[0], s[1], s[2]) {
        3
    } else {
        0
    }
}

/// `s` without its trailing whitespace (`str::trim_end`).
pub open spec fn trim_end_ws(s: Seq<u8>) -> Seq<u8>
    decreases s.len(),
{
    let k = ws_suffix_len(s);
    if k == 0 {
        s
    } else {
        trim_end_ws(s.subrange(0, s.len() - k))
    }
}

/// `s` without its leading whitespace (`str::trim_start`).
pub open spec fn trim_start_ws(s: Seq<u8>) -> Seq<u8>
    decreases s.len(),
{
    let k = ws_prefix_len(s);
    if k == 0 {
        s
    } else {
        trim_start_ws(s.subrange(k, s.len() as int))
    }
}

/// Index of the first `b` in `s` at or after `start`, or `s.len()`.
pub open spec fn find_byte(s: Seq<u8>, b: u8, start: int) -> int
    decreases s.len() - start,
{
    if start >= s.len() {
        s.len() as int
    } else if s[start] == b {
        start
    } else {
        find_byte(s, b, start + 1)
    }
}

/// The lines of `s` from `start` on: the pieces between line feeds, where
/// a last piece after the final line feed is kept only when non-empty.
pub open spec fn lines_from(s: Seq<u8>, start: int) -> Seq<Seq<u8>>
    decreases s.len() + 1 - start,
{
    if start < 0 || start >= s.len() {
        Seq::empty()
    } else {
        let e = find_byte(s, 0x0a, start);
        proof {
            lemma_find_byte_bounds(s, 0x0a, start);
        }
        seq![s.subrange(start, e)] + lines_from(s, e + 1)
    }
}

/// `str::lines` on bytes, except that a carriage return before a line feed
/// is kept (every caller trims trailing whitespace, which removes it).
pub open spec fn split_lines(s: Seq<u8>) -> Seq<Seq<u8>> {
    lines_from(s, 0)
}

pub open spec fn starts_with(s: Seq<u8>, prefix: Seq<u8>) -> bool {
    prefix.len() <= s.len() && s.subrange(0, prefix.len() as int) == prefix
}

/// Decimal digits of `n`, most significant first.
pub open spec fn decimal(n: nat) -> Seq<u8>
    decreases n,
{
    if n < 10 {
        seq![(48 + n) as u8]
    } else {
        decimal(n / 10).push((48 + n % 10) as u8)
    }
}

/// Lower-case hexadecimal digit for `d < 16`.
pub open spec fn hex_digit(d: u8) -> u8 {
    if d < 10 {
        (48 + d) as u8
    } else {
        (87 + d) as u8
    }
}

/// Two lower-case hexadecimal digits per byte.
pub open spec fn hex(s: Seq<u8>) -> Seq<u8>
    decreases s.len(),
{
    if s.len() == 0 {
        Seq::empty()
    } else {
        hex(s.drop_last()) + seq![hex_digit(s.last() / 16), hex_digit(s.last() % 16)]
    }
}

pub proof fn lemma_find_byte_bounds(s: Seq<u8>, b: u8, start: int)
    requires
        0 <= start,
    ensures
        start <= find_byte(s, b, start) <= s.len() || (start > s.len() && find_byte(s, b, start)
            == s.len()),
        find_byte(s, b, start) < s.len() ==> s[find_byte(s, b, start)] == b,
    decreases s.len() - start,
{
    if start < s.len() && s[start] != b {
        lemma_find_byte_bounds(s, b, start + 1);
    }
}

/// First index of `b` in `s[start..]`, or `s.len()`.
pub fn find_byte_from(s: &[u8], b: u8, start: usize) -> (r: usize)
    requires
        start <= s@.len(),
    ensures
        r == find_byte(s@, b, start as int),
        start <= r <= s@.len(),
{
    let mut i = start;
    while i < s.len()
        invariant
            start <= i <= s@.len(),
            find_byte(s@, b, start as int) == find_byte(s@, b, i as int),
        decreases s@.len() - i,
    {
        if s[i] == b {
            return i;
        }
        i = i + 1;
    }
    i
}

fn ws_suffix_len_exec(s: &[u8], start: usize, end: usize) -> (k: usize)
    requires
        start <= end <= s@.len(),
    ensures
        k == ws_suffix_len(s@.subrange(start as int, end as int)),
{
    let ghost t = s@.subrange(start as int, end as int);
    let n = end - start;
    if n >= 1 && (s[end - 1] == 0x20 || (0x09 <= s[end - 1] && s[end - 1] <= 0x0d)) {
        1
    } else if n >= 2 && s[end - 2] == 0xc2 && (s[end - 1] == 0x85 || s[end - 1] == 0xa0) {
        2
    } else if n >= 3 && is_ws3_exec(s[end - 3], s[end - 2], s[end - 1]) {
        3
    } else {
        0
    }
}

fn ws_prefix_len_exec(s: &[u8], start: usize, end: usize) -> (k: usize)
    requires
        start <= end <= s@.len(),
    ensures
        k == ws_prefix_len(s@.subrange(start as int, end as int)),
{
    let n = end - start;
    if n >= 1 && (s[start] == 0x20 || (0x09 <= s[start] && s[start] <= 0x0d)) {
        1
    } else if n >= 2 && s[start] == 0xc2 && (s[start + 1] == 0x85 || s[start + 1] == 0xa0) {
        2
    } else if n >= 3 && is_ws3_exec(s[start], s[start + 1], s[start + 2]) {
        3
    } else {
        0
    }
}

fn is_ws3_exec(a: u8, b: u8, c: u8) -> (r: bool)
    ensures
        r == is_ws3(a, b, c),
{
    (a == 0xe1 && b == 0x9a && c == 0x80) || (a == 0xe2 && b == 0x80 && ((0x80 <= c && c <= 0x8a)
        || c == 0xa8 || c == 0xa9 || c == 0xaf)) || (a == 0xe2 && b == 0x81 && c == 0x9f) || (a
        == 0xe3 && b == 0x80 && c == 0x80)
}

/// End index of `s[start..end]` with trailing whitespace removed.
pub fn trim_end_index(s: &[u8], start: usize, end: usize) -> (e: usize)
    requires
        start <= end <= s@.len(),
    ensures
        start <= e <= end,
        s@.subrange(start as int, e as int) == trim_end_ws(s@.subrange(start as int, end as int)),
{
    let mut e = end;
    loop
        invariant
            start <= e <= end <= s@.len(),
            trim_end_ws(s@.subrange(start as int, e as int)) == trim_end_ws(
                s@.subrange(start as int, end as int),
            ),
        decreases e - start,
    {
        let k = ws_suffix_len_exec(s, start, e);
        if k == 0 {
            return e;
        }
        assert(s@.subrange(start as int, e as int).subrange(0, e - start - k) == s@.subrange(
            start as int,
            e - k,
        ));
        e = e - k;
    }
}

/// Start index of `s[start..end]` with leading whitespace removed.
pub fn trim_start_index(s: &[u8], start: usize, end: usize) -> (b: usize)
    requires
        start <= end <= s@.len(),
    ensures
        start <= b <= end,
        s@.subrange(b as int, end as int) == trim_start_ws(s@.subrange(start as int, end as int)),
{
    let mut b = start;
    loop
        invariant
            start <= b <= end <= s@.len(),
            trim_start_ws(s@.subrange(b as int, end as int)) == trim_start_ws(
                s@.subrange(start as int, end as int),
            ),
        decreases end - b,
    {
        let k = ws_prefix_len_exec(s, b, end);
        if k == 0 {
            return b;
        }
        assert(s@.subrange(b as int, end as int).subrange(k as int, end - b) == s@.subrange(
            b + k,
            end as int,
        ));
        b = b + k;
    }
}

/// Whether `s` starts with `prefix`.
pub fn starts_with_bytes(s: &[u8], prefix: &[u8]) -> (r: bool)
    ensures
        r == starts_with(s@, prefix@),
{
    if prefix.len() > s.len() {
        return false;
    }
    let mut i: usize = 0;
    while i < prefix.len()
        invariant
            prefix@.len() <= s@.len(),
            i <= prefix@.len(),
            forall|j: int| 0 <= j < i ==> s@[j] == prefix@[j],
        decreases prefix@.len() - i,
    {
        if s[i] != prefix[i] {
            assert(s@.subrange(0, prefix@.len() as int)[i as int] != prefix@[i as int]);
            return false;
        }
        i = i + 1;
    }
    assert(s@.subrange(0, prefix@.len() as int) == prefix@);
    true
}

/// Whether two byte strings are equal.
pub fn bytes_eq(a: &[u8], b: &[u8]) -> (r: bool)
    ensures
        r == (a@ == b@),
{
    if a.len() != b.len() {
        return false;
    }
    let mut i: usize = 0;
    while i < a.len()
        invariant
            a@.len() == b@.len(),
            i <= a@.len(),
            forall|j: int| 0 <= j < i ==> a@[j] == b@[j],
        decreases a@.len() - i,
    {
        if a[i] != b[i] {
            return false;
        }
        i = i + 1;
    }
    assert(a@ == b@);
    true
}

/// Appends `s` to `out`.
pub fn push_all(out: &mut Vec<u8>, s: &[u8])
    ensures
        final(out)@ == old(out)@ + s@,
{
    let ghost start = out@;
    let mut i: usize = 0;
    while i < s.len()
        invariant
            i <= s@.len(),
            out@ == start + s@.subrange(0, i as int),
        decreases s@.len() - i,
    {
        out.push(s[i]);
        i = i + 1;
        assert(start + s@.subrange(0, i as int) == (start + s@.subrange(0, i - 1)).push(s@[i - 1]));
    }
    assert(s@.subrange(0, s@.len() as int) == s@);
}

/// Copy of `s[start..end]`.
pub fn copy_range(s: &[u8], start: usize, end: usize) -> (r: Vec<u8>)
    requires
        start <= end <= s@.len(),
    ensures
        r@ == s@.subrange(start as int, end as int),
{
    let mut r: Vec<u8> = Vec::new();
    push_all(&mut r, &s[start..end]);
    r
}

/// Appends the decimal digits of `n`.
pub fn push_decimal(out: &mut Vec<u8>, n: usize)
    ensures
        final(out)@ == old(out)@ + decimal(n as nat),
    decreases n,
{
    if n >= 10 {
        push_decimal(out, n / 10);
    }
    out.push((48 + n % 10) as u8);
    assert(decimal(n as nat) == if n < 10 {
        seq![(48 + n) as u8]
    } else {
        decimal((n / 10) as nat).push((48 + n % 10) as u8)
    });
}

/// Appends two lower-case hexadecimal digits for each byte of `s`.
pub fn push_hex(out: &mut Vec<u8>, s: &[u8])
    ensures
        final(out)@ == old(out)@ + hex(s@),
{
    let ghost start = out@;
    let mut i: usize = 0;
    while i < s.len()
        invariant
            i <= s@.len(),
            out@ == start + hex(s@.subrange(0, i as int)),
        decreases s@.len() - i,
    {
        let b = s[i];
        let hi = b / 16;
        let lo = b % 16;
        out.push(if hi < 10 {
            48 + hi
        } else {
            87 + hi
        });
        out.push(if lo < 10 {
            48 + lo
        } else {
            87 + lo
        });
        proof {
            let t = s@.subrange(0, i + 1);
            assert(t.drop_last() == s@.subrange(0, i as int));
            assert(t.last() == b);
        }
        i = i + 1;
    }
    assert(s@.subrange(0, s@.len() as int) == s@);
}

} // verus!
