//! Character-level helpers shared by the parsers: conversion between `&str`
//! and `Vec<char>`, and the whitespace class used by `str::trim`.

use vstd::prelude::*;

verus! {

/// The characters with the Unicode `White_Space` property, which is what
/// `char::is_whitespace` and `str::trim` test.
pub open spec fn is_ws(c: char) -> bool {
    ||| ('\u{9}' <= c && c <= '\u{d}')
    ||| c == ' '
    ||| c == '\u{85}'
    ||| c == '\u{a0}'
    ||| c == '\u{1680}'
    ||| ('\u{2000}' <= c && c <= '\u{200a}')
    ||| c == '\u{2028}'
    ||| c == '\u{2029}'
    ||| c == '\u{202f}'
    ||| c == '\u{205f}'
    ||| c == '\u{3000}'
}

/// Every character of `s` is whitespace (so `s.trim()` is empty).
pub open spec fn all_ws(s: Seq<char>) -> bool {
    forall|i: int| 0 <= i < s.len() ==> is_ws(#[trigger] s[i])
}

/// `s` with leading whitespace removed (`str::trim_start`).
pub open spec fn ltrim(s: Seq<char>) -> Seq<char>
    decreases s.len(),
{
    if s.len() > 0 && is_ws(s[0]) {
        ltrim(s.skip(1))
    } else {
        s
    }
}

/// `s` with trailing whitespace removed (`str::trim_end`).
pub open spec fn rtrim(s: Seq<char>) -> Seq<char>
    decreases s.len(),
{
    if s.len() > 0 && is_ws(s.last()) {
        rtrim(s.drop_last())
    } else {
        s
    }
}

/// `str::trim`.
pub open spec fn trim(s: Seq<char>) -> Seq<char> {
    rtrim(ltrim(s))
}

pub fn char_is_ws(c: char) -> (r: bool)
    ensures
        r == is_ws(c),
{
    ('\u{9}' <= c && c <= '\u{d}') || c == ' ' || c == '\u{85}' || c == '\u{a0}' || c
        == '\u{1680}' || ('\u{2000}' <= c && c <= '\u{200a}') || c == '\u{2028}' || c
        == '\u{2029}' || c == '\u{202f}' || c == '\u{205f}' || c == '\u{3000}'
}

/// The characters of a string slice, in order.
pub fn chars_of(s: &str) -> (r: Vec<char>)
    ensures
        r@ == s@,
{
    let mut r: Vec<char> = Vec::new();
    for c in it: s.chars()
        invariant
            r@ == it.seq().take(it.index() as int),
    {
        r.push(c);
    }
    r
}

proof fn lemma_ltrim_props(s: Seq<char>)
    ensures
        ltrim(s).len() == 0 || !is_ws(ltrim(s)[0]),
        ltrim(ltrim(s)) == ltrim(s),
        rtrim(ltrim(s)).len() == 0 || !is_ws(rtrim(ltrim(s))[0]),
    decreases s.len(),
{
    if s.len() > 0 && is_ws(s[0]) {
        lemma_ltrim_props(s.skip(1));
    }
    lemma_rtrim_keeps_first(ltrim(s));
}

proof fn lemma_rtrim_keeps_first(s: Seq<char>)
    ensures
        rtrim(s).len() == 0 || rtrim(s)[0] == s[0],
    decreases s.len(),
{
    if s.len() > 0 && is_ws(s.last()) {
        lemma_rtrim_keeps_first(s.drop_last());
        assert(rtrim(s.drop_last()).len() == 0 || s.drop_last()[0] == s[0]);
    }
}

proof fn lemma_rtrim_props(s: Seq<char>)
    ensures
        rtrim(s).len() == 0 || !is_ws(rtrim(s).last()),
    decreases s.len(),
{
    if s.len() > 0 && is_ws(s.last()) {
        lemma_rtrim_props(s.drop_last());
    }
}

/// Trimming twice is trimming once.
pub proof fn lemma_trim_idempotent(s: Seq<char>)
    ensures
        trim(trim(s)) == trim(s),
{
    let t = trim(s);
    lemma_ltrim_props(s);
    lemma_rtrim_props(ltrim(s));
    if t.len() > 0 {
        assert(!is_ws(t[0]));
    }
    assert(ltrim(t) == t);
    assert(rtrim(t) == t);
}

/// Index of the first non-whitespace character of `s[lo..hi]` (or `hi`).
pub fn ltrim_index(s: &[char], lo: usize, hi: usize) -> (b: usize)
    requires
        lo <= hi <= s@.len(),
    ensures
        lo <= b <= hi,
        ltrim(s@.subrange(lo as int, hi as int)) == s@.subrange(b as int, hi as int),
        all_ws(s@.subrange(lo as int, b as int)),
{
    let mut i: usize = lo;
    while i < hi && char_is_ws(s[i])
        invariant
            lo <= i <= hi <= s@.len(),
            ltrim(s@.subrange(lo as int, hi as int)) == ltrim(s@.subrange(i as int, hi as int)),
            all_ws(s@.subrange(lo as int, i as int)),
        decreases hi - i,
    {
        assert(s@.subrange(i as int, hi as int).skip(1) =~= s@.subrange(i + 1, hi as int));
        assert(s@.subrange(lo as int, i + 1) =~= s@.subrange(lo as int, i as int).push(s@[i as int]));
        i += 1;
    }
    i
}

/// End index, within `s[lo..hi]`, of that window once trailing whitespace
/// is removed.
pub fn rtrim_index(s: &[char], lo: usize, hi: usize) -> (e: usize)
    requires
        lo <= hi <= s@.len(),
    ensures
        lo <= e <= hi,
        rtrim(s@.subrange(lo as int, hi as int)) == s@.subrange(lo as int, e as int),
        all_ws(s@.subrange(e as int, hi as int)),
{
    let mut i: usize = hi;
    while i > lo && char_is_ws(s[i - 1])
        invariant
            lo <= i <= hi <= s@.len(),
            rtrim(s@.subrange(lo as int, hi as int)) == rtrim(s@.subrange(lo as int, i as int)),
            all_ws(s@.subrange(i as int, hi as int)),
        decreases i,
    {
        assert(s@.subrange(lo as int, i as int).drop_last() =~= s@.subrange(lo as int, i - 1));
        assert(s@.subrange(i - 1, hi as int) =~= seq![s@[i - 1]] + s@.subrange(i as int, hi as int));
        i -= 1;
    }
    i
}

/// Bounds of `trim(s[lo..hi])` inside `s`.
pub fn trim_bounds(s: &[char], lo: usize, hi: usize) -> (r: (usize, usize))
    requires
        lo <= hi <= s@.len(),
    ensures
        lo <= r.0 <= r.1 <= hi,
        trim(s@.subrange(lo as int, hi as int)) == s@.subrange(r.0 as int, r.1 as int),
{
    let a = ltrim_index(s, lo, hi);
    let b = rtrim_index(s, a, hi);
    (a, b)
}

/// `String::push`: appends one character.
#[verifier::external_body]
pub(crate) fn push_char(s: &mut String, c: char)
    ensures
        final(s)@ == old(s)@.push(c),
{
    s.push(c);
}

/// A `String` holding exactly the given characters.
pub fn string_of(v: &[char]) -> (r: String)
    ensures
        r@ == v@,
{
    let mut r = String::new();
    let mut i: usize = 0;
    while i < v.len()
        invariant
            i <= v@.len(),
            r@ == v@.take(i as int),
        decreases v@.len() - i,
    {
        push_char(&mut r, v[i]);
        assert(v@.take(i + 1) =~= v@.take(i as int).push(v@[i as int]));
        i += 1;
    }
    assert(v@.take(v@.len() as int) =~= v@);
    r
}

/// Appends the characters of `v` to the vector `out`.
pub fn extend_chars(out: &mut Vec<char>, v: &[char])
    ensures
        final(out)@ == old(out)@ + v@,
{
    let mut i: usize = 0;
    while i < v.len()
        invariant
            i <= v@.len(),
            out@ == old(out)@ + v@.take(i as int),
        decreases v@.len() - i,
    {
        out.push(v[i]);
        assert(v@.take(i + 1) =~= v@.take(i as int).push(v@[i as int]));
        i += 1;
    }
    assert(v@.take(v@.len() as int) =~= v@);
}

/// Appends the characters of a string slice to `out`.
pub fn extend_str(out: &mut Vec<char>, s: &str)
    ensures
        final(out)@ == old(out)@ + s@,
{
    let v = chars_of(s);
    extend_chars(out, v.as_slice());
}

/// Whether the text is empty or all whitespace (`s.trim().is_empty()`).
pub fn is_blank(s: &str) -> (r: bool)
    ensures
        r == all_ws(s@),
{
    let v = chars_of(s);
    let mut i: usize = 0;
    while i < v.len()
        invariant
            i <= v@.len(),
            v@ == s@,
            forall|k: int| 0 <= k < i ==> is_ws(#[trigger] v@[k]),
        decreases v@.len() - i,
    {
        if !char_is_ws(v[i]) {
            return false;
        }
        i += 1;
    }
    true
}

/// Element-wise equality of two character slices.
pub fn chars_eq(a: &[char], b: &[char]) -> (r: bool)
    ensures
        r == (a@ == b@),
{
    if a.len() != b.len() {
        return false;
    }
    let mut i: usize = 0;
    while i < a.len()
        invariant
            a@.len() == b@.len(),
            i <= a@.len(),
            forall|k: int| 0 <= k < i ==> a@[k] == b@[k],
        decreases a@.len() - i,
    {
        if a[i] != b[i] {
            return false;
        }
        i += 1;
    }
    assert(a@ =~= b@);
    true
}

/// String equality by content.
pub fn str_eq(a: &str, b: &str) -> (r: bool)
    ensures
        r == (a@ == b@),
{
    let x = chars_of(a);
    let y = chars_of(b);
    chars_eq(x.as_slice(), y.as_slice())
}

pub open spec fn is_digit(c: char) -> bool {
    '0' <= c && c <= '9'
}

/// Length of the longest prefix of `s` made of ASCII digits.
pub open spec fn digit_prefix_len(s: Seq<char>) -> nat
    decreases s.len(),
{
    if s.len() > 0 && is_digit(s[0]) {
        1 + digit_prefix_len(s.skip(1))
    } else {
        0
    }
}

/// Decimal value of a string of ASCII digits.
pub open spec fn digits_value(s: Seq<char>) -> nat
    decreases s.len(),
{
    if s.len() == 0 {
        0
    } else {
        digits_value(s.drop_last()) * 10 + ((s.last() as int) - 48) as nat
    }
}

pub open spec fn digit_char(d: nat) -> char {
    ((d % 10) + 48) as char
}

/// Decimal digits of `n`, most significant first, no leading zeros
/// (`"0"` for zero).
pub open spec fn dec_digits(n: nat) -> Seq<char>
    decreases n,
{
    if n < 10 {
        seq![digit_char(n)]
    } else {
        dec_digits(n / 10).push(digit_char(n % 10))
    }
}

pub proof fn lemma_dec_digits_len(n: nat)
    ensures
        dec_digits(n).len() >= 1,
        n >= 10 ==> dec_digits(n).len() >= 2,
    decreases n,
{
    if n >= 10 {
        lemma_dec_digits_len(n / 10);
    }
}

proof fn lemma_digit_char_injective(a: nat, b: nat)
    requires
        a < 10,
        b < 10,
        digit_char(a) == digit_char(b),
    ensures
        a == b,
{
    assert(digit_char(a) as int == a + 48);
    assert(digit_char(b) as int == b + 48);
}

/// Different numbers have different decimal digits.
pub proof fn lemma_dec_digits_injective(a: nat, b: nat)
    requires
        dec_digits(a) == dec_digits(b),
    ensures
        a == b,
    decreases a,
{
    lemma_dec_digits_len(a);
    lemma_dec_digits_len(b);
    if a < 10 && b < 10 {
        assert(dec_digits(a)[0] == digit_char(a));
        assert(dec_digits(b)[0] == digit_char(b));
        lemma_digit_char_injective(a, b);
    } else if a >= 10 && b >= 10 {
        let da = dec_digits(a);
        assert(da.last() == digit_char(a % 10));
        assert(dec_digits(b).last() == digit_char(b % 10));
        lemma_digit_char_injective(a % 10, b % 10);
        assert(dec_digits(a / 10) =~= da.drop_last());
        assert(dec_digits(b / 10) =~= dec_digits(b).drop_last());
        lemma_dec_digits_injective(a / 10, b / 10);
    } else {
        lemma_dec_digits_len(a / 10);
        lemma_dec_digits_len(b / 10);
    }
}

/// `to_string` of an integer.
pub open spec fn dec_int(n: int) -> Seq<char> {
    if n < 0 {
        seq!['-'] + dec_digits((-n) as nat)
    } else {
        dec_digits(n as nat)
    }
}

/// Decimal representation of an unsigned integer.
pub fn u64_dec(n: u64) -> (r: Vec<char>)
    ensures
        r@ == dec_digits(n as nat),
    decreases n,
{
    if n < 10 {
        let mut r = Vec::new();
        r.push(((n as u8) + 48) as char);
        assert(r@ =~= seq![digit_char(n as nat)]);
        r
    } else {
        let mut r = u64_dec(n / 10);
        let d = n % 10;
        r.push(((d as u8) + 48) as char);
        assert(digit_char(d as nat) == digit_char((n % 10) as nat));
        r
    }
}

/// Only ASCII digits.
pub open spec fn all_digits(s: Seq<char>) -> bool {
    forall|i: int| 0 <= i < s.len() ==> is_digit(#[trigger] s[i])
}

/// Two ASCII digits.
pub open spec fn two_digits(s: Seq<char>) -> bool {
    s.len() == 2 && all_digits(s)
}

/// A year as chrono writes it: four digits, or a sign and at least four
/// digits outside 0..=9999.
pub open spec fn year_text(y: Seq<char>) -> bool {
    (y.len() == 4 && all_digits(y)) || (y.len() >= 5 && (y[0] == '+' || y[0] == '-') && all_digits(y.skip(1)))
}

/// A `%Y-%m-%d` date.
pub open spec fn is_ymd(s: Seq<char>) -> bool {
    exists|y: Seq<char>, m: Seq<char>, d: Seq<char>|
        year_text(y) && two_digits(m) && two_digits(d) && s == #[trigger] (y + seq!['-'] + m + seq!['-'] + d)
}

/// A `%Y-%m-%d %H:%M UTC` time.
pub open spec fn is_utc_minutes(s: Seq<char>) -> bool {
    exists|date: Seq<char>, h: Seq<char>, m: Seq<char>|
        is_ymd(date) && two_digits(h) && two_digits(m) && s == #[trigger] (date + seq![' '] + h + seq![':'] + m + " UTC"@)
}

/// An RFC 3339 UTC time as chrono writes it with automatic sub-second
/// digits and a `Z`: `date T hh:mm:ss`, then none, three, six or nine
/// fraction digits after a `.`, then `Z`.
pub open spec fn is_rfc3339_utc(s: Seq<char>) -> bool {
    exists|date: Seq<char>, h: Seq<char>, m: Seq<char>, sec: Seq<char>, frac: Seq<char>|
        is_ymd(date) && two_digits(h) && two_digits(m) && two_digits(sec)
        && (frac.len() == 0 || (frac[0] == '.' && (frac.len() == 4 || frac.len() == 7 || frac.len() == 10) && all_digits(frac.skip(1))))
        && s == #[trigger] (date + seq!['T'] + h + seq![':'] + m + seq![':'] + sec + frac + seq!['Z'])
}

/// Decimal representation of a wide unsigned integer.
pub fn u128_dec(n: u128) -> (r: Vec<char>)
    ensures
        r@ == dec_digits(n as nat),
    decreases n,
{
    if n < 10 {
        let mut r = Vec::new();
        r.push(((n as u8) + 48) as char);
        assert(r@ =~= seq![digit_char(n as nat)]);
        r
    } else {
        let mut r = u128_dec(n / 10);
        let d = n % 10;
        r.push(((d as u8) + 48) as char);
        assert(digit_char(d as nat) == digit_char((n % 10) as nat));
        r
    }
}

/// Decimal representation of a signed integer (`i64::to_string`).
pub fn i64_dec(n: i64) -> (r: Vec<char>)
    ensures
        r@ == dec_int(n as int),
{
    if n < 0 {
        let mag: u64 = if n == i64::MIN {
            0x8000_0000_0000_0000u64
        } else {
            (-n) as u64
        };
        let d = u64_dec(mag);
        let mut r = Vec::new();
        r.push('-');
        extend_chars(&mut r, d.as_slice());
        assert(r@ =~= seq!['-'] + dec_digits((-(n as int)) as nat));
        r
    } else {
        u64_dec(n as u64)
    }
}

/// An owned copy of a string slice.
pub fn owned(s: &str) -> (r: String)
    ensures
        r@ == s@,
{
    let v = chars_of(s);
    string_of(v.as_slice())
}

/// Position of the first `\n` at or after `pos`, or the length.
pub open spec fn next_newline(s: Seq<char>, pos: int) -> int
    decreases s.len() - pos,
{
    if pos >= s.len() {
        s.len() as int
    } else if s[pos] == '\n' {
        pos
    } else {
        next_newline(s, pos + 1)
    }
}

pub open spec fn strip_cr(l: Seq<char>) -> Seq<char> {
    if l.len() > 0 && l.last() == '\r' {
        l.drop_last()
    } else {
        l
    }
}

/// `str::lines` of `s[pos..]`: split at `\n`, a `\r` before the `\n`
/// dropped, no empty line after a final `\n`.
pub open spec fn lines_from(s: Seq<char>, pos: int) -> Seq<Seq<char>>
    decreases s.len() - pos, 0int,
{
    if pos < 0 || pos >= s.len() {
        seq![]
    } else {
        let e = next_newline(s, pos);
        if e >= s.len() {
            seq![s.subrange(pos, s.len() as int)]
        } else {
            proof {
                lemma_next_newline(s, pos);
            }
            seq![strip_cr(s.subrange(pos, e))] + lines_from(s, e + 1)
        }
    }
}

pub proof fn lemma_next_newline(s: Seq<char>, pos: int)
    requires
        0 <= pos,
    ensures
        pos <= next_newline(s, pos) <= s.len() || (pos > s.len() && next_newline(s, pos) == s.len()),
        next_newline(s, pos) < s.len() ==> s[next_newline(s, pos)] == '\n',
        forall|k: int| pos <= k < next_newline(s, pos) ==> s[k] != '\n',
    decreases s.len() - pos,
{
    if pos < s.len() && s[pos] != '\n' {
        lemma_next_newline(s, pos + 1);
    }
}

/// `s.lines()`.
pub open spec fn str_lines(s: Seq<char>) -> Seq<Seq<char>> {
    lines_from(s, 0)
}

/// The lines of a text, as `str::lines` splits them.
pub fn lines_of(s: &str) -> (r: Vec<Vec<char>>)
    ensures
        r@.map_values(|l: Vec<char>| l@) == str_lines(s@),
{
    let v = chars_of(s);
    let n = v.len();
    let mut out: Vec<Vec<char>> = Vec::new();
    let mut pos: usize = 0;
    while pos < n
        invariant
            n == v@.len(),
            v@ == s@,
            pos <= n,
            out@.map_values(|l: Vec<char>| l@) + lines_from(v@, pos as int) == str_lines(v@),
        decreases n - pos,
    {
        let mut e = pos;
        while e < n && v[e] != '\n'
            invariant
                pos <= e <= n,
                n == v@.len(),
                next_newline(v@, pos as int) == next_newline(v@, e as int),
            decreases n - e,
        {
            e += 1;
        }
        let mut line: Vec<char> = Vec::new();
        let mut k = pos;
        while k < e
            invariant
                pos <= k <= e <= n,
                n == v@.len(),
                line@ == v@.subrange(pos as int, k as int),
            decreases e - k,
        {
            line.push(v[k]);
            assert(v@.subrange(pos as int, k + 1) =~= v@.subrange(pos as int, k as int).push(v@[k as int]));
            k += 1;
        }
        let ghost before = out@.map_values(|l: Vec<char>| l@);
        if e < n {
            if line.len() > 0 && line[line.len() - 1] == '\r' {
                line.pop();
            }
            out.push(line);
            assert(out@.map_values(|l: Vec<char>| l@) =~= before.push(strip_cr(v@.subrange(pos as int, e as int))));
            assert(lines_from(v@, pos as int) == seq![strip_cr(v@.subrange(pos as int, e as int))] + lines_from(v@, e + 1));
            assert(before + lines_from(v@, pos as int) =~= out@.map_values(|l: Vec<char>| l@) + lines_from(v@, e + 1));
            pos = e + 1;
        } else {
            out.push(line);
            assert(out@.map_values(|l: Vec<char>| l@) =~= before.push(v@.subrange(pos as int, n as int)));
            assert(lines_from(v@, n as int) =~= Seq::<Seq<char>>::empty());
            assert(before + lines_from(v@, pos as int) =~= out@.map_values(|l: Vec<char>| l@) + lines_from(v@, n as int));
            pos = n;
        }
    }
    assert(lines_from(v@, n as int) =~= Seq::<Seq<char>>::empty());
    assert(out@.map_values(|l: Vec<char>| l@) =~= out@.map_values(|l: Vec<char>| l@) + lines_from(v@, pos as int));
    out
}

/// `needle` occurs in `hay` at `i`.
pub open spec fn occurs_at(hay: Seq<char>, needle: Seq<char>, i: int) -> bool {
    0 <= i && i + needle.len() <= hay.len() && hay.subrange(i, i + needle.len()) == needle
}

/// `str::contains` with a string pattern.
pub open spec fn contains_str(hay: Seq<char>, needle: Seq<char>) -> bool {
    exists|i: int| occurs_at(hay, needle, i)
}

pub fn str_contains(hay: &str, needle: &str) -> (r: bool)
    ensures
        r == contains_str(hay@, needle@),
{
    let h = chars_of(hay);
    let nd = chars_of(needle);
    if nd.len() == 0 {
        assert(h@.subrange(0, 0) =~= nd@);
        assert(occurs_at(h@, nd@, 0));
        return true;
    }
    if nd.len() > h.len() {
        return false;
    }
    let hlen = h.len();
    let last = hlen - nd.len();
    let mut i: usize = 0;
    while i <= last
        invariant
            h@ == hay@,
            nd@ == needle@,
            last == h@.len() - nd@.len(),
            hlen == h@.len(),
            nd@.len() > 0,
            i <= last + 1,
            forall|j: int| 0 <= j < i ==> !occurs_at(h@, nd@, j),
        decreases last + 1 - i,
    {
        let mut k: usize = 0;
        let mut same = true;
        while k < nd.len()
            invariant
                h@ == hay@,
                nd@ == needle@,
                i <= last,
                last == h@.len() - nd@.len(),
                hlen == h@.len(),
                k <= nd@.len(),
                same == (forall|x: int| 0 <= x < k ==> h@[i + x] == nd@[x]),
            decreases nd@.len() - k,
        {
            if h[i + k] != nd[k] {
                same = false;
            }
            k += 1;
        }
        if same {
            assert(h@.subrange(i as int, i + nd@.len()) =~= nd@);
            assert(occurs_at(h@, nd@, i as int));
            return true;
        }
        assert(!occurs_at(h@, nd@, i as int)) by {
            if h@.subrange(i as int, i + nd@.len()) == nd@ {
                assert forall|x: int| 0 <= x < nd@.len() implies h@[i + x] == nd@[x] by {
                    assert(h@.subrange(i as int, i + nd@.len())[x] == h@[i + x]);
                }
            }
        }
        i += 1;
    }
    assert forall|j: int| !occurs_at(h@, nd@, j) by {
        if 0 <= j && j + nd@.len() <= h@.len() {
            assert(j <= last);
        }
    }
    false
}

/// `a` followed by `b`.
pub fn concat(a: &str, b: &str) -> (r: String)
    ensures
        r@ == a@ + b@,
{
    let mut v = chars_of(a);
    extend_str(&mut v, b);
    string_of(v.as_slice())
}

/// `a`, `b` and `c` in a row.
pub fn concat3(a: &str, b: &str, c: &str) -> (r: String)
    ensures
        r@ == a@ + b@ + c@,
{
    let mut v = chars_of(a);
    extend_str(&mut v, b);
    extend_str(&mut v, c);
    string_of(v.as_slice())
}

/// `parts` joined with `sep` between consecutive parts (`[&str]::join`).
pub open spec fn join_with(parts: Seq<Seq<char>>, sep: Seq<char>) -> Seq<char>
    decreases parts.len(),
{
    if parts.len() == 0 {
        seq![]
    } else if parts.len() == 1 {
        parts[0]
    } else {
        join_with(parts.drop_last(), sep) + sep + parts.last()
    }
}

/// Appends `parts` joined with `sep`.
pub fn push_joined(out: &mut Vec<char>, parts: &Vec<String>, sep: &str)
    ensures
        final(out)@ == old(out)@ + join_with(parts@.map_values(|p: String| p@), sep@),
{
    let ghost pv = parts@.map_values(|p: String| p@);
    let mut i: usize = 0;
    while i < parts.len()
        invariant
            i <= parts@.len(),
            pv == parts@.map_values(|p: String| p@),
            out@ == old(out)@ + join_with(pv.take(i as int), sep@),
        decreases parts@.len() - i,
    {
        assert(pv.take(i + 1).drop_last() =~= pv.take(i as int));
        if i > 0 {
            extend_str(out, sep);
        }
        extend_str(out, parts[i].as_str());
        assert(i == 0 ==> pv.take(1) =~= seq![pv[0]]);
        assert(out@ =~= old(out)@ + join_with(pv.take(i + 1), sep@));
        i += 1;
    }
    assert(pv.take(parts@.len() as int) =~= pv);
}

/// `s` with every `c` written twice (`str::replace(c, cc)`).
pub open spec fn double_char(s: Seq<char>, c: char) -> Seq<char>
    decreases s.len(),
{
    if s.len() == 0 {
        seq![]
    } else {
        double_char(s.drop_last(), c) + if s.last() == c {
            seq![c, c]
        } else {
            seq![s.last()]
        }
    }
}

/// Doubling a character loses nothing: two texts that double to the same
/// text are the same text.
pub proof fn lemma_double_char_injective(a: Seq<char>, b: Seq<char>, c: char)
    requires
        double_char(a, c) == double_char(b, c),
    ensures
        a == b,
    decreases a.len() + b.len(),
{
    lemma_double_char_len(a, c);
    lemma_double_char_len(b, c);
    if a.len() == 0 || b.len() == 0 {
        assert(a.len() == 0 && b.len() == 0);
        assert(a =~= b);
    } else {
        let da = double_char(a.drop_last(), c);
        let db = double_char(b.drop_last(), c);
        let d = double_char(a, c);
        if a.last() == c {
            assert(b.last() == c) by {
                if b.last() != c {
                    assert(d.last() == b.last());
                }
            }
            assert(da =~= d.subrange(0, d.len() - 2));
            assert(db =~= d.subrange(0, d.len() - 2));
        } else {
            assert(b.last() != c) by {
                if b.last() == c {
                    assert(d.last() == c);
                }
            }
            assert(a.last() == b.last()) by {
                assert(d.last() == a.last());
            }
            assert(da =~= d.drop_last());
            assert(db =~= d.drop_last());
        }
        lemma_double_char_injective(a.drop_last(), b.drop_last(), c);
        assert(a =~= a.drop_last().push(a.last()));
        assert(b =~= b.drop_last().push(b.last()));
    }
}

/// Doubling never shortens a text, and only the empty text doubles to
/// nothing.
pub proof fn lemma_double_char_len(s: Seq<char>, c: char)
    ensures
        double_char(s, c).len() >= s.len(),
        double_char(s, c).len() == 0 <==> s.len() == 0,
    decreases s.len(),
{
    if s.len() > 0 {
        lemma_double_char_len(s.drop_last(), c);
    }
}

/// Appends `s` with every `c` doubled.
pub fn push_doubled(out: &mut Vec<char>, s: &str, c: char)
    ensures
        final(out)@ == old(out)@ + double_char(s@, c),
{
    let v = chars_of(s);
    let mut i: usize = 0;
    while i < v.len()
        invariant
            i <= v@.len(),
            v@ == s@,
            out@ == old(out)@ + double_char(v@.take(i as int), c),
        decreases v@.len() - i,
    {
        assert(v@.take(i + 1).drop_last() =~= v@.take(i as int));
        if v[i] == c {
            out.push(c);
            out.push(c);
        } else {
            out.push(v[i]);
        }
        assert(out@ =~= old(out)@ + double_char(v@.take(i + 1), c));
        i += 1;
    }
    assert(v@.take(v@.len() as int) =~= v@);
}

/// Appends `s` without its trailing whitespace (`str::trim_end`).
pub fn push_trim_end(out: &mut Vec<char>, s: &str)
    ensures
        final(out)@ == old(out)@ + rtrim(s@),
{
    let v = chars_of(s);
    let e = rtrim_index(v.as_slice(), 0, v.len());
    assert(v@.subrange(0, v@.len() as int) =~= v@);
    let mut i: usize = 0;
    while i < e
        invariant
            i <= e <= v@.len(),
            out@ == old(out)@ + v@.subrange(0, i as int),
        decreases e - i,
    {
        out.push(v[i]);
        assert(v@.subrange(0, i + 1) =~= v@.subrange(0, i as int).push(v@[i as int]));
        i += 1;
    }
}

} // verus!
