//! Per-value type classification, the type lattice used to merge a column's
//! values, and the SQL types and literals that follow from it.

use crate::text::{
    all_ws, char_is_ws, chars_of, dec_int, digit_prefix_len, digits_value, extend_chars,
    extend_str, i64_dec, is_digit, owned, str_eq, string_of, trim, trim_bounds,
};
use crate::error::{is_runtime_error, AppError};
use crate::sql::batch::{lemma_line_end, line_end};
use vstd::prelude::*;

verus! {

#[derive(Debug, Clone, Copy, PartialEq, Eq, Structural)]
pub enum ColKind {
    Empty,
    Int,
    BigInt,
    Float,
    Date,
    DateTime,
    Text,
}

// ----- names for what chrono computes -----

/// Whether `chrono::NaiveDate::parse_from_str(s, fmt)` succeeds.
pub uninterp spec fn chrono_date_parses(s: Seq<char>, fmt: Seq<char>) -> bool;

/// Whether `chrono::NaiveDateTime::parse_from_str(s, fmt)` succeeds.
pub uninterp spec fn chrono_datetime_parses(s: Seq<char>, fmt: Seq<char>) -> bool;

/// `chrono::NaiveDate::parse_from_str(s, fmt).is_ok()`. The result is a
/// function of the two strings alone (no locale, no clock); what formats
/// chrono accepts is left to the name.
#[verifier::external_body]
fn date_parses(s: &str, fmt: &str) -> (r: bool)
    ensures
        r == chrono_date_parses(s@, fmt@),
{
    chrono::NaiveDate::parse_from_str(s, fmt).is_ok()
}

/// `chrono::NaiveDateTime::parse_from_str(s, fmt).is_ok()`; a function of the
/// two strings alone.
#[verifier::external_body]
fn datetime_parses(s: &str, fmt: &str) -> (r: bool)
    ensures
        r == chrono_datetime_parses(s@, fmt@),
{
    chrono::NaiveDateTime::parse_from_str(s, fmt).is_ok()
}

// ----- number syntax (what `str::parse` accepts) -----

pub open spec fn all_digits(s: Seq<char>) -> bool {
    digit_prefix_len(s) == s.len()
}

/// The integer denoted by `s` under `str::parse::<iN>` syntax (optional
/// sign, then one or more ASCII digits), ignoring range.
pub open spec fn int_text_value(s: Seq<char>) -> Option<int> {
    if s.len() > 0 && (s[0] == '+' || s[0] == '-') {
        let d = s.skip(1);
        if d.len() > 0 && all_digits(d) {
            Some(
                if s[0] == '-' {
                    -(digits_value(d) as int)
                } else {
                    digits_value(d) as int
                },
            )
        } else {
            None
        }
    } else if s.len() > 0 && all_digits(s) {
        Some(digits_value(s) as int)
    } else {
        None
    }
}

/// `s.parse::<i64>().is_ok()`.
pub open spec fn parses_i64(s: Seq<char>) -> bool {
    match int_text_value(s) {
        Some(v) => i64::MIN <= v <= i64::MAX,
        None => false,
    }
}

/// `s.parse::<i32>().is_ok()`.
pub open spec fn parses_i32(s: Seq<char>) -> bool {
    match int_text_value(s) {
        Some(v) => i32::MIN <= v <= i32::MAX,
        None => false,
    }
}

pub open spec fn ascii_lower(c: char) -> char {
    if 'A' <= c && c <= 'Z' {
        ((c as u32) + 32) as char
    } else {
        c
    }
}

/// `str::eq_ignore_ascii_case`.
pub open spec fn eq_ignore_ascii_case(a: Seq<char>, b: Seq<char>) -> bool {
    a.len() == b.len() && forall|i: int| 0 <= i < a.len() ==> ascii_lower(#[trigger] a[i]) == ascii_lower(b[i])
}

pub open spec fn exponent_ok(e: Seq<char>) -> bool {
    e.len() == 0 || ((e[0] == 'e' || e[0] == 'E') && {
        let f = e.skip(1);
        let g = if f.len() > 0 && (f[0] == '+' || f[0] == '-') {
            f.skip(1)
        } else {
            f
        };
        g.len() >= 1 && all_digits(g)
    })
}

/// `Number ::= ( Digit+ | Digit+ '.' Digit* | Digit* '.' Digit+ ) Exp?`
pub open spec fn decimal_number(b: Seq<char>) -> bool {
    let i = digit_prefix_len(b);
    let r = b.skip(i as int);
    if r.len() > 0 && r[0] == '.' {
        let j = digit_prefix_len(r.skip(1));
        i + j >= 1 && exponent_ok(r.skip((1 + j) as int))
    } else {
        i >= 1 && exponent_ok(r)
    }
}

/// `s.parse::<f64>().is_ok()`: the grammar the standard library documents
/// for float parsing (an optional sign, then `inf`, `infinity`, `nan` in any
/// case, or a decimal number with optional exponent).
pub open spec fn parses_float(s: Seq<char>) -> bool {
    let b = if s.len() > 0 && (s[0] == '+' || s[0] == '-') {
        s.skip(1)
    } else {
        s
    };
    eq_ignore_ascii_case(b, "inf"@) || eq_ignore_ascii_case(b, "infinity"@)
        || eq_ignore_ascii_case(b, "nan"@) || decimal_number(b)
}

pub open spec fn datetime_formats() -> Seq<Seq<char>> {
    seq!["%Y-%m-%d %H:%M:%S"@, "%Y-%m-%d %H:%M:%S%.f"@, "%Y-%m-%dT%H:%M:%S"@, "%Y-%m-%dT%H:%M:%S%.f"@]
}

/// The narrowest kind a single value fits.
pub open spec fn spec_classify(value: Seq<char>) -> ColKind {
    let v = trim(value);
    if v.len() == 0 {
        ColKind::Empty
    } else if parses_i64(v) {
        if parses_i32(v) {
            ColKind::Int
        } else {
            ColKind::BigInt
        }
    } else if parses_float(v) && !eq_ignore_ascii_case(v, "nan"@) && !eq_ignore_ascii_case(v, "inf"@) {
        ColKind::Float
    } else if chrono_date_parses(v, "%Y-%m-%d"@) {
        ColKind::Date
    } else if exists|k: int| 0 <= k < 4 && chrono_datetime_parses(v, #[trigger] datetime_formats()[k]) {
        ColKind::DateTime
    } else {
        ColKind::Text
    }
}

/// Index just past the run of ASCII digits starting at `lo`.
fn digit_run(s: &Vec<char>, lo: usize, hi: usize) -> (k: usize)
    requires
        lo <= hi <= s@.len(),
    ensures
        lo <= k <= hi,
        k - lo == digit_prefix_len(s@.subrange(lo as int, hi as int)),
        digit_prefix_len(s@.subrange(k as int, hi as int)) == 0,
{
    let mut k = lo;
    while k < hi && s[k] >= '0' && s[k] <= '9'
        invariant
            lo <= k <= hi <= s@.len(),
            digit_prefix_len(s@.subrange(lo as int, hi as int)) == (k - lo) + digit_prefix_len(
                s@.subrange(k as int, hi as int),
            ),
        decreases hi - k,
    {
        assert(s@.subrange(k as int, hi as int).skip(1) =~= s@.subrange(k + 1, hi as int));
        k += 1;
    }
    k
}

fn lower(c: char) -> (r: char)
    ensures
        r == ascii_lower(c),
{
    if c >= 'A' && c <= 'Z' {
        ((c as u8) + 32) as char
    } else {
        c
    }
}

/// `s[lo..hi]` equals `lit` ignoring ASCII case.
pub(crate) fn eq_ic(s: &Vec<char>, lo: usize, hi: usize, lit: &str) -> (r: bool)
    requires
        lo <= hi <= s@.len(),
    ensures
        r == eq_ignore_ascii_case(s@.subrange(lo as int, hi as int), lit@),
{
    let l = chars_of(lit);
    if hi - lo != l.len() {
        return false;
    }
    let mut i: usize = 0;
    while i < l.len()
        invariant
            i <= l@.len(),
            l@ == lit@,
            hi - lo == l@.len(),
            lo <= hi <= s@.len(),
            forall|k: int| 0 <= k < i ==> ascii_lower(s@[lo + k]) == ascii_lower(l@[k]),
        decreases l@.len() - i,
    {
        if lower(s[lo + i]) != lower(l[i]) {
            assert(ascii_lower(s@.subrange(lo as int, hi as int)[i as int]) != ascii_lower(l@[i as int]));
            return false;
        }
        i += 1;
    }
    assert forall|k: int| 0 <= k < (hi - lo) implies ascii_lower(#[trigger] s@.subrange(lo as int, hi as int)[k])
        == ascii_lower(lit@[k]) by {
        assert(s@.subrange(lo as int, hi as int)[k] == s@[lo + k]);
    }
    true
}

/// The sign and magnitude of `s[lo..hi]` when it parses as an integer no
/// more than `bound_neg` below zero and `bound_pos` above.
fn parse_int(s: &Vec<char>, lo: usize, hi: usize, bound_neg: u64, bound_pos: u64) -> (r: Option<(bool, u64)>)
    requires
        lo <= hi <= s@.len(),
        9 <= bound_pos < bound_neg <= 0x8000_0000_0000_0000,
    ensures
        (r is Some) == match int_text_value(s@.subrange(lo as int, hi as int)) {
            Some(v) => -(bound_neg as int) <= v <= bound_pos,
            None => false,
        },
        r matches Some((neg, mag)) ==> int_text_value(s@.subrange(lo as int, hi as int)) == Some(
            if neg {
                -(mag as int)
            } else {
                mag as int
            },
        ),
{
    let ghost t = s@.subrange(lo as int, hi as int);
    if lo == hi {
        return None;
    }
    let neg = s[lo] == '-';
    let signed = s[lo] == '+' || neg;
    let d0 = if signed {
        lo + 1
    } else {
        lo
    };
    assert(signed ==> t.skip(1) =~= s@.subrange(d0 as int, hi as int));
    assert(!signed ==> t =~= s@.subrange(d0 as int, hi as int));
    let k = digit_run(s, d0, hi);
    if d0 == hi || k != hi {
        return None;
    }
    let limit: u64 = if neg {
        bound_neg
    } else {
        bound_pos
    };
    let mut acc: u64 = 0;
    let mut over = false;
    let mut j = d0;
    assert(s@.subrange(d0 as int, d0 as int) =~= Seq::<char>::empty());
    while j < hi
        invariant
            d0 <= j <= hi <= s@.len(),
            9 <= limit <= 0x8000_0000_0000_0000,
            digit_prefix_len(s@.subrange(d0 as int, hi as int)) == hi - d0,
            !over ==> acc as nat == digits_value(s@.subrange(d0 as int, j as int)) && acc <= limit,
            over ==> digits_value(s@.subrange(d0 as int, j as int)) > limit,
        decreases hi - j,
    {
        let ghost pre = s@.subrange(d0 as int, j as int);
        assert(s@.subrange(d0 as int, j + 1).drop_last() =~= pre);
        proof {
            lemma_digits_all(s@.subrange(d0 as int, hi as int), (j - d0) as int);
        }
        assert(s@.subrange(d0 as int, hi as int)[j - d0] == s@[j as int]);
        let d = (s[j] as u64) - 48;
        if !over {
            if acc > (limit - d) / 10 {
                over = true;
            } else {
                acc = acc * 10 + d;
            }
        }
        j += 1;
    }
    assert(s@.subrange(d0 as int, hi as int) =~= s@.subrange(d0 as int, j as int));
    if over {
        None
    } else {
        Some((neg, acc))
    }
}

/// `s.parse::<i32>().ok()`.
pub fn parse_i32(s: &str) -> (r: Option<i32>)
    ensures
        match int_text_value(s@) {
            Some(v) => if i32::MIN <= v <= i32::MAX {
                r == Some(v as i32)
            } else {
                r is None
            },
            None => r is None,
        },
{
    let v = chars_of(s);
    assert(v@.subrange(0, v@.len() as int) =~= v@);
    match parse_int(&v, 0, v.len(), 0x8000_0000, 0x7fff_ffff) {
        Some((neg, mag)) => {
            if neg {
                Some((0i64 - (mag as i64)) as i32)
            } else {
                Some(mag as i32)
            }
        },
        None => None,
    }
}

/// `s.parse::<i64>().ok()`.
pub fn parse_i64(s: &str) -> (r: Option<i64>)
    ensures
        match int_text_value(s@) {
            Some(v) => if i64::MIN <= v <= i64::MAX {
                r == Some(v as i64)
            } else {
                r is None
            },
            None => r is None,
        },
{
    let v = chars_of(s);
    assert(v@.subrange(0, v@.len() as int) =~= v@);
    match parse_int(&v, 0, v.len(), 0x8000_0000_0000_0000, 0x7fff_ffff_ffff_ffff) {
        Some((neg, mag)) => {
            if neg {
                if mag == 0x8000_0000_0000_0000 {
                    Some(i64::MIN)
                } else {
                    Some(0i64 - (mag as i64))
                }
            } else {
                Some(mag as i64)
            }
        },
        None => None,
    }
}

fn int_in_range(s: &Vec<char>, lo: usize, hi: usize, bound_neg: u64, bound_pos: u64) -> (r: bool)
    requires
        lo <= hi <= s@.len(),
        9 <= bound_pos < bound_neg <= 0x8000_0000_0000_0000,
    ensures
        r == match int_text_value(s@.subrange(lo as int, hi as int)) {
            Some(v) => -(bound_neg as int) <= v <= bound_pos,
            None => false,
        },
{
    parse_int(s, lo, hi, bound_neg, bound_pos).is_some()
}

proof fn lemma_digits_all(s: Seq<char>, i: int)
    requires
        0 <= i < s.len(),
        digit_prefix_len(s) == s.len(),
    ensures
        is_digit(s[i]),
    decreases i,
{
    if i > 0 {
        assert(s.len() > 0 && is_digit(s[0]));
        lemma_digits_all(s.skip(1), i - 1);
    } else {
        assert(s.len() > 0 && is_digit(s[0]));
    }
}

fn exponent_at(s: &Vec<char>, lo: usize, hi: usize) -> (r: bool)
    requires
        lo <= hi <= s@.len(),
    ensures
        r == exponent_ok(s@.subrange(lo as int, hi as int)),
{
    let ghost e = s@.subrange(lo as int, hi as int);
    if lo == hi {
        return true;
    }
    if !(s[lo] == 'e' || s[lo] == 'E') {
        return false;
    }
    let f = lo + 1;
    assert(e.skip(1) =~= s@.subrange(f as int, hi as int));
    let g = if f < hi && (s[f] == '+' || s[f] == '-') {
        f + 1
    } else {
        f
    };
    assert(f < hi && (s@[f as int] == '+' || s@[f as int] == '-') ==> e.skip(1).skip(1) =~= s@.subrange(g as int, hi as int));
    let k = digit_run(s, g, hi);
    g < hi && k == hi
}

fn float_syntax(s: &Vec<char>, lo: usize, hi: usize) -> (r: bool)
    requires
        lo <= hi <= s@.len(),
    ensures
        r == parses_float(s@.subrange(lo as int, hi as int)),
{
    let ghost t = s@.subrange(lo as int, hi as int);
    let b = if lo < hi && (s[lo] == '+' || s[lo] == '-') {
        lo + 1
    } else {
        lo
    };
    assert(lo < hi && (s@[lo as int] == '+' || s@[lo as int] == '-') ==> t.skip(1) =~= s@.subrange(b as int, hi as int));
    assert(b == lo ==> t =~= s@.subrange(b as int, hi as int));
    if eq_ic(s, b, hi, "inf") || eq_ic(s, b, hi, "infinity") || eq_ic(s, b, hi, "nan") {
        return true;
    }
    let ghost bs = s@.subrange(b as int, hi as int);
    let i = digit_run(s, b, hi);
    let ghost r = bs.skip((i - b) as int);
    assert(r =~= s@.subrange(i as int, hi as int));
    assert(r.len() > 0 ==> r[0] == s@[i as int]);
    assert(decimal_number(bs) == if r.len() > 0 && r[0] == '.' {
        let jj = digit_prefix_len(r.skip(1));
        (i - b) + jj >= 1 && exponent_ok(r.skip((1 + jj) as int))
    } else {
        (i - b) >= 1 && exponent_ok(r)
    });
    if i < hi && s[i] == '.' {
        assert(bs.skip((i - b) as int).skip(1) =~= s@.subrange(i + 1, hi as int));
        let j = digit_run(s, i + 1, hi);
        assert(r.skip(1 + (j - i - 1)) =~= s@.subrange(j as int, hi as int));
        (i - b) + (j - i - 1) >= 1 && exponent_at(s, j, hi)
    } else {
        i > b && exponent_at(s, i, hi)
    }
}

/// The narrowest kind a single value fits: empty, an integer (32 or 64 bit),
/// a float, an ISO date, an ISO date-time, or text.
pub fn classify(value: &str) -> (r: ColKind)
    ensures
        r == spec_classify(value@),
{
    let s = chars_of(value);
    let (lo, hi) = trim_bounds(&s, 0, s.len());
    assert(s@.subrange(0, s@.len() as int) =~= s@);
    let ghost v = s@.subrange(lo as int, hi as int);
    if lo == hi {
        return ColKind::Empty;
    }
    if int_in_range(&s, lo, hi, 0x8000_0000_0000_0000, 0x7fff_ffff_ffff_ffff) {
        if int_in_range(&s, lo, hi, 0x8000_0000, 0x7fff_ffff) {
            return ColKind::Int;
        } else {
            return ColKind::BigInt;
        }
    }
    if float_syntax(&s, lo, hi) && !eq_ic(&s, lo, hi, "nan") && !eq_ic(&s, lo, hi, "inf") {
        return ColKind::Float;
    }
    let mut tv: Vec<char> = Vec::new();
    let mut k = lo;
    while k < hi
        invariant
            lo <= k <= hi <= s@.len(),
            tv@ == s@.subrange(lo as int, k as int),
        decreases hi - k,
    {
        assert(s@.subrange(lo as int, k + 1) =~= s@.subrange(lo as int, k as int).push(s@[k as int]));
        tv.push(s[k]);
        k += 1;
    }
    let t = string_of(tv.as_slice());
    if date_parses(t.as_str(), "%Y-%m-%d") {
        return ColKind::Date;
    }
    let f1 = datetime_parses(t.as_str(), "%Y-%m-%d %H:%M:%S");
    let f2 = datetime_parses(t.as_str(), "%Y-%m-%d %H:%M:%S%.f");
    let f3 = datetime_parses(t.as_str(), "%Y-%m-%dT%H:%M:%S");
    let f4 = datetime_parses(t.as_str(), "%Y-%m-%dT%H:%M:%S%.f");
    proof {
        let fm = datetime_formats();
        assert(fm[0] == "%Y-%m-%d %H:%M:%S"@);
        assert(fm[1] == "%Y-%m-%d %H:%M:%S%.f"@);
        assert(fm[2] == "%Y-%m-%dT%H:%M:%S"@);
        assert(fm[3] == "%Y-%m-%dT%H:%M:%S%.f"@);
        if f1 || f2 || f3 || f4 {
            if f1 {
                assert(chrono_datetime_parses(v, fm[0]));
            } else if f2 {
                assert(chrono_datetime_parses(v, fm[1]));
            } else if f3 {
                assert(chrono_datetime_parses(v, fm[2]));
            } else {
                assert(chrono_datetime_parses(v, fm[3]));
            }
        } else {
            assert forall|k: int| 0 <= k < 4 implies !chrono_datetime_parses(v, #[trigger] fm[k]) by {
                if k == 0 {
                } else if k == 1 {
                } else if k == 2 {
                } else {
                }
            }
        }
    }
    if f1 || f2 || f3 || f4 {
        ColKind::DateTime
    } else {
        ColKind::Text
    }
}

/// The kind of a column holding values of kinds `a` and `b`: empty values
/// take the other kind; integers widen to BIGINT and then FLOAT, dates to
/// DATETIME2; anything else mixed becomes text.
pub open spec fn spec_merge(a: ColKind, b: ColKind) -> ColKind {
    if a == ColKind::Empty {
        b
    } else if b == ColKind::Empty {
        a
    } else if a == b {
        a
    } else if (a == ColKind::Int && b == ColKind::BigInt) || (a == ColKind::BigInt && b == ColKind::Int) {
        ColKind::BigInt
    } else if (a == ColKind::Int || a == ColKind::BigInt || a == ColKind::Float) && (b == ColKind::Int
        || b == ColKind::BigInt || b == ColKind::Float) {
        ColKind::Float
    } else if (a == ColKind::Date && b == ColKind::DateTime) || (a == ColKind::DateTime && b
        == ColKind::Date) {
        ColKind::DateTime
    } else {
        ColKind::Text
    }
}

/// Whether a column of `kind` can hold `value`: a blank value goes in any
/// column (as NULL or empty text); otherwise INT holds 32-bit integers,
/// BIGINT 64-bit ones, FLOAT any number, DATE dates, DATETIME2 dates and
/// date-times, and text holds anything. A column with no value yet
/// (`Empty`) holds only blanks.
pub open spec fn kind_holds(kind: ColKind, value: Seq<char>) -> bool {
    let v = trim(value);
    v.len() == 0 || match kind {
        ColKind::Empty => false,
        ColKind::Int => parses_i32(v),
        ColKind::BigInt => parses_i64(v),
        ColKind::Float => parses_i64(v) || spec_classify(value) == ColKind::Float,
        ColKind::Date => spec_classify(value) == ColKind::Date,
        ColKind::DateTime => spec_classify(value) == ColKind::Date || spec_classify(value) == ColKind::DateTime,
        ColKind::Text => true,
    }
}

/// A value's own kind holds it.
pub proof fn lemma_classified_kind_holds(value: Seq<char>)
    ensures
        kind_holds(spec_classify(value), value),
{
}

/// Merging two kinds gives a kind that holds whatever either holds: every
/// value that fits one of two columns fits their merge (so a column that
/// mixes 32-bit and 64-bit integers becomes BIGINT, never INT).
pub proof fn lemma_merge_holds_both(a: ColKind, b: ColKind, value: Seq<char>)
    requires
        kind_holds(a, value) || kind_holds(b, value),
    ensures
        kind_holds(spec_merge(a, b), value),
{
}

pub fn merge(a: ColKind, b: ColKind) -> (r: ColKind)
    ensures
        r == spec_merge(a, b),
{
    match (a, b) {
        (ColKind::Empty, x) => x,
        (x, ColKind::Empty) => x,
        (ColKind::Int, ColKind::Int) => ColKind::Int,
        (ColKind::BigInt, ColKind::BigInt) => ColKind::BigInt,
        (ColKind::Float, ColKind::Float) => ColKind::Float,
        (ColKind::Date, ColKind::Date) => ColKind::Date,
        (ColKind::DateTime, ColKind::DateTime) => ColKind::DateTime,
        (ColKind::Text, ColKind::Text) => ColKind::Text,
        (ColKind::Int, ColKind::BigInt) | (ColKind::BigInt, ColKind::Int) => ColKind::BigInt,
        (ColKind::Int, ColKind::Float)
        | (ColKind::Float, ColKind::Int)
        | (ColKind::BigInt, ColKind::Float)
        | (ColKind::Float, ColKind::BigInt) => ColKind::Float,
        (ColKind::Date, ColKind::DateTime) | (ColKind::DateTime, ColKind::Date) => ColKind::DateTime,
        _ => ColKind::Text,
    }
}

/// Text columns get the smallest of NVARCHAR(50/100/255/1000/4000) that
/// holds their longest value, else NVARCHAR(MAX).
pub open spec fn spec_sql_type_for(kind: ColKind, max_len: nat) -> Seq<char> {
    match kind {
        ColKind::Int => "INT"@,
        ColKind::BigInt => "BIGINT"@,
        ColKind::Float => "FLOAT"@,
        ColKind::Date => "DATE"@,
        ColKind::DateTime => "DATETIME2"@,
        _ => if max_len <= 50 {
            "NVARCHAR(50)"@
        } else if max_len <= 100 {
            "NVARCHAR(100)"@
        } else if max_len <= 255 {
            "NVARCHAR(255)"@
        } else if max_len <= 1000 {
            "NVARCHAR(1000)"@
        } else if max_len <= 4000 {
            "NVARCHAR(4000)"@
        } else {
            "NVARCHAR(MAX)"@
        },
    }
}

/// The SQL type written for a column reads back as the same kind when the
/// file is imported (a column with no values is loaded as text).
pub proof fn lemma_sql_type_reads_back(kind: ColKind, max_len: nat)
    ensures
        spec_kind_of_sql_type(spec_sql_type_for(kind, max_len)) == if kind == ColKind::Empty {
            ColKind::Text
        } else {
            kind
        },
{
    reveal_strlit("INT");
    reveal_strlit("BIGINT");
    reveal_strlit("FLOAT");
    reveal_strlit("DATE");
    reveal_strlit("DATETIME2");
    reveal_strlit("NVARCHAR(50)");
    reveal_strlit("NVARCHAR(100)");
    reveal_strlit("NVARCHAR(255)");
    reveal_strlit("NVARCHAR(1000)");
    reveal_strlit("NVARCHAR(4000)");
    reveal_strlit("NVARCHAR(MAX)");
    let t = spec_sql_type_for(kind, max_len);
    if kind == ColKind::Empty || kind == ColKind::Text {
        assert(t[0] == 'N');
        assert(t != "INT"@ && t != "BIGINT"@ && t != "FLOAT"@ && t != "DATE"@ && t != "DATETIME2"@) by {
            assert("INT"@[0] != 'N' && "BIGINT"@[0] != 'N' && "FLOAT"@[0] != 'N' && "DATE"@[0] != 'N' && "DATETIME2"@[0] != 'N');
        }
    } else if kind == ColKind::Int {
        assert(t =~= "INT"@);
    } else if kind == ColKind::BigInt {
        assert("BIGINT"@ != "INT"@) by { assert("BIGINT"@.len() != "INT"@.len()); }
    } else if kind == ColKind::Float {
        assert("FLOAT"@ != "INT"@ && "FLOAT"@ != "BIGINT"@) by { assert("FLOAT"@[0] == 'F'); }
    } else if kind == ColKind::Date {
        assert("DATE"@ != "INT"@ && "DATE"@ != "BIGINT"@ && "DATE"@ != "FLOAT"@) by { assert("DATE"@[0] == 'D'); assert("DATE"@.len() == 4); }
    } else {
        assert("DATETIME2"@ != "INT"@ && "DATETIME2"@ != "BIGINT"@ && "DATETIME2"@ != "FLOAT"@ && "DATETIME2"@ != "DATE"@) by {
            assert("DATETIME2"@[0] == 'D'); assert("DATETIME2"@.len() == 9);
        }
    }
}

pub fn sql_type_for(kind: ColKind, max_len: usize) -> (r: String)
    ensures
        r@ == spec_sql_type_for(kind, max_len as nat),
{
    match kind {
        ColKind::Int => owned("INT"),
        ColKind::BigInt => owned("BIGINT"),
        ColKind::Float => owned("FLOAT"),
        ColKind::Date => owned("DATE"),
        ColKind::DateTime => owned("DATETIME2"),
        _ => {
            if max_len <= 50 {
                owned("NVARCHAR(50)")
            } else if max_len <= 100 {
                owned("NVARCHAR(100)")
            } else if max_len <= 255 {
                owned("NVARCHAR(255)")
            } else if max_len <= 1000 {
                owned("NVARCHAR(1000)")
            } else if max_len <= 4000 {
                owned("NVARCHAR(4000)")
            } else {
                owned("NVARCHAR(MAX)")
            }
        },
    }
}

pub open spec fn spec_kind_of_sql_type(t: Seq<char>) -> ColKind {
    if t == "INT"@ {
        ColKind::Int
    } else if t == "BIGINT"@ {
        ColKind::BigInt
    } else if t == "FLOAT"@ {
        ColKind::Float
    } else if t == "DATE"@ {
        ColKind::Date
    } else if t == "DATETIME2"@ {
        ColKind::DateTime
    } else {
        ColKind::Text
    }
}

/// The kind a column of SQL type `t` is loaded as.
pub fn kind_of_sql_type(t: &str) -> (r: ColKind)
    ensures
        r == spec_kind_of_sql_type(t@),
{
    if str_eq(t, "INT") {
        ColKind::Int
    } else if str_eq(t, "BIGINT") {
        ColKind::BigInt
    } else if str_eq(t, "FLOAT") {
        ColKind::Float
    } else if str_eq(t, "DATE") {
        ColKind::Date
    } else if str_eq(t, "DATETIME2") {
        ColKind::DateTime
    } else {
        ColKind::Text
    }
}

pub open spec fn is_ident_char(c: char) -> bool {
    ('a' <= c && c <= 'z') || ('A' <= c && c <= 'Z') || ('0' <= c && c <= '9') || c == '_'
}

/// Runs of `_` collapsed to a single `_`.
pub open spec fn collapse_underscores(s: Seq<char>) -> Seq<char>
    decreases s.len(),
{
    if s.len() == 0 {
        seq![]
    } else {
        let p = collapse_underscores(s.drop_last());
        if s.last() == '_' && p.len() > 0 && p.last() == '_' {
            p
        } else {
            p.push(s.last())
        }
    }
}

pub open spec fn lstrip_underscores(s: Seq<char>) -> Seq<char>
    decreases s.len(),
{
    if s.len() > 0 && s[0] == '_' {
        lstrip_underscores(s.skip(1))
    } else {
        s
    }
}

pub open spec fn rstrip_underscores(s: Seq<char>) -> Seq<char>
    decreases s.len(),
{
    if s.len() > 0 && s.last() == '_' {
        rstrip_underscores(s.drop_last())
    } else {
        s
    }
}

/// A SQL identifier made from `raw`: trimmed, every character other than
/// ASCII letters, digits and `_` replaced by `_`, runs of `_` collapsed,
/// leading and trailing `_` removed; `fallback` when nothing is left, and a
/// leading `_` when it would start with a digit.
pub open spec fn spec_sanitize_ident(raw: Seq<char>, fallback: Seq<char>) -> Seq<char> {
    let m = trim(raw).map_values(|c: char| if is_ident_char(c) { c } else { '_' });
    let s = rstrip_underscores(lstrip_underscores(collapse_underscores(m)));
    if s.len() == 0 {
        fallback
    } else if is_digit(s[0]) {
        seq!['_'] + s
    } else {
        s
    }
}

/// Only ASCII letters, digits and `_`.
pub open spec fn all_ident_chars(s: Seq<char>) -> bool {
    forall|i: int| 0 <= i < s.len() ==> is_ident_char(#[trigger] s[i])
}

/// A regular SQL identifier: not empty, only ASCII letters, digits and `_`,
/// not starting with a digit (usable without quoting).
pub open spec fn is_regular_ident(s: Seq<char>) -> bool {
    &&& s.len() > 0
    &&& !is_digit(s[0])
    &&& all_ident_chars(s)
}

proof fn lemma_collapse_keeps_ident_chars(s: Seq<char>)
    requires
        all_ident_chars(s),
    ensures
        all_ident_chars(collapse_underscores(s)),
    decreases s.len(),
{
    if s.len() > 0 {
        let t = s.drop_last();
        assert(all_ident_chars(t)) by {
            assert forall|i: int| 0 <= i < t.len() implies is_ident_char(#[trigger] t[i]) by {
                assert(t[i] == s[i]);
            }
        }
        lemma_collapse_keeps_ident_chars(t);
        assert(is_ident_char(s[s.len() - 1]));
    }
}

proof fn lemma_lstrip_keeps_ident_chars(s: Seq<char>)
    requires
        all_ident_chars(s),
    ensures
        all_ident_chars(lstrip_underscores(s)),
    decreases s.len(),
{
    if s.len() > 0 && s[0] == '_' {
        let t = s.skip(1);
        assert(all_ident_chars(t)) by {
            assert forall|i: int| 0 <= i < t.len() implies is_ident_char(#[trigger] t[i]) by {
                assert(t[i] == s[i + 1]);
            }
        }
        lemma_lstrip_keeps_ident_chars(t);
    }
}

proof fn lemma_rstrip_keeps_ident_chars(s: Seq<char>)
    requires
        all_ident_chars(s),
    ensures
        all_ident_chars(rstrip_underscores(s)),
    decreases s.len(),
{
    if s.len() > 0 && s.last() == '_' {
        let t = s.drop_last();
        assert(all_ident_chars(t)) by {
            assert forall|i: int| 0 <= i < t.len() implies is_ident_char(#[trigger] t[i]) by {
                assert(t[i] == s[i]);
            }
        }
        lemma_rstrip_keeps_ident_chars(t);
    }
}

/// A table or column name made from any text is a regular identifier
/// whenever the fallback is one.
pub proof fn lemma_sanitized_is_regular(raw: Seq<char>, fallback: Seq<char>)
    requires
        is_regular_ident(fallback),
    ensures
        is_regular_ident(spec_sanitize_ident(raw, fallback)),
{
    let m = trim(raw).map_values(|c: char| if is_ident_char(c) { c } else { '_' });
    assert(all_ident_chars(m));
    lemma_collapse_keeps_ident_chars(m);
    let c = collapse_underscores(m);
    lemma_lstrip_keeps_ident_chars(c);
    let l = lstrip_underscores(c);
    lemma_rstrip_keeps_ident_chars(l);
    let s = rstrip_underscores(l);
    if s.len() > 0 && is_digit(s[0]) {
        let r = seq!['_'] + s;
        assert forall|i: int| 0 <= i < r.len() implies is_ident_char(#[trigger] r[i]) by {
            if i > 0 {
                assert(r[i] == s[i - 1]);
            }
        }
    }
}

/// An ASCII letter or digit.
pub open spec fn is_alnum(c: char) -> bool {
    is_ident_char(c) && c != '_'
}

pub open spec fn underscore_pair(s: Seq<char>, i: int) -> bool {
    s[i] == '_' && s[i + 1] == '_'
}

/// No two `_` in a row.
pub open spec fn no_double_underscore(s: Seq<char>) -> bool {
    forall|i: int| 0 <= i < s.len() - 1 ==> !#[trigger] underscore_pair(s, i)
}

pub open spec fn all_underscores(s: Seq<char>) -> bool {
    forall|i: int| 0 <= i < s.len() ==> #[trigger] s[i] == '_'
}

pub open spec fn no_alnum(s: Seq<char>) -> bool {
    forall|i: int| 0 <= i < s.len() ==> !is_alnum(#[trigger] s[i])
}

/// The sanitized text before the fallback and digit rules apply.
pub open spec fn stripped_ident(raw: Seq<char>) -> Seq<char> {
    let m = trim(raw).map_values(|c: char| if is_ident_char(c) { c } else { '_' });
    rstrip_underscores(lstrip_underscores(collapse_underscores(m)))
}

proof fn lemma_collapse_shape(s: Seq<char>)
    ensures
        no_double_underscore(collapse_underscores(s)),
        all_underscores(s) ==> all_underscores(collapse_underscores(s)),
        no_double_underscore(s) ==> collapse_underscores(s) == s,
    decreases s.len(),
{
    if s.len() > 0 {
        let t = s.drop_last();
        lemma_collapse_shape(t);
        let p = collapse_underscores(t);
        let r = collapse_underscores(s);
        if !(s.last() == '_' && p.len() > 0 && p.last() == '_') {
            assert forall|i: int| 0 <= i < r.len() - 1 implies !#[trigger] underscore_pair(r, i) by {
                if i < p.len() - 1 {
                    assert(underscore_pair(p, i) == underscore_pair(r, i));
                }
            }
        }
        if all_underscores(s) {
            assert(all_underscores(t)) by {
                assert forall|i: int| 0 <= i < t.len() implies #[trigger] t[i] == '_' by {
                    assert(t[i] == s[i]);
                }
            }
        }
        if no_double_underscore(s) {
            assert(no_double_underscore(t)) by {
                assert forall|i: int| 0 <= i < t.len() - 1 implies !#[trigger] underscore_pair(t, i) by {
                    assert(underscore_pair(t, i) == underscore_pair(s, i));
                }
            }
            if s.len() >= 2 {
                assert(!underscore_pair(s, s.len() - 2));
            }
            assert(t.push(s.last()) =~= s);
        }
    }
}

proof fn lemma_lstrip_shape(s: Seq<char>)
    ensures
        lstrip_underscores(s).len() == 0 || lstrip_underscores(s)[0] != '_',
        no_double_underscore(s) ==> no_double_underscore(lstrip_underscores(s)),
        all_underscores(s) ==> lstrip_underscores(s).len() == 0,
        lstrip_underscores(s).len() > 0 ==> lstrip_underscores(s).last() == s.last(),
    decreases s.len(),
{
    if s.len() > 0 && s[0] == '_' {
        let t = s.skip(1);
        if no_double_underscore(s) {
            assert forall|i: int| 0 <= i < t.len() - 1 implies !#[trigger] underscore_pair(t, i) by {
                assert(underscore_pair(t, i) == underscore_pair(s, i + 1));
            }
        }
        if all_underscores(s) {
            assert forall|i: int| 0 <= i < t.len() implies #[trigger] t[i] == '_' by {
                assert(t[i] == s[i + 1]);
            }
        }
        lemma_lstrip_shape(t);
    }
}

proof fn lemma_rstrip_shape(s: Seq<char>)
    ensures
        rstrip_underscores(s).len() == 0 || rstrip_underscores(s).last() != '_',
        rstrip_underscores(s).len() == 0 || rstrip_underscores(s)[0] == s[0],
        no_double_underscore(s) ==> no_double_underscore(rstrip_underscores(s)),
    decreases s.len(),
{
    if s.len() > 0 && s.last() == '_' {
        let t = s.drop_last();
        if no_double_underscore(s) {
            assert forall|i: int| 0 <= i < t.len() - 1 implies !#[trigger] underscore_pair(t, i) by {
                assert(underscore_pair(t, i) == underscore_pair(s, i));
            }
        }
        lemma_rstrip_shape(t);
        assert(rstrip_underscores(t).len() == 0 || t[0] == s[0]);
    }
}

proof fn lemma_trim_keeps_no_alnum(s: Seq<char>)
    requires
        no_alnum(s),
    ensures
        no_alnum(trim(s)),
    decreases s.len(),
{
    lemma_ltrim_keeps_no_alnum(s);
    lemma_rtrim_keeps_no_alnum(crate::text::ltrim(s));
}

proof fn lemma_ltrim_keeps_no_alnum(s: Seq<char>)
    requires
        no_alnum(s),
    ensures
        no_alnum(crate::text::ltrim(s)),
    decreases s.len(),
{
    if s.len() > 0 && crate::text::is_ws(s[0]) {
        let t = s.skip(1);
        assert forall|i: int| 0 <= i < t.len() implies !is_alnum(#[trigger] t[i]) by {
            assert(t[i] == s[i + 1]);
        }
        lemma_ltrim_keeps_no_alnum(t);
    }
}

proof fn lemma_rtrim_keeps_no_alnum(s: Seq<char>)
    requires
        no_alnum(s),
    ensures
        no_alnum(crate::text::rtrim(s)),
    decreases s.len(),
{
    if s.len() > 0 && crate::text::is_ws(s.last()) {
        let t = s.drop_last();
        assert forall|i: int| 0 <= i < t.len() implies !is_alnum(#[trigger] t[i]) by {
            assert(t[i] == s[i]);
        }
        lemma_rtrim_keeps_no_alnum(t);
    }
}

/// An identifier of ASCII letters, digits and `_` whose ends are not
/// whitespace is its own trimmed, mapped text.
proof fn lemma_ident_maps_to_itself(t: Seq<char>)
    requires
        all_ident_chars(t),
    ensures
        trim(t).map_values(|c: char| if is_ident_char(c) { c } else { '_' }) == t,
{
    if t.len() > 0 {
        assert(is_ident_char(t[0]));
        assert(is_ident_char(t.last()));
        assert(!crate::text::is_ws(t[0]));
        assert(!crate::text::is_ws(t.last()));
    }
    assert(crate::text::ltrim(t) == t);
    assert(crate::text::rtrim(t) == t);
    assert(t.map_values(|c: char| if is_ident_char(c) { c } else { '_' }) =~= t);
}

/// Sanitized identifiers: text with no ASCII letter or digit gives the
/// fallback; any result has no `__`, does not end in `_`, and starts with a
/// letter or with `_` and a digit (given a fallback of letters and digits
/// that starts with a letter); and sanitizing a result again changes nothing.
pub proof fn lemma_sanitize_fallback_and_idempotent(raw: Seq<char>, fallback: Seq<char>)
    requires
        fallback.len() > 0,
        forall|i: int| 0 <= i < fallback.len() ==> is_alnum(#[trigger] fallback[i]),
        !is_digit(fallback[0]),
    ensures
        no_alnum(raw) ==> spec_sanitize_ident(raw, fallback) == fallback,
        no_double_underscore(spec_sanitize_ident(raw, fallback)),
        spec_sanitize_ident(raw, fallback).last() != '_',
        ({
            let r = spec_sanitize_ident(raw, fallback);
            is_alnum(r[0]) && !is_digit(r[0]) || (r[0] == '_' && r.len() > 1 && is_digit(r[1]))
        }),
        spec_sanitize_ident(spec_sanitize_ident(raw, fallback), fallback) == spec_sanitize_ident(raw, fallback),
{
    let m = trim(raw).map_values(|c: char| if is_ident_char(c) { c } else { '_' });
    let c = collapse_underscores(m);
    let l = lstrip_underscores(c);
    let s = rstrip_underscores(l);
    lemma_collapse_shape(m);
    lemma_lstrip_shape(c);
    lemma_rstrip_shape(l);
    lemma_sanitized_is_regular(raw, fallback);
    let r = spec_sanitize_ident(raw, fallback);
    if no_alnum(raw) {
        lemma_trim_keeps_no_alnum(raw);
        assert(all_underscores(m)) by {
            assert forall|i: int| 0 <= i < m.len() implies #[trigger] m[i] == '_' by {
                assert(!is_alnum(trim(raw)[i]));
            }
        }
    }
    // the fallback is a fixed point
    assert(no_double_underscore(fallback)) by {
        assert forall|i: int| 0 <= i < fallback.len() - 1 implies !#[trigger] underscore_pair(fallback, i) by {
            assert(is_alnum(fallback[i]));
        }
    }
    assert(all_ident_chars(fallback)) by {
        assert forall|i: int| 0 <= i < fallback.len() implies is_ident_char(#[trigger] fallback[i]) by {
            assert(is_alnum(fallback[i]));
        }
    }
    assert(is_alnum(fallback.last()));
    if s.len() == 0 {
        assert(r == fallback);
    } else {
        assert(s[0] == l[0]);
        assert(s[0] != '_');
    }
    // sanitizing `r` again
    lemma_ident_maps_to_itself(r);
    let m2 = trim(r).map_values(|c: char| if is_ident_char(c) { c } else { '_' });
    assert(m2 == r);
    assert(no_double_underscore(r)) by {
        if s.len() > 0 && is_digit(s[0]) {
            assert forall|i: int| 0 <= i < r.len() - 1 implies !#[trigger] underscore_pair(r, i) by {
                if i > 0 {
                    assert(underscore_pair(r, i) == underscore_pair(s, i - 1));
                }
            }
        }
    }
    lemma_collapse_shape(r);
    assert(collapse_underscores(m2) == r);
    if s.len() > 0 && is_digit(s[0]) {
        assert(r.skip(1) =~= s);
        assert(lstrip_underscores(s) == s);
        assert(lstrip_underscores(r) == s);
        assert(rstrip_underscores(s) == s);
    } else {
        assert(lstrip_underscores(r) == r);
        assert(rstrip_underscores(r) == r);
    }
}

pub fn sanitize_ident(raw: &str, fallback: &str) -> (r: String)
    ensures
        r@ == spec_sanitize_ident(raw@, fallback@),
{
    let s = chars_of(raw);
    let (lo, hi) = trim_bounds(&s, 0, s.len());
    assert(s@.subrange(0, s@.len() as int) =~= s@);
    let ghost m = trim(raw@).map_values(|c: char| if is_ident_char(c) { c } else { '_' });
    let mut out: Vec<char> = Vec::new();
    let mut i = lo;
    while i < hi
        invariant
            lo <= i <= hi <= s@.len(),
            m == s@.subrange(lo as int, hi as int).map_values(
                |c: char| if is_ident_char(c) { c } else { '_' },
            ),
            out@ == collapse_underscores(m.take(i - lo)),
        decreases hi - i,
    {
        let c = s[i];
        let mc = if ('a' <= c && c <= 'z') || ('A' <= c && c <= 'Z') || ('0' <= c && c <= '9') || c == '_' {
            c
        } else {
            '_'
        };
        assert(m.take(i + 1 - lo).drop_last() =~= m.take(i - lo));
        assert(m.take(i + 1 - lo).last() == mc);
        if !(mc == '_' && out.len() > 0 && out[out.len() - 1] == '_') {
            out.push(mc);
        }
        i += 1;
    }
    assert(m.take(hi - lo) =~= m);
    let ghost col = out@;
    let mut a: usize = 0;
    assert(col.skip(0) =~= col);
    while a < out.len() && out[a] == '_'
        invariant
            a <= out@.len(),
            out@ == col,
            lstrip_underscores(col) == lstrip_underscores(col.skip(a as int)),
        decreases out@.len() - a,
    {
        assert(col.skip(a as int).skip(1) =~= col.skip(a + 1));
        a += 1;
    }
    let mut b: usize = out.len();
    assert(col.skip(a as int) =~= col.subrange(a as int, b as int));
    while b > a && out[b - 1] == '_'
        invariant
            a <= b <= out@.len(),
            out@ == col,
            rstrip_underscores(col.skip(a as int)) == rstrip_underscores(col.subrange(a as int, b as int)),
        decreases b,
    {
        assert(col.subrange(a as int, b as int).drop_last() =~= col.subrange(a as int, b - 1));
        b -= 1;
    }
    let ghost st = col.subrange(a as int, b as int);
    assert(rstrip_underscores(lstrip_underscores(col)) == st);
    if a == b {
        return owned(fallback);
    }
    let mut r: Vec<char> = Vec::new();
    if out[a] >= '0' && out[a] <= '9' {
        r.push('_');
    }
    let mut k = a;
    let ghost r0 = r@;
    while k < b
        invariant
            a <= k <= b <= out@.len(),
            r@ == r0 + col.subrange(a as int, k as int),
            out@ == col,
        decreases b - k,
    {
        assert(col.subrange(a as int, k + 1) =~= col.subrange(a as int, k as int).push(col[k as int]));
        r.push(out[k]);
        k += 1;
    }
    assert(st[0] == out@[a as int]);
    assert(is_digit(st[0]) ==> r0 =~= seq!['_']);
    assert(!is_digit(st[0]) ==> r0 =~= Seq::<char>::empty());
    assert(r@ =~= spec_sanitize_ident(raw@, fallback@));
    string_of(r.as_slice())
}

/// Every `'` doubled (T-SQL string literal escaping).
pub open spec fn escape_quotes(s: Seq<char>) -> Seq<char>
    decreases s.len(),
{
    if s.len() == 0 {
        seq![]
    } else {
        escape_quotes(s.drop_last()) + if s.last() == '\'' {
            seq!['\'', '\'']
        } else {
            seq![s.last()]
        }
    }
}

/// Appends `s[lo..hi]` with quotes doubled.
pub fn push_escaped(out: &mut Vec<char>, s: &Vec<char>, lo: usize, hi: usize)
    requires
        lo <= hi <= s@.len(),
    ensures
        final(out)@ == old(out)@ + escape_quotes(s@.subrange(lo as int, hi as int)),
{
    let mut i = lo;
    while i < hi
        invariant
            lo <= i <= hi <= s@.len(),
            out@ == old(out)@ + escape_quotes(s@.subrange(lo as int, i as int)),
        decreases hi - i,
    {
        assert(s@.subrange(lo as int, i + 1).drop_last() =~= s@.subrange(lo as int, i as int));
        if s[i] == '\'' {
            out.push('\'');
            out.push('\'');
        } else {
            out.push(s[i]);
        }
        i += 1;
    }
}

pub const LITERAL_HINT: &'static str = "Re-run the import with 'Import all columns as text' if this column is mixed.";

/// `{file}, data row {row}, column [{col}]: '{v}' is not a valid {want}`
pub open spec fn literal_error_message(file: Seq<char>, row: nat, col: Seq<char>, v: Seq<char>, want: Seq<char>) -> Seq<char> {
    file + ", data row "@ + dec_int(row as int) + ", column ["@ + col + "]: '"@ + v + "' is not a valid "@ + want
}

/// The SQL literal for one CSV value loaded into a column of `kind`
/// (trimmed; empty text stays an empty string, other empty values are NULL),
/// or why the value does not fit the column. Float columns are not handled
/// here: their literal is the value's `f64` rendering.
pub open spec fn spec_literal(value: Seq<char>, kind: ColKind) -> Option<Seq<char>> {
    let v = trim(value);
    if v.len() == 0 {
        Some(if kind == ColKind::Text { "N''"@ } else { "NULL"@ })
    } else {
        match kind {
            ColKind::Int | ColKind::BigInt => if parses_i64(v) {
                Some(dec_int(int_text_value(v)->0))
            } else {
                None
            },
            ColKind::Date | ColKind::DateTime => {
                let k = spec_classify(v);
                if k == ColKind::Date || k == ColKind::DateTime {
                    Some(seq!['\''] + escape_quotes(v) + seq!['\''])
                } else {
                    None
                }
            },
            _ => Some("N'"@ + escape_quotes(v) + seq!['\'']),
        }
    }
}

/// What a rejected value was expected to be.
pub open spec fn literal_want(kind: ColKind) -> Seq<char> {
    match kind {
        ColKind::Int | ColKind::BigInt => "integer"@,
        _ => "date"@,
    }
}

fn literal_error(file: &str, row: usize, col: &str, v: &Vec<char>, lo: usize, hi: usize, want: &str) -> (r: AppError)
    requires
        lo <= hi <= v@.len(),
    ensures
        is_runtime_error(
            r,
            literal_error_message(file@, row as nat, col@, v@.subrange(lo as int, hi as int), want@),
            Some(LITERAL_HINT@),
        ),
{
    let mut m: Vec<char> = Vec::new();
    extend_str(&mut m, file);
    extend_str(&mut m, ", data row ");
    let rd = crate::text::u64_dec(row as u64);
    extend_chars(&mut m, rd.as_slice());
    extend_str(&mut m, ", column [");
    extend_str(&mut m, col);
    extend_str(&mut m, "]: '");
    let mut i = lo;
    let ghost m0 = m@;
    while i < hi
        invariant
            lo <= i <= hi <= v@.len(),
            m@ == m0 + v@.subrange(lo as int, i as int),
        decreases hi - i,
    {
        assert(v@.subrange(lo as int, i + 1) =~= v@.subrange(lo as int, i as int).push(v@[i as int]));
        m.push(v[i]);
        i += 1;
    }
    extend_str(&mut m, "' is not a valid ");
    extend_str(&mut m, want);
    assert(dec_int(row as int) == crate::text::dec_digits(row as nat));
    assert(m@ =~= literal_error_message(file@, row as nat, col@, v@.subrange(lo as int, hi as int), want@));
    AppError::Runtime { message: string_of(m.as_slice()), detail: Some(owned(LITERAL_HINT)) }
}

/// The SQL literal for a CSV value; see [`spec_literal`]. `row` (1-based data
/// row) and `col` only go into the error message.
pub fn literal(value: &str, kind: ColKind, file: &str, row: usize, col: &str) -> (r: Result<String, AppError>)
    requires
        kind != ColKind::Float,
    ensures
        match r {
            Ok(s) => spec_literal(value@, kind) == Some(s@),
            Err(e) => spec_literal(value@, kind) is None && is_runtime_error(
                e,
                literal_error_message(file@, row as nat, col@, trim(value@), literal_want(kind)),
                Some(LITERAL_HINT@),
            ),
        },
{
    let s = chars_of(value);
    let (lo, hi) = trim_bounds(&s, 0, s.len());
    assert(s@.subrange(0, s@.len() as int) =~= s@);
    let ghost v = s@.subrange(lo as int, hi as int);
    if lo == hi {
        return Ok(if let ColKind::Text = kind { owned("N''") } else { owned("NULL") });
    }
    match kind {
        ColKind::Int | ColKind::BigInt => {
            match parse_int(&s, lo, hi, 0x8000_0000_0000_0000, 0x7fff_ffff_ffff_ffff) {
                Some((neg, mag)) => {
                    let n: i64 = if neg {
                        if mag == 0x8000_0000_0000_0000 {
                            i64::MIN
                        } else {
                            -(mag as i64)
                        }
                    } else {
                        mag as i64
                    };
                    let d = i64_dec(n);
                    Ok(string_of(d.as_slice()))
                },
                None => Err(literal_error(file, row, col, &s, lo, hi, "integer")),
            }
        },
        ColKind::Date | ColKind::DateTime => {
            let mut tv: Vec<char> = Vec::new();
            let mut k = lo;
            while k < hi
                invariant
                    lo <= k <= hi <= s@.len(),
                    tv@ == s@.subrange(lo as int, k as int),
                decreases hi - k,
            {
                assert(s@.subrange(lo as int, k + 1) =~= s@.subrange(lo as int, k as int).push(s@[k as int]));
                tv.push(s[k]);
                k += 1;
            }
            let t = string_of(tv.as_slice());
            proof {
                crate::text::lemma_trim_idempotent(value@);
            }
            let c = classify(t.as_str());
            match c {
                ColKind::Date | ColKind::DateTime => {
                    let mut out: Vec<char> = Vec::new();
                    out.push('\'');
                    push_escaped(&mut out, &s, lo, hi);
                    out.push('\'');
                    Ok(string_of(out.as_slice()))
                },
                _ => Err(literal_error(file, row, col, &s, lo, hi, "date")),
            }
        },
        _ => {
            let mut out: Vec<char> = Vec::new();
            extend_str(&mut out, "N'");
            push_escaped(&mut out, &s, lo, hi);
            out.push('\'');
            Ok(string_of(out.as_slice()))
        },
    }
}

/// The first `k` lines from `pos` on that are not blank (line breaks kept).
pub open spec fn sample_lines(s: Seq<char>, pos: int, k: nat) -> Seq<Seq<char>>
    decreases s.len() - pos,
{
    if pos < 0 || pos >= s.len() || k == 0 {
        seq![]
    } else {
        let e = line_end(s, pos);
        proof {
            lemma_line_end(s, pos);
        }
        let l = s.subrange(pos, e);
        if all_ws(l) {
            sample_lines(s, e, k)
        } else {
            seq![l] + sample_lines(s, e, (k - 1) as nat)
        }
    }
}

/// Occurrences of `c` in `l`.
pub open spec fn count_of(c: char, l: Seq<char>) -> nat
    decreases l.len(),
{
    if l.len() == 0 {
        0
    } else {
        count_of(c, l.drop_last()) + if l.last() == c {
            1nat
        } else {
            0nat
        }
    }
}

/// The fewest occurrences of `c` on any of `ls` (which is not empty).
pub open spec fn min_count(c: char, ls: Seq<Seq<char>>) -> nat
    decreases ls.len(),
{
    if ls.len() <= 1 {
        count_of(c, ls[0])
    } else {
        let m = min_count(c, ls.drop_last());
        let x = count_of(c, ls.last());
        if x < m {
            x
        } else {
            m
        }
    }
}

/// Candidates in order of preference; a later one wins only with a strictly
/// higher per-line minimum, and a candidate must occur on every sampled line.
pub open spec fn pick_delimiter(ls: Seq<Seq<char>>, cands: Seq<char>, best: char, best_n: nat) -> char
    decreases cands.len(),
{
    if cands.len() == 0 {
        best
    } else {
        let m = min_count(cands[0], ls);
        if m > 0 && m > best_n {
            pick_delimiter(ls, cands.skip(1), cands[0], m)
        } else {
            pick_delimiter(ls, cands.skip(1), best, best_n)
        }
    }
}

/// The delimiter that occurs consistently on the first five non-blank lines:
/// comma, semicolon, tab or pipe, comma by default.
pub open spec fn spec_sniff_delimiter(text: Seq<char>) -> u8 {
    let ls = sample_lines(text, 0, 5);
    if ls.len() == 0 {
        ',' as u8
    } else {
        pick_delimiter(ls, seq![',', ';', '\t', '|'], ',', 0) as u8
    }
}

proof fn lemma_pick_delimiter(ls: Seq<Seq<char>>, cands: Seq<char>, best: char, best_n: nat)
    ensures
        (forall|i: int| 0 <= i < cands.len() ==> min_count(#[trigger] cands[i], ls) <= best_n)
            ==> pick_delimiter(ls, cands, best, best_n) == best,
        (exists|i: int| 0 <= i < cands.len() && min_count(#[trigger] cands[i], ls) > best_n) ==> exists|k: int| {
            &&& 0 <= k < cands.len()
            &&& pick_delimiter(ls, cands, best, best_n) == #[trigger] cands[k]
            &&& min_count(cands[k], ls) > best_n
            &&& forall|i: int| 0 <= i < cands.len() ==> min_count(#[trigger] cands[i], ls) <= min_count(cands[k], ls)
            &&& forall|i: int| 0 <= i < k ==> min_count(#[trigger] cands[i], ls) < min_count(cands[k], ls)
        },
    decreases cands.len(),
{
    if cands.len() > 0 {
        let rest = cands.skip(1);
        let m0 = min_count(cands[0], ls);
        assert forall|i: int| 0 <= i < rest.len() implies #[trigger] rest[i] == cands[i + 1] by {}
        if m0 > best_n {
            lemma_pick_delimiter(ls, rest, cands[0], m0);
            if exists|i: int| 0 <= i < rest.len() && min_count(#[trigger] rest[i], ls) > m0 {
                let k2 = choose|k: int| {
                    &&& 0 <= k < rest.len()
                    &&& pick_delimiter(ls, rest, cands[0], m0) == #[trigger] rest[k]
                    &&& min_count(rest[k], ls) > m0
                    &&& forall|i: int| 0 <= i < rest.len() ==> min_count(#[trigger] rest[i], ls) <= min_count(rest[k], ls)
                    &&& forall|i: int| 0 <= i < k ==> min_count(#[trigger] rest[i], ls) < min_count(rest[k], ls)
                };
                let k = k2 + 1;
                assert(cands[k] == rest[k2]);
                assert forall|i: int| 0 <= i < cands.len() implies min_count(#[trigger] cands[i], ls) <= min_count(cands[k], ls) by {
                    if i > 0 {
                        assert(cands[i] == rest[i - 1]);
                    }
                }
                assert forall|i: int| 0 <= i < k implies min_count(#[trigger] cands[i], ls) < min_count(cands[k], ls) by {
                    if i > 0 {
                        assert(cands[i] == rest[i - 1]);
                    }
                }
            } else {
                assert forall|i: int| 0 <= i < cands.len() implies min_count(#[trigger] cands[i], ls) <= min_count(cands[0], ls) by {
                    if i > 0 {
                        assert(cands[i] == rest[i - 1]);
                    }
                }
                assert(pick_delimiter(ls, cands, best, best_n) == cands[0]);
            }
        } else {
            lemma_pick_delimiter(ls, rest, best, best_n);
            if exists|i: int| 0 <= i < rest.len() && min_count(#[trigger] rest[i], ls) > best_n {
                let k2 = choose|k: int| {
                    &&& 0 <= k < rest.len()
                    &&& pick_delimiter(ls, rest, best, best_n) == #[trigger] rest[k]
                    &&& min_count(rest[k], ls) > best_n
                    &&& forall|i: int| 0 <= i < rest.len() ==> min_count(#[trigger] rest[i], ls) <= min_count(rest[k], ls)
                    &&& forall|i: int| 0 <= i < k ==> min_count(#[trigger] rest[i], ls) < min_count(rest[k], ls)
                };
                let k = k2 + 1;
                assert(cands[k] == rest[k2]);
                assert forall|i: int| 0 <= i < cands.len() implies min_count(#[trigger] cands[i], ls) <= min_count(cands[k], ls) by {
                    if i > 0 {
                        assert(cands[i] == rest[i - 1]);
                    }
                }
                assert forall|i: int| 0 <= i < k implies min_count(#[trigger] cands[i], ls) < min_count(cands[k], ls) by {
                    if i > 0 {
                        assert(cands[i] == rest[i - 1]);
                    }
                }
            } else {
                assert forall|i: int| 0 <= i < cands.len() implies min_count(#[trigger] cands[i], ls) <= best_n by {
                    if i > 0 {
                        assert(cands[i] == rest[i - 1]);
                    }
                }
            }
        }
    }
}

/// The sniffed delimiter: over the first five non-blank lines, the
/// candidate (comma, semicolon, tab, pipe) whose fewest occurrences on a
/// line are the most, the earliest of them on a tie; comma when no
/// candidate occurs on every sampled line.
pub proof fn lemma_sniff_picks_most_consistent(text: Seq<char>)
    ensures
        ({
            let ls = sample_lines(text, 0, 5);
            let cands = seq![',', ';', '\t', '|'];
            &&& (ls.len() == 0 || forall|i: int| 0 <= i < 4 ==> min_count(#[trigger] cands[i], ls) == 0)
                ==> spec_sniff_delimiter(text) == ',' as u8
            &&& (ls.len() > 0 && exists|i: int| 0 <= i < 4 && min_count(#[trigger] cands[i], ls) > 0) ==> exists|k: int| {
                &&& 0 <= k < 4
                &&& spec_sniff_delimiter(text) == (#[trigger] cands[k]) as u8
                &&& min_count(cands[k], ls) > 0
                &&& forall|i: int| 0 <= i < 4 ==> min_count(#[trigger] cands[i], ls) <= min_count(cands[k], ls)
                &&& forall|i: int| 0 <= i < k ==> min_count(#[trigger] cands[i], ls) < min_count(cands[k], ls)
            }
        }),
{
    let ls = sample_lines(text, 0, 5);
    let cands = seq![',', ';', '\t', '|'];
    if ls.len() > 0 {
        lemma_pick_delimiter(ls, cands, ',', 0);
    }
}

fn count_in(s: &Vec<char>, lo: usize, hi: usize, c: char) -> (r: usize)
    requires
        lo <= hi <= s@.len(),
    ensures
        r == count_of(c, s@.subrange(lo as int, hi as int)),
{
    let mut n: usize = 0;
    let mut i = lo;
    while i < hi
        invariant
            lo <= i <= hi <= s@.len(),
            n == count_of(c, s@.subrange(lo as int, i as int)),
            n <= i - lo,
        decreases hi - i,
    {
        assert(s@.subrange(lo as int, i + 1).drop_last() =~= s@.subrange(lo as int, i as int));
        if s[i] == c {
            n += 1;
        }
        i += 1;
    }
    n
}

fn min_count_of(s: &Vec<char>, spans: &Vec<(usize, usize)>, c: char) -> (r: usize)
    requires
        spans@.len() > 0,
        forall|i: int| 0 <= i < spans@.len() ==> (#[trigger] spans@[i]).0 <= spans@[i].1 <= s@.len(),
    ensures
        r == min_count(c, spans@.map_values(|p: (usize, usize)| s@.subrange(p.0 as int, p.1 as int))),
{
    let ghost ls = spans@.map_values(|p: (usize, usize)| s@.subrange(p.0 as int, p.1 as int));
    let mut m = count_in(s, spans[0].0, spans[0].1, c);
    let mut i: usize = 1;
    assert(ls.take(1).len() == 1);
    while i < spans.len()
        invariant
            1 <= i <= spans@.len(),
            forall|k: int| 0 <= k < spans@.len() ==> (#[trigger] spans@[k]).0 <= spans@[k].1 <= s@.len(),
            ls == spans@.map_values(|p: (usize, usize)| s@.subrange(p.0 as int, p.1 as int)),
            m == min_count(c, ls.take(i as int)),
        decreases spans@.len() - i,
    {
        assert(ls.take(i + 1).drop_last() =~= ls.take(i as int));
        let x = count_in(s, spans[i].0, spans[i].1, c);
        if x < m {
            m = x;
        }
        i += 1;
    }
    assert(ls.take(spans@.len() as int) =~= ls);
    m
}

/// Guesses the delimiter of CSV text; see [`spec_sniff_delimiter`].
pub fn sniff_delimiter(text: &str) -> (r: u8)
    ensures
        r == spec_sniff_delimiter(text@),
{
    let s = chars_of(text);
    let n = s.len();
    let mut spans: Vec<(usize, usize)> = Vec::new();
    let mut pos: usize = 0;
    let ghost all = sample_lines(s@, 0, 5);
    while pos < n && spans.len() < 5
        invariant
            pos <= n == s@.len(),
            spans@.len() <= 5,
            forall|i: int| 0 <= i < spans@.len() ==> (#[trigger] spans@[i]).0 <= spans@[i].1 <= s@.len(),
            spans@.map_values(|p: (usize, usize)| s@.subrange(p.0 as int, p.1 as int)) + sample_lines(
                s@,
                pos as int,
                (5 - spans@.len()) as nat,
            ) == all,
        decreases n - pos,
    {
        proof {
            lemma_line_end(s@, pos as int);
        }
        let mut e = pos;
        while e < n && s[e] != '\n'
            invariant
                pos <= e <= n,
                n == s@.len(),
                line_end(s@, pos as int) == line_end(s@, e as int),
            decreases n - e,
        {
            e += 1;
        }
        if e < n {
            e += 1;
        }
        let ghost before = spans@;
        let mut blank = true;
        let mut i = pos;
        while i < e
            invariant
                pos <= i <= e <= n == s@.len(),
                blank == all_ws(s@.subrange(pos as int, i as int)),
            decreases e - i,
        {
            let ghost pre = s@.subrange(pos as int, i as int);
            assert(s@.subrange(pos as int, i + 1) =~= pre.push(s@[i as int]));
            assert(all_ws(pre.push(s@[i as int])) == (all_ws(pre) && crate::text::is_ws(s@[i as int]))) by {
                if all_ws(pre) && crate::text::is_ws(s@[i as int]) {
                    assert forall|k: int| 0 <= k < pre.len() + 1 implies crate::text::is_ws(#[trigger] pre.push(s@[i as int])[k]) by {
                        if k < pre.len() {
                            assert(pre.push(s@[i as int])[k] == pre[k]);
                        }
                    }
                }
                if all_ws(pre.push(s@[i as int])) {
                    assert(crate::text::is_ws(pre.push(s@[i as int])[pre.len() as int]));
                    assert forall|k: int| 0 <= k < pre.len() implies crate::text::is_ws(#[trigger] pre[k]) by {
                        assert(pre.push(s@[i as int])[k] == pre[k]);
                    }
                }
            }
            blank = blank && char_is_ws(s[i]);
            i += 1;
        }
        if !blank {
            spans.push((pos, e));
            assert(spans@.map_values(|p: (usize, usize)| s@.subrange(p.0 as int, p.1 as int)) =~= before.map_values(
                |p: (usize, usize)| s@.subrange(p.0 as int, p.1 as int),
            ).push(s@.subrange(pos as int, e as int)));
        }
        pos = e;
    }
    let ghost ls = spans@.map_values(|p: (usize, usize)| s@.subrange(p.0 as int, p.1 as int));
    assert(ls =~= all);
    if spans.len() == 0 {
        return 44;
    }
    let mut best: char = ',';
    let mut best_n: usize = 0;
    let cands = [',', ';', '\t', '|'];
    let mut k: usize = 0;
    let ghost cs = seq![',', ';', '\t', '|'];
    assert(cands@ =~= cs);
    assert(cs.skip(0) =~= cs);
    while k < 4
        invariant
            k <= 4,
            spans@.len() > 0,
            forall|i: int| 0 <= i < spans@.len() ==> (#[trigger] spans@[i]).0 <= spans@[i].1 <= s@.len(),
            ls == all,
            ls == spans@.map_values(|p: (usize, usize)| s@.subrange(p.0 as int, p.1 as int)),
            cands@ == cs,
            pick_delimiter(ls, cs.skip(k as int), best, best_n as nat) == pick_delimiter(ls, cs, ',', 0),
        decreases 4 - k,
    {
        let c = cands[k];
        let m = min_count_of(&s, &spans, c);
        assert(cs.skip(k as int).skip(1) =~= cs.skip(k + 1));
        assert(cs.skip(k as int)[0] == c);
        if m > 0 && m > best_n {
            best = c;
            best_n = m;
        }
        k += 1;
    }
    assert(cs.skip(4) =~= Seq::<char>::empty());
    best as u8
}

} // verus!
