//! The sa passwords: how a new one is made, and how keychain failures are
//! reported. The keychain itself is reached elsewhere.

use crate::error::{is_internal_error, AppError};
use crate::text::{concat, string_of};
use vstd::prelude::*;

verus! {

/// The keychain service the passwords are stored under.
pub const SERVICE: &'static str = "com.bakehouse.sa-password";

/// Length of a generated password.
pub const PASSWORD_LEN: usize = 24;

pub open spec fn is_upper(c: char) -> bool {
    'A' <= c && c <= 'Z'
}

pub open spec fn is_lower(c: char) -> bool {
    'a' <= c && c <= 'z'
}

pub open spec fn is_digit_char(c: char) -> bool {
    '0' <= c && c <= '9'
}

/// `rand::seq::IndexedRandom::choose` with the thread generator: one of
/// the options, picked at random.
#[verifier::external_body]
fn pick_char(options: &Vec<char>) -> (r: char)
    requires
        options@.len() > 0,
    ensures
        options@.contains(r),
{
    *rand::seq::IndexedRandom::choose(options.as_slice(), &mut rand::rng()).unwrap()
}

fn char_range(lo: u8, hi: u8) -> (r: Vec<char>)
    requires
        lo <= hi < 128,
    ensures
        r@.len() == hi - lo + 1,
        forall|i: int| 0 <= i < r@.len() ==> (lo as char) <= #[trigger] r@[i] <= (hi as char),
{
    let mut v: Vec<char> = Vec::new();
    let mut c: u8 = lo;
    while c <= hi
        invariant
            lo <= c <= hi + 1,
            hi < 128,
            v@.len() == c - lo,
            forall|i: int| 0 <= i < v@.len() ==> (lo as char) <= #[trigger] v@[i] <= (hi as char),
        decreases hi + 1 - c,
    {
        v.push(c as char);
        c += 1;
    }
    v
}

/// A fresh sa password meeting SQL Server's policy (8-128 characters,
/// three of four character classes): 24 ASCII letters and digits, starting
/// with an upper-case letter, a lower-case letter and a digit.
pub fn generate_password() -> (r: String)
    ensures
        r@.len() == PASSWORD_LEN,
        is_upper(r@[0]),
        is_lower(r@[1]),
        is_digit_char(r@[2]),
        forall|i: int| 0 <= i < r@.len() ==> is_upper(#[trigger] r@[i]) || is_lower(r@[i]) || is_digit_char(r@[i]),
{
    let upper = char_range(65, 90);
    let lower = char_range(97, 122);
    let digit = char_range(48, 57);
    let mut all: Vec<char> = Vec::new();
    let mut i: usize = 0;
    while i < upper.len()
        invariant
            i <= upper@.len(),
            all@.len() == i,
            forall|k: int| 0 <= k < upper@.len() ==> is_upper(#[trigger] upper@[k]),
            forall|k: int| 0 <= k < all@.len() ==> is_upper(#[trigger] all@[k]),
        decreases upper@.len() - i,
    {
        all.push(upper[i]);
        i += 1;
    }
    let mut i: usize = 0;
    while i < lower.len()
        invariant
            i <= lower@.len(),
            all@.len() == 26 + i,
            forall|k: int| 0 <= k < lower@.len() ==> is_lower(#[trigger] lower@[k]),
            forall|k: int| 0 <= k < all@.len() ==> is_upper(#[trigger] all@[k]) || is_lower(all@[k]),
        decreases lower@.len() - i,
    {
        all.push(lower[i]);
        i += 1;
    }
    let mut i: usize = 0;
    while i < digit.len()
        invariant
            i <= digit@.len(),
            all@.len() > 0,
            forall|k: int| 0 <= k < digit@.len() ==> is_digit_char(#[trigger] digit@[k]),
            forall|k: int| 0 <= k < all@.len() ==> is_upper(#[trigger] all@[k]) || is_lower(all@[k]) || is_digit_char(all@[k]),
        decreases digit@.len() - i,
    {
        all.push(digit[i]);
        i += 1;
    }
    let mut pw: Vec<char> = Vec::new();
    pw.push(pick_char(&upper));
    pw.push(pick_char(&lower));
    pw.push(pick_char(&digit));
    let mut n: usize = 0;
    while n < 21
        invariant
            n <= 21,
            pw@.len() == 3 + n,
            all@.len() > 0,
            is_upper(pw@[0]),
            is_lower(pw@[1]),
            is_digit_char(pw@[2]),
            forall|k: int| 0 <= k < all@.len() ==> is_upper(#[trigger] all@[k]) || is_lower(all@[k]) || is_digit_char(all@[k]),
            forall|k: int| 0 <= k < pw@.len() ==> is_upper(#[trigger] pw@[k]) || is_lower(pw@[k]) || is_digit_char(pw@[k]),
        decreases 21 - n,
    {
        pw.push(pick_char(&all));
        n += 1;
    }
    string_of(pw.as_slice())
}

/// How a failed keychain write is reported (`cause` is the keychain's
/// message).
pub fn write_failed(cause: &str) -> (r: AppError)
    ensures
        is_internal_error(r, "keychain write failed: "@ + cause@),
{
    AppError::Internal(concat("keychain write failed: ", cause))
}

/// How a failed keychain read is reported.
pub fn read_failed(cause: &str) -> (r: AppError)
    ensures
        is_internal_error(r, "keychain read failed: "@ + cause@),
{
    AppError::Internal(concat("keychain read failed: ", cause))
}

} // verus!
