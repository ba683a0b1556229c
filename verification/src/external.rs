//! Trusted wrappers around the outside crates and the few std functions
//! that vstd gives no specification.
//!
//! Each wrapper holds one outside call; everything that depends on the
//! result is verified elsewhere, for every value the wrapper may return.

use vstd::prelude::*;

verus! {

/// Relies on chrono's `Utc::now` for the wall clock, read out as plain
/// milliseconds with `DateTime::timestamp_millis`. The result depends on
/// the machine's clock, so nothing is promised of its value.
#[verifier::external_body]
fn wall_clock_raw_ms() -> i64 {
    chrono::Utc::now().timestamp_millis()
}

/// The wall clock as milliseconds since the Unix epoch, clamped to zero
/// for clocks set before the epoch.
pub fn now_millis() -> (now: u64) {
    let raw = wall_clock_raw_ms();
    if raw >= 0 {
        raw as u64
    } else {
        0
    }
}

/// Relies on uuid's `Uuid::new_v4` and its hyphenated `Display` encoding:
/// a fresh random identifier, printed as 36 characters. The value is
/// random, so nothing more is promised of it.
#[verifier::external_body]
pub(crate) fn fresh_item_id() -> (id: String)
    ensures
        id@.len() == 36,
{
    uuid::Uuid::new_v4().to_string()
}

/// Relies on str's `PartialEq`: two string slices are equal exactly when
/// their character sequences are.
#[verifier::external_body]
pub(crate) fn str_eq(a: &str, b: &str) -> (r: bool)
    ensures
        r == (a@ == b@),
{
    a == b
}

/// Relies on str's `chars` iterator: it yields exactly the characters of
/// the string, in order.
#[verifier::external_body]
pub(crate) fn chars_vec(s: &str) -> (v: Vec<char>)
    ensures
        v@ == s@,
{
    s.chars().collect()
}

/// Relies on `String`'s `FromIterator` over chars: collecting characters
/// yields the string with exactly those characters.
#[verifier::external_body]
pub(crate) fn string_from_chars(v: &Vec<char>) -> (s: String)
    ensures
        s@ == v@,
{
    v.iter().collect()
}

/// Relies on str's `to_lowercase`: the result is a function of the
/// characters alone, named `lower_of`.
pub uninterp spec fn lower_of(s: Seq<char>) -> Seq<char>;

/// Relies on str's `to_lowercase`; see `lower_of`.
#[verifier::external_body]
pub(crate) fn to_lowercase(s: &str) -> (r: String)
    ensures
        r@ == lower_of(s@),
{
    s.to_lowercase()
}

} // verus!
