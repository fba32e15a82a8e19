//! Identifiers and instants: random v4 UUIDs, their parsing and their canonical text,
//! and the current time.
//!
//! An identifier is held as the `u128` that `uuid::Uuid::as_u128` gives.
use vstd::prelude::*;

verus! {

/// A fresh random identifier (`uuid::Uuid::new_v4`, read back as `u128`).
///
/// Nothing is promised of the value: it comes from the system's random source.
#[verifier::external_body]
pub(crate) fn new_id() -> (r: u128) {
    uuid::Uuid::new_v4().as_u128()
}

/// What `uuid::Uuid::parse_str` makes of a text: the identifier, or `None` when the text
/// is no UUID in any of the crate's accepted forms.
pub uninterp spec fn uuid_parse(text: Seq<char>) -> Option<u128>;

/// Parses a UUID in any form that `uuid::Uuid::parse_str` accepts (simple, hyphenated,
/// braced, URN). The contract only ties the result to the text through `uuid_parse`.
#[verifier::external_body]
pub(crate) fn parse_id(text: &str) -> (r: Option<u128>)
    ensures
        r == uuid_parse(text@),
{
    uuid::Uuid::parse_str(text).ok().map(|u| u.as_u128())
}

/// The lower-case hexadecimal digit for `d < 16`.
pub open spec fn hex_digit(d: int) -> char {
    if d < 10 {
        ((d + 48) as u32) as char
    } else {
        ((d + 87) as u32) as char
    }
}

/// The 32 lower-case hex digits of `v`, most significant first.
pub open spec fn hex32(v: u128) -> Seq<char> {
    Seq::new(32, |i: int| hex_digit(((v as int) / pow16(31 - i)) % 16))
}

pub open spec fn pow16(n: int) -> int
    decreases n,
{
    if n <= 0 {
        1
    } else {
        16 * pow16(n - 1)
    }
}

/// The hyphenated form that `Uuid`'s `Display` writes: 8-4-4-4-12 hex digits.
pub open spec fn uuid_text(v: u128) -> Seq<char> {
    let h = hex32(v);
    h.subrange(0, 8) + seq!['-'] + h.subrange(8, 12) + seq!['-'] + h.subrange(12, 16) + seq!['-']
        + h.subrange(16, 20) + seq!['-'] + h.subrange(20, 32)
}

/// The hyphenated lower-case text of an identifier (`uuid::Uuid`'s `Display`, through
/// `Uuid::from_u128(v).to_string()`): 8-4-4-4-12 lower-case hex digits of `v`.
#[verifier::external_body]
pub(crate) fn id_text(v: u128) -> (r: String)
    ensures
        r@ == uuid_text(v),
{
    uuid::Uuid::from_u128(v).to_string()
}

/// The current time in Unix seconds (`chrono::Utc::now().timestamp()`).
///
/// Nothing is promised of the value: it is read from the system clock.
#[verifier::external_body]
pub(crate) fn now_timestamp() -> (r: i64) {
    chrono::Utc::now().timestamp()
}

} // verus!
