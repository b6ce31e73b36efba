//! Product and category identifiers: UUIDs held as 128-bit integers.

use vstd::prelude::*;

verus! {

/// The UUID that a text writes, as `uuid::Uuid::parse_str` reads it
/// (hyphenated, simple, braced or URN form); `None` where it writes none.
pub uninterp spec fn uuid_of(s: Seq<char>) -> Option<u128>;

/// Relies on `uuid::Uuid::parse_str`, a function of the text alone, and on
/// `Uuid::as_u128` to hold the result as an integer.
#[verifier::external_body]
pub(crate) fn parse_uuid(s: &str) -> (r: Option<u128>)
    ensures
        r == uuid_of(s@),
{
    uuid::Uuid::parse_str(s).ok().map(|u| u.as_u128())
}

/// Relies on `uuid::Uuid::new_v4`: a random identifier from the operating
/// system's random source, of which nothing is promised (the call panics only
/// if that source fails).
#[verifier::external_body]
pub(crate) fn fresh_uuid() -> (r: u128) {
    uuid::Uuid::new_v4().as_u128()
}

} // verus!
