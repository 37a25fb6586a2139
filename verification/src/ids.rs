//! Message identifiers: generation and parsing of 128-bit UUID values.

use vstd::prelude::*;

verus! {

/// The 128-bit value denoted by a UUID string, in any of the textual formats
/// that `uuid::Uuid::parse_str` accepts, or `None` when the string is not a
/// UUID. The result depends on the characters alone.
pub uninterp spec fn uuid_of(s: Seq<char>) -> Option<u128>;

/// Relies on uuid::Uuid::parse_str to decide whether `s` is a UUID and, if
/// so, which 128-bit value it encodes.
#[verifier::external_body]
pub(crate) fn parse_id(s: &str) -> (r: Option<u128>)
    ensures
        r == uuid_of(s@),
{
    uuid::Uuid::parse_str(s).ok().map(|u| u.as_u128())
}

/// Relies on uuid::Uuid::now_v7 for a fresh time-ordered identifier. The
/// value depends on the clock and on random state, so nothing is assumed
/// of it; callers must check for collisions themselves.
#[verifier::external_body]
pub(crate) fn fresh_id() -> u128 {
    uuid::Uuid::now_v7().as_u128()
}

} // verus!
