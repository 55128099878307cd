//! Identifiers of sessions and projects.
//!
//! An identifier is a UUID, held as the 128-bit integer that packs its sixteen
//! bytes in big-endian order.

use vstd::prelude::*;

verus! {

/// What `uuid::Uuid::parse_str` makes of a text: the 128-bit value of the
/// UUID it reads, or `None` where it reports an error.
pub uninterp spec fn parsed_id(text: Seq<char>) -> Option<u128>;

/// The bits that mark a UUID as random (version 4, RFC variant).
pub open spec fn is_random_id(id: u128) -> bool {
    id & 0x0000_0000_0000_f000_c000_0000_0000_0000u128
        == 0x0000_0000_0000_4000_8000_0000_0000_0000u128
}

/// Draws a fresh identifier with `uuid::Uuid::new_v4` and reads it with
/// `Uuid::as_u128`. The value is random; the contract states only the version
/// and variant bits, which `new_v4` sets on every value it returns.
#[verifier::external_body]
pub(crate) fn fresh_id() -> (id: u128)
    ensures
        is_random_id(id),
{
    uuid::Uuid::new_v4().as_u128()
}

/// Parses a textual UUID with `uuid::Uuid::parse_str` and reads the value with
/// `Uuid::as_u128`. The contract names the outcome; it claims nothing about
/// which texts parse.
#[verifier::external_body]
pub(crate) fn parse_id(text: &str) -> (id: Option<u128>)
    ensures
        id == parsed_id(text@),
{
    match uuid::Uuid::parse_str(text) {
        Ok(uuid) => Some(uuid.as_u128()),
        Err(_) => None,
    }
}

} // verus!
