//! Identifiers of drawers and items: 128-bit UUIDs drawn at random, written as
//! hyphenated lowercase hex and read back by the `uuid` crate.

use vstd::prelude::*;

verus! {

/// The version and variant bits of a random (version 4, RFC 4122) UUID.
pub open spec fn is_v4(id: u128) -> bool {
    &&& (id >> 76u128) & 0xfu128 == 4
    &&& (id >> 62u128) & 0x3u128 == 2
}

/// The lowercase hex digit for a nibble.
pub open spec fn hex_digit(n: u128) -> char {
    if n < 10 {
        (n + 48) as char
    } else {
        (n + 87) as char
    }
}

/// The `i`-th hex digit (from the most significant end) of the 32 that spell `id`.
pub open spec fn nibble_char(id: u128, i: int) -> char {
    hex_digit((id >> ((4 * (31 - i)) as u128)) & 0xfu128)
}

/// The hyphenated lowercase text of a UUID: 8-4-4-4-12 hex digits.
pub open spec fn uuid_text(id: u128) -> Seq<char> {
    Seq::new(
        36,
        |p: int|
            if p == 8 || p == 13 || p == 18 || p == 23 {
                '-'
            } else if p < 8 {
                nibble_char(id, p)
            } else if p < 13 {
                nibble_char(id, p - 1)
            } else if p < 18 {
                nibble_char(id, p - 2)
            } else if p < 23 {
                nibble_char(id, p - 3)
            } else {
                nibble_char(id, p - 4)
            },
    )
}

/// What `uuid::Uuid::parse_str` accepts and yields, as a 128-bit value.
pub uninterp spec fn uuid_parse(text: Seq<char>) -> Option<u128>;

/// A fresh random identifier (`uuid::Uuid::new_v4`). The crate draws 128
/// random bits and then forces the version nibble to 4 and the variant bits to
/// `10`, which is all that is claimed here.
#[verifier::external_body]
pub(crate) fn new_id() -> (id: u128)
    ensures
        is_v4(id),
{
    uuid::Uuid::new_v4().as_u128()
}

/// The text of an identifier (`Display` of `uuid::Uuid`, which writes the
/// hyphenated lowercase form).
#[verifier::external_body]
pub(crate) fn id_text(id: u128) -> (s: String)
    ensures
        s@ == uuid_text(id),
{
    uuid::Uuid::from_u128(id).to_string()
}

/// Reads an identifier (`uuid::Uuid::parse_str`). The result is named
/// `uuid_parse`; the one fact stated beside it is that the crate reads back
/// the hyphenated lowercase text it writes.
#[verifier::external_body]
pub(crate) fn parse_id(text: &str) -> (r: Option<u128>)
    ensures
        r == uuid_parse(text@),
        forall|id: u128| text@ == uuid_text(id) ==> r == Some(id),
{
    match uuid::Uuid::parse_str(text) {
        Ok(u) => Some(u.as_u128()),
        Err(_) => None,
    }
}

} // verus!
