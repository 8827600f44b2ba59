//! Entry identifiers: 128-bit values, written as hyphenated UUIDs.

use vstd::arithmetic::power::pow;
use vstd::prelude::*;

verus! {

/// The lowercase hexadecimal digit for `n`, which is below 16.
pub open spec fn hex_digit(n: int) -> char {
    if n < 10 {
        ((48 + n) as u8) as char
    } else {
        ((87 + n) as u8) as char
    }
}

/// The hyphenated text of an identifier: 32 lowercase hexadecimal digits,
/// most significant first, in groups of 8, 4, 4, 4 and 12 joined by `-`.
pub open spec fn uuid_text(id: u128) -> Seq<char> {
    Seq::new(
        36,
        |p: int|
            if p == 8 || p == 13 || p == 18 || p == 23 {
                '-'
            } else {
                let d = p - (if p < 8 {
                    0int
                } else if p < 13 {
                    1int
                } else if p < 18 {
                    2int
                } else if p < 23 {
                    3int
                } else {
                    4int
                });
                hex_digit((id as int / pow(16, (31 - d) as nat)) % 16)
            },
    )
}

/// The identifier that uuid's parser reads from a text, if any.
pub uninterp spec fn uuid_of_text(s: Seq<char>) -> Option<u128>;

/// Relies on `uuid::Uuid::parse_str`: whether and what it reads depends on
/// the text alone; it reads the simple, hyphenated, braced and URN forms,
/// so no text of another length than 32, 36, 38 or 45 characters.
#[verifier::external_body]
pub(crate) fn parse_entry_id(s: &str) -> (r: Option<u128>)
    ensures
        r == uuid_of_text(s@),
        !(s@.len() == 32 || s@.len() == 36 || s@.len() == 38 || s@.len() == 45) ==> r is None,
{
    uuid::Uuid::parse_str(s).ok().map(|u| u.as_u128())
}

/// Relies on `uuid::Uuid::hyphenated`: the lowercase hyphenated text, one
/// of the forms that `uuid::Uuid::parse_str` reads back.
#[verifier::external_body]
pub(crate) fn entry_id_text(id: u128) -> (r: String)
    ensures
        r@ == uuid_text(id),
        uuid_of_text(r@) == Some(id),
{
    uuid::Uuid::from_u128(id).hyphenated().to_string()
}

/// Relies on `uuid::Uuid::new_v4`: a random identifier, of which nothing is
/// promised.
#[verifier::external_body]
pub(crate) fn random_entry_id() -> (r: u128) {
    uuid::Uuid::new_v4().as_u128()
}

} // verus!
