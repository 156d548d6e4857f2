//! Random identifiers and their texts.

use crate::text::reading;
use vstd::arithmetic::power::pow;
use vstd::prelude::*;

verus! {

/// What reading a text as an identifier gives, or what is wrong with the text.
pub uninterp spec fn id_of(text: Seq<char>) -> Result<u128, Seq<char>>;

/// A hexadecimal digit, in lower case.
pub open spec fn hex_digit(n: int) -> char {
    if n < 10 {
        (48 + n) as char
    } else {
        (87 + n) as char
    }
}

/// The digit of an identifier at `at`, counted from the most significant of its
/// thirty-two.
pub open spec fn id_digit(id: u128, at: int) -> char {
    hex_digit((id as int / pow(16, (31 - at) as nat)) % 16)
}

/// The text of an identifier: its digits in groups of eight, four, four, four
/// and twelve, with hyphens between them.
pub open spec fn hyphenated(id: u128) -> Seq<char> {
    Seq::new(
        36,
        |i: int|
            if i == 8 || i == 13 || i == 18 || i == 23 {
                '-'
            } else if i < 8 {
                id_digit(id, i)
            } else if i < 13 {
                id_digit(id, i - 1)
            } else if i < 18 {
                id_digit(id, i - 2)
            } else if i < 23 {
                id_digit(id, i - 3)
            } else {
                id_digit(id, i - 4)
            },
    )
}

/// An identifier that says of itself that it is random: the thirteenth of its
/// digits is the version, four, and the seventeenth begins with the two bits of
/// the variant, one and zero.
pub open spec fn marked_random(id: u128) -> bool {
    &&& id as int / 0x1000_0000_0000_0000_0000 % 16 == 4
    &&& id as int / 0x4000_0000_0000_0000 % 4 == 2
}

/// `uuid::Uuid::new_v4`: a random identifier. Only its version and its variant
/// are certain.
#[verifier::external_body]
pub(crate) fn random_id() -> (r: u128)
    ensures
        marked_random(r),
{
    uuid::Uuid::new_v4().as_u128()
}

/// The `Display` rendering of a `uuid::Uuid`: its hyphenated text in lower
/// case, from which the identifier can be read again.
#[verifier::external_body]
pub(crate) fn id_text(id: u128) -> (r: String)
    ensures
        r@ == hyphenated(id),
        id_of(r@) is Ok && id_of(r@)->Ok_0 == id,
{
    uuid::Uuid::from_u128(id).to_string()
}

/// `uuid::Uuid::parse_str`: the identifier that a text spells, or the text of
/// the error. The result depends on the text alone. Which spellings there are
/// besides the hyphenated one is not said here.
#[verifier::external_body]
pub(crate) fn read_id(text: &str) -> (r: Result<u128, String>)
    ensures
        reading(r) == id_of(text@),
{
    match uuid::Uuid::parse_str(text) {
        Ok(id) => Ok(id.as_u128()),
        Err(error) => Err(error.to_string()),
    }
}

} // verus!
