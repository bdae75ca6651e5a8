//! Ids: random when they are made, and written as UUID text in URLs.

use vstd::prelude::*;
use vstd::arithmetic::power::pow;
use crate::text::digit;

verus! {

/// The `k`-th of the 32 hexadecimal digits of an id, the most significant
/// being the first.
pub open spec fn nibble(id: u128, k: int) -> int {
    (id as int / pow(16, (31 - k) as nat)) % 16
}

/// The character of one hexadecimal digit, in lower case.
pub open spec fn hex_digit(d: int) -> char {
    if d < 10 {
        digit(d)
    } else if d == 10 {
        'a'
    } else if d == 11 {
        'b'
    } else if d == 12 {
        'c'
    } else if d == 13 {
        'd'
    } else if d == 14 {
        'e'
    } else {
        'f'
    }
}

/// How many hyphens stand before position `i` of an id's text.
pub open spec fn hyphens_before(i: int) -> int {
    if i < 8 {
        0
    } else if i < 13 {
        1
    } else if i < 18 {
        2
    } else if i < 23 {
        3
    } else {
        4
    }
}

/// An id as UUID text: 32 lower-case hexadecimal digits in groups of 8, 4,
/// 4, 4 and 12, with hyphens between the groups.
pub open spec fn id_text(id: u128) -> Seq<char> {
    Seq::new(
        36,
        |i: int|
            if i == 8 || i == 13 || i == 18 || i == 23 {
                '-'
            } else {
                hex_digit(nibble(id, i - hyphens_before(i)))
            },
    )
}

/// Whether an id has the shape of a random (version 4) UUID: version digit
/// 4, and the variant digit one of 8, 9, a, b.
pub open spec fn is_random_shaped(id: u128) -> bool {
    nibble(id, 12) == 4 && 8 <= nibble(id, 16) < 12
}

/// `uuid::Uuid::new_v4`, read as its 128 bits by `Uuid::as_u128`. The bits
/// come from the system's random source, so nothing is claimed of them but
/// the version and variant digits that `new_v4` sets in every UUID it makes.
#[verifier::external_body]
pub(crate) fn random_id() -> (id: u128)
    ensures
        is_random_shaped(id),
{
    uuid::Uuid::new_v4().as_u128()
}

/// `uuid::Uuid`'s `Display`, on the UUID that `Uuid::from_u128` makes of the
/// bits: the hyphenated lower-case form.
#[verifier::external_body]
pub(crate) fn hyphenated(id: u128) -> (out: String)
    ensures
        out@ == id_text(id),
{
    uuid::Uuid::from_u128(id).to_string()
}

} // verus!
