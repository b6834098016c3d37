//! Identifiers.
//!
//! Sessions, entries and concepts are identified by the 128-bit value of a
//! UUID. Identifiers are drawn, written and read by the `uuid` crate.

use vstd::prelude::*;

verus! {

/// The error of `uuid`, carried through and never looked into.
#[verifier::external_type_specification]
#[verifier::external_body]
pub struct ExUuidError(uuid::Error);

/// The lowercase hexadecimal digit for a value below sixteen.
pub open spec fn hex_digit_spec(nibble: u128) -> char {
    if nibble == 0 {
        '0'
    } else if nibble == 1 {
        '1'
    } else if nibble == 2 {
        '2'
    } else if nibble == 3 {
        '3'
    } else if nibble == 4 {
        '4'
    } else if nibble == 5 {
        '5'
    } else if nibble == 6 {
        '6'
    } else if nibble == 7 {
        '7'
    } else if nibble == 8 {
        '8'
    } else if nibble == 9 {
        '9'
    } else if nibble == 10 {
        'a'
    } else if nibble == 11 {
        'b'
    } else if nibble == 12 {
        'c'
    } else if nibble == 13 {
        'd'
    } else if nibble == 14 {
        'e'
    } else {
        'f'
    }
}

/// The `k`-th of the 32 hexadecimal digits of `id`, most significant first.
pub open spec fn nibble_spec(id: u128, k: int) -> u128 {
    (id >> ((4 * (31 - k)) as u128)) & 0xf
}

/// The canonical text of an identifier: 32 lowercase hexadecimal digits in
/// groups of 8, 4, 4, 4 and 12, separated by hyphens.
pub open spec fn hyphenated_spec(id: u128) -> Seq<char> {
    Seq::new(
        36,
        |i: int|
            if i == 8 || i == 13 || i == 18 || i == 23 {
                '-'
            } else if i < 8 {
                hex_digit_spec(nibble_spec(id, i))
            } else if i < 13 {
                hex_digit_spec(nibble_spec(id, i - 1))
            } else if i < 18 {
                hex_digit_spec(nibble_spec(id, i - 2))
            } else if i < 23 {
                hex_digit_spec(nibble_spec(id, i - 3))
            } else {
                hex_digit_spec(nibble_spec(id, i - 4))
            },
    )
}

/// What `uuid::Uuid::parse_str` makes of a text: the identifier it denotes, in
/// any of the notations the crate accepts, or nothing.
pub uninterp spec fn parsed_id_spec(text: Seq<char>) -> Option<u128>;

/// Bits that every random (version 4) identifier carries.
pub const RANDOM_ID_MASK: u128 = 0x0000_0000_0000_f000_c000_0000_0000_0000;

pub const RANDOM_ID_MARK: u128 = 0x0000_0000_0000_4000_8000_0000_0000_0000;

/// Draws a random identifier by `uuid::Uuid::new_v4`. Nothing is claimed of
/// the random bits; the version and variant bits are those of a version 4 UUID.
#[verifier::external_body]
pub(crate) fn fresh_id() -> (id: u128)
    ensures
        id & RANDOM_ID_MASK == RANDOM_ID_MARK,
{
    uuid::Uuid::new_v4().as_u128()
}

/// Writes an identifier by `uuid::Uuid`'s `Display`: the hyphenated lowercase form.
#[verifier::external_body]
pub(crate) fn id_text(id: u128) -> (text: String)
    ensures
        text@ == hyphenated_spec(id),
{
    uuid::Uuid::from_u128(id).to_string()
}

/// Reads an identifier by `uuid::Uuid::parse_str`. The accepted notations are
/// the crate's; what is claimed beyond the name is that the canonical text of
/// an identifier reads back as that identifier.
#[verifier::external_body]
pub(crate) fn parse_uuid(text: &str) -> (parsed: Result<u128, uuid::Error>)
    ensures
        (parsed is Ok) == (parsed_id_spec(text@) is Some),
        parsed is Ok ==> parsed_id_spec(text@) == Some(parsed->Ok_0),
        forall|id: u128| text@ == hyphenated_spec(id) ==> parsed is Ok && parsed->Ok_0 == id,
{
    uuid::Uuid::parse_str(text).map(|uuid| uuid.as_u128())
}

/// Reads an identifier from its text.
pub fn parse_id(text: &str) -> (id: Option<u128>)
    ensures
        id == parsed_id_spec(text@),
        forall|known: u128| text@ == hyphenated_spec(known) ==> id == Some(known),
{
    match parse_uuid(text) {
        Ok(id) => Some(id),
        Err(_) => None,
    }
}

/// Writes an identifier in its canonical text.
pub fn format_id(id: u128) -> (text: String)
    ensures
        text@ == hyphenated_spec(id),
{
    id_text(id)
}

/// Draws a fresh random identifier.
pub fn new_id() -> (id: u128)
    ensures
        id & RANDOM_ID_MASK == RANDOM_ID_MARK,
{
    fresh_id()
}

} // verus!
