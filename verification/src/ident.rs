//! Player identifiers and their textual form.

use vstd::prelude::*;

verus! {

/// An opaque player identifier: the 128 bits of a UUID, most significant first.
#[derive(Clone, Copy, Debug, PartialEq, Eq, Structural, Hash)]
pub struct PlayerId(pub u128);

/// The lower-case hexadecimal digit for a value below sixteen.
pub open spec fn hex_digit(n: u128) -> char {
    seq!['0', '1', '2', '3', '4', '5', '6', '7', '8', '9', 'a', 'b', 'c', 'd', 'e', 'f'][n as int]
}

/// The `j`-th four-bit group of `bits`, counted from the most significant one.
pub open spec fn nibble(bits: u128, j: int) -> u128 {
    (bits >> ((4 * (31 - j)) as u128)) & 0xf
}

/// How many hyphens stand before position `i` of the hyphenated form.
pub open spec fn hyphens_before(i: int) -> int {
    if i < 8 {
        0
    } else if i < 13 {
        1
    } else if i < 18 {
        2
    } else if i < 23 {
        3
    } else {
        4
    }
}

/// The canonical text of an identifier: 32 lower-case hexadecimal digits in
/// groups of 8, 4, 4, 4 and 12, separated by hyphens.
pub open spec fn hyphenated(bits: u128) -> Seq<char> {
    Seq::new(
        36,
        |i: int|
            if i == 8 || i == 13 || i == 18 || i == 23 {
                '-'
            } else {
                hex_digit(nibble(bits, i - hyphens_before(i)))
            },
    )
}

/// What `uuid::Uuid::parse_str` makes of a text: the 128 bits of the identifier
/// it reads, or `None` where it rejects the text.
pub uninterp spec fn uuid_parse(text: Seq<char>) -> Option<u128>;

/// Calls `uuid::Uuid::parse_str` and hands back the bits of the identifier.
/// Trusted: the result is `uuid_parse` of the text, nothing more is claimed.
#[verifier::external_body]
fn uuid_from_text(text: &str) -> (r: Option<u128>)
    ensures
        r == uuid_parse(text@),
{
    match uuid::Uuid::parse_str(text) {
        Ok(id) => Some(id.as_u128()),
        Err(_) => None,
    }
}

/// Formats an identifier with `uuid::Uuid`'s `Display`. Trusted: the text is the
/// hyphenated lower-case form, and `uuid::Uuid::parse_str` reads it back as the
/// same identifier (the crate documents that it parses each form it prints).
#[verifier::external_body]
fn uuid_to_text(bits: u128) -> (r: String)
    ensures
        r@ == hyphenated(bits),
        uuid_parse(r@) == Some(bits),
{
    uuid::Uuid::from_u128(bits).to_string()
}

/// Calls `uuid::Uuid::get_version_num`. Trusted: the result is the high half
/// of the seventh byte.
#[verifier::external_body]
fn uuid_version_number(bits: u128) -> (r: usize)
    ensures
        r == nibble(bits, 12),
{
    uuid::Uuid::from_u128(bits).get_version_num()
}

/// Calls `uuid::Uuid::get_variant` and says whether it is the RFC 4122 variant.
/// Trusted: that variant is reported exactly when the two high bits of the
/// ninth byte are `10`.
#[verifier::external_body]
fn uuid_variant_is_rfc4122(bits: u128) -> (r: bool)
    ensures
        r == (nibble(bits, 16) & 0xc == 0x8),
{
    matches!(uuid::Uuid::from_u128(bits).get_variant(), uuid::Variant::RFC4122)
}

impl PlayerId {
    /// Whether the identifier has the shape of a profile identifier: version 4
    /// (random) and the RFC 4122 variant.
    pub open spec fn spec_is_profile_identifier(&self) -> bool {
        nibble(self.0, 12) == 4 && nibble(self.0, 16) & 0xc == 0x8
    }

    /// Reads an identifier from text, in any form `uuid` accepts.
    pub fn parse(text: &str) -> (r: Option<PlayerId>)
        ensures
            r == match uuid_parse(text@) {
                Some(bits) => Some(PlayerId(bits)),
                None => None,
            },
    {
        match uuid_from_text(text) {
            Some(bits) => Some(PlayerId(bits)),
            None => None,
        }
    }

    /// The canonical text of the identifier.
    pub fn to_text(&self) -> (r: String)
        ensures
            r@ == hyphenated(self.0),
            uuid_parse(r@) == Some(self.0),
    {
        uuid_to_text(self.0)
    }

    /// Whether upstream can know this identifier at all: callers answer
    /// "not found" for any other without consulting the cache.
    #[verifier::when_used_as_spec(spec_is_profile_identifier)]
    pub fn is_profile_identifier(&self) -> (r: bool)
        ensures
            r == self.spec_is_profile_identifier(),
    {
        uuid_version_number(self.0) == 4 && uuid_variant_is_rfc4122(self.0)
    }
}

} // verus!
