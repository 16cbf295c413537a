//! Identities: 128-bit random identifiers, and their textual and BSON forms.
use vstd::prelude::*;

verus! {

/// What `uuid::Uuid::parse_str` makes of a text, as a 128-bit value.
pub uninterp spec fn uuid_parsed(s: Seq<char>) -> Option<u128>;

/// The lower-case hexadecimal digit for `n` (below 16).
pub open spec fn hex_digit(n: u128) -> char {
    seq!['0', '1', '2', '3', '4', '5', '6', '7', '8', '9', 'a', 'b', 'c', 'd', 'e', 'f'][n as int]
}

/// The `k`-th of the 32 hexadecimal digits of `id`, most significant first.
pub open spec fn nibble(id: u128, k: int) -> u128 {
    (id >> ((124 - 4 * k) as u128)) & 15
}

/// Which digit stands at position `p` of the hyphenated text.
pub open spec fn digit_at(p: int) -> int {
    if p < 8 {
        p
    } else if p < 13 {
        p - 1
    } else if p < 18 {
        p - 2
    } else if p < 23 {
        p - 3
    } else {
        p - 4
    }
}

/// The hyphenated text of an identity: its 32 lower-case hexadecimal digits,
/// most significant first, in groups of 8, 4, 4, 4 and 12 joined by `-`.
pub open spec fn uuid_text(id: u128) -> Seq<char> {
    Seq::new(
        36,
        |p: int|
            if p == 8 || p == 13 || p == 18 || p == 23 {
                '-'
            } else {
                hex_digit(nibble(id, digit_at(p)))
            },
    )
}

/// What `bson::from_bson::<uuid::Uuid>` makes of an encoded value.
pub uninterp spec fn bson_identity(value: Seq<u8>) -> Option<u128>;

/// The encoded value that `bson::to_bson` gives for an identity.
pub uninterp spec fn bson_identity_value(id: u128) -> Option<Seq<u8>>;

/// Relies on `uuid::Uuid::parse_str`, read back with `Uuid::as_u128`: the
/// result depends on the text alone.
#[verifier::external_body]
pub(crate) fn parse_identity(s: &str) -> (r: Option<u128>)
    ensures
        r == uuid_parsed(s@),
{
    uuid::Uuid::parse_str(s).ok().map(|u| u.as_u128())
}

/// Relies on `uuid::Uuid::from_u128`, which keeps the value's bytes most
/// significant first, and on its `Display`: the hyphenated lower-case form,
/// which `Uuid::parse_str` reads back.
#[verifier::external_body]
pub(crate) fn identity_text(id: u128) -> (r: String)
    ensures
        r@ == uuid_text(id),
        uuid_parsed(r@) == Some(id),
{
    uuid::Uuid::from_u128(id).to_string()
}

/// Relies on `uuid::Uuid::new_v4`: a random identity, of which nothing is
/// promised.
#[verifier::external_body]
pub(crate) fn new_identity() -> (r: u128) {
    uuid::Uuid::new_v4().as_u128()
}

/// Relies on `bson::from_slice` and `bson::from_bson::<uuid::Uuid>`: reads an
/// encoded value (the one-entry document `{"": value}`) as an identity.
#[verifier::external_body]
pub(crate) fn identity_of_value(value: &Vec<u8>) -> (r: Option<u128>)
    ensures
        r == bson_identity(value@),
{
    let one: bson::Document = bson::from_slice(value).ok()?;
    let v = one.get("")?.clone();
    bson::from_bson::<uuid::Uuid>(v).ok().map(|u| u.as_u128())
}

/// Relies on `bson::to_bson` and `bson::to_vec`: the encoded value (the
/// one-entry document `{"": value}`) of an identity. `to_bson` serialises
/// human-readably, so a `Uuid` becomes a string and neither call fails.
#[verifier::external_body]
pub(crate) fn value_of_identity(id: u128) -> (r: Option<Vec<u8>>)
    ensures
        r is Some,
        bson_identity_value(id) == Some(r.unwrap()@),
{
    let v = bson::to_bson(&uuid::Uuid::from_u128(id)).ok()?;
    let mut one = bson::Document::new();
    one.insert("", v);
    bson::to_vec(&one).ok()
}

/// The hyphenated text of an identity, as responses carry it.
pub fn identity_string(id: u128) -> (r: String)
    ensures
        r@ == uuid_text(id),
        r@.len() == 36,
        uuid_parsed(r@) == Some(id),
{
    identity_text(id)
}

} // verus!
