//! Identifiers: UUIDs, held as the 128-bit numbers they are and stored as text.

use vstd::prelude::*;

verus! {

/// What `uuid::Uuid::parse_str` makes of a text: the UUID as a number, or the
/// text of its error.
pub uninterp spec fn uuid_from_text(text: Seq<char>) -> Result<u128, Seq<char>>;

/// The text `uuid::Uuid` displays for an id: lower-case hexadecimal in five
/// hyphenated groups.
pub uninterp spec fn uuid_text(id: u128) -> Seq<char>;

/// Reads an id with `uuid::Uuid::parse_str`; the number is the one
/// `Uuid::as_u128` gives, the error text the one the error displays.
#[verifier::external_body]
pub(crate) fn read_uuid(text: &str) -> (r: Result<u128, String>)
    ensures
        match r {
            Ok(id) => uuid_from_text(text@) == Ok::<u128, Seq<char>>(id),
            Err(e) => uuid_from_text(text@) == Err::<u128, Seq<char>>(e@),
        },
{
    match uuid::Uuid::parse_str(text) {
        Ok(id) => Ok(id.as_u128()),
        Err(err) => Err(err.to_string()),
    }
}

/// A text holds an id the way `uuid` writes it: it reads as an id, and that
/// id is written as the text.
pub open spec fn as_written(text: Seq<char>) -> bool {
    match uuid_from_text(text) {
        Ok(id) => uuid_text(id) == text,
        Err(_) => false,
    }
}

/// Writes an id the way `uuid::Uuid` displays it.
#[verifier::external_body]
pub(crate) fn write_uuid(id: u128) -> (r: String)
    ensures
        r@ == uuid_text(id),
{
    uuid::Uuid::from_u128(id).to_string()
}

} // verus!
