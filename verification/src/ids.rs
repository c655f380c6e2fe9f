//! Opaque UUID references, carried as their 128-bit value.
use vstd::prelude::*;

verus! {

/// The UUID that `uuid::Uuid::parse_str` reads from `text`, as its 128-bit
/// value, or `None` when the text is not a UUID.
pub uninterp spec fn uuid_parse(text: Seq<char>) -> Option<u128>;

/// The hyphenated lower-case text that `uuid::Uuid` displays for `id`.
pub uninterp spec fn uuid_text(id: u128) -> Seq<char>;

/// Parses a UUID reference (`uuid::Uuid::parse_str`).
///
/// Trusted: the result is the value of the parsed UUID, named by `uuid_parse`;
/// which texts the crate accepts (simple, hyphenated, braced and URN forms) is
/// not restated here.
#[verifier::external_body]
pub(crate) fn parse_uuid(text: &str) -> (r: Option<u128>)
    ensures
        r == uuid_parse(text@),
{
    match uuid::Uuid::parse_str(text) {
        Ok(id) => Some(id.as_u128()),
        Err(_) => None,
    }
}

/// Formats a UUID reference (`uuid::Uuid` as `Display`).
///
/// Trusted: the text is the one named by `uuid_text`, it is 36 characters
/// long, and `uuid::Uuid::parse_str` reads it back as the same value.
#[verifier::external_body]
pub(crate) fn format_uuid(id: u128) -> (r: String)
    ensures
        r@ == uuid_text(id),
        r@.len() == 36,
        uuid_parse(r@) == Some(id),
{
    uuid::Uuid::from_u128(id).to_string()
}

} // verus!
