use vstd::prelude::*;

verus! {

/// The 128-bit identifier that `uuid::Uuid::parse_str` reads from a text,
/// if the text is a well-formed identifier.
pub uninterp spec fn uuid_value(s: Seq<char>) -> Option<u128>;

/// Relies on `uuid::Uuid::parse_str`: accepts the textual identifier forms
/// and yields its 128-bit value.
#[verifier::external_body]
pub fn parse_uuid(s: &str) -> (r: Option<u128>)
    ensures
        r == uuid_value(s@),
{
    uuid::Uuid::parse_str(s).ok().map(|u| u.as_u128())
}

} // verus!
