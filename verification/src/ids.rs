//! Message and profile identifiers from the `uuid` crate.

use vstd::prelude::*;

verus! {

/// The hyphenated text of the version 5 UUID that `uuid::Uuid::new_v5`
/// derives from `Uuid::NAMESPACE_OID` and the UTF-8 bytes of `name`.
pub uninterp spec fn uuid_v5_oid_text(name: Seq<char>) -> Seq<char>;

/// `uuid::Uuid::new_v5(&Uuid::NAMESPACE_OID, name.as_bytes()).to_string()`.
/// The name-based UUID is a function of the name alone; the contract says no
/// more than that.
#[verifier::external_body]
pub(crate) fn uuid_v5_oid(name: &str) -> (r: String)
    ensures
        r@ == uuid_v5_oid_text(name@),
{
    uuid::Uuid::new_v5(&uuid::Uuid::NAMESPACE_OID, name.as_bytes()).to_string()
}

/// `uuid::Uuid::new_v4().to_string()`: a random identifier. Nothing is
/// promised of it.
#[verifier::external_body]
pub(crate) fn uuid_v4_text() -> String {
    uuid::Uuid::new_v4().to_string()
}

} // verus!
