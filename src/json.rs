//! Flag ids as the game server publishes them: opaque JSON values.
use vstd::prelude::*;

verus! {

#[verifier::external_type_specification]
#[verifier::external_body]
pub struct ExJsonValue(serde_json::Value);

#[verifier::external_type_specification]
#[verifier::external_body]
pub struct ExJsonError(serde_json::Error);

/// Relies on `serde_json::to_string`: the compact JSON text of a flag id, which is both
/// what a target stores and the key that de-duplicates flag ids. Writing a `Value` into
/// a `Vec` cannot fail: object keys are strings, non-finite numbers cannot occur, and
/// the writer is infallible.
#[verifier::external_body]
pub(crate) fn flag_id_text(v: &serde_json::Value) -> (r: Result<String, serde_json::Error>)
    ensures
        r is Ok,
{
    serde_json::to_string(v)
}

} // verus!
