//! The compiled circuit artifact: a JSON document whose `bytecode` member
//! holds the circuit's bytecode text.
use vstd::prelude::*;

verus! {

#[verifier::external_type_specification]
#[verifier::external_body]
pub struct ExJsonValue(serde_json::Value);

#[verifier::external_type_specification]
#[verifier::external_body]
pub struct ExJsonError(serde_json::Error);

/// Whether bytes form one JSON document, as serde_json reads them.
pub uninterp spec fn json_accepts(b: Seq<u8>) -> bool;

/// Relies on serde_json::from_slice into a `Value`: whether it succeeds
/// depends on the bytes alone.
#[verifier::external_body]
fn parse_json(b: &[u8]) -> (r: Result<serde_json::Value, serde_json::Error>)
    ensures
        r is Ok <==> json_accepts(b@),
{
    serde_json::from_slice(b)
}

/// The text of the string member under `key` of the JSON object that bytes
/// form, as serde_json reads them; none where the bytes are not JSON, the
/// document is not an object, the member is absent or is not a string.
pub uninterp spec fn json_string_member(b: Seq<u8>, key: Seq<char>) -> Option<Seq<char>>;

/// Relies on serde_json::from_slice into a `Value`, then `Value::get` and
/// `Value::as_str`: the member's text depends on the bytes and the key alone.
#[verifier::external_body]
fn json_member_text(b: &[u8], key: &str) -> (r: Option<String>)
    ensures
        r is Some <==> json_string_member(b@, key@) is Some,
        r is Some ==> r->Some_0@ == json_string_member(b@, key@)->Some_0,
{
    let v: serde_json::Value = serde_json::from_slice(b).ok()?;
    v.get(key)?.as_str().map(|t| t.to_string())
}

/// Why the bytecode could not be taken from an artifact.
#[derive(Clone, Copy, Debug, PartialEq, Eq, Structural)]
pub enum ArtifactError {
    /// The artifact is not a JSON document.
    MalformedDocument,
    /// The document has no `bytecode` member holding a string.
    MissingBytecode,
}

/// Takes the bytecode text out of a circuit artifact's bytes.
pub fn artifact_bytecode(document: &[u8]) -> (r: Result<String, ArtifactError>)
    ensures
        !json_accepts(document@) ==> r == Err::<String, ArtifactError>(
            ArtifactError::MalformedDocument,
        ),
        json_accepts(document@) && json_string_member(document@, "bytecode"@) is None ==> r
            == Err::<String, ArtifactError>(ArtifactError::MissingBytecode),
        json_accepts(document@) && json_string_member(document@, "bytecode"@) is Some ==> r is Ok
            && r->Ok_0@ == json_string_member(document@, "bytecode"@)->Some_0,
{
    if parse_json(document).is_err() {
        return Err(ArtifactError::MalformedDocument);
    }
    match json_member_text(document, "bytecode") {
        Some(text) => Ok(text),
        None => Err(ArtifactError::MissingBytecode),
    }
}

} // verus!
