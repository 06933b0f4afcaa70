//! The proof record handed to the host, and the outcome of engine calls.
use vstd::prelude::*;
use crate::hex_text::{
    decode_hex, encode_hex, hex_bytes, hex_text, is_hex_digit, is_hex_text, lemma_hex_round_trip,
};

verus! {

/// The record returned to the host after proving: the proof and the
/// verification key, each as lowercase hexadecimal text.
#[derive(Clone, Debug, PartialEq, Eq)]
pub struct ProofRecord {
    pub proof: String,
    pub verification_key: String,
}

/// A field of a proof record that is not well-formed hexadecimal text.
#[derive(Clone, Copy, Debug, PartialEq, Eq, Structural)]
pub enum CodecError {
    InvalidProofHex,
    InvalidVerificationKeyHex,
}

/// Why a prove or verify call failed: a malformed record, or the engine's
/// own error message.
#[derive(Clone, Debug, PartialEq, Eq)]
pub enum ExchangeError {
    Codec(CodecError),
    Engine(String),
}

/// What decoding a record with these field texts yields.
pub open spec fn decoded(proof: Seq<char>, vk: Seq<char>) -> Result<(Seq<u8>, Seq<u8>), CodecError> {
    if !is_hex_text(proof) {
        Err(CodecError::InvalidProofHex)
    } else if !is_hex_text(vk) {
        Err(CodecError::InvalidVerificationKeyHex)
    } else {
        Ok((hex_bytes(proof), hex_bytes(vk)))
    }
}

/// What a verify call reports for the engine's answer.
pub open spec fn verdict_of(engine: Result<bool, String>) -> Result<bool, ExchangeError> {
    match engine {
        Ok(b) => Ok(b),
        Err(m) => Err(ExchangeError::Engine(m)),
    }
}

impl ProofRecord {
    /// Builds the record from the engine's proof and verification key bytes.
    pub fn encode(proof: &[u8], verification_key: &[u8]) -> (r: ProofRecord)
        ensures
            r.proof@ == hex_text(proof@),
            r.verification_key@ == hex_text(verification_key@),
    {
        ProofRecord { proof: encode_hex(proof), verification_key: encode_hex(verification_key) }
    }

    /// Recovers the proof and verification key bytes; fails on the first
    /// field, proof first, that is not an even number of hexadecimal digits.
    pub fn decode(&self) -> (r: Result<(Vec<u8>, Vec<u8>), CodecError>)
        ensures
            match r {
                Ok((p, v)) => decoded(self.proof@, self.verification_key@) == Ok::<
                    (Seq<u8>, Seq<u8>),
                    CodecError,
                >((p@, v@)),
                Err(e) => decoded(self.proof@, self.verification_key@) == Err::<
                    (Seq<u8>, Seq<u8>),
                    CodecError,
                >(e),
            },
    {
        let p = match decode_hex(self.proof.as_str()) {
            Some(p) => p,
            None => return Err(CodecError::InvalidProofHex),
        };
        let v = match decode_hex(self.verification_key.as_str()) {
            Some(v) => v,
            None => return Err(CodecError::InvalidVerificationKeyHex),
        };
        Ok((p, v))
    }
}

/// Turns the engine's answer to a prove call into the host's result: the
/// encoded record on success, the engine's message unchanged on failure.
pub fn prove_outcome(engine: Result<(Vec<u8>, Vec<u8>), String>) -> (r: Result<ProofRecord, ExchangeError>)
    ensures
        match engine {
            Ok((p, v)) => r matches Ok(rec) && rec.proof@ == hex_text(p@) && rec.verification_key@
                == hex_text(v@),
            Err(m) => r == Err::<ProofRecord, ExchangeError>(ExchangeError::Engine(m)),
        },
{
    match engine {
        Ok((p, v)) => Ok(ProofRecord::encode(p.as_slice(), v.as_slice())),
        Err(m) => Err(ExchangeError::Engine(m)),
    }
}

/// Turns the engine's answer to a verify call into the host's result: a
/// definite verdict, or the engine's failure.
pub fn verify_outcome(engine: Result<bool, String>) -> (r: Result<bool, ExchangeError>)
    ensures
        r == verdict_of(engine),
{
    match engine {
        Ok(b) => Ok(b),
        Err(m) => Err(ExchangeError::Engine(m)),
    }
}

/// A record built from any proof and verification key decodes back to
/// exactly those bytes.
pub proof fn lemma_record_round_trip(proof: Seq<u8>, verification_key: Seq<u8>)
    ensures
        decoded(hex_text(proof), hex_text(verification_key)) == Ok::<(Seq<u8>, Seq<u8>), CodecError>(
            (proof, verification_key),
        ),
{
    lemma_hex_round_trip(proof);
    lemma_hex_round_trip(verification_key);
}

/// A record whose proof field has an odd number of characters, or a
/// character that is not a hexadecimal digit, is rejected rather than
/// truncated; likewise the verification key field.
pub proof fn lemma_malformed_rejected(proof: Seq<char>, verification_key: Seq<char>)
    ensures
        (proof.len() % 2 == 1 || exists|i: int| 0 <= i < proof.len() && !is_hex_digit(proof[i]))
            ==> decoded(proof, verification_key) == Err::<(Seq<u8>, Seq<u8>), CodecError>(
            CodecError::InvalidProofHex,
        ),
        is_hex_text(proof) && (verification_key.len() % 2 == 1 || exists|i: int|
            0 <= i < verification_key.len() && !is_hex_digit(verification_key[i]))
            ==> decoded(proof, verification_key) == Err::<(Seq<u8>, Seq<u8>), CodecError>(
            CodecError::InvalidVerificationKeyHex,
        ),
{
}

/// When the engine fails during verification the call returns an error,
/// which differs from the definite answer `false`.
pub proof fn lemma_failure_is_not_false(message: String)
    ensures
        verdict_of(Err(message)) is Err,
        verdict_of(Err(message)) != verdict_of(Ok(false)),
        verdict_of(Ok(false)) == Ok::<bool, ExchangeError>(false),
{
}

} // verus!
