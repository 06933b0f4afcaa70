use noir_mobile::exchange::{prove_outcome, verify_outcome, CodecError, ExchangeError, ProofRecord};
use noir_mobile::hex_text::{decode_hex, encode_hex};

#[test]
fn encode_gives_lowercase_pairs() {
    assert_eq!(encode_hex(&[0xAB, 0xCD]), "abcd");
    assert_eq!(encode_hex(&[0x00, 0x0f, 0x10, 0xff]), "000f10ff");
    assert_eq!(encode_hex(&[]), "");
}

#[test]
fn decode_accepts_either_case() {
    assert_eq!(decode_hex("abcd"), Some(vec![0xAB, 0xCD]));
    assert_eq!(decode_hex("ABcd"), Some(vec![0xAB, 0xCD]));
    assert_eq!(decode_hex(""), Some(vec![]));
}

#[test]
fn decode_rejects_odd_length_and_bad_digits() {
    assert_eq!(decode_hex("abc"), None);
    assert_eq!(decode_hex("zz"), None);
    assert_eq!(decode_hex("0x12"), None);
    assert_eq!(decode_hex("12 4"), None);
    assert_eq!(decode_hex("éé"), None);
}

#[test]
fn record_round_trip() {
    let cases: Vec<(Vec<u8>, Vec<u8>)> = vec![
        (vec![], vec![]),
        (vec![0xAB, 0xCD], vec![0x01]),
        ((0..=255).collect(), vec![0, 0, 0]),
    ];
    for (p, v) in cases {
        let rec = ProofRecord::encode(&p, &v);
        assert_eq!(rec.decode(), Ok((p, v)));
    }
}

#[test]
fn record_fields_are_hex_text() {
    let rec = ProofRecord::encode(&[0xAB, 0xCD], &[0x12]);
    assert_eq!(rec.proof, "abcd");
    assert_eq!(rec.verification_key, "12");
}

#[test]
fn record_decode_names_the_failing_field() {
    let odd = ProofRecord { proof: "abc".to_string(), verification_key: "12".to_string() };
    assert_eq!(odd.decode(), Err(CodecError::InvalidProofHex));
    let bad_char = ProofRecord { proof: "ag".to_string(), verification_key: "12".to_string() };
    assert_eq!(bad_char.decode(), Err(CodecError::InvalidProofHex));
    let bad_vk = ProofRecord { proof: "abcd".to_string(), verification_key: "1".to_string() };
    assert_eq!(bad_vk.decode(), Err(CodecError::InvalidVerificationKeyHex));
    let both = ProofRecord { proof: "x".to_string(), verification_key: "y".to_string() };
    assert_eq!(both.decode(), Err(CodecError::InvalidProofHex));
}

#[test]
fn record_decode_then_encode_lowercases() {
    let rec = ProofRecord { proof: "ABcd".to_string(), verification_key: "FF".to_string() };
    let (p, v) = rec.decode().unwrap();
    let again = ProofRecord::encode(&p, &v);
    assert_eq!(again.proof, "abcd");
    assert_eq!(again.verification_key, "ff");
}

#[test]
fn prove_outcome_encodes_or_passes_error() {
    let ok = prove_outcome(Ok((vec![0xAB, 0xCD], vec![0x01, 0x02])));
    assert_eq!(
        ok,
        Ok(ProofRecord { proof: "abcd".to_string(), verification_key: "0102".to_string() })
    );
    let err = prove_outcome(Err("unsatisfied constraint".to_string()));
    assert_eq!(err, Err(ExchangeError::Engine("unsatisfied constraint".to_string())));
}

#[test]
fn verify_failure_differs_from_false() {
    let failed = verify_outcome(Err("bad bytecode".to_string()));
    let rejected = verify_outcome(Ok(false));
    let accepted = verify_outcome(Ok(true));
    assert_eq!(failed, Err(ExchangeError::Engine("bad bytecode".to_string())));
    assert_eq!(rejected, Ok(false));
    assert_eq!(accepted, Ok(true));
    assert_ne!(failed, rejected);
}
