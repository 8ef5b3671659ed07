use base64::Engine;
use nft_gate_gateway::access_proof::decode_proof_token;
use nft_gate_gateway::access_proof::personal_message_for_nonce;
use nft_gate_gateway::access_proof::ProofTokenError;
use nft_gate_gateway::encoding::trim;
use nft_gate_gateway::encoding::Base64Failure;

#[test]
fn personal_message_is_stable() {
    assert_eq!(personal_message_for_nonce("abc"), b"nft-gate:access:abc");
}

#[test]
fn rejects_garbage() {
    assert!(decode_proof_token("!!!not-base64!!!").is_err());
}

#[test]
fn token_bytes_are_the_decoded_json() {
    let json = r#"{"address":"0x1","nonce":"n","signature":"s","consumeDigest":"d"}"#;
    let token = base64::engine::general_purpose::STANDARD.encode(json);
    assert_eq!(decode_proof_token(&token).unwrap(), json.as_bytes());
    let padded = format!("  {token}\n");
    assert_eq!(decode_proof_token(&padded).unwrap(), json.as_bytes());
}

#[test]
fn unpadded_token_is_not_base64() {
    assert!(matches!(decode_proof_token("aGVsbG8"), Err(ProofTokenError::NotBase64(_))));
    assert_eq!(decode_proof_token("aGVsbG8=").unwrap(), b"hello");
}

#[test]
fn trim_matches_std() {
    for s in ["", "  ", " a b ", "\u{3000}x\t\n", "x", "\u{85}y\u{2028}"] {
        assert_eq!(trim(s), s.trim());
    }
}

#[test]
fn personal_message_keeps_utf8_bytes() {
    assert_eq!(personal_message_for_nonce("é"), "nft-gate:access:é".as_bytes());
    assert_eq!(personal_message_for_nonce(""), b"nft-gate:access:");
}

#[test]
fn garbage_reports_decoder_reason() {
    assert_eq!(
        decode_proof_token("!!!not-base64!!!"),
        Err(ProofTokenError::NotBase64(Base64Failure::InvalidByte(0, b'!')))
    );
}
