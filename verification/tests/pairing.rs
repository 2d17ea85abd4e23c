use domus::pairing::{
    build_m1, build_m3, format_setup_code, handle_m2, handle_m4, pairing_error_from_code,
    PairSetup, PairingError, PairingMethod, PairingState,
};
use domus::tlv8::{CodecError, Tlv8Reader, Tlv8Writer, TlvType};

#[test]
fn test_error_code_mapping() {
    assert_eq!(pairing_error_from_code(0x01), PairingError::Unknown);
    assert_eq!(pairing_error_from_code(0x02), PairingError::AuthenticationFailed);
    assert_eq!(pairing_error_from_code(0x03), PairingError::Backoff);
    assert_eq!(pairing_error_from_code(0x04), PairingError::MaxPeersReached);
    assert_eq!(pairing_error_from_code(0x05), PairingError::MaxTriesReached);
    assert_eq!(pairing_error_from_code(0x06), PairingError::Unavailable);
    assert_eq!(pairing_error_from_code(0x07), PairingError::Busy);
    assert_eq!(pairing_error_from_code(0x09), PairingError::UnknownErrorCode(0x09));
    assert_eq!(pairing_error_from_code(0xFF), PairingError::UnknownErrorCode(0xFF));
}

#[test]
fn test_method_and_state_codes() {
    assert_eq!(PairingMethod::PairSetup.code(), 0);
    assert_eq!(PairingMethod::PairSetupWithAuth.code(), 1);
    assert_eq!(PairingMethod::ListPairings.code(), 5);
    assert_eq!(PairingState::M1.code(), 1);
    assert_eq!(PairingState::M6.code(), 6);
}

#[test]
fn test_format_setup_code_groups_digits() {
    assert_eq!(format_setup_code(b"12345678"), b"123-45-678".to_vec());
    assert_eq!(format_setup_code(b"00000000"), b"000-00-000".to_vec());
}

#[test]
fn test_build_m1_bytes() {
    // Method = PairSetupWithAuth (1), State = 1
    assert_eq!(build_m1(), vec![0x00, 0x01, 0x01, 0x06, 0x01, 0x01]);
}

#[test]
fn test_build_m3_layout() {
    let public = vec![7u8; 384];
    let proof = vec![8u8; 64];
    let body = build_m3(&public, &proof);
    let items = Tlv8Reader::new(&body).read().unwrap();
    assert_eq!(items.len(), 3);
    assert_eq!(items[0], (TlvType::State, vec![3]));
    assert_eq!(items[1], (TlvType::PublicKey, public));
    assert_eq!(items[2], (TlvType::Proof, proof));
}

fn m2_items(state: u8) -> Vec<(TlvType, Vec<u8>)> {
    vec![
        (TlvType::State, vec![state]),
        (TlvType::Salt, vec![1; 16]),
        (TlvType::PublicKey, vec![1; 384]),
    ]
}

#[test]
fn test_handle_m2_extracts_salt_and_key() {
    let (salt, key) = handle_m2(&m2_items(2)).unwrap();
    assert_eq!(salt, vec![1; 16]);
    assert_eq!(key, vec![1; 384]);
}

#[test]
fn test_handle_m2_wrong_state_is_protocol_violation() {
    assert_eq!(handle_m2(&m2_items(3)).unwrap_err(), PairingError::ProtocolViolation);
}

#[test]
fn test_handle_m2_missing_fields_are_protocol_violations() {
    let no_state = vec![(TlvType::Salt, vec![1; 16]), (TlvType::PublicKey, vec![1; 384])];
    assert_eq!(handle_m2(&no_state).unwrap_err(), PairingError::ProtocolViolation);
    let no_salt = vec![(TlvType::State, vec![2]), (TlvType::PublicKey, vec![1; 384])];
    assert_eq!(handle_m2(&no_salt).unwrap_err(), PairingError::ProtocolViolation);
}

#[test]
fn test_handle_m2_peer_error_short_circuits() {
    // Even with a wrong state, a peer error field decides the outcome.
    let items = vec![(TlvType::State, vec![9]), (TlvType::Error, vec![0x03])];
    assert_eq!(handle_m2(&items).unwrap_err(), PairingError::Backoff);
}

#[test]
fn test_handle_m4_requires_proof_and_data() {
    let ok = vec![
        (TlvType::State, vec![4]),
        (TlvType::Proof, vec![9; 64]),
        (TlvType::EncryptedData, vec![5, 6]),
    ];
    let (proof, data) = handle_m4(&ok).unwrap();
    assert_eq!(proof, vec![9; 64]);
    assert_eq!(data, vec![5, 6]);
    let wrong_state = vec![
        (TlvType::State, vec![2]),
        (TlvType::Proof, vec![9; 64]),
        (TlvType::EncryptedData, vec![5, 6]),
    ];
    assert_eq!(handle_m4(&wrong_state).unwrap_err(), PairingError::ProtocolViolation);
}

fn m2_body(state: u8) -> Vec<u8> {
    let mut w = Tlv8Writer::new();
    w.add(TlvType::State, &[state]);
    w.add(TlvType::Salt, &[1; 16]);
    w.add(TlvType::PublicKey, &[1; 384]);
    w.to_vec()
}

#[test]
fn test_session_transport_error_on_bad_status() {
    let mut ps = PairSetup::new("12345678");
    assert_eq!(ps.handle_response(500, &m2_body(2)).unwrap_err(), PairingError::TransportError);
}

#[test]
fn test_session_codec_error_on_malformed_body() {
    let mut ps = PairSetup::new("12345678");
    assert_eq!(
        ps.handle_response(200, &[0x06, 0x01]).unwrap_err(),
        PairingError::Codec(CodecError::Truncated)
    );
}

#[test]
fn test_session_rejects_unexpected_state_and_stops() {
    // State 3 arrives where state 2 was expected: the session terminates
    // with a protocol violation and produces no further request.
    let mut ps = PairSetup::new("12345678");
    assert_eq!(
        ps.handle_response(200, &m2_body(3)).unwrap_err(),
        PairingError::ProtocolViolation
    );
}

#[test]
fn test_session_m3_carries_fresh_srp_values() {
    let mut ps = PairSetup::new("12345678");
    let m1 = ps.initial_request();
    assert_eq!(m1, vec![0x00, 0x01, 0x01, 0x06, 0x01, 0x01]);
    let m3 = ps.handle_response(200, &m2_body(2)).unwrap();
    let items = Tlv8Reader::new(&m3).read().unwrap();
    assert_eq!(items.len(), 3);
    assert_eq!(items[0], (TlvType::State, vec![3]));
    assert_eq!(items[1].0, TlvType::PublicKey);
    // the 3072-bit group public value: far longer than the 64-byte secret,
    // so the SRP step demonstrably ran
    assert!(items[1].1.len() > 350);
    assert_eq!(items[2].0, TlvType::Proof);
    // a SHA-512 sized proof, unlike any of the handshake inputs
    assert_eq!(items[2].1.len(), 64);
}

#[test]
fn test_session_wrong_server_proof_fails_authentication() {
    let mut ps = PairSetup::new("12345678");
    let _m3 = ps.handle_response(200, &m2_body(2)).unwrap();
    let mut w = Tlv8Writer::new();
    w.add(TlvType::State, &[4]);
    w.add(TlvType::Proof, &[0; 64]);
    w.add(TlvType::EncryptedData, &[1, 2, 3]);
    let m4 = w.to_vec();
    assert_eq!(
        ps.handle_response(200, &m4).unwrap_err(),
        PairingError::AuthenticationFailed
    );
}

#[test]
fn test_session_peer_backoff_in_m4() {
    let mut ps = PairSetup::new("12345678");
    let _m3 = ps.handle_response(200, &m2_body(2)).unwrap();
    let mut w = Tlv8Writer::new();
    w.add(TlvType::State, &[4]);
    w.add(TlvType::Error, &[0x03]);
    let m4 = w.to_vec();
    assert_eq!(ps.handle_response(200, &m4).unwrap_err(), PairingError::Backoff);
}

#[test]
fn test_session_crypto_error_on_zero_server_key() {
    // A server public value of zero reduces to zero mod the group prime
    // and must be rejected by the SRP step.
    let mut ps = PairSetup::new("12345678");
    let mut w = Tlv8Writer::new();
    w.add(TlvType::State, &[2]);
    w.add(TlvType::Salt, &[1; 16]);
    w.add(TlvType::PublicKey, &[0; 384]);
    let body = w.to_vec();
    assert_eq!(ps.handle_response(200, &body).unwrap_err(), PairingError::CryptoError);
}
