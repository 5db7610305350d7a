use base64::Engine;
use discrypt::control_lane::{
    broker_control_lane_key, check_broker_control_envelope, open_broker_control_frame,
    seal_broker_control_frame, seal_broker_control_frame_with_nonce, BrokerControlEnvelope,
    BROKER_CONTROL_LANE_SCHEMA_VERSION,
};
use discrypt::peer_overlay::SignalingPeerId;
use discrypt::transport::TransportError;

fn test_key() -> [u8; 32] {
    broker_control_lane_key(&[7_u8; 32]).expect("32-byte material derives a key")
}

fn alice() -> SignalingPeerId {
    SignalingPeerId::new("peer-alice").expect("peer id")
}

#[test]
fn control_lane_key_requires_sufficient_material() {
    assert!(broker_control_lane_key(&[1_u8; 8]).is_err());
    assert!(broker_control_lane_key(&[1_u8; 32]).is_ok());
}

#[test]
fn control_lane_key_is_deterministic_and_domain_separated() {
    let first = broker_control_lane_key(&[9_u8; 64]).expect("key");
    let second = broker_control_lane_key(&[9_u8; 64]).expect("key");
    let other = broker_control_lane_key(&[8_u8; 64]).expect("key");
    assert_eq!(first, second);
    assert_ne!(first, other);
}

#[test]
fn control_lane_key_is_not_the_raw_material() {
    let material = [9_u8; 32];
    let key = broker_control_lane_key(&material).expect("key");
    assert_ne!(key, material);
}

#[test]
fn seal_open_roundtrip_restores_frame_bytes() {
    let key = test_key();
    let peer = alice();
    let frame = b"{\"kind\":\"test-frame\"}".to_vec();
    let sealed = seal_broker_control_frame(&key, &peer, &frame).expect("seal");
    let envelope = check_broker_control_envelope(sealed).expect("decode");
    assert_eq!(envelope.from_peer, "peer-alice");
    assert_eq!(envelope.schema_version, BROKER_CONTROL_LANE_SCHEMA_VERSION);
    let opened = open_broker_control_frame(&key, &envelope).expect("open");
    assert_eq!(opened, frame);
}

#[test]
fn sealed_envelope_hides_frame_and_binds_digest() {
    let key = test_key();
    let frame = b"secret-control-frame";
    let envelope =
        seal_broker_control_frame_with_nonce(&key, &alice(), frame, [3_u8; 12]).expect("seal");
    assert_eq!(envelope.frame_sha256_hex.len(), 64);
    assert!(!envelope.ciphertext_b64.contains("secret"));
    let ciphertext = base64::engine::general_purpose::URL_SAFE_NO_PAD
        .decode(envelope.ciphertext_b64.as_bytes())
        .expect("ciphertext decode");
    assert_eq!(ciphertext.len(), frame.len() + 16);
    assert_ne!(&ciphertext[..frame.len()], &frame[..]);
    let nonce = base64::engine::general_purpose::URL_SAFE_NO_PAD
        .decode(envelope.nonce_b64.as_bytes())
        .expect("nonce decode");
    assert_eq!(nonce, vec![3_u8; 12]);
    assert_eq!(
        open_broker_control_frame(&key, &envelope).expect("open"),
        frame.to_vec()
    );
}

#[test]
fn sealing_with_one_nonce_is_deterministic() {
    let key = test_key();
    let first = seal_broker_control_frame_with_nonce(&key, &alice(), b"f", [1; 12]).unwrap();
    let second = seal_broker_control_frame_with_nonce(&key, &alice(), b"f", [1; 12]).unwrap();
    let other = seal_broker_control_frame_with_nonce(&key, &alice(), b"f", [2; 12]).unwrap();
    assert_eq!(first, second);
    assert_ne!(first.ciphertext_b64, other.ciphertext_b64);
}

#[test]
fn empty_frame_is_refused() {
    assert_eq!(
        seal_broker_control_frame(&test_key(), &alice(), b""),
        Err(TransportError::SignalingAdapter(
            "broker control lane frame must not be empty".to_owned()
        ))
    );
}

#[test]
fn tampered_envelope_fails_authentication() {
    let key = test_key();
    let sealed = seal_broker_control_frame(&key, &alice(), b"frame-bytes").expect("seal");
    let mut envelope = check_broker_control_envelope(sealed).expect("decode");
    let mut ciphertext = base64::engine::general_purpose::URL_SAFE_NO_PAD
        .decode(envelope.ciphertext_b64.as_bytes())
        .expect("ciphertext decode");
    ciphertext[0] ^= 1;
    envelope.ciphertext_b64 = base64::engine::general_purpose::URL_SAFE_NO_PAD.encode(&ciphertext);
    assert!(open_broker_control_frame(&key, &envelope).is_err());
}

#[test]
fn wrong_key_fails_authentication() {
    let sealed = seal_broker_control_frame(&test_key(), &alice(), b"frame-bytes").expect("seal");
    let envelope = check_broker_control_envelope(sealed).expect("decode");
    let other_key = broker_control_lane_key(&[11_u8; 32]).expect("other key");
    assert!(open_broker_control_frame(&other_key, &envelope).is_err());
}

#[test]
fn digest_mismatch_fails_closed() {
    let key = test_key();
    let sealed = seal_broker_control_frame(&key, &alice(), b"frame-bytes").expect("seal");
    let mut envelope = check_broker_control_envelope(sealed).expect("decode");
    envelope.frame_sha256_hex = "0".repeat(64);
    assert!(open_broker_control_frame(&key, &envelope).is_err());
}

#[test]
fn invalid_nonce_is_reported() {
    let key = test_key();
    let mut envelope = seal_broker_control_frame(&key, &alice(), b"frame").expect("seal");
    envelope.nonce_b64 = "AAAA".to_owned();
    assert_eq!(
        open_broker_control_frame(&key, &envelope),
        Err(TransportError::SignalingAdapter(
            "broker control lane envelope nonce is invalid".to_owned()
        ))
    );
}

#[test]
fn unsupported_schema_version_is_refused() {
    let envelope = BrokerControlEnvelope {
        schema_version: 2,
        from_peer: "peer-alice".to_owned(),
        frame_sha256_hex: "0".repeat(64),
        nonce_b64: String::new(),
        ciphertext_b64: String::new(),
    };
    assert!(check_broker_control_envelope(envelope).is_err());
}
