//! Signatures of webhook bodies.
use hmac::{Hmac, Mac};
use purple_wolf::relay::signer::Signer;
use sha2::Sha256;

#[test]
fn signature_matches_independent_implementation() {
    let secret = b"hello";
    let ts = 1748194202u64;
    let body = b"body-bytes";
    let s = Signer::new(secret.to_vec());
    let got = s.sign(ts, body);

    let mut mac = <Hmac<Sha256> as Mac>::new_from_slice(secret).unwrap();
    mac.update(format!("{ts}.").as_bytes());
    mac.update(body);
    let expected = format!("sha256={}", hex::encode(mac.finalize().into_bytes()));

    assert_eq!(got, expected);
    assert!(got.starts_with("sha256="));
    assert_eq!(got.len(), 7 + 64);
}

#[test]
fn signature_changes_if_timestamp_changes() {
    let s = Signer::new(b"secret".to_vec());
    let body = b"same-body";
    let a = s.sign(1, body);
    let b = s.sign(2, body);
    assert_ne!(a, b, "timestamp must affect signature (anti-replay)");
}

#[test]
fn signature_changes_if_body_changes() {
    let s = Signer::new(b"secret".to_vec());
    let ts = 100u64;
    assert_ne!(s.sign(ts, b"a"), s.sign(ts, b"b"));
}

#[test]
fn debug_does_not_leak_secret() {
    let s = Signer::new(b"my-very-secret-key".to_vec());
    let debug = s.describe();
    assert!(!debug.contains("my-very-secret-key"), "{debug}");
    assert!(debug.contains("secret_len"));
}

#[test]
fn reference_payload_format_is_timestamp_dot_body() {
    let secret = b"test-secret";
    let ts = 1700000000u64;
    let body = br#"{"schema":"purple-wolf.audit/v1"}"#;

    let s = Signer::new(secret.to_vec());
    let got = s.sign(ts, body);

    let mut payload = format!("{ts}.").into_bytes();
    payload.extend_from_slice(body);
    let mut mac = <Hmac<Sha256> as Mac>::new_from_slice(secret).unwrap();
    mac.update(&payload);
    let expected = format!("sha256={}", hex::encode(mac.finalize().into_bytes()));
    assert_eq!(got, expected);
}

#[test]
fn known_signature() {
    let s = Signer::new(b"key".to_vec());
    assert_eq!(s.describe(), "Signer { secret_len: 3 }");
    let mut mac = <Hmac<Sha256> as Mac>::new_from_slice(b"key").unwrap();
    mac.update(b"0.");
    let bytes = mac.finalize().into_bytes();
    let digits: String = bytes.iter().map(|b| format!("{b:02x}")).collect();
    assert_eq!(s.sign(0, b""), format!("sha256={digits}"));
}
