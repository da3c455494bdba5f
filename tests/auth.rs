use base64::Engine;
use p256::ecdsa::signature::Signer;
use p256::ecdsa::{Signature, SigningKey, VerifyingKey};
use phantom::auth::{
    challenge_text, pairing_reply, unknown_device_reply, admit_connection, auth_flow, finish_auth, is_valid_device_id, prove_reply,
    verify_challenge_response, verify_p256_signature, Admission, AuthFlow, AuthReject,
    AuthRequest, SignatureError,
};
use phantom::ratelimit::RateLimiter;

fn b64(bytes: &[u8]) -> String {
    base64::engine::general_purpose::STANDARD.encode(bytes)
}

fn key_pair() -> (SigningKey, String) {
    let secret = [7u8; 32];
    let sk = SigningKey::from_bytes(&secret.into()).unwrap();
    let vk = VerifyingKey::from(&sk);
    let public = b64(vk.to_encoded_point(false).as_bytes());
    (sk, public)
}

fn sign(sk: &SigningKey, msg: &[u8]) -> String {
    let sig: Signature = sk.sign(msg);
    b64(sig.to_der().as_bytes())
}

fn request(type_: &str, device_id: &str, pairing: bool) -> AuthRequest {
    AuthRequest {
        type_: type_.to_string(),
        request_id: "r1".to_string(),
        device_id: device_id.to_string(),
        public_key: if pairing { Some("key".to_string()) } else { None },
        device_name: if pairing { Some("phone".to_string()) } else { None },
        pairing_token: if pairing { Some("tok".to_string()) } else { None },
        signature: None,
    }
}

#[test]
fn signature_over_challenge_verifies() {
    let (sk, public) = key_pair();
    let challenge = [3u8; 32];
    let sig = sign(&sk, &challenge);
    assert_eq!(verify_p256_signature(&public, &challenge, &sig), Ok(true));
    assert_eq!(verify_challenge_response(&public, &challenge, None, &sig), Ok(true));
}

#[test]
fn bound_signature_verifies_with_exporter() {
    let (sk, public) = key_pair();
    let challenge = [3u8; 32];
    let exporter = [9u8; 32];
    let mut bound = challenge.to_vec();
    bound.extend_from_slice(&exporter);
    let sig = sign(&sk, &bound);
    assert_eq!(verify_challenge_response(&public, &challenge, Some(&exporter), &sig), Ok(true));
    assert_eq!(verify_challenge_response(&public, &challenge, None, &sig), Ok(false));
}

#[test]
fn legacy_signature_accepted_with_exporter_present() {
    let (sk, public) = key_pair();
    let challenge = [5u8; 32];
    let sig = sign(&sk, &challenge);
    assert_eq!(verify_challenge_response(&public, &challenge, Some(&[1u8; 32]), &sig), Ok(true));
}

#[test]
fn tampered_signature_fails_and_counts() {
    let (sk, public) = key_pair();
    let challenge = [3u8; 32];
    let other = [4u8; 32];
    let sig = sign(&sk, &other);
    let check = verify_challenge_response(&public, &challenge, Some(&[2u8; 32]), &sig);
    assert_eq!(check, Ok(false));
    let reply = prove_reply(check);
    assert!(!reply.success);
    assert_eq!(reply.error.as_deref(), Some("signature verification failed"));

    let mut failures = RateLimiter::new(3, 300_000);
    for t in 0..3u64 {
        assert!(failures.is_allowed(1, t));
        finish_auth(&mut failures, 1, t, false);
    }
    assert!(!failures.is_allowed(1, 10));
}

#[test]
fn signature_errors_are_told_apart() {
    let (sk, public) = key_pair();
    let sig = sign(&sk, b"m");
    assert_eq!(verify_p256_signature("***", b"m", &sig), Err(SignatureError::KeyEncoding));
    assert_eq!(verify_p256_signature(&public, b"m", "***"), Err(SignatureError::SignatureEncoding));
    assert_eq!(verify_p256_signature(&b64(b"short"), b"m", &sig), Err(SignatureError::Malformed));
    assert_eq!(verify_p256_signature(&public, b"m", &b64(b"not der")), Err(SignatureError::Malformed));
    let unreadable = prove_reply(Err(SignatureError::Malformed));
    assert!(!unreadable.success);
    assert_eq!(unreadable.error.as_deref(), Some("signature verification failed"));
    let ok = prove_reply(Ok(true));
    assert!(ok.success);
    assert!(ok.error.is_none());
}

#[test]
fn auth_flow_picks_pairing_or_proof() {
    assert_eq!(auth_flow(&request("auth_request", "dev-1", true)), Ok(AuthFlow::Pair));
    assert_eq!(auth_flow(&request("auth_request", "dev-1", false)), Ok(AuthFlow::Prove));
    let mut partial = request("auth_request", "dev-1", true);
    partial.device_name = None;
    assert_eq!(auth_flow(&partial), Ok(AuthFlow::Prove));
    assert_eq!(auth_flow(&request("hello", "dev-1", true)), Err(AuthReject::UnexpectedType));
    assert_eq!(auth_flow(&request("auth_request", "", false)), Err(AuthReject::BadDeviceId));
    let long = "x".repeat(129);
    assert_eq!(auth_flow(&request("auth_request", &long, false)), Err(AuthReject::BadDeviceId));
}

#[test]
fn device_id_length_bounds() {
    assert!(!is_valid_device_id(""));
    assert!(is_valid_device_id("a"));
    assert!(is_valid_device_id(&"a".repeat(128)));
    assert!(!is_valid_device_id(&"a".repeat(129)));
    assert!(!is_valid_device_id(&"é".repeat(65)));
}

#[test]
fn five_connections_then_refused() {
    let mut connections = RateLimiter::new(5, 60_000);
    let mut failures = RateLimiter::new(3, 300_000);
    let ip: u128 = 0xffff_7f00_0001;
    for i in 0..5u64 {
        assert_eq!(admit_connection(&mut connections, &mut failures, ip, 1_000 + i * 1_000), Admission::Accept);
    }
    assert_eq!(admit_connection(&mut connections, &mut failures, ip, 59_000), Admission::RateLimited);
    assert_eq!(admit_connection(&mut connections, &mut failures, ip + 1, 59_000), Admission::Accept);
    assert_eq!(admit_connection(&mut connections, &mut failures, ip, 61_000), Admission::Accept);
}

#[test]
fn auth_failures_block_new_connections() {
    let mut connections = RateLimiter::new(5, 60_000);
    let mut failures = RateLimiter::new(3, 300_000);
    for t in 0..3u64 {
        finish_auth(&mut failures, 9, t, false);
    }
    finish_auth(&mut failures, 9, 4, true);
    assert_eq!(admit_connection(&mut connections, &mut failures, 9, 10), Admission::TooManyFailures);
    assert_eq!(admit_connection(&mut connections, &mut failures, 9, 300_001), Admission::Accept);
}

#[test]
fn fixed_replies_carry_their_messages() {
    let ok = pairing_reply(true);
    assert!(ok.success && ok.error.is_none());
    let bad = pairing_reply(false);
    assert!(!bad.success);
    assert_eq!(bad.error.as_deref(), Some("invalid or expired pairing token"));
    let unknown = unknown_device_reply();
    assert!(!unknown.success);
    assert_eq!(unknown.error.as_deref(), Some("device not paired"));
    assert_eq!(challenge_text(&[0u8; 32]), "A".repeat(43) + "=");
    assert_eq!(challenge_text(&[0xffu8; 32]), "/".repeat(42) + "8=");
}
