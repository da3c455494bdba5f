use crate::ratelimit::{check_step, pruned, RateLimiter};
use base64::Engine;
use p256::ecdsa::signature::Verifier;
use vstd::prelude::*;
use vstd::string::StringSliceAdditionalSpecFns;
use vstd::utf8::encode_utf8;

verus! {

/// Longest device id the authenticator accepts, in bytes.
pub const MAX_DEVICE_ID_LEN: usize = 128;

// ── Outside encodings and signatures ────────────────────────────────────

/// What base64's standard engine (with padding) decodes `s` to, `None` when it rejects it.
pub uninterp spec fn base64_decoded(s: Seq<char>) -> Option<Seq<u8>>;

/// What base64's standard engine (with padding) encodes `b` to.
pub uninterp spec fn base64_encoded(b: Seq<u8>) -> Seq<char>;

/// What p256 says of `sig` (DER) over `msg` under `key` (SEC1): `None` when the
/// key or the signature cannot be parsed, else whether the signature verifies.
pub uninterp spec fn p256_verdict(key: Seq<u8>, msg: Seq<u8>, sig: Seq<u8>) -> Option<bool>;

/// Whether p256's `VerifyingKey::from_sec1_bytes` accepts `key`.
pub uninterp spec fn p256_key_parses(key: Seq<u8>) -> bool;

/// Whether p256's `Signature::from_der` accepts `sig`.
pub uninterp spec fn p256_der_parses(sig: Seq<u8>) -> bool;

/// Relies on base64's `STANDARD.decode`: the result depends on the text alone.
#[verifier::external_body]
fn b64_decode(s: &str) -> (r: Option<Vec<u8>>)
    ensures
        r is Some <==> base64_decoded(s@) is Some,
        r is Some ==> r->Some_0@ == base64_decoded(s@)->Some_0,
{
    base64::engine::general_purpose::STANDARD.decode(s).ok()
}

/// Relies on base64's `STANDARD.encode`: the text depends on the bytes alone and
/// is padded to four characters for each three bytes, rounded up.
#[verifier::external_body]
pub(crate) fn b64_encode(b: &[u8]) -> (r: String)
    ensures
        r@ == base64_encoded(b@),
        r@.len() == 4 * ((b@.len() + 2) / 3),
{
    base64::engine::general_purpose::STANDARD.encode(b)
}

/// Relies on p256's `VerifyingKey::from_sec1_bytes`, `Signature::from_der` and
/// `Verifier::verify` (ECDSA over SHA-256): the outcome depends on the bytes alone.
#[verifier::external_body]
fn p256_verify(key: &[u8], msg: &[u8], sig: &[u8]) -> (r: Option<bool>)
    ensures
        r == p256_verdict(key@, msg@, sig@),
        (r is Some) == (p256_key_parses(key@) && p256_der_parses(sig@)),
{
    let k = p256::ecdsa::VerifyingKey::from_sec1_bytes(key).ok()?;
    let s = p256::ecdsa::Signature::from_der(sig).ok()?;
    Some(k.verify(msg, &s).is_ok())
}

// ── Signature check ─────────────────────────────────────────────────────

#[derive(Debug, Clone, Copy, PartialEq, Eq, Structural)]
pub enum SignatureError {
    /// The stored public key is not valid base64.
    KeyEncoding,
    /// The signature is not valid base64.
    SignatureEncoding,
    /// The key is not a SEC1 P-256 point or the signature is not DER.
    Malformed,
}

/// The outcome of checking a base64 DER signature over `msg` against a base64
/// SEC1 public key.
pub open spec fn signature_check(key_b64: Seq<char>, msg: Seq<u8>, sig_b64: Seq<char>) -> Result<
    bool,
    SignatureError,
> {
    match base64_decoded(key_b64) {
        None => Err(SignatureError::KeyEncoding),
        Some(key) => match base64_decoded(sig_b64) {
            None => Err(SignatureError::SignatureEncoding),
            Some(sig) => if p256_key_parses(key) && p256_der_parses(sig) {
                Ok(p256_verdict(key, msg, sig)->Some_0)
            } else {
                Err(SignatureError::Malformed)
            },
        },
    }
}

/// Checks a base64 DER ECDSA P-256 signature over `message` against a base64
/// SEC1 public key.
pub fn verify_p256_signature(pub_key_b64: &str, message: &[u8], signature_b64: &str) -> (r: Result<
    bool,
    SignatureError,
>)
    ensures
        r == signature_check(pub_key_b64@, message@, signature_b64@),
{
    let key = match b64_decode(pub_key_b64) {
        Some(k) => k,
        None => return Err(SignatureError::KeyEncoding),
    };
    let sig = match b64_decode(signature_b64) {
        Some(s) => s,
        None => return Err(SignatureError::SignatureEncoding),
    };
    match p256_verify(key.as_slice(), message, sig.as_slice()) {
        Some(ok) => Ok(ok),
        None => Err(SignatureError::Malformed),
    }
}

/// The outcome of checking a challenge response: against the challenge bound to
/// the TLS exporter when there is one, then against the bare challenge.
pub open spec fn challenge_check(
    key_b64: Seq<char>,
    challenge: Seq<u8>,
    exporter: Option<Seq<u8>>,
    sig_b64: Seq<char>,
) -> Result<bool, SignatureError> {
    match exporter {
        None => signature_check(key_b64, challenge, sig_b64),
        Some(e) => match signature_check(key_b64, challenge + e, sig_b64) {
            Ok(true) => Ok(true),
            Ok(false) => signature_check(key_b64, challenge, sig_b64),
            Err(x) => Err(x),
        },
    }
}

/// Checks a challenge response, preferring a signature over
/// `challenge || exporter` and accepting one over the bare challenge from clients
/// that cannot bind to the TLS session.
pub fn verify_challenge_response(
    pub_key_b64: &str,
    challenge: &[u8],
    exporter: Option<&[u8]>,
    signature_b64: &str,
) -> (r: Result<bool, SignatureError>)
    ensures
        r == challenge_check(
            pub_key_b64@,
            challenge@,
            match exporter {
                Some(e) => Some(e@),
                None => None,
            },
            signature_b64@,
        ),
{
    match exporter {
        Some(e) => {
            let mut bound: Vec<u8> = Vec::new();
            bound.extend_from_slice(challenge);
            bound.extend_from_slice(e);
            assert(bound@ =~= challenge@ + e@);
            match verify_p256_signature(pub_key_b64, bound.as_slice(), signature_b64) {
                Ok(true) => Ok(true),
                Ok(false) => verify_p256_signature(pub_key_b64, challenge, signature_b64),
                Err(x) => Err(x),
            }
        },
        None => verify_p256_signature(pub_key_b64, challenge, signature_b64),
    }
}

/// The text of an `auth_challenge`: the challenge bytes in standard base64.
pub fn challenge_text(challenge: &[u8; 32]) -> (r: String)
    ensures
        r@ == base64_encoded(challenge@),
        r@.len() == 44,
{
    b64_encode(challenge.as_slice())
}

// ── Requests and replies ────────────────────────────────────────────────

/// An auth message as read from the control stream.
pub struct AuthRequest {
    pub type_: String,
    pub request_id: String,
    pub device_id: String,
    pub public_key: Option<String>,
    pub device_name: Option<String>,
    pub pairing_token: Option<String>,
    pub signature: Option<String>,
}

#[derive(Debug, Clone, Copy, PartialEq, Eq, Structural)]
pub enum AuthFlow {
    /// Token, public key and device name are all present.
    Pair,
    /// The device proves it holds the stored key.
    Prove,
}

#[derive(Debug, Clone, Copy, PartialEq, Eq, Structural)]
pub enum AuthReject {
    /// The first message is not an `auth_request`.
    UnexpectedType,
    /// The device id is empty or longer than `MAX_DEVICE_ID_LEN` bytes.
    BadDeviceId,
}

/// Whether `id` is acceptable as a device id: 1 to 128 bytes of UTF-8.
pub open spec fn device_id_ok(id: Seq<char>) -> bool {
    0 < (encode_utf8(id).len() as usize) <= MAX_DEVICE_ID_LEN
}

pub fn is_valid_device_id(id: &str) -> (r: bool)
    ensures
        r == device_id_ok(id@),
{
    let n = id.len();
    assert(id.spec_bytes() == encode_utf8(id@));
    n > 0 && n <= MAX_DEVICE_ID_LEN
}

/// Which flow a first auth message asks for.
pub fn auth_flow(req: &AuthRequest) -> (r: Result<AuthFlow, AuthReject>)
    ensures
        req.type_@ != "auth_request"@ ==> r == Err::<AuthFlow, AuthReject>(
            AuthReject::UnexpectedType,
        ),
        req.type_@ == "auth_request"@ && !device_id_ok(req.device_id@) ==> r == Err::<
            AuthFlow,
            AuthReject,
        >(AuthReject::BadDeviceId),
        req.type_@ == "auth_request"@ && device_id_ok(req.device_id@) ==> r == Ok::<
            AuthFlow,
            AuthReject,
        >(
            if req.pairing_token is Some && req.public_key is Some && req.device_name is Some {
                AuthFlow::Pair
            } else {
                AuthFlow::Prove
            },
        ),
{
    let expected = "auth_request".to_owned();
    if req.type_ != expected {
        return Err(AuthReject::UnexpectedType);
    }
    if !is_valid_device_id(req.device_id.as_str()) {
        return Err(AuthReject::BadDeviceId);
    }
    if req.pairing_token.is_some() && req.public_key.is_some() && req.device_name.is_some() {
        Ok(AuthFlow::Pair)
    } else {
        Ok(AuthFlow::Prove)
    }
}

/// The body of an `auth_response`.
pub struct AuthReply {
    pub success: bool,
    pub error: Option<String>,
}

/// The reply to a pairing request, given whether its token was valid.
pub fn pairing_reply(token_valid: bool) -> (r: AuthReply)
    ensures
        r.success == token_valid,
        token_valid ==> r.error is None,
        !token_valid ==> r.error is Some && r.error->Some_0@ == "invalid or expired pairing token"@,
{
    if token_valid {
        AuthReply { success: true, error: None }
    } else {
        AuthReply { success: false, error: Some("invalid or expired pairing token".to_owned()) }
    }
}

/// The reply to a proof request from a device that is not paired.
pub fn unknown_device_reply() -> (r: AuthReply)
    ensures
        !r.success,
        r.error is Some && r.error->Some_0@ == "device not paired"@,
{
    AuthReply { success: false, error: Some("device not paired".to_owned()) }
}

/// The reply to a challenge response: success only when the signature verified;
/// a refused signature, or a key or signature that cannot be read, gets a failed
/// reply.
pub fn prove_reply(check: Result<bool, SignatureError>) -> (r: AuthReply)
    ensures
        r.success == (check == Ok::<bool, SignatureError>(true)),
        r.error is None <==> r.success,
        !r.success ==> r.error->Some_0@ == "signature verification failed"@,
{
    match check {
        Ok(true) => AuthReply { success: true, error: None },
        _ => AuthReply { success: false, error: Some("signature verification failed".to_owned()) },
    }
}

// ── Connection admission ────────────────────────────────────────────────

#[derive(Debug, Clone, Copy, PartialEq, Eq, Structural)]
pub enum Admission {
    Accept,
    /// Too many connections from this source in the connection window.
    RateLimited,
    /// Too many failed auths from this source in the failure window.
    TooManyFailures,
}

/// Decides whether a new connection from `source` at `now` is let through to the
/// handshake: it counts against the connection limit first, then must be under
/// the auth-failure limit (which it does not count against).
pub fn admit_connection(
    connections: &mut RateLimiter,
    failures: &mut RateLimiter,
    source: u128,
    now: u64,
) -> (r: Admission)
    ensures
        ({
            let (ok, h) = check_step(
                old(connections).history(source),
                now,
                old(connections).max(),
                old(connections).window(),
            );
            let fails = pruned(old(failures).history(source), now, old(failures).window());
            &&& final(connections).history(source) == h
            &&& !ok ==> r == Admission::RateLimited && final(failures).history(source)
                == old(failures).history(source)
            &&& ok && fails.len() >= old(failures).max() ==> r == Admission::TooManyFailures
            &&& ok && fails.len() < old(failures).max() ==> r == Admission::Accept
            &&& ok ==> final(failures).history(source) == fails
        }),
        final(connections).max() == old(connections).max(),
        final(connections).window() == old(connections).window(),
        final(failures).max() == old(failures).max(),
        final(failures).window() == old(failures).window(),
        forall|s: u128|
            s != source ==> #[trigger] final(connections).history(s) == old(connections).history(
                s,
            ) && final(failures).history(s) == old(failures).history(s),
{
    if !connections.check(source, now) {
        return Admission::RateLimited;
    }
    if !failures.is_allowed(source, now) {
        return Admission::TooManyFailures;
    }
    Admission::Accept
}

/// Books the end of an auth attempt: a failure counts against `source`.
pub fn finish_auth(failures: &mut RateLimiter, source: u128, now: u64, authenticated: bool)
    ensures
        authenticated ==> final(failures).history(source) == old(failures).history(source),
        !authenticated ==> final(failures).history(source) == pruned(
            old(failures).history(source),
            now,
            old(failures).window(),
        ).push(now),
        final(failures).max() == old(failures).max(),
        final(failures).window() == old(failures).window(),
        forall|s: u128|
            s != source ==> #[trigger] final(failures).history(s) == old(failures).history(s),
{
    if !authenticated {
        failures.record(source, now);
    }
}

/// A signature that verifies neither over the bound challenge nor over the bare
/// one gets a failed reply, and booking that attempt adds a failure for the source.
pub proof fn lemma_tampered_signature_rejected(
    key_b64: Seq<char>,
    challenge: Seq<u8>,
    exporter: Option<Seq<u8>>,
    sig_b64: Seq<char>,
    reply_success: bool,
    before: Seq<u64>,
    after: Seq<u64>,
    now: u64,
    window: u64,
)
    requires
        signature_check(key_b64, challenge, sig_b64) == Ok::<bool, SignatureError>(false),
        exporter is Some ==> signature_check(key_b64, challenge + exporter->Some_0, sig_b64)
            == Ok::<bool, SignatureError>(false),
        reply_success == (challenge_check(key_b64, challenge, exporter, sig_b64) == Ok::<
            bool,
            SignatureError,
        >(true)),
        after == pruned(before, now, window).push(now),
    ensures
        challenge_check(key_b64, challenge, exporter, sig_b64) == Ok::<bool, SignatureError>(false),
        !reply_success,
        after.last() == now,
        after.len() == pruned(before, now, window).len() + 1,
{
}

} // verus!
