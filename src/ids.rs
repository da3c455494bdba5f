use sha2::Digest;
use vstd::prelude::*;
use vstd::utf8::encode_utf8;
use crate::auth::{b64_encode, base64_encoded};

verus! {

/// Longest id the admin interface accepts, in bytes.
pub const MAX_ID_LENGTH: usize = 128;

#[derive(Debug, Clone, Copy, PartialEq, Eq, Structural)]
pub enum IdError {
    /// Empty or longer than `MAX_ID_LENGTH` bytes.
    Length,
    /// Holds a character outside `[A-Za-z0-9_-]`.
    Characters,
}

pub open spec fn id_byte_ok(b: u8) -> bool {
    (0x30 <= b <= 0x39) || (0x41 <= b <= 0x5A) || (0x61 <= b <= 0x7A) || b == 0x2D || b == 0x5F
}

pub open spec fn id_len_ok(b: Seq<u8>) -> bool {
    0 < b.len() <= MAX_ID_LENGTH
}

pub open spec fn all_id_bytes(b: Seq<u8>) -> bool {
    forall|i: int| 0 <= i < b.len() ==> id_byte_ok(#[trigger] b[i])
}

/// Checks an admin-supplied session or device id against `[A-Za-z0-9_-]{1,128}`.
pub fn validate_id(id: &str) -> (r: Result<(), IdError>)
    ensures
        id_len_ok(encode_utf8(id@)) && all_id_bytes(encode_utf8(id@)) ==> r is Ok,
        !id_len_ok(encode_utf8(id@)) ==> r == Err::<(), IdError>(IdError::Length),
        id_len_ok(encode_utf8(id@)) && !all_id_bytes(encode_utf8(id@)) ==> r == Err::<(), IdError>(
            IdError::Characters,
        ),
{
    let bytes = id.as_bytes();
    proof {
        assert(bytes@ == encode_utf8(id@));
    }
    if bytes.len() == 0 || bytes.len() > MAX_ID_LENGTH {
        return Err(IdError::Length);
    }
    let mut i: usize = 0;
    while i < bytes.len()
        invariant
            i <= bytes@.len(),
            bytes@ == encode_utf8(id@),
            0 < bytes@.len() <= MAX_ID_LENGTH,
            forall|k: int| 0 <= k < i ==> id_byte_ok(#[trigger] bytes@[k]),
        decreases bytes@.len() - i,
    {
        let b = bytes[i];
        let ok = (0x30 <= b && b <= 0x39) || (0x41 <= b && b <= 0x5A) || (0x61 <= b && b <= 0x7A)
            || b == 0x2D || b == 0x5F;
        if !ok {
            assert(!id_byte_ok(bytes@[i as int]));
            assert(!all_id_bytes(bytes@));
            return Err(IdError::Characters);
        }
        i = i + 1;
    }
    Ok(())
}

/// The SHA-256 digest of `b`.
pub uninterp spec fn sha256_of(b: Seq<u8>) -> Seq<u8>;

/// Relies on sha2's `Sha256::digest`: 32 bytes that depend on the input alone.
#[verifier::external_body]
fn sha256(b: &[u8]) -> (r: [u8; 32])
    ensures
        r@ == sha256_of(b@),
{
    sha2::Sha256::digest(b).into()
}

/// SHA-256 fingerprint of a DER certificate.
pub fn fingerprint(cert_der: &[u8]) -> (r: [u8; 32])
    ensures
        r@ == sha256_of(cert_der@),
{
    sha256(cert_der)
}

/// SHA-256 fingerprint of a DER certificate as standard base64, for QR codes and display.
pub fn fingerprint_base64(cert_der: &[u8]) -> (r: String)
    ensures
        r@ == base64_encoded(sha256_of(cert_der@)),
        r@.len() == 44,
{
    let fp = fingerprint(cert_der);
    b64_encode(fp.as_slice())
}

pub open spec fn hex_digit(n: u8) -> char {
    if n < 10 {
        (0x30 + n) as char
    } else {
        (0x61 + n - 10) as char
    }
}

/// Lowercase hex, two digits per byte, high nibble first.
pub open spec fn hex_lower(b: Seq<u8>) -> Seq<char> {
    Seq::new(2 * b.len(), |i: int| if i % 2 == 0 { hex_digit(b[i / 2] / 16) } else { hex_digit(b[i / 2] % 16) })
}

/// Relies on hex's `encode`: each byte becomes two lowercase hex digits, high nibble first.
#[verifier::external_body]
fn hex_encode(b: &[u8]) -> (r: String)
    ensures
        r@ == hex_lower(b@),
{
    hex::encode(b)
}

/// A session id made of 8 random bytes: 16 lowercase hex digits.
pub fn session_id_from(random: &[u8; 8]) -> (r: String)
    ensures
        r@ == hex_lower(random@),
        r@.len() == 16,
{
    hex_encode(random.as_slice())
}

} // verus!
