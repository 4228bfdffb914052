//! Hashes, hexadecimal text and Ed25519 signatures.
//!
//! The functions marked `external_body` hand their arguments to an outside
//! crate; everything else in the library is proved from what they state.

use ed25519_dalek::{Signer, Verifier};
use rand::RngCore;
use sha2::Digest;
use vstd::prelude::*;
use zeroize::Zeroize;

verus! {

/// The SHA-256 digest of a byte string.
pub uninterp spec fn sha256_digest(data: Seq<u8>) -> Seq<u8>;

/// Hashes with `sha2::Sha256::digest`. The digest is a function of the bytes
/// alone, and has 32 of them.
#[verifier::external_body]
pub(crate) fn sha256(data: &[u8]) -> (r: [u8; 32])
    ensures
        r@ == sha256_digest(data@),
{
    sha2::Sha256::digest(data).into()
}

/// The lower-case hexadecimal character of a number below sixteen.
pub open spec fn hex_char(n: nat) -> char {
    if n < 10 {
        crate::text::digit_char(n)
    } else if n == 10 {
        'a'
    } else if n == 11 {
        'b'
    } else if n == 12 {
        'c'
    } else if n == 13 {
        'd'
    } else if n == 14 {
        'e'
    } else {
        'f'
    }
}

/// The number below sixteen that a hexadecimal character of either case
/// stands for.
pub open spec fn hex_value(c: char) -> Option<nat> {
    if '0' <= c && c <= '9' {
        Some((c as int - '0' as int) as nat)
    } else if 'a' <= c && c <= 'f' {
        Some((c as int - 'a' as int + 10) as nat)
    } else if 'A' <= c && c <= 'F' {
        Some((c as int - 'A' as int + 10) as nat)
    } else {
        None
    }
}

/// The hexadecimal text of bytes: two lower-case digits for each.
pub open spec fn hex_text(b: Seq<u8>) -> Seq<char> {
    Seq::new(
        b.len() * 2,
        |i: int|
            if i % 2 == 0 {
                hex_char(b[i / 2] as nat / 16)
            } else {
                hex_char(b[i / 2] as nat % 16)
            },
    )
}

/// Whether a text is an even number of hexadecimal digits.
pub open spec fn is_hex(s: Seq<char>) -> bool {
    s.len() % 2 == 0 && forall|i: int| 0 <= i < s.len() ==> hex_value(#[trigger] s[i]) is Some
}

/// The bytes that a hexadecimal text stands for.
pub open spec fn hex_bytes(s: Seq<char>) -> Seq<u8> {
    Seq::new(
        s.len() / 2,
        |i: int| (hex_value(s[2 * i])->0 * 16 + hex_value(s[2 * i + 1])->0) as u8,
    )
}

/// Writes bytes in hexadecimal with `hex::encode`: two lower-case digits for
/// each byte, the high half first.
#[verifier::external_body]
pub(crate) fn hex_encode(data: &[u8]) -> (r: String)
    ensures
        r@ == hex_text(data@),
{
    hex::encode(data)
}

/// Reads hexadecimal text with `hex::decode`: it succeeds exactly on an even
/// number of hexadecimal digits of either case.
#[verifier::external_body]
pub(crate) fn hex_decode(s: &str) -> (r: Option<Vec<u8>>)
    ensures
        match r {
            Some(b) => is_hex(s@) && b@ == hex_bytes(s@),
            None => !is_hex(s@),
        },
{
    hex::decode(s).ok()
}

/// A hexadecimal digit stands for its own value.
proof fn lemma_hex_digit(n: nat)
    requires
        n < 16,
    ensures
        hex_value(hex_char(n)) == Some(n),
{
}

/// Reading the hexadecimal text of bytes gives the bytes back.
pub proof fn lemma_hex_round_trip(b: Seq<u8>)
    ensures
        is_hex(hex_text(b)),
        hex_bytes(hex_text(b)) == b,
{
    let s = hex_text(b);
    assert(s.len() % 2 == 0);
    assert forall|i: int| 0 <= i < s.len() implies hex_value(#[trigger] s[i]) is Some by {
        lemma_hex_digit(b[i / 2] as nat / 16);
        lemma_hex_digit(b[i / 2] as nat % 16);
    }
    assert forall|i: int| 0 <= i < b.len() implies hex_bytes(s)[i] == b[i] by {
        lemma_hex_digit(b[i] as nat / 16);
        lemma_hex_digit(b[i] as nat % 16);
        assert(s[2 * i] == hex_char(b[i] as nat / 16)) by {
            assert((2 * i) % 2 == 0 && (2 * i) / 2 == i);
        }
        assert(s[2 * i + 1] == hex_char(b[i] as nat % 16)) by {
            assert((2 * i + 1) % 2 == 1 && (2 * i + 1) / 2 == i);
        }
    }
    assert(hex_bytes(s) =~= b);
}

/// Different bytes have different hexadecimal texts.
pub proof fn lemma_hex_injective(a: Seq<u8>, b: Seq<u8>)
    requires
        hex_text(a) == hex_text(b),
    ensures
        a == b,
{
    lemma_hex_round_trip(a);
    lemma_hex_round_trip(b);
}

/// The hexadecimal SHA-256 digest of a byte string.
pub open spec fn sha256_hex(data: Seq<u8>) -> Seq<char> {
    hex_text(sha256_digest(data))
}

/// Whether a text is the hexadecimal text of a digest: 64 lower-case digits.
pub open spec fn is_digest_text(s: Seq<char>) -> bool {
    &&& s.len() == 64
    &&& forall|i: int|
        0 <= i < s.len() ==> '0' <= #[trigger] s[i] <= '9' || 'a' <= s[i] <= 'f'
}

/// The hexadecimal text of 32 bytes is 64 lower-case digits.
pub proof fn lemma_digest_text(b: Seq<u8>)
    requires
        b.len() == 32,
    ensures
        is_digest_text(hex_text(b)),
{
    let s = hex_text(b);
    assert forall|i: int| 0 <= i < s.len() implies '0' <= #[trigger] s[i] <= '9' || 'a' <= s[i]
        <= 'f' by {
        let n = if i % 2 == 0 {
            b[i / 2] as nat / 16
        } else {
            b[i / 2] as nat % 16
        };
        assert(s[i] == hex_char(n) && n < 16);
    }
}

/// Writes a digest in hexadecimal.
pub fn digest_text(d: &[u8; 32]) -> (r: String)
    ensures
        r@ == hex_text(d@),
        is_digest_text(r@),
{
    proof {
        lemma_digest_text(d@);
    }
    hex_encode(d.as_slice())
}

/// Hashes and writes the digest in hexadecimal.
pub fn sha256_text(data: &[u8]) -> (r: String)
    ensures
        r@ == sha256_hex(data@),
        is_digest_text(r@),
{
    let d = sha256(data);
    digest_text(&d)
}

/// Whether 32 bytes encode a point that can serve as an Ed25519 public key.
pub uninterp spec fn ed25519_key_accepted(key: Seq<u8>) -> bool;

/// Whether a signature over a message is valid under an Ed25519 public key.
pub uninterp spec fn ed25519_signature_valid(key: Seq<u8>, message: Seq<u8>, signature: Seq<u8>) -> bool;

/// Tries `ed25519_dalek::VerifyingKey::from_bytes`. Which bytes it takes is a
/// function of the bytes alone.
#[verifier::external_body]
pub(crate) fn ed25519_accepts_key(key: &[u8; 32]) -> (r: bool)
    ensures
        r == ed25519_key_accepted(key@),
{
    ed25519_dalek::VerifyingKey::from_bytes(key).is_ok()
}

/// Checks a signature with `ed25519_dalek`'s `Verifier::verify`. The verdict
/// is a function of key, message and signature; no signature is valid under
/// bytes that are no key.
#[verifier::external_body]
pub(crate) fn ed25519_verify(key: &[u8; 32], message: &[u8], signature: &[u8; 64]) -> (r: bool)
    ensures
        r == ed25519_signature_valid(key@, message@, signature@),
        r ==> ed25519_key_accepted(key@),
{
    match ed25519_dalek::VerifyingKey::from_bytes(key) {
        Ok(k) => k.verify(message, &ed25519_dalek::Signature::from_bytes(signature)).is_ok(),
        Err(_) => false,
    }
}

/// The Ed25519 public key of a secret key.
pub uninterp spec fn ed25519_public(secret: Seq<u8>) -> Seq<u8>;

/// The Ed25519 signature of a secret key over a message.
pub uninterp spec fn ed25519_signature(secret: Seq<u8>, message: Seq<u8>) -> Seq<u8>;

/// Computes `ed25519_dalek::SigningKey::verifying_key`. The public key is a
/// function of the secret alone, and is accepted as one.
#[verifier::external_body]
pub(crate) fn ed25519_public_key(secret: &[u8; 32]) -> (r: [u8; 32])
    ensures
        r@ == ed25519_public(secret@),
        ed25519_key_accepted(r@),
{
    ed25519_dalek::SigningKey::from_bytes(secret).verifying_key().to_bytes()
}

/// Signs with `ed25519_dalek`'s `Signer::sign`. The signature is a function of
/// the secret and the message, and is valid under the public key of the
/// secret.
#[verifier::external_body]
pub(crate) fn ed25519_sign(secret: &[u8; 32], message: &[u8]) -> (r: [u8; 64])
    ensures
        r@ == ed25519_signature(secret@, message@),
        ed25519_signature_valid(ed25519_public(secret@), message@, r@),
{
    ed25519_dalek::SigningKey::from_bytes(secret).sign(message).to_bytes()
}

/// Draws 32 random bytes with `rand`'s `OsRng::fill_bytes`. Nothing is promised
/// of them. It panics where the operating system has no randomness to give.
#[verifier::external_body]
pub(crate) fn random_32() -> (r: [u8; 32]) {
    let mut bytes = [0u8; 32];
    rand::rngs::OsRng.fill_bytes(&mut bytes);
    bytes
}

/// Wipes bytes with `zeroize`: the memory is overwritten, and the vector is
/// empty afterwards.
#[verifier::external_body]
pub(crate) fn wipe(bytes: &mut Vec<u8>)
    ensures
        final(bytes)@ == Seq::<u8>::empty(),
{
    bytes.zeroize()
}

/// Copies exactly 32 bytes into an array.
pub fn to_array_32(b: &Vec<u8>) -> (r: Option<[u8; 32]>)
    ensures
        match r {
            Some(a) => b@.len() == 32 && a@ == b@,
            None => b@.len() != 32,
        },
{
    if b.len() != 32 {
        return None;
    }
    let mut a: [u8; 32] = [0; 32];
    let mut i: usize = 0;
    while i < 32
        invariant
            b@.len() == 32,
            i <= 32,
            forall|j: int| 0 <= j < i ==> a@[j] == b@[j],
        decreases 32 - i,
    {
        a[i] = b[i];
        i += 1;
    }
    assert(a@ =~= b@);
    Some(a)
}

/// Copies exactly 64 bytes into an array.
pub fn to_array_64(b: &Vec<u8>) -> (r: Option<[u8; 64]>)
    ensures
        match r {
            Some(a) => b@.len() == 64 && a@ == b@,
            None => b@.len() != 64,
        },
{
    if b.len() != 64 {
        return None;
    }
    let mut a: [u8; 64] = [0; 64];
    let mut i: usize = 0;
    while i < 64
        invariant
            b@.len() == 64,
            i <= 64,
            forall|j: int| 0 <= j < i ==> a@[j] == b@[j],
        decreases 64 - i,
    {
        a[i] = b[i];
        i += 1;
    }
    assert(a@ =~= b@);
    Some(a)
}

/// What each hexadecimal digit stands for, in either case; nothing else is one.
pub proof fn lemma_hex_digits(c: char, n: nat)
    ensures
        '0' <= c <= '9' ==> hex_value(c) == Some((c as int - '0' as int) as nat),
        'a' <= c <= 'f' ==> hex_value(c) == Some((10 + c as int - 'a' as int) as nat),
        'A' <= c <= 'F' ==> hex_value(c) == Some((10 + c as int - 'A' as int) as nat),
        !('0' <= c <= '9') && !('a' <= c <= 'f') && !('A' <= c <= 'F') ==> hex_value(c) is None,
        n < 16 ==> hex_value(hex_char(n)) == Some(n),
        n < 16 ==> !('A' <= hex_char(n) <= 'F'),
{
}

} // verus!
