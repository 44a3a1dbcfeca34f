//! Symmetric encryption of stored profiles with ChaCha20-Poly1305, the profile's name bound in
//! as associated data: swapping the encrypted rows of two profiles makes decryption fail rather
//! than hand one profile's rules out under the other's name.

use vstd::prelude::*;
use chacha20poly1305::aead::{Aead, KeyInit, Payload};
use chacha20poly1305::{ChaCha20Poly1305, Key, Nonce};
use rand::RngExt;

verus! {

pub const KEY_LEN: usize = 32;

pub const NONCE_LEN: usize = 12;

/// The largest plaintext that ChaCha20-Poly1305 encrypts: fewer than `u32::MAX` blocks of 64
/// bytes.
pub const MAX_PLAINTEXT_LEN: u64 = 274877906880;

#[derive(Debug)]
pub enum CryptoError {
    DecryptionFailed,
}

/// A ciphertext with the nonce it was made with.
pub struct Encrypted {
    pub ciphertext: Vec<u8>,
    pub nonce: Vec<u8>,
}

/// The ciphertext (with its tag) of `plaintext` under `key`, `nonce` and associated data `aad`.
pub uninterp spec fn chacha_seal(key: Seq<u8>, nonce: Seq<u8>, plaintext: Seq<u8>, aad: Seq<u8>) -> Seq<u8>;

/// What decrypting `ciphertext` under `key`, `nonce` and `aad` gives: the plaintext, or `None`
/// when the tag does not authenticate.
pub uninterp spec fn chacha_open(key: Seq<u8>, nonce: Seq<u8>, ciphertext: Seq<u8>, aad: Seq<u8>) -> Option<Seq<u8>>;

/// Twelve bytes from the thread-local random generator (`rand::rng().fill`). Nothing is stated
/// of their value.
#[verifier::external_body]
fn random_nonce() -> (r: [u8; 12]) {
    let mut nonce_bytes = [0u8; 12];
    rand::rng().fill(&mut nonce_bytes);
    nonce_bytes
}

/// Calls `ChaCha20Poly1305::encrypt`. Its result is named; as for every AEAD, decrypting it with
/// the same key, nonce and associated data gives the plaintext back. The crate refuses plaintexts
/// of `u32::MAX` blocks of 64 bytes or more, which `requires` leaves out.
#[verifier::external_body]
fn seal(key: &[u8; 32], nonce: &[u8; 12], plaintext: &[u8], aad: &[u8]) -> (r: Vec<u8>)
    requires
        plaintext@.len() < MAX_PLAINTEXT_LEN,
    ensures
        r@ == chacha_seal(key@, nonce@, plaintext@, aad@),
        chacha_open(key@, nonce@, r@, aad@) == Some(plaintext@),
{
    ChaCha20Poly1305::new(&Key::from(*key)).encrypt(&Nonce::from(*nonce), Payload { msg: plaintext, aad }).expect(
        "the plaintext is below the limit",
    )
}

/// Calls `ChaCha20Poly1305::decrypt` with a nonce of twelve bytes; its result is named.
#[verifier::external_body]
fn open(key: &[u8; 32], nonce: &[u8], ciphertext: &[u8], aad: &[u8]) -> (r: Option<Vec<u8>>)
    requires
        nonce@.len() == NONCE_LEN,
    ensures
        r.deep_view() == chacha_open(key@, nonce@, ciphertext@, aad@),
{
    ChaCha20Poly1305::new(&Key::from(*key)).decrypt(Nonce::from_slice(nonce), Payload { msg: ciphertext, aad }).ok()
}

fn nonce_vec(nonce: &[u8; 12]) -> (r: Vec<u8>)
    ensures
        r@ == nonce@,
{
    let mut v: Vec<u8> = Vec::new();
    let mut i: usize = 0;
    while i < 12
        invariant
            i <= 12,
            v@ == nonce@.take(i as int),
        decreases 12 - i,
    {
        v.push(nonce[i]);
        i += 1;
        assert(v@ =~= nonce@.take(i as int));
    }
    assert(nonce@.take(12) =~= nonce@);
    v
}

/// Encrypts `plaintext` under `key` with a fresh random nonce, binding `aad`.
pub fn encrypt(key: &[u8; 32], plaintext: &[u8], aad: &[u8]) -> (r: Encrypted)
    requires
        plaintext@.len() < MAX_PLAINTEXT_LEN,
    ensures
        r.nonce@.len() == NONCE_LEN,
        r.ciphertext@ == chacha_seal(key@, r.nonce@, plaintext@, aad@),
        chacha_open(key@, r.nonce@, r.ciphertext@, aad@) == Some(plaintext@),
{
    let nonce = random_nonce();
    let ciphertext = seal(key, &nonce, plaintext, aad);
    Encrypted { ciphertext, nonce: nonce_vec(&nonce) }
}

/// Decrypts a stored row. A nonce of the wrong size (a damaged row) fails like any other
/// ciphertext that does not authenticate.
pub fn decrypt(key: &[u8; 32], ciphertext: &[u8], nonce: &[u8], aad: &[u8]) -> (r: Result<
    Vec<u8>,
    CryptoError,
>)
    ensures
        nonce@.len() != NONCE_LEN ==> r is Err,
        nonce@.len() == NONCE_LEN ==> match chacha_open(key@, nonce@, ciphertext@, aad@) {
            Some(p) => r matches Ok(v) && v@ == p,
            None => r is Err,
        },
{
    if nonce.len() != NONCE_LEN {
        return Err(CryptoError::DecryptionFailed);
    }
    match open(key, nonce, ciphertext, aad) {
        Some(p) => Ok(p),
        None => Err(CryptoError::DecryptionFailed),
    }
}

} // verus!
