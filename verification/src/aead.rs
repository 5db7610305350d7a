//! AES-256-GCM sealing and operating-system randomness, as the outside crates
//! provide them.
use vstd::prelude::*;
use aes_gcm::aead::{Aead, KeyInit, Payload};

verus! {

/// Largest plaintext (and associated data) that AES-GCM accepts, in bytes.
pub const AES_GCM_MAX_INPUT: u64 = 0x10_0000_0000;

/// The AES-256-GCM sealing of `msg` with `aad` under `key` and a 96-bit `nonce`:
/// ciphertext followed by the 16-byte tag.
pub uninterp spec fn aes256gcm_seal(key: Seq<u8>, nonce: Seq<u8>, msg: Seq<u8>, aad: Seq<u8>) -> Seq<u8>;

/// The AES-256-GCM opening of `sealed` with `aad` under `key` and `nonce`:
/// the plaintext when the tag authenticates, `None` otherwise.
pub uninterp spec fn aes256gcm_open(key: Seq<u8>, nonce: Seq<u8>, sealed: Seq<u8>, aad: Seq<u8>) -> Option<Seq<u8>>;

/// Calls `aes_gcm::Aes256Gcm::encrypt` (the `aead::Aead` method) with the
/// payload `msg` and associated data `aad`. Trusted: per the crate's source it
/// fails exactly when `msg` or `aad` is longer than 2^36 bytes; otherwise the
/// output is the sealing of these arguments, 16 bytes longer than `msg`, and
/// opening it with the same key, nonce and `aad` gives `msg` back.
#[verifier::external_body]
pub(crate) fn aes256gcm_encrypt(key: &[u8; 32], nonce: &[u8; 12], msg: &[u8], aad: &[u8]) -> (r: Option<Vec<u8>>)
    ensures
        r is Some <==> (msg@.len() <= AES_GCM_MAX_INPUT && aad@.len() <= AES_GCM_MAX_INPUT),
        r matches Some(c) ==> c@ == aes256gcm_seal(key@, nonce@, msg@, aad@),
        r matches Some(c) ==> c@.len() == msg@.len() + 16,
        r matches Some(c) ==> aes256gcm_open(key@, nonce@, c@, aad@) == Some(msg@),
{
    let cipher = aes_gcm::Aes256Gcm::new(key.into());
    cipher.encrypt(aes_gcm::Nonce::from_slice(nonce), Payload { msg, aad }).ok()
}

/// Calls `aes_gcm::Aes256Gcm::decrypt` (the `aead::Aead` method) on `sealed`
/// with associated data `aad`. Trusted: the result is the opening of these
/// arguments.
#[verifier::external_body]
pub(crate) fn aes256gcm_decrypt(key: &[u8; 32], nonce: &[u8; 12], sealed: &[u8], aad: &[u8]) -> (r: Option<Vec<u8>>)
    ensures
        match r {
            Some(p) => aes256gcm_open(key@, nonce@, sealed@, aad@) == Some(p@),
            None => aes256gcm_open(key@, nonce@, sealed@, aad@) is None,
        },
{
    let cipher = aes_gcm::Aes256Gcm::new(key.into());
    cipher.decrypt(aes_gcm::Nonce::from_slice(nonce), Payload { msg: sealed, aad }).ok()
}

/// Calls `rand::RngCore::try_fill_bytes` on the operating-system generator
/// (`rand::rngs::OsRng`) for `n` fresh bytes. Trusted only for the length:
/// nothing is said of the bytes, and `None` means the generator failed.
#[verifier::external_body]
pub(crate) fn os_random_bytes(n: usize) -> (r: Option<Vec<u8>>)
    ensures
        r matches Some(v) ==> v@.len() == n,
{
    let mut bytes = vec![0u8; n];
    rand::RngCore::try_fill_bytes(&mut rand::rngs::OsRng, &mut bytes).ok().map(|_| bytes)
}

} // verus!
