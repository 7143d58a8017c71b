//! The cryptographic primitives this library relies on, each behind a small
//! trusted boundary: password hashing (argon2), authenticated encryption
//! (ChaCha20-Poly1305), the operating system's random source and memory wiping.
use chacha20poly1305::aead::rand_core::RngCore;
use chacha20poly1305::aead::{Aead, KeyInit};
use vstd::prelude::*;
use zeroize::Zeroize;

verus! {

#[verifier::external_type_specification]
#[verifier::external_body]
pub struct ExArgon2Error(argon2::Error);

#[verifier::external_type_specification]
#[verifier::external_body]
pub struct ExAeadError(chacha20poly1305::Error);

#[verifier::external_type_specification]
#[verifier::external_body]
pub struct ExRandError(chacha20poly1305::aead::rand_core::Error);

/// The 32-byte key that Argon2id, with its default cost parameters, derives
/// from a password and a salt.
pub uninterp spec fn argon2id_key(password: Seq<u8>, salt: Seq<u8>) -> Seq<u8>;

/// What ChaCha20-Poly1305 produces for `plaintext` under `key` and `nonce`
/// (no associated data): the ciphertext followed by the 16-byte tag.
pub uninterp spec fn chacha20poly1305_seal(key: Seq<u8>, nonce: Seq<u8>, plaintext: Seq<u8>) -> Seq<u8>;

/// Longest password, in bytes, that Argon2 accepts.
pub const MAX_PASSWORD_LEN: usize = 0xFFFF_FFFF;

/// Longest message, in bytes, that ChaCha20-Poly1305 encrypts or decrypts
/// without running out of keystream: its 32-bit block counter starts at 1
/// (block 0 makes the Poly1305 key), which leaves `u32::MAX - 1` blocks of 64
/// bytes.
pub const MAX_MESSAGE_LEN: u64 = 64 * 0xFFFF_FFFE;

/// Whether a message of `len` bytes fits the cipher's keystream.
pub open spec fn within_cipher_limit(len: int) -> bool {
    len <= MAX_MESSAGE_LEN
}

/// Relies on `argon2::Argon2::hash_password_into` with `Argon2::default()`
/// (Argon2id, version 0x13, default costs): with a 32-byte salt and a 32-byte
/// output it fails only on a password longer than `argon2::MAX_PWD_LEN`, and
/// otherwise writes the derived key, which depends on password and salt alone.
#[verifier::external_body]
pub(crate) fn argon2id_hash(password: &[u8], salt: &[u8; 32]) -> (r: Result<[u8; 32], argon2::Error>)
    ensures
        r is Ok <==> password@.len() <= MAX_PASSWORD_LEN,
        r matches Ok(key) ==> key@ == argon2id_key(password@, salt@),
{
    let mut out = [0u8; 32];
    argon2::Argon2::default().hash_password_into(password, salt, &mut out).map(|_| out)
}

/// Relies on `Aead::encrypt` of `chacha20poly1305::ChaCha20Poly1305` (no
/// associated data). Within the keystream limit it succeeds and returns the
/// ciphertext, as long as the message, followed by the 16-byte tag (a longer
/// message would make the keystream call panic). Encryption is deterministic,
/// and for a fixed key and nonce no two messages give the same output
/// (decryption recovers the message).
#[verifier::external_body]
pub(crate) fn chacha20poly1305_encrypt(key: &[u8; 32], nonce: &[u8; 12], plaintext: &[u8]) -> (r: Result<Vec<u8>, chacha20poly1305::Error>)
    requires
        within_cipher_limit(plaintext@.len() as int),
    ensures
        r is Ok,
        r matches Ok(c) ==> c@ == chacha20poly1305_seal(key@, nonce@, plaintext@),
        r matches Ok(c) ==> c@.len() == plaintext@.len() + 16,
        r matches Ok(c) ==> forall|q: Seq<u8>|
            #![trigger chacha20poly1305_seal(key@, nonce@, q)]
            within_cipher_limit(q.len() as int) && chacha20poly1305_seal(key@, nonce@, q) == c@
                ==> q == plaintext@,
{
    chacha20poly1305::ChaCha20Poly1305::new(&(*key).into()).encrypt(&(*nonce).into(), plaintext)
}

/// Relies on `Aead::decrypt` of `chacha20poly1305::ChaCha20Poly1305` (no
/// associated data), on inputs whose message part is within the keystream
/// limit (beyond it a valid tag would lead to a keystream call that panics):
/// it succeeds exactly when the input is what encryption of some message
/// gives under the same key and nonce, and then returns that message.
#[verifier::external_body]
pub(crate) fn chacha20poly1305_decrypt(key: &[u8; 32], nonce: &[u8; 12], sealed: &[u8]) -> (r: Result<Vec<u8>, chacha20poly1305::Error>)
    requires
        sealed@.len() <= MAX_MESSAGE_LEN + 16,
    ensures
        r matches Ok(p) ==> within_cipher_limit(p@.len() as int),
        r matches Ok(p) ==> sealed@.len() == p@.len() + 16,
        r matches Ok(p) ==> chacha20poly1305_seal(key@, nonce@, p@) == sealed@,
        r matches Ok(q) ==> forall|p: Seq<u8>|
            #![trigger chacha20poly1305_seal(key@, nonce@, p)]
            within_cipher_limit(p.len() as int) && chacha20poly1305_seal(key@, nonce@, p) == sealed@
                ==> p == q@,
        r is Err ==> forall|p: Seq<u8>|
            #![trigger chacha20poly1305_seal(key@, nonce@, p)]
            within_cipher_limit(p.len() as int) ==> chacha20poly1305_seal(key@, nonce@, p) != sealed@,
{
    chacha20poly1305::ChaCha20Poly1305::new(&(*key).into()).decrypt(&(*nonce).into(), sealed)
}

/// Relies on `RngCore::try_fill_bytes` of the operating system's generator
/// (`OsRng`, re-exported by `chacha20poly1305::aead`). Nothing is promised of
/// the bytes, and the call may fail.
#[verifier::external_body]
pub(crate) fn os_random_fill<const N: usize>(buf: &mut [u8; N]) -> (r: Result<(), chacha20poly1305::aead::rand_core::Error>)
{
    chacha20poly1305::aead::OsRng.try_fill_bytes(buf)
}

/// Relies on `zeroize::Zeroize` for byte arrays: every byte is overwritten with zero.
#[verifier::external_body]
pub(crate) fn wipe_bytes<const N: usize>(buf: &mut [u8; N])
    ensures
        forall|i: int| 0 <= i < N ==> final(buf)@[i] == 0u8,
{
    buf.zeroize();
}

/// Relies on `zeroize::Zeroize` for `String`: the bytes are overwritten with
/// zero and the string is left empty.
#[verifier::external_body]
pub(crate) fn wipe_string(s: &mut String)
    ensures
        final(s)@.len() == 0,
{
    s.zeroize();
}

} // verus!
