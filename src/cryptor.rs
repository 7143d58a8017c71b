//! Key derivation and the cipher engine that seals and opens single blocks.
use crate::format::{open_block, opens_to, password_accepted, password_key, seal_is_exact, NONCE_SIZE};
use crate::primitives::{
    argon2id_hash, chacha20poly1305_decrypt, chacha20poly1305_encrypt, chacha20poly1305_seal,
    os_random_fill, wipe_bytes, wipe_string, within_cipher_limit, MAX_MESSAGE_LEN,
};
use vstd::prelude::*;

verus! {

/// Stretches a password into a 256-bit key with Argon2id.
///
/// With `input_salt` given, that salt is used (to recreate the key of an
/// existing container); without, a fresh salt is drawn from the operating
/// system. Returns the key and the salt used. The password is wiped once it
/// has been hashed, or as soon as the call fails.
pub fn hash_password(plaintext_password: String, input_salt: Option<[u8; 32]>) -> (r: Result<([u8; 32], [u8; 32]), ()>)
    ensures
        r matches Ok((key, salt)) ==> key@ == password_key(plaintext_password@, salt@),
        r matches Ok((key, salt)) ==> (input_salt matches Some(s) ==> salt == s),
        !password_accepted(plaintext_password@) ==> r is Err,
        input_salt is Some && password_accepted(plaintext_password@) ==> r is Ok,
{
    let mut password = plaintext_password;
    let mut salt = [0u8; 32];
    match input_salt {
        Some(s) => {
            salt = s;
        },
        None => {
            if os_random_fill(&mut salt).is_err() {
                wipe_string(&mut password);
                return Err(());
            }
        },
    }
    let hashed = argon2id_hash(password.as_str().as_bytes(), &salt);
    wipe_string(&mut password);
    match hashed {
        Ok(key) => Ok((key, salt)),
        Err(_) => Err(()),
    }
}

/// Seals and opens byte buffers with ChaCha20-Poly1305 under one key and one
/// nonce. The same nonce serves every buffer of the instance.
pub struct Cryptor {
    key: [u8; 32],
    nonce: [u8; 12],
}

impl Cryptor {
    /// The 256-bit key.
    pub closed spec fn spec_key(&self) -> Seq<u8> {
        self.key@
    }

    /// The 96-bit nonce.
    pub closed spec fn spec_nonce(&self) -> Seq<u8> {
        self.nonce@
    }

    /// A cryptor for `key`, with `input_nonce` if given (to open an existing
    /// container), else with a nonce drawn from the operating system.
    pub fn new(key: [u8; 32], input_nonce: Option<[u8; 12]>) -> (r: Result<Self, ()>)
        ensures
            r matches Ok(c) ==> c.spec_key() == key@,
            r matches Ok(c) ==> c.spec_nonce().len() == NONCE_SIZE,
            r matches Ok(c) ==> (input_nonce matches Some(n) ==> c.spec_nonce() == n@),
            input_nonce is Some ==> r is Ok,
    {
        let mut nonce = [0u8; 12];
        match input_nonce {
            Some(n) => {
                nonce = n;
            },
            None => {
                if os_random_fill(&mut nonce).is_err() {
                    return Err(());
                }
            },
        }
        Ok(Cryptor { key, nonce })
    }

    /// The nonce, as it is stored in a container's header.
    pub fn nonce(&self) -> (n: [u8; 12])
        ensures
            n@ == self.spec_nonce(),
    {
        self.nonce
    }

    /// Whether the key has been wiped (every byte zero).
    pub open spec fn key_wiped(&self) -> bool {
        self.spec_key() == Seq::new(32, |i: int| 0u8)
    }

    /// Overwrites the key with zeros; the cryptor is of no further use.
    pub fn wipe(&mut self)
        ensures
            final(self).key_wiped(),
            final(self).spec_nonce() == old(self).spec_nonce(),
    {
        wipe_bytes(&mut self.key);
        assert(self.key@ =~= Seq::new(32, |i: int| 0u8));
    }

    /// Seals `buffer`: its ciphertext followed by the 16-byte tag. Fails on a
    /// buffer too long for the cipher's keystream.
    pub fn encrypt_bytes(&self, buffer: &[u8]) -> (r: Result<Vec<u8>, ()>)
        ensures
            r is Ok <==> within_cipher_limit(buffer@.len() as int),
            r matches Ok(c) ==> c@ == chacha20poly1305_seal(self.spec_key(), self.spec_nonce(), buffer@),
            r matches Ok(c) ==> seal_is_exact(self.spec_key(), self.spec_nonce(), buffer@),
    {
        if buffer.len() as u64 > MAX_MESSAGE_LEN {
            return Err(());
        }
        match chacha20poly1305_encrypt(&self.key, &self.nonce, buffer) {
            Ok(sealed) => Ok(sealed),
            Err(_) => Err(()),
        }
    }

    /// Opens `buffer`, a ciphertext followed by its tag; fails when the tag
    /// does not authenticate it, and on a buffer too long for the cipher's
    /// keystream.
    pub fn decrypt_bytes(&self, buffer: &[u8]) -> (r: Result<Vec<u8>, ()>)
        ensures
            r matches Ok(p) ==> open_block(self.spec_key(), self.spec_nonce(), buffer@) == Some(p@),
            r matches Ok(p) ==> buffer@.len() == p@.len() + 16,
            buffer@.len() <= MAX_MESSAGE_LEN + 16 && r is Err
                ==> open_block(self.spec_key(), self.spec_nonce(), buffer@) is None,
            buffer@.len() > MAX_MESSAGE_LEN + 16 ==> r is Err,
    {
        if buffer.len() as u64 > MAX_MESSAGE_LEN + 16 {
            return Err(());
        }
        match chacha20poly1305_decrypt(&self.key, &self.nonce, buffer) {
            Ok(plain) => {
                proof {
                    let k = self.spec_key();
                    let n = self.spec_nonce();
                    assert(opens_to(k, n, buffer@, plain@));
                    let p = choose|p: Seq<u8>| opens_to(k, n, buffer@, p);
                    assert(chacha20poly1305_seal(k, n, p) == buffer@);
                }
                Ok(plain)
            },
            Err(_) => Err(()),
        }
    }
}

} // verus!
