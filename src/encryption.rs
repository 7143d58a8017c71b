//! Encryption and decryption of whole files, block by block.
//!
//! An [`Encryptor`] turns an input of known length into a container one block
//! at a time; a [`Decryptor`] turns a container back, one sealed block at a
//! time. Both decide from the recorded total length how many bytes the next
//! block takes, so that short reads never cut the data into other blocks.
//! [`encrypt_file`] and [`decrypt_file`] run them over data held in memory.
use crate::cryptor::{hash_password, Cryptor};
use crate::error::{DecryptError, EncryptError};
use crate::format::{
    blocks_sealed_exactly, body_of, concat_opened, container_len, decrypted, first_piece_len,
    is_container_of, lemma_container_len, lemma_container_parts, lemma_decrypt_inverts_encrypt,
    lemma_open_body_single, lemma_open_body_split, lemma_sealed_body_push, nonce_of, open_block,
    open_body, password_accepted, password_key, salt_of, sealed_body, BLOCK_SIZE, HEADER_SIZE,
    NONCE_SIZE, SALT_SIZE, SEALED_BLOCK_SIZE, TAG_SIZE,
};
use crate::primitives::{wipe_bytes, wipe_string};
use vstd::prelude::*;
use vstd::slice::slice_to_vec;

verus! {

/// Copies `N` bytes of `bytes`, from `start` on, into an array.
fn read_array<const N: usize>(bytes: &[u8], start: usize) -> (a: [u8; N])
    requires
        start + N <= bytes@.len(),
    ensures
        a@ == bytes@.subrange(start as int, start + N),
{
    let len = bytes.len();
    let mut a = [0u8; N];
    let mut i: usize = 0;
    while i < N
        invariant
            start + N <= bytes@.len(),
            i <= N,
            len == bytes@.len(),
            a@.len() == N,
            forall|j: int| 0 <= j < i ==> a@[j] == bytes@[start + j],
        decreases N - i,
    {
        a[i] = bytes[start + i];
        i = i + 1;
    }
    assert(a@ =~= bytes@.subrange(start as int, start + N));
    a
}

/// A container's header: the salt, then the nonce.
fn header_bytes(salt: &[u8; 32], nonce: &[u8; 12]) -> (h: Vec<u8>)
    ensures
        h@ == salt@ + nonce@,
{
    let mut h = slice_to_vec(salt.as_slice());
    let mut n = slice_to_vec(nonce.as_slice());
    h.append(&mut n);
    h
}

/// Encrypts an input of known length, block by block.
pub struct Encryptor {
    cryptor: Cryptor,
    salt: [u8; 32],
    total: u64,
    consumed: u64,
    password: Ghost<Seq<char>>,
    input: Ghost<Seq<u8>>,
}

impl Encryptor {
    /// The password the key was derived from.
    pub closed spec fn password(&self) -> Seq<char> {
        self.password@
    }

    /// The salt of the container.
    pub closed spec fn salt(&self) -> Seq<u8> {
        self.salt@
    }

    /// The nonce of the container.
    pub closed spec fn nonce(&self) -> Seq<u8> {
        self.cryptor.spec_nonce()
    }

    /// The recorded length of the input.
    pub closed spec fn total(&self) -> nat {
        self.total as nat
    }

    /// The input taken in so far.
    pub closed spec fn input(&self) -> Seq<u8> {
        self.input@
    }

    /// Whether the key has been overwritten with zeros.
    pub closed spec fn key_wiped(&self) -> bool {
        self.cryptor.key_wiped()
    }

    /// Everything handed out so far: the header, then the seals of the blocks taken in.
    pub open spec fn output(&self) -> Seq<u8> {
        self.salt() + self.nonce() + sealed_body(password_key(self.password(), self.salt()), self.nonce(), self.input())
    }

    /// The encryptor's internal consistency.
    pub closed spec fn wf(&self) -> bool {
        &&& self.consumed as nat == self.input@.len()
        &&& self.consumed <= self.total
        &&& (self.input@.len() % (BLOCK_SIZE as nat) == 0 || self.consumed == self.total)
        &&& (self.consumed < self.total ==> self.cryptor.spec_key() == password_key(self.password@, self.salt@))
        &&& (self.consumed == self.total ==> self.cryptor.key_wiped())
        &&& self.cryptor.spec_nonce().len() == NONCE_SIZE
        &&& password_accepted(self.password@)
        &&& blocks_sealed_exactly(password_key(self.password@, self.salt@), self.cryptor.spec_nonce(), self.input@)
    }

    proof fn lemma_output_is_container(&self)
        requires
            self.wf(),
        ensures
            is_container_of(self.password(), self.input(), self.output()),
    {
        lemma_container_parts(
            self.salt(),
            self.nonce(),
            sealed_body(password_key(self.password(), self.salt()), self.nonce(), self.input()),
        );
    }

    fn start(
        plaintext_password: String,
        input_salt: Option<[u8; 32]>,
        input_nonce: Option<[u8; 12]>,
        input_len: u64,
    ) -> (r: Result<(Encryptor, Vec<u8>), EncryptError>)
        ensures
            r matches Ok((e, header)) ==> {
                &&& e.wf()
                &&& e.password() == plaintext_password@
                &&& e.total() == input_len
                &&& e.input() == Seq::<u8>::empty()
                &&& header@ == e.output()
                &&& header@ == e.salt() + e.nonce()
                &&& (input_len == 0 ==> e.key_wiped())
                &&& (input_salt matches Some(s) ==> e.salt() == s@)
                &&& (input_nonce matches Some(n) ==> e.nonce() == n@)
            },
            r matches Err(err) ==> err == EncryptError::KeyDerivation || err == EncryptError::Cipher,
            !password_accepted(plaintext_password@) ==> r matches Err(EncryptError::KeyDerivation),
            input_salt is Some && input_nonce is Some && password_accepted(plaintext_password@) ==> r is Ok,
    {
        let ghost password = plaintext_password@;
        let (mut key, salt) = match hash_password(plaintext_password, input_salt) {
            Ok(derived) => derived,
            Err(_) => {
                return Err(EncryptError::KeyDerivation);
            },
        };
        let made = Cryptor::new(key, input_nonce);
        wipe_bytes(&mut key);
        let cryptor = match made {
            Ok(c) => c,
            Err(_) => {
                return Err(EncryptError::Cipher);
            },
        };
        let nonce = cryptor.nonce();
        let header = header_bytes(&salt, &nonce);
        let mut e = Encryptor {
            cryptor,
            salt,
            total: input_len,
            consumed: 0,
            password: Ghost(password),
            input: Ghost(Seq::empty()),
        };
        if input_len == 0 {
            e.cryptor.wipe();
        }
        assert(header@ =~= e.output());
        Ok((e, header))
    }

    /// Starts encrypting an input of `input_len` bytes under a fresh salt and
    /// nonce drawn from the operating system. Also returns the header, which
    /// the container starts with.
    pub fn new(plaintext_password: String, input_len: u64) -> (r: Result<(Encryptor, Vec<u8>), EncryptError>)
        ensures
            r matches Ok((e, header)) ==> {
                &&& e.wf()
                &&& e.password() == plaintext_password@
                &&& e.total() == input_len
                &&& e.input() == Seq::<u8>::empty()
                &&& header@ == e.output()
                &&& header@ == e.salt() + e.nonce()
                &&& (input_len == 0 ==> e.key_wiped())
            },
            r matches Err(err) ==> err == EncryptError::KeyDerivation || err == EncryptError::Cipher,
            !password_accepted(plaintext_password@) ==> r matches Err(EncryptError::KeyDerivation),
    {
        Encryptor::start(plaintext_password, None, None, input_len)
    }

    /// Starts encrypting an input of `input_len` bytes under the given salt and nonce.
    pub fn with_salt_and_nonce(plaintext_password: String, salt: [u8; 32], nonce: [u8; 12], input_len: u64) -> (r: Result<(Encryptor, Vec<u8>), EncryptError>)
        ensures
            r is Ok <==> password_accepted(plaintext_password@),
            r matches Err(err) ==> err == EncryptError::KeyDerivation,
            r matches Ok((e, header)) ==> {
                &&& e.wf()
                &&& e.password() == plaintext_password@
                &&& e.salt() == salt@
                &&& e.nonce() == nonce@
                &&& e.total() == input_len
                &&& e.input() == Seq::<u8>::empty()
                &&& header@ == e.output()
                &&& header@ == salt@ + nonce@
                &&& (input_len == 0 ==> e.key_wiped())
            },
    {
        Encryptor::start(plaintext_password, Some(salt), Some(nonce), input_len)
    }

    /// Length of the next block to read: a whole block, or what is left of
    /// the input when that is less; 0 once the whole input has been taken in.
    pub fn next_block_len(&self) -> (n: usize)
        requires
            self.wf(),
        ensures
            n == first_piece_len(self.total() - self.input().len(), BLOCK_SIZE as int),
            n <= self.total() - self.input().len(),
    {
        let remaining = self.total - self.consumed;
        if remaining < BLOCK_SIZE as u64 {
            remaining as usize
        } else {
            BLOCK_SIZE
        }
    }

    /// Whether the whole input has been taken in.
    pub fn is_finished(&self) -> (b: bool)
        requires
            self.wf(),
        ensures
            b == (self.input().len() == self.total()),
    {
        self.consumed == self.total
    }

    /// Seals the next block of the input and returns the sealed block, which
    /// the container continues with. After the last block the key is wiped.
    pub fn seal_next(&mut self, block: &[u8]) -> (sealed: Vec<u8>)
        requires
            old(self).wf(),
            block@.len() > 0,
            block@.len() == first_piece_len(old(self).total() - old(self).input().len(), BLOCK_SIZE as int),
        ensures
            final(self).wf(),
            final(self).password() == old(self).password(),
            final(self).salt() == old(self).salt(),
            final(self).nonce() == old(self).nonce(),
            final(self).total() == old(self).total(),
            final(self).input() == old(self).input() + block@,
            final(self).output() == old(self).output() + sealed@,
            sealed@.len() == block@.len() + TAG_SIZE,
            is_container_of(final(self).password(), final(self).input(), final(self).output()),
            final(self).input().len() == final(self).total() ==> final(self).key_wiped(),
    {
        let ghost key = password_key(self.password@, self.salt@);
        let ghost nonce = self.cryptor.spec_nonce();
        let ghost before = self.input@;
        let ghost head = self.salt@ + nonce;
        match self.cryptor.encrypt_bytes(block) {
            Ok(sealed) => {
                proof {
                    lemma_sealed_body_push(key, nonce, before, block@);
                    assert(head + (sealed_body(key, nonce, before) + sealed@) =~= (head + sealed_body(key, nonce, before)) + sealed@);
                }
                self.consumed = self.consumed + block.len() as u64;
                self.input = Ghost(before + block@);
                if self.consumed == self.total {
                    self.cryptor.wipe();
                }
                proof {
                    self.lemma_output_is_container();
                }
                sealed
            },
            Err(_) => Vec::new(),
        }
    }

    /// Overwrites the key with zeros, for a caller that abandons the
    /// encryption before its end; no further block can be sealed.
    pub fn wipe_key(&mut self)
        ensures
            final(self).key_wiped(),
            final(self).password() == old(self).password(),
            final(self).salt() == old(self).salt(),
            final(self).nonce() == old(self).nonce(),
            final(self).total() == old(self).total(),
            final(self).input() == old(self).input(),
    {
        self.cryptor.wipe();
    }
}

/// Decrypts a container of known length, sealed block by sealed block.
pub struct Decryptor {
    cryptor: Cryptor,
    salt: [u8; 32],
    total: u64,
    consumed: u64,
    password: Ghost<Seq<char>>,
    body: Ghost<Seq<u8>>,
    plain: Ghost<Seq<u8>>,
}

impl Decryptor {
    /// The password the key was derived from.
    pub closed spec fn password(&self) -> Seq<char> {
        self.password@
    }

    /// The salt read from the container's header.
    pub closed spec fn salt(&self) -> Seq<u8> {
        self.salt@
    }

    /// The nonce read from the container's header.
    pub closed spec fn nonce(&self) -> Seq<u8> {
        self.cryptor.spec_nonce()
    }

    /// The key that the blocks are opened with.
    pub open spec fn key(&self) -> Seq<u8> {
        password_key(self.password(), self.salt())
    }

    /// The recorded length of the sealed blocks that follow the header.
    pub closed spec fn total(&self) -> nat {
        self.total as nat
    }

    /// The sealed bytes taken in so far.
    pub closed spec fn body(&self) -> Seq<u8> {
        self.body@
    }

    /// The plaintext handed out so far.
    pub closed spec fn plain(&self) -> Seq<u8> {
        self.plain@
    }

    /// Whether the key has been overwritten with zeros.
    pub closed spec fn key_wiped(&self) -> bool {
        self.cryptor.key_wiped()
    }

    /// The decryptor's internal consistency.
    pub closed spec fn wf(&self) -> bool {
        &&& self.consumed as nat == self.body@.len()
        &&& self.consumed <= self.total
        &&& (self.body@.len() % (SEALED_BLOCK_SIZE as nat) == 0 || self.consumed == self.total)
        &&& (self.consumed < self.total ==> self.cryptor.spec_key() == password_key(self.password@, self.salt@))
        &&& (self.consumed == self.total ==> self.cryptor.key_wiped())
        &&& self.cryptor.spec_nonce().len() == NONCE_SIZE
        &&& password_accepted(self.password@)
        &&& open_body(password_key(self.password@, self.salt@), self.cryptor.spec_nonce(), self.body@) == Some(self.plain@)
    }

    /// Starts decrypting a container of `container_len` bytes whose header
    /// (its first `HEADER_SIZE` bytes, or all of it when it is shorter) is
    /// `header`. A container shorter than its header is refused before any
    /// key is derived. The password is wiped once it has been hashed.
    pub fn new(plaintext_password: String, header: &[u8], container_len: u64) -> (r: Result<Decryptor, DecryptError>)
        ensures
            header@.len() != HEADER_SIZE || container_len < HEADER_SIZE ==> r matches Err(DecryptError::Format),
            header@.len() == HEADER_SIZE && container_len >= HEADER_SIZE ==> {
                &&& (r is Ok <==> password_accepted(plaintext_password@))
                &&& (r is Err ==> r matches Err(DecryptError::KeyDerivation))
            },
            r matches Ok(d) ==> {
                &&& d.wf()
                &&& d.password() == plaintext_password@
                &&& d.salt() == salt_of(header@)
                &&& d.nonce() == nonce_of(header@)
                &&& d.total() == container_len - HEADER_SIZE
                &&& d.body() == Seq::<u8>::empty()
                &&& d.plain() == Seq::<u8>::empty()
                &&& (container_len == HEADER_SIZE ==> d.key_wiped())
            },
    {
        if header.len() != HEADER_SIZE || container_len < HEADER_SIZE as u64 {
            let mut password = plaintext_password;
            wipe_string(&mut password);
            return Err(DecryptError::Format);
        }
        let ghost password = plaintext_password@;
        let salt: [u8; 32] = read_array(header, 0);
        let nonce: [u8; 12] = read_array(header, SALT_SIZE);
        let mut key = match hash_password(plaintext_password, Some(salt)) {
            Ok((key, _)) => key,
            Err(_) => {
                return Err(DecryptError::KeyDerivation);
            },
        };
        let made = Cryptor::new(key, Some(nonce));
        wipe_bytes(&mut key);
        let cryptor = match made {
            Ok(c) => c,
            Err(_) => {
                return Err(DecryptError::KeyDerivation);
            },
        };
        let mut d = Decryptor {
            cryptor,
            salt,
            total: container_len - HEADER_SIZE as u64,
            consumed: 0,
            password: Ghost(password),
            body: Ghost(Seq::empty()),
            plain: Ghost(Seq::empty()),
        };
        assert(salt@ =~= salt_of(header@));
        assert(nonce@ =~= nonce_of(header@));
        if container_len == HEADER_SIZE as u64 {
            d.cryptor.wipe();
        }
        Ok(d)
    }

    /// Length of the next sealed block to read: a whole one, or what is left
    /// of the container when that is less; 0 once the whole container has
    /// been taken in.
    pub fn next_block_len(&self) -> (n: usize)
        requires
            self.wf(),
        ensures
            n == first_piece_len(self.total() - self.body().len(), SEALED_BLOCK_SIZE as int),
            n <= self.total() - self.body().len(),
    {
        let remaining = self.total - self.consumed;
        if remaining < SEALED_BLOCK_SIZE as u64 {
            remaining as usize
        } else {
            SEALED_BLOCK_SIZE
        }
    }

    /// Whether the whole container has been taken in.
    pub fn is_finished(&self) -> (b: bool)
        requires
            self.wf(),
        ensures
            b == (self.body().len() == self.total()),
    {
        self.consumed == self.total
    }

    /// Opens the next sealed block and returns its plaintext. After the last
    /// block the key is wiped. When the block does not authenticate, nothing
    /// is returned and the key is wiped: the decryption is over.
    pub fn open_next(&mut self, sealed: &[u8]) -> (r: Result<Vec<u8>, DecryptError>)
        requires
            old(self).wf(),
            sealed@.len() > 0,
            sealed@.len() == first_piece_len(old(self).total() - old(self).body().len(), SEALED_BLOCK_SIZE as int),
        ensures
            r is Ok <==> open_block(old(self).key(), old(self).nonce(), sealed@) is Some,
            r matches Ok(p) ==> {
                &&& final(self).wf()
                &&& final(self).password() == old(self).password()
                &&& final(self).salt() == old(self).salt()
                &&& final(self).nonce() == old(self).nonce()
                &&& final(self).total() == old(self).total()
                &&& final(self).body() == old(self).body() + sealed@
                &&& final(self).plain() == old(self).plain() + p@
                &&& open_block(old(self).key(), old(self).nonce(), sealed@) == Some(p@)
                &&& (final(self).body().len() == final(self).total() ==> final(self).key_wiped())
            },
            r is Err ==> {
                &&& r matches Err(DecryptError::Authentication)
                &&& final(self).key_wiped()
                &&& final(self).password() == old(self).password()
                &&& final(self).salt() == old(self).salt()
                &&& final(self).nonce() == old(self).nonce()
                &&& final(self).total() == old(self).total()
                &&& final(self).body() == old(self).body()
                &&& final(self).plain() == old(self).plain()
            },
            open_body(final(self).key(), final(self).nonce(), final(self).body()) == Some(final(self).plain()),
    {
        let ghost key = password_key(self.password@, self.salt@);
        let ghost nonce = self.cryptor.spec_nonce();
        match self.cryptor.decrypt_bytes(sealed) {
            Ok(plain) => {
                proof {
                    lemma_open_body_split(key, nonce, self.body@, sealed@);
                    lemma_open_body_single(key, nonce, sealed@);
                }
                self.consumed = self.consumed + sealed.len() as u64;
                self.body = Ghost(self.body@ + sealed@);
                self.plain = Ghost(self.plain@ + plain@);
                if self.consumed == self.total {
                    self.cryptor.wipe();
                }
                Ok(plain)
            },
            Err(_) => {
                self.cryptor.wipe();
                Err(DecryptError::Authentication)
            },
        }
    }

    /// Overwrites the key with zeros, for a caller that abandons the
    /// decryption before its end; no further block can be opened.
    pub fn wipe_key(&mut self)
        ensures
            final(self).key_wiped(),
            final(self).password() == old(self).password(),
            final(self).salt() == old(self).salt(),
            final(self).nonce() == old(self).nonce(),
            final(self).total() == old(self).total(),
            final(self).body() == old(self).body(),
            final(self).plain() == old(self).plain(),
    {
        self.cryptor.wipe();
    }
}

/// Takes the whole of `input` into `encryptor`, appending what it hands out to `out`.
fn seal_all(encryptor: &mut Encryptor, input: &[u8], out: &mut Vec<u8>)
    requires
        old(encryptor).wf(),
        old(encryptor).input() == Seq::<u8>::empty(),
        old(encryptor).total() == input@.len(),
        old(out)@ == old(encryptor).output(),
    ensures
        final(encryptor).wf(),
        final(encryptor).password() == old(encryptor).password(),
        final(encryptor).salt() == old(encryptor).salt(),
        final(encryptor).nonce() == old(encryptor).nonce(),
        final(encryptor).input() == input@,
        final(out)@ == final(encryptor).output(),
        is_container_of(final(encryptor).password(), input@, final(out)@),
        final(encryptor).key_wiped(),
{
    let ghost password = encryptor.password();
    let ghost salt = encryptor.salt();
    let ghost nonce = encryptor.nonce();
    let input_len = input.len();
    let mut pos: usize = 0;
    assert(input@.take(0) =~= Seq::<u8>::empty());
    proof {
        encryptor.lemma_output_is_container();
    }
    while !encryptor.is_finished()
        invariant
            encryptor.wf(),
            encryptor.password() == password,
            encryptor.salt() == salt,
            encryptor.nonce() == nonce,
            encryptor.total() == input@.len(),
            input_len == input@.len(),
            pos == encryptor.input().len(),
            encryptor.input() == input@.take(pos as int),
            out@ == encryptor.output(),
            is_container_of(password, encryptor.input(), out@),
        decreases input@.len() - pos,
    {
        let n = encryptor.next_block_len();
        let end = pos + n;
        let block = &input[pos..end];
        let mut sealed = encryptor.seal_next(block);
        out.append(&mut sealed);
        pos = end;
        assert(input@.take(pos as int) =~= input@.take(pos - n) + block@);
    }
    assert(input@.take(pos as int) =~= input@);
}

/// Encrypts `input` under `plaintext_password` into a container, with a fresh
/// salt and nonce drawn from the operating system.
pub fn encrypt_file(input: &[u8], plaintext_password: String) -> (r: Result<Vec<u8>, EncryptError>)
    ensures
        r matches Ok(c) ==> is_container_of(plaintext_password@, input@, c@),
        r matches Ok(c) ==> decrypted(plaintext_password@, c@) == Ok::<Seq<u8>, DecryptError>(input@),
        r matches Ok(c) ==> c@.len() == container_len(input@.len()),
        r matches Err(err) ==> err == EncryptError::KeyDerivation || err == EncryptError::Cipher,
        !password_accepted(plaintext_password@) ==> r matches Err(EncryptError::KeyDerivation),
{
    let ghost password = plaintext_password@;
    let (mut encryptor, mut out) = match Encryptor::new(plaintext_password, input.len() as u64) {
        Ok(started) => started,
        Err(err) => {
            return Err(err);
        },
    };
    seal_all(&mut encryptor, input, &mut out);
    proof {
        lemma_decrypt_inverts_encrypt(password, input@, out@);
        lemma_container_len(password, input@, out@);
    }
    Ok(out)
}

/// Encrypts `input` under `plaintext_password` into a container with the
/// given salt and nonce.
pub fn encrypt_file_with(input: &[u8], plaintext_password: String, salt: [u8; 32], nonce: [u8; 12]) -> (r: Result<Vec<u8>, EncryptError>)
    ensures
        r is Ok <==> password_accepted(plaintext_password@),
        r matches Err(err) ==> err == EncryptError::KeyDerivation,
        r matches Ok(c) ==> c@ == salt@ + nonce@ + sealed_body(password_key(plaintext_password@, salt@), nonce@, input@),
        r matches Ok(c) ==> is_container_of(plaintext_password@, input@, c@),
        r matches Ok(c) ==> decrypted(plaintext_password@, c@) == Ok::<Seq<u8>, DecryptError>(input@),
        r matches Ok(c) ==> c@.len() == container_len(input@.len()),
{
    let ghost password = plaintext_password@;
    let (mut encryptor, mut out) = match Encryptor::with_salt_and_nonce(plaintext_password, salt, nonce, input.len() as u64) {
        Ok(started) => started,
        Err(err) => {
            return Err(err);
        },
    };
    seal_all(&mut encryptor, input, &mut out);
    proof {
        lemma_decrypt_inverts_encrypt(password, input@, out@);
        lemma_container_len(password, input@, out@);
    }
    Ok(out)
}

/// Decrypts `container` under `plaintext_password`. A container shorter than
/// its header fails with `Format` before any key is derived; a sealed block
/// that does not authenticate fails the whole decryption with
/// `Authentication`, and no plaintext is returned.
pub fn decrypt_file(container: &[u8], plaintext_password: String) -> (r: Result<Vec<u8>, DecryptError>)
    ensures
        r matches Ok(d) ==> decrypted(plaintext_password@, container@) == Ok::<Seq<u8>, DecryptError>(d@),
        r matches Err(err) ==> decrypted(plaintext_password@, container@) == Err::<Seq<u8>, DecryptError>(err),
        container@.len() < HEADER_SIZE ==> r matches Err(DecryptError::Format),
{
    let ghost password = plaintext_password@;
    let len = container.len();
    let header_len = if len < HEADER_SIZE { len } else { HEADER_SIZE };
    let header = &container[0..header_len];
    let mut decryptor = match Decryptor::new(plaintext_password, header, len as u64) {
        Ok(d) => d,
        Err(err) => {
            return Err(err);
        },
    };
    proof {
        assert(salt_of(header@) =~= salt_of(container@));
        assert(nonce_of(header@) =~= nonce_of(container@));
    }
    let ghost key = decryptor.key();
    let ghost nonce = decryptor.nonce();
    let ghost body = body_of(container@);
    let mut out: Vec<u8> = Vec::new();
    let mut pos: usize = HEADER_SIZE;
    assert(body.take(0) =~= Seq::<u8>::empty());
    while !decryptor.is_finished()
        invariant
            decryptor.wf(),
            decryptor.key() == key,
            decryptor.nonce() == nonce,
            key == password_key(password, salt_of(container@)),
            nonce == nonce_of(container@),
            password_accepted(password),
            password == plaintext_password@,
            container@.len() == len,
            len >= HEADER_SIZE,
            body == body_of(container@),
            decryptor.total() == body.len(),
            pos == HEADER_SIZE + decryptor.body().len(),
            decryptor.body() == body.take(pos - HEADER_SIZE),
            out@ == decryptor.plain(),
            open_body(key, nonce, decryptor.body()) == Some(out@),
        decreases len - pos,
    {
        let n = decryptor.next_block_len();
        let end = pos + n;
        let chunk = &container[pos..end];
        let ghost done = decryptor.body();
        assert(chunk@ =~= body.subrange(pos - HEADER_SIZE, end - HEADER_SIZE));
        match decryptor.open_next(chunk) {
            Ok(mut plain) => {
                out.append(&mut plain);
                pos = end;
                assert(body.take(pos - HEADER_SIZE) =~= done + chunk@);
            },
            Err(err) => {
                proof {
                    let rest = body.skip(end - HEADER_SIZE);
                    assert(body =~= done + (chunk@ + rest));
                    lemma_open_body_split(key, nonce, done, chunk@ + rest);
                    assert((chunk@ + rest).take(n as int) =~= chunk@);
                    assert((chunk@ + rest).skip(n as int) =~= rest);
                    assert(open_body(key, nonce, chunk@ + rest) == concat_opened(
                        open_block(key, nonce, chunk@),
                        open_body(key, nonce, rest),
                    ));
                    assert(open_block(key, nonce, chunk@) is None);
                    assert(open_body(key, nonce, body) is None);
                    assert(err == DecryptError::Authentication);
                    assert(decryptor.key_wiped());
                }
                return Err(err);
            },
        }
    }
    assert(body.take(pos - HEADER_SIZE) =~= body);
    assert(decryptor.key_wiped());
    Ok(out)
}

} // verus!
