//! The container format: a 44-byte header (32-byte salt, then 12-byte nonce)
//! followed by the data's blocks, each sealed with ChaCha20-Poly1305 under the
//! key derived from the password and the salt, and under the one nonce.
use crate::error::DecryptError;
use crate::primitives::{argon2id_key, chacha20poly1305_seal, within_cipher_limit, MAX_PASSWORD_LEN};
use vstd::prelude::*;
use vstd::utf8::encode_utf8;

verus! {

/// Plaintext bytes sealed at a time.
pub const BLOCK_SIZE: usize = 32768;

/// Bytes of authentication tag that the cipher appends to each sealed block.
pub const TAG_SIZE: usize = 16;

/// Length of a sealed block of `BLOCK_SIZE` plaintext bytes.
pub const SEALED_BLOCK_SIZE: usize = BLOCK_SIZE + TAG_SIZE;

/// Length of the salt at the start of a container.
pub const SALT_SIZE: usize = 32;

/// Length of the nonce that follows the salt.
pub const NONCE_SIZE: usize = 12;

/// Length of a container's header: salt, then nonce.
pub const HEADER_SIZE: usize = SALT_SIZE + NONCE_SIZE;

/// Length of the first piece of `len` bytes cut into pieces of `size` bytes.
pub open spec fn first_piece_len(len: int, size: int) -> int {
    if len < size {
        len
    } else {
        size
    }
}

/// Number of blocks that `len` bytes of data make.
pub open spec fn block_count(len: nat) -> nat {
    ((len + BLOCK_SIZE - 1) / (BLOCK_SIZE as int)) as nat
}

/// Length of the container for `len` bytes of data.
pub open spec fn container_len(len: nat) -> nat {
    (HEADER_SIZE + len + TAG_SIZE * block_count(len)) as nat
}

/// The seals of the blocks of `data`, one after the other: `data` is cut into
/// blocks of `BLOCK_SIZE` bytes, the last one possibly shorter.
pub open spec fn sealed_body(key: Seq<u8>, nonce: Seq<u8>, data: Seq<u8>) -> Seq<u8>
    decreases data.len(),
{
    if data.len() == 0 {
        Seq::empty()
    } else {
        let n = first_piece_len(data.len() as int, BLOCK_SIZE as int);
        chacha20poly1305_seal(key, nonce, data.take(n)) + sealed_body(key, nonce, data.skip(n))
    }
}

/// What the cipher guarantees of the seal of `block`: it is the block's length
/// plus the tag, and no other message within the cipher's limit seals to it.
pub open spec fn seal_is_exact(key: Seq<u8>, nonce: Seq<u8>, block: Seq<u8>) -> bool {
    &&& chacha20poly1305_seal(key, nonce, block).len() == block.len() + TAG_SIZE
    &&& forall|q: Seq<u8>|
        #![trigger chacha20poly1305_seal(key, nonce, q)]
        within_cipher_limit(q.len() as int) && chacha20poly1305_seal(key, nonce, q)
            == chacha20poly1305_seal(key, nonce, block) ==> q == block
}

/// Every block of `data` was sealed exactly (see `seal_is_exact`).
pub open spec fn blocks_sealed_exactly(key: Seq<u8>, nonce: Seq<u8>, data: Seq<u8>) -> bool
    decreases data.len(),
{
    if data.len() == 0 {
        true
    } else {
        let n = first_piece_len(data.len() as int, BLOCK_SIZE as int);
        seal_is_exact(key, nonce, data.take(n)) && blocks_sealed_exactly(key, nonce, data.skip(n))
    }
}

/// `sealed` is the seal of the message `p` under key and nonce.
pub open spec fn opens_to(key: Seq<u8>, nonce: Seq<u8>, sealed: Seq<u8>, p: Seq<u8>) -> bool {
    within_cipher_limit(p.len() as int) && chacha20poly1305_seal(key, nonce, p) == sealed
}

/// The message that `sealed` opens to under key and nonce, if there is one.
pub open spec fn open_block(key: Seq<u8>, nonce: Seq<u8>, sealed: Seq<u8>) -> Option<Seq<u8>> {
    if exists|p: Seq<u8>| opens_to(key, nonce, sealed, p) {
        Some(choose|p: Seq<u8>| opens_to(key, nonce, sealed, p))
    } else {
        None
    }
}

/// Both pieces, one after the other, when both opened.
pub open spec fn concat_opened(a: Option<Seq<u8>>, b: Option<Seq<u8>>) -> Option<Seq<u8>> {
    match (a, b) {
        (Some(x), Some(y)) => Some(x + y),
        _ => None,
    }
}

/// The data that a container's body opens to: the body is cut into chunks of
/// `SEALED_BLOCK_SIZE` bytes, the last one possibly shorter, and each chunk
/// must open; `None` when one of them does not.
pub open spec fn open_body(key: Seq<u8>, nonce: Seq<u8>, body: Seq<u8>) -> Option<Seq<u8>>
    decreases body.len(),
{
    if body.len() == 0 {
        Some(Seq::empty())
    } else {
        let n = first_piece_len(body.len() as int, SEALED_BLOCK_SIZE as int);
        concat_opened(open_block(key, nonce, body.take(n)), open_body(key, nonce, body.skip(n)))
    }
}

/// The bytes that the password hasher receives for `password`: its UTF-8 encoding.
pub open spec fn password_bytes(password: Seq<char>) -> Seq<u8> {
    encode_utf8(password)
}

/// Whether the password hasher accepts `password`.
pub open spec fn password_accepted(password: Seq<char>) -> bool {
    password_bytes(password).len() <= MAX_PASSWORD_LEN
}

/// The key derived from `password` and `salt`.
pub open spec fn password_key(password: Seq<char>, salt: Seq<u8>) -> Seq<u8> {
    argon2id_key(password_bytes(password), salt)
}

/// The salt that a container starts with.
pub open spec fn salt_of(container: Seq<u8>) -> Seq<u8> {
    container.take(SALT_SIZE as int)
}

/// The nonce that follows the salt.
pub open spec fn nonce_of(container: Seq<u8>) -> Seq<u8> {
    container.subrange(SALT_SIZE as int, HEADER_SIZE as int)
}

/// The sealed blocks that follow the header.
pub open spec fn body_of(container: Seq<u8>) -> Seq<u8> {
    container.skip(HEADER_SIZE as int)
}

/// `container` is an encryption of `data` under `password`: a header, then the
/// blocks of `data` sealed under the key of the header's salt and under its
/// nonce, each seal as the cipher made it.
pub open spec fn is_container_of(password: Seq<char>, data: Seq<u8>, container: Seq<u8>) -> bool {
    let key = password_key(password, salt_of(container));
    &&& password_accepted(password)
    &&& container.len() >= HEADER_SIZE
    &&& body_of(container) == sealed_body(key, nonce_of(container), data)
    &&& blocks_sealed_exactly(key, nonce_of(container), data)
}

/// What decryption of `container` under `password` gives.
pub open spec fn decrypted(password: Seq<char>, container: Seq<u8>) -> Result<Seq<u8>, DecryptError> {
    if container.len() < HEADER_SIZE {
        Err(DecryptError::Format)
    } else if !password_accepted(password) {
        Err(DecryptError::KeyDerivation)
    } else {
        match open_body(password_key(password, salt_of(container)), nonce_of(container), body_of(container)) {
            Some(d) => Ok(d),
            None => Err(DecryptError::Authentication),
        }
    }
}

/// A header made of `salt` and `nonce`, followed by `body`, splits back into its parts.
pub proof fn lemma_container_parts(salt: Seq<u8>, nonce: Seq<u8>, body: Seq<u8>)
    requires
        salt.len() == SALT_SIZE,
        nonce.len() == NONCE_SIZE,
    ensures
        salt_of(salt + nonce + body) == salt,
        nonce_of(salt + nonce + body) == nonce,
        body_of(salt + nonce + body) == body,
        (salt + nonce + body).len() == HEADER_SIZE + body.len(),
{
    let c = salt + nonce + body;
    assert(salt_of(c) =~= salt);
    assert(nonce_of(c) =~= nonce);
    assert(body_of(c) =~= body);
}

/// Sealing `a` followed by one more block `b` appends the seal of `b`, when
/// `a` is made of whole blocks.
pub proof fn lemma_sealed_body_push(key: Seq<u8>, nonce: Seq<u8>, a: Seq<u8>, b: Seq<u8>)
    requires
        a.len() % (BLOCK_SIZE as nat) == 0,
        0 < b.len() <= BLOCK_SIZE,
    ensures
        sealed_body(key, nonce, a + b) == sealed_body(key, nonce, a) + chacha20poly1305_seal(key, nonce, b),
        blocks_sealed_exactly(key, nonce, a + b)
            == (blocks_sealed_exactly(key, nonce, a) && seal_is_exact(key, nonce, b)),
    decreases a.len(),
{
    let n = BLOCK_SIZE as int;
    if a.len() == 0 {
        assert(a + b =~= b);
        assert(b.take(b.len() as int) =~= b);
        assert(b.skip(b.len() as int) =~= Seq::<u8>::empty());
        assert(sealed_body(key, nonce, b.skip(b.len() as int)) == Seq::<u8>::empty());
        assert(blocks_sealed_exactly(key, nonce, b.skip(b.len() as int)));
        assert(chacha20poly1305_seal(key, nonce, b) + Seq::<u8>::empty() =~= chacha20poly1305_seal(key, nonce, b));
        assert(Seq::<u8>::empty() + chacha20poly1305_seal(key, nonce, b) =~= chacha20poly1305_seal(key, nonce, b));
    } else {
        let ab = a + b;
        assert(ab.take(n) =~= a.take(n));
        assert(ab.skip(n) =~= a.skip(n) + b);
        lemma_sealed_body_push(key, nonce, a.skip(n), b);
        let head = chacha20poly1305_seal(key, nonce, a.take(n));
        let rest = sealed_body(key, nonce, a.skip(n));
        assert(head + (rest + chacha20poly1305_seal(key, nonce, b)) =~= (head + rest) + chacha20poly1305_seal(key, nonce, b));
    }
}

/// The seals of exactly sealed blocks take the data's length plus one tag per block.
pub proof fn lemma_sealed_body_len(key: Seq<u8>, nonce: Seq<u8>, data: Seq<u8>)
    requires
        blocks_sealed_exactly(key, nonce, data),
    ensures
        sealed_body(key, nonce, data).len() == data.len() + TAG_SIZE * block_count(data.len()),
    decreases data.len(),
{
    if data.len() > 0 {
        let n = first_piece_len(data.len() as int, BLOCK_SIZE as int);
        lemma_sealed_body_len(key, nonce, data.skip(n));
        assert(block_count(data.len()) == 1 + block_count(data.skip(n).len()));
    }
}

/// A single chunk of at most `SEALED_BLOCK_SIZE` bytes opens as its one block.
pub proof fn lemma_open_body_single(key: Seq<u8>, nonce: Seq<u8>, c: Seq<u8>)
    requires
        0 < c.len() <= SEALED_BLOCK_SIZE,
    ensures
        open_body(key, nonce, c) == open_block(key, nonce, c),
{
    assert(c.take(c.len() as int) =~= c);
    assert(c.skip(c.len() as int) =~= Seq::<u8>::empty());
    assert(open_body(key, nonce, c.skip(c.len() as int)) == Some(Seq::<u8>::empty()));
    if let Some(p) = open_block(key, nonce, c) {
        assert(p + Seq::<u8>::empty() =~= p);
    }
}

/// The seal of an exactly sealed block opens back to that block.
pub proof fn lemma_open_exact_seal(key: Seq<u8>, nonce: Seq<u8>, block: Seq<u8>)
    requires
        seal_is_exact(key, nonce, block),
        within_cipher_limit(block.len() as int),
    ensures
        open_block(key, nonce, chacha20poly1305_seal(key, nonce, block)) == Some(block),
{
    let sealed = chacha20poly1305_seal(key, nonce, block);
    assert(opens_to(key, nonce, sealed, block));
    let p = choose|p: Seq<u8>| opens_to(key, nonce, sealed, p);
    assert(chacha20poly1305_seal(key, nonce, p) == sealed);
}

/// A body whose first part is made of whole chunks opens as its two parts do.
pub proof fn lemma_open_body_split(key: Seq<u8>, nonce: Seq<u8>, a: Seq<u8>, b: Seq<u8>)
    requires
        a.len() % (SEALED_BLOCK_SIZE as nat) == 0,
    ensures
        open_body(key, nonce, a + b) == concat_opened(open_body(key, nonce, a), open_body(key, nonce, b)),
    decreases a.len(),
{
    let n = SEALED_BLOCK_SIZE as int;
    if a.len() == 0 {
        assert(a + b =~= b);
        if let Some(y) = open_body(key, nonce, b) {
            assert(Seq::<u8>::empty() + y =~= y);
        }
    } else {
        let ab = a + b;
        let len = a.len() as int;
        assert(len >= n) by (nonlinear_arith)
            requires
                len % n == 0,
                len > 0,
                n > 0,
        {
        }
        assert((len - n) % n == 0) by (nonlinear_arith)
            requires
                len % n == 0,
                len >= n,
                n > 0,
        {
            vstd::arithmetic::div_mod::lemma_mod_sub_multiples_vanish(len, n);
        }
        assert(ab.take(n) =~= a.take(n));
        assert(ab.skip(n) =~= a.skip(n) + b);
        lemma_open_body_split(key, nonce, a.skip(n), b);
        let x = open_block(key, nonce, a.take(n));
        let y = open_body(key, nonce, a.skip(n));
        let z = open_body(key, nonce, b);
        if x is Some && y is Some && z is Some {
            let (xs, ys, zs) = (x->0, y->0, z->0);
            assert(xs + (ys + zs) =~= (xs + ys) + zs);
        }
    }
}

/// The seals of exactly sealed blocks open back to the data.
pub proof fn lemma_open_sealed_body(key: Seq<u8>, nonce: Seq<u8>, data: Seq<u8>)
    requires
        blocks_sealed_exactly(key, nonce, data),
    ensures
        open_body(key, nonce, sealed_body(key, nonce, data)) == Some(data),
    decreases data.len(),
{
    if data.len() == 0 {
        assert(data =~= Seq::<u8>::empty());
    } else {
        let n = first_piece_len(data.len() as int, BLOCK_SIZE as int);
        let block = data.take(n);
        let rest = data.skip(n);
        let head = chacha20poly1305_seal(key, nonce, block);
        let tail = sealed_body(key, nonce, rest);
        let body = sealed_body(key, nonce, data);
        assert(body == head + tail);
        lemma_sealed_body_len(key, nonce, rest);
        assert(first_piece_len(body.len() as int, SEALED_BLOCK_SIZE as int) == head.len());
        assert(body.take(head.len() as int) =~= head);
        assert(body.skip(head.len() as int) =~= tail);
        lemma_open_exact_seal(key, nonce, block);
        lemma_open_sealed_body(key, nonce, rest);
        assert(block + rest =~= data);
    }
}

/// Decryption inverts encryption: a container that encryption of `data` under
/// `password` produced, whatever salt and nonce it drew, decrypts under the
/// same password to `data`.
pub proof fn lemma_decrypt_inverts_encrypt(password: Seq<char>, data: Seq<u8>, container: Seq<u8>)
    requires
        is_container_of(password, data, container),
    ensures
        decrypted(password, container) == Ok::<Seq<u8>, DecryptError>(data),
{
    let key = password_key(password, salt_of(container));
    lemma_open_sealed_body(key, nonce_of(container), data);
}

/// A container is as long as its header, the data, and one tag per block of data.
pub proof fn lemma_container_len(password: Seq<char>, data: Seq<u8>, container: Seq<u8>)
    requires
        is_container_of(password, data, container),
    ensures
        container.len() == container_len(data.len()),
{
    let key = password_key(password, salt_of(container));
    lemma_sealed_body_len(key, nonce_of(container), data);
}

} // verus!
