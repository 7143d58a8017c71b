//! Password-based file encryption: a key is stretched from a password with
//! Argon2id, the data is sealed block by block with ChaCha20-Poly1305, and the
//! result is laid out as a container (salt, nonce, sealed blocks).
pub mod cryptor;
pub mod encryption;
pub mod error;
pub mod format;
pub mod primitives;
