use file_crypt::cryptor::{hash_password, Cryptor};

#[test]
fn derivation_is_deterministic() {
    let salt = [42u8; 32];
    let (k1, s1) = hash_password("hunter2".to_string(), Some(salt)).unwrap();
    let (k2, s2) = hash_password("hunter2".to_string(), Some(salt)).unwrap();
    assert_eq!(k1, k2);
    assert_eq!(s1, salt);
    assert_eq!(s2, salt);
}

#[test]
fn derivation_depends_on_salt_and_password() {
    let (k1, _) = hash_password("hunter2".to_string(), Some([1u8; 32])).unwrap();
    let (k2, _) = hash_password("hunter2".to_string(), Some([2u8; 32])).unwrap();
    let (k3, _) = hash_password("hunter3".to_string(), Some([1u8; 32])).unwrap();
    assert_ne!(k1, k2);
    assert_ne!(k1, k3);
}

#[test]
fn fresh_salt_recreates_same_key() {
    let (k1, salt) = hash_password("pw".to_string(), None).unwrap();
    let (k2, _) = hash_password("pw".to_string(), Some(salt)).unwrap();
    assert_eq!(k1, k2);
    let (_, other_salt) = hash_password("pw".to_string(), None).unwrap();
    assert_ne!(salt, other_salt);
}

#[test]
fn cryptor_keeps_given_nonce() {
    let c = Cryptor::new([3u8; 32], Some([9u8; 12])).unwrap();
    assert_eq!(c.nonce(), [9u8; 12]);
    let d = Cryptor::new([3u8; 32], None).unwrap();
    let e = Cryptor::new([3u8; 32], None).unwrap();
    assert_ne!(d.nonce(), e.nonce());
}

#[test]
fn cryptor_seals_and_opens() {
    let c = Cryptor::new([3u8; 32], Some([9u8; 12])).unwrap();
    let msg = b"attack at dawn".to_vec();
    let sealed = c.encrypt_bytes(&msg).unwrap();
    assert_eq!(sealed.len(), msg.len() + 16);
    assert_ne!(sealed[..msg.len()], msg[..]);
    assert_eq!(c.decrypt_bytes(&sealed).unwrap(), msg);
    assert_eq!(c.encrypt_bytes(&[]).unwrap().len(), 16);
}

#[test]
fn cryptor_rejects_tampering_and_other_keys() {
    let c = Cryptor::new([3u8; 32], Some([9u8; 12])).unwrap();
    let sealed = c.encrypt_bytes(b"attack at dawn").unwrap();
    let mut tampered = sealed.clone();
    tampered[0] ^= 1;
    assert!(c.decrypt_bytes(&tampered).is_err());
    assert!(c.decrypt_bytes(&sealed[..10]).is_err());
    let other_key = Cryptor::new([4u8; 32], Some([9u8; 12])).unwrap();
    assert!(other_key.decrypt_bytes(&sealed).is_err());
    let other_nonce = Cryptor::new([3u8; 32], Some([8u8; 12])).unwrap();
    assert!(other_nonce.decrypt_bytes(&sealed).is_err());
}

#[test]
fn wiped_cryptor_no_longer_opens() {
    let mut c = Cryptor::new([3u8; 32], Some([9u8; 12])).unwrap();
    let sealed = c.encrypt_bytes(b"attack at dawn").unwrap();
    c.wipe();
    assert!(c.decrypt_bytes(&sealed).is_err());
    assert_eq!(c.nonce(), [9u8; 12]);
    let zero_key = Cryptor::new([0u8; 32], Some([9u8; 12])).unwrap();
    assert_eq!(c.encrypt_bytes(b"x").unwrap(), zero_key.encrypt_bytes(b"x").unwrap());
}
