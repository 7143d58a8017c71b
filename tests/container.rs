use file_crypt::encryption::{decrypt_file, encrypt_file, encrypt_file_with, Decryptor, Encryptor};
use file_crypt::error::DecryptError;
use file_crypt::format::{BLOCK_SIZE, HEADER_SIZE, SEALED_BLOCK_SIZE, TAG_SIZE};

fn sample(len: usize) -> Vec<u8> {
    (0..len).map(|i| (i * 31 + 7) as u8).collect()
}

fn round_trip(len: usize) {
    let data = sample(len);
    let container = encrypt_file(&data, "correct horse".to_string()).unwrap();
    let blocks = (len + BLOCK_SIZE - 1) / BLOCK_SIZE;
    assert_eq!(container.len(), HEADER_SIZE + len + TAG_SIZE * blocks);
    let back = decrypt_file(&container, "correct horse".to_string()).unwrap();
    assert_eq!(back, data);
}

#[test]
fn round_trip_empty() {
    round_trip(0);
}

#[test]
fn round_trip_one_byte() {
    round_trip(1);
}

#[test]
fn round_trip_block_minus_one() {
    round_trip(BLOCK_SIZE - 1);
}

#[test]
fn round_trip_exact_block() {
    round_trip(BLOCK_SIZE);
}

#[test]
fn round_trip_block_plus_one() {
    round_trip(BLOCK_SIZE + 1);
}

#[test]
fn round_trip_multiple_of_block() {
    round_trip(3 * BLOCK_SIZE);
}

#[test]
fn round_trip_blocks_and_remainder() {
    round_trip(2 * BLOCK_SIZE + 1000);
}

#[test]
fn round_trip_non_ascii_password() {
    let data = sample(5000);
    let container = encrypt_file(&data, "pässwörd ✓".to_string()).unwrap();
    assert_eq!(decrypt_file(&container, "pässwörd ✓".to_string()).unwrap(), data);
}

#[test]
fn empty_file_gives_header_only_container() {
    let container = encrypt_file(&[], "pw".to_string()).unwrap();
    assert_eq!(container.len(), 44);
    let back = decrypt_file(&container, "pw".to_string()).unwrap();
    assert_eq!(back.len(), 0);
}

#[test]
fn exact_block_container_size() {
    let data = sample(BLOCK_SIZE);
    let container = encrypt_file(&data, "pw".to_string()).unwrap();
    assert_eq!(container.len(), 44 + BLOCK_SIZE + 16);
}

#[test]
fn wrong_password_fails_authentication() {
    let data = sample(100);
    let container = encrypt_file(&data, "right".to_string()).unwrap();
    assert_eq!(decrypt_file(&container, "wrong".to_string()), Err(DecryptError::Authentication));
}

#[test]
fn flipped_bits_fail_authentication() {
    let data = sample(BLOCK_SIZE + 500);
    let salt = [9u8; 32];
    let nonce = [4u8; 12];
    let container = encrypt_file_with(&data, "pw".to_string(), salt, nonce).unwrap();
    let positions = [
        HEADER_SIZE,
        HEADER_SIZE + 1234,
        HEADER_SIZE + SEALED_BLOCK_SIZE - 1,
        HEADER_SIZE + SEALED_BLOCK_SIZE,
        container.len() - 1,
    ];
    for (k, &pos) in positions.iter().enumerate() {
        let mut tampered = container.clone();
        tampered[pos] ^= 1u8 << (k % 8);
        assert_eq!(decrypt_file(&tampered, "pw".to_string()), Err(DecryptError::Authentication));
    }
}

#[test]
fn truncated_header_fails_with_format() {
    let container = encrypt_file(&sample(10), "pw".to_string()).unwrap();
    for len in [0usize, 1, 20, 43] {
        assert_eq!(decrypt_file(&container[..len], "pw".to_string()), Err(DecryptError::Format));
    }
}

#[test]
fn cut_sealed_block_fails_authentication() {
    let container = encrypt_file(&sample(300), "pw".to_string()).unwrap();
    let cut = &container[..container.len() - 5];
    assert_eq!(decrypt_file(cut, "pw".to_string()), Err(DecryptError::Authentication));
}

#[test]
fn appended_bytes_fail_authentication() {
    let mut container = encrypt_file(&sample(300), "pw".to_string()).unwrap();
    container.extend_from_slice(&[1, 2, 3]);
    assert_eq!(decrypt_file(&container, "pw".to_string()), Err(DecryptError::Authentication));
}

#[test]
fn encrypting_twice_draws_new_salt_and_nonce() {
    let data = sample(2000);
    let a = encrypt_file(&data, "pw".to_string()).unwrap();
    let b = encrypt_file(&data, "pw".to_string()).unwrap();
    assert_eq!(a.len(), b.len());
    assert_ne!(a[..32], b[..32]);
    assert_ne!(a[32..44], b[32..44]);
    assert_ne!(a[44..], b[44..]);
    assert_eq!(decrypt_file(&a, "pw".to_string()).unwrap(), data);
    assert_eq!(decrypt_file(&b, "pw".to_string()).unwrap(), data);
}

#[test]
fn container_with_given_salt_and_nonce() {
    let data = sample(70);
    let salt = [1u8; 32];
    let nonce = [2u8; 12];
    let c1 = encrypt_file_with(&data, "pw".to_string(), salt, nonce).unwrap();
    let c2 = encrypt_file_with(&data, "pw".to_string(), salt, nonce).unwrap();
    assert_eq!(c1, c2);
    assert_eq!(c1[..32], salt);
    assert_eq!(c1[32..44], nonce);
    assert_eq!(c1.len(), 44 + 70 + 16);
    assert_ne!(c1[44..44 + 70], data[..]);
    assert_eq!(decrypt_file(&c1, "pw".to_string()).unwrap(), data);
}

#[test]
fn other_salt_gives_other_ciphertext() {
    let data = sample(64);
    let c1 = encrypt_file_with(&data, "pw".to_string(), [1u8; 32], [2u8; 12]).unwrap();
    let c2 = encrypt_file_with(&data, "pw".to_string(), [3u8; 32], [2u8; 12]).unwrap();
    assert_ne!(c1[44..], c2[44..]);
}

#[test]
fn block_sizes_follow_recorded_length() {
    let data = sample(2 * BLOCK_SIZE + 10);
    let (mut enc, header) = Encryptor::with_salt_and_nonce("pw".to_string(), [5u8; 32], [6u8; 12], data.len() as u64).unwrap();
    assert_eq!(header.len(), HEADER_SIZE);
    let mut container = header;
    let mut pos = 0usize;
    let mut sizes = Vec::new();
    while !enc.is_finished() {
        let n = enc.next_block_len();
        sizes.push(n);
        let sealed = enc.seal_next(&data[pos..pos + n]);
        assert_eq!(sealed.len(), n + TAG_SIZE);
        container.extend_from_slice(&sealed);
        pos += n;
    }
    assert_eq!(sizes, vec![BLOCK_SIZE, BLOCK_SIZE, 10]);
    assert_eq!(enc.next_block_len(), 0);
    let whole = encrypt_file_with(&data, "pw".to_string(), [5u8; 32], [6u8; 12]).unwrap();
    assert_eq!(container, whole);

    let mut dec = Decryptor::new("pw".to_string(), &container[..HEADER_SIZE], container.len() as u64).unwrap();
    let mut pos = HEADER_SIZE;
    let mut plain = Vec::new();
    let mut chunk_sizes = Vec::new();
    while !dec.is_finished() {
        let n = dec.next_block_len();
        chunk_sizes.push(n);
        let p = dec.open_next(&container[pos..pos + n]).unwrap();
        plain.extend_from_slice(&p);
        pos += n;
    }
    assert_eq!(chunk_sizes, vec![SEALED_BLOCK_SIZE, SEALED_BLOCK_SIZE, 10 + TAG_SIZE]);
    assert_eq!(plain, data);
}

#[test]
fn decryptor_refuses_short_container() {
    let header = [0u8; 44];
    assert!(matches!(Decryptor::new("pw".to_string(), &header, 43), Err(DecryptError::Format)));
    assert!(matches!(Decryptor::new("pw".to_string(), &header[..40], 40), Err(DecryptError::Format)));
}

#[test]
fn decryptor_stops_at_bad_block() {
    let data = sample(BLOCK_SIZE + 3);
    let mut container = encrypt_file_with(&data, "pw".to_string(), [7u8; 32], [8u8; 12]).unwrap();
    let last = container.len() - 2;
    container[last] ^= 0x80;
    let mut dec = Decryptor::new("pw".to_string(), &container[..HEADER_SIZE], container.len() as u64).unwrap();
    let first = dec.next_block_len();
    assert!(dec.open_next(&container[HEADER_SIZE..HEADER_SIZE + first]).is_ok());
    let second = dec.next_block_len();
    let start = HEADER_SIZE + first;
    assert_eq!(dec.open_next(&container[start..start + second]), Err(DecryptError::Authentication));
    assert!(!dec.is_finished());
}

