use vortex_core::encryption::aad;
use vortex_core::encryption::decrypt_segment;
use vortex_core::encryption::encrypt_segment;
use vortex_core::encryption::encrypt_segment_with_nonce;
use vortex_core::encryption::EncryptionError;
use vortex_core::encryption::SegmentEncryptionKey;

fn key(byte: u8, len: usize) -> SegmentEncryptionKey {
    SegmentEncryptionKey::try_new(vec![byte; len]).unwrap()
}

#[test]
fn roundtrip_aes128() {
    let key = SegmentEncryptionKey::try_new(vec![7u8; 16]).unwrap();
    let plain = b"vortex segment bytes";
    let enc = encrypt_segment(&key, plain, 64, 3).unwrap();
    let dec = decrypt_segment(&key, enc.as_slice(), 64, 3).unwrap();
    assert_eq!(dec.as_slice(), plain);
}

#[test]
fn wrong_key_fails() {
    let key = SegmentEncryptionKey::try_new(vec![7u8; 16]).unwrap();
    let other = SegmentEncryptionKey::try_new(vec![8u8; 16]).unwrap();
    let enc = encrypt_segment(&key, b"secret", 0, 0).unwrap();
    assert!(decrypt_segment(&other, enc.as_slice(), 0, 0).is_err());
}

#[test]
fn roundtrip_aes256() {
    let key = key(9, 32);
    let enc = encrypt_segment(&key, b"another segment", 4096, 17).unwrap();
    assert_eq!(enc.len(), 12 + 15 + 16);
    assert_eq!(decrypt_segment(&key, &enc, 4096, 17).unwrap(), b"another segment");
}

#[test]
fn locator_is_authenticated() {
    let key = key(7, 16);
    let enc = encrypt_segment(&key, b"payload", 64, 3).unwrap();
    assert_eq!(decrypt_segment(&key, &enc, 65, 3), Err(EncryptionError::DecryptFailed));
    assert_eq!(decrypt_segment(&key, &enc, 64, 4), Err(EncryptionError::DecryptFailed));
}

#[test]
fn altered_bytes_are_refused() {
    let key = key(7, 32);
    let enc = encrypt_segment(&key, b"payload", 0, 0).unwrap();
    for i in 0..enc.len() {
        let mut bad = enc.clone();
        bad[i] ^= 1;
        assert_eq!(decrypt_segment(&key, &bad, 0, 0), Err(EncryptionError::DecryptFailed));
    }
}

#[test]
fn short_buffers_are_refused() {
    assert_eq!(decrypt_segment(&key(1, 16), &[0u8; 27], 0, 0), Err(EncryptionError::TooShort));
    assert_eq!(decrypt_segment(&key(1, 16), &[0u8; 28], 0, 0), Err(EncryptionError::DecryptFailed));
}

#[test]
fn key_lengths() {
    for len in 0..40usize {
        match SegmentEncryptionKey::try_new(vec![3u8; len]) {
            Ok(key) => {
                assert!(len == 16 || len == 32);
                assert_eq!(key.as_bytes(), vec![3u8; len].as_slice());
                assert_eq!(key.clone().as_bytes(), key.as_bytes());
            }
            Err(e) => {
                assert!(len != 16 && len != 32);
                assert_eq!(e, EncryptionError::KeyLength(len));
            }
        }
    }
}

#[test]
fn associated_data_layout() {
    assert_eq!(
        aad(0x0807_0605_0403_0201, 0x0c0b_0a09, 0x100f_0e0d),
        [1, 2, 3, 4, 5, 6, 7, 8, 9, 10, 11, 12, 13, 14, 15, 16]
    );
    assert_ne!(aad(1, 2, 3), aad(1, 3, 2));
}

#[test]
fn given_nonce_is_stored_first_and_decides_the_ciphertext() {
    let key = key(0, 16);
    let a = encrypt_segment_with_nonce(&key, &[1u8; 12], b"abc", 0, 0).unwrap();
    let b = encrypt_segment_with_nonce(&key, &[1u8; 12], b"abc", 0, 0).unwrap();
    let c = encrypt_segment_with_nonce(&key, &[2u8; 12], b"abc", 0, 0).unwrap();
    assert_eq!(a, b);
    assert_eq!(a[..12], [1u8; 12]);
    assert_ne!(a[12..], c[12..]);
    assert_ne!(&a[12..15], b"abc");
    assert_eq!(decrypt_segment(&key, &c, 0, 0).unwrap(), b"abc");
}

#[test]
fn nonces_differ_between_segments() {
    let key = key(7, 16);
    let a = encrypt_segment(&key, b"same", 0, 0).unwrap();
    let b = encrypt_segment(&key, b"same", 0, 0).unwrap();
    assert_ne!(a[..12], b[..12]);
}
