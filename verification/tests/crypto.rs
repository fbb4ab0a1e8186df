use spotr::config::Config;
use spotr::crypto::{Encrypted, MasterKey, KEY_LEN, TAG_LEN};
use spotr::error::ApplicationError;
use spotr::nonce::NONCE_LEN;

fn key(byte: u8) -> MasterKey {
    MasterKey::from_bytes(vec![byte; KEY_LEN]).unwrap()
}

#[test]
fn master_key_rejects_wrong_width() {
    assert!(matches!(
        MasterKey::from_bytes(vec![0u8; KEY_LEN - 1]),
        Err(ApplicationError::CryptographyError)
    ));
    assert!(matches!(
        MasterKey::from_bytes(vec![0u8; KEY_LEN + 1]),
        Err(ApplicationError::CryptographyError)
    ));
    assert!(MasterKey::from_bytes(vec![0u8; KEY_LEN]).is_ok());
}

#[test]
fn decrypt_returns_the_sealed_plaintext() {
    let k = key(7);
    let mut cfg = Config::empty();
    let plain = b"attack at dawn".to_vec();
    let blob = cfg.encrypt_and_store(&plain, &k).unwrap();
    assert_eq!(blob.decrypt(&k).unwrap(), plain);
}

#[test]
fn ciphertext_is_not_the_plaintext() {
    let k = key(7);
    let mut cfg = Config::empty();
    let plain = b"some secret".to_vec();
    let blob = cfg.encrypt_and_store(&plain, &k).unwrap();
    assert_eq!(blob.data.len(), plain.len() + TAG_LEN);
    assert_ne!(&blob.data[..plain.len()], &plain[..]);
}

#[test]
fn sealing_twice_gives_two_nonces_and_two_ciphertexts() {
    let k = key(9);
    let mut cfg = Config::empty();
    let plain = b"same plaintext".to_vec();
    let first = cfg.encrypt_and_store(&plain, &k).unwrap();
    let second = cfg.encrypt_and_store(&plain, &k).unwrap();
    assert_ne!(first.nonce, second.nonce);
    assert_ne!(first.data, second.data);
}

#[test]
fn tampering_any_ciphertext_byte_fails_closed() {
    let k = key(3);
    let mut cfg = Config::empty();
    let plain = b"integrity matters".to_vec();
    let blob = cfg.encrypt_and_store(&plain, &k).unwrap();
    for i in 0..blob.data.len() {
        for flip in [1u8, 0x80] {
            let mut data = blob.data.clone();
            data[i] ^= flip;
            let tampered = Encrypted { nonce: blob.nonce.clone(), data };
            assert!(
                matches!(tampered.decrypt(&k), Err(ApplicationError::CryptographyError)),
                "byte {} flipped by {:#x} must not decrypt",
                i,
                flip
            );
        }
    }
}

#[test]
fn tampering_any_nonce_byte_fails_closed() {
    let k = key(3);
    let mut cfg = Config::empty();
    let plain = b"nonce matters".to_vec();
    let blob = cfg.encrypt_and_store(&plain, &k).unwrap();
    for i in 0..blob.nonce.len() {
        let mut nonce = blob.nonce.clone();
        nonce[i] ^= 1;
        let tampered = Encrypted { nonce, data: blob.data.clone() };
        assert!(matches!(
            tampered.decrypt(&k),
            Err(ApplicationError::CryptographyError)
        ));
    }
}

#[test]
fn mismatched_key_fails_closed() {
    let mut cfg = Config::empty();
    let plain = b"wrong key".to_vec();
    let blob = cfg.encrypt_and_store(&plain, &key(1)).unwrap();
    assert!(matches!(
        blob.decrypt(&key(2)),
        Err(ApplicationError::CryptographyError)
    ));
}

#[test]
fn malformed_nonce_length_is_a_cryptography_error() {
    let k = key(5);
    let blob = Encrypted { nonce: vec![0u8; NONCE_LEN - 1], data: vec![0u8; 32] };
    assert!(matches!(
        blob.decrypt(&k),
        Err(ApplicationError::CryptographyError)
    ));
}

#[test]
fn counter_exhaustion_is_a_hard_stop() {
    let k = key(5);
    // a store whose counter is already at the maximum
    let mut cfg = Config::from_parts(vec![0xFFu8; NONCE_LEN], None, Vec::new()).unwrap();
    let r = cfg.encrypt_and_store(&b"x".to_vec(), &k);
    assert!(matches!(r, Err(ApplicationError::CryptographyError)));
    // the failed seal persisted no partial state
    assert!(!cfg.is_dirty());
    let (nonce, _, _) = cfg.into_parts();
    assert_eq!(nonce, vec![0xFFu8; NONCE_LEN]);
}
