use base64::Engine;
use spotr::config::Config;
use spotr::crypto::KEY_LEN;
use spotr::error::ApplicationError;
use spotr::keyring::{get_or_create_key, KeyLookup};

fn encode(bytes: &[u8]) -> String {
    base64::engine::general_purpose::STANDARD_NO_PAD.encode(bytes)
}

fn decode(s: &str) -> Vec<u8> {
    base64::engine::general_purpose::STANDARD_NO_PAD.decode(s).unwrap()
}

#[test]
fn a_stored_key_of_the_right_width_is_used_as_it_is() {
    let raw = vec![11u8; KEY_LEN];
    let p = get_or_create_key(KeyLookup::Found(encode(&raw))).unwrap();
    assert!(p.store_back.is_none());
    // the key is the decoded bytes: it opens what it seals
    let mut cfg = Config::empty();
    let blob = cfg.encrypt_and_store(&b"probe".to_vec(), &p.key).unwrap();
    assert_eq!(blob.decrypt(&p.key).unwrap(), b"probe".to_vec());
}

#[test]
fn the_stored_encoding_is_base64_not_the_raw_bytes() {
    // 43 base64 characters decode to 32 zero bytes; if decoding handed the
    // characters through unchanged the width check would force a rebuild
    let s: String = std::iter::repeat('A').take(43).collect();
    assert_eq!(decode(&s).len(), KEY_LEN);
    let p = get_or_create_key(KeyLookup::Found(s)).unwrap();
    assert!(p.store_back.is_none());
}

#[test]
fn an_undecodable_entry_is_regenerated_and_overwritten() {
    let p = get_or_create_key(KeyLookup::Found("!!! not base64 !!!".to_string())).unwrap();
    let encoded = p.store_back.expect("a fresh key must be written back");
    assert_eq!(decode(&encoded).len(), KEY_LEN);
}

#[test]
fn a_wrong_width_entry_is_the_corruption_signal() {
    let p = get_or_create_key(KeyLookup::Found(encode(&[1u8; 5]))).unwrap();
    let encoded = p.store_back.expect("a corrupt key must be replaced");
    assert_eq!(decode(&encoded).len(), KEY_LEN);
}

#[test]
fn a_missing_entry_creates_and_stores_a_key() {
    let p = get_or_create_key(KeyLookup::Missing).unwrap();
    let encoded = p.store_back.expect("the first run must store the key");
    let raw = decode(&encoded);
    assert_eq!(raw.len(), KEY_LEN);
    // the stored encoding names exactly the provisioned key
    let again = get_or_create_key(KeyLookup::Found(encoded)).unwrap();
    assert!(again.store_back.is_none());
    let mut cfg = Config::empty();
    let blob = cfg.encrypt_and_store(&b"probe".to_vec(), &p.key).unwrap();
    assert_eq!(blob.decrypt(&again.key).unwrap(), b"probe".to_vec());
}

#[test]
fn two_fresh_keys_differ() {
    let a = get_or_create_key(KeyLookup::Missing).unwrap();
    let b = get_or_create_key(KeyLookup::Missing).unwrap();
    assert_ne!(a.store_back.unwrap(), b.store_back.unwrap());
}

#[test]
fn a_secret_store_failure_is_fatal() {
    let r = get_or_create_key(KeyLookup::Failed);
    assert!(matches!(r, Err(ApplicationError::SecretStoreError)));
}
