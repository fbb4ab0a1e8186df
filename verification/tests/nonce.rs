use spotr::error::ApplicationError;
use spotr::nonce::{advance_vec, NONCE_LEN};

fn be_value(bytes: &[u8]) -> u128 {
    bytes.iter().fold(0u128, |acc, &b| acc * 256 + b as u128)
}

#[test]
fn advance_increments_least_significant_byte() {
    let mut n = vec![0u8, 0, 0];
    assert!(advance_vec(&mut n).is_ok());
    assert_eq!(n, vec![0, 0, 1]);
}

#[test]
fn advance_carries_through_trailing_max_bytes() {
    let mut n = vec![0u8, 1, 0xFF, 0xFF];
    assert!(advance_vec(&mut n).is_ok());
    assert_eq!(n, vec![0, 2, 0, 0]);
}

#[test]
fn advance_adds_exactly_one_to_the_big_endian_value() {
    let samples: Vec<Vec<u8>> = vec![
        vec![0, 0, 0, 0],
        vec![9, 8, 7, 6],
        vec![0, 0xFF, 0xFF, 0xFF],
        vec![0xFE, 0xFF, 0xFF, 0xFF],
    ];
    for mut n in samples {
        let before = be_value(&n);
        assert!(advance_vec(&mut n).is_ok());
        let after = be_value(&n);
        assert_eq!(after, before + 1);
        assert!(after > before);
    }
}

#[test]
fn advance_fails_permanently_on_exhausted_counter() {
    let mut n = vec![0xFFu8; NONCE_LEN];
    let before = n.clone();
    let r = advance_vec(&mut n);
    assert!(matches!(r, Err(ApplicationError::CryptographyError)));
    assert_eq!(n, before);
    // deterministic: a second attempt fails the same way
    let r2 = advance_vec(&mut n);
    assert!(matches!(r2, Err(ApplicationError::CryptographyError)));
    assert_eq!(n, before);
}

#[test]
fn advance_changes_only_the_carry_chain() {
    let mut n = vec![3u8, 7, 0xFF, 0xFF];
    assert!(advance_vec(&mut n).is_ok());
    // untouched prefix, incremented byte, zeroed chain
    assert_eq!(n[0], 3);
    assert_eq!(n[1], 8);
    assert_eq!(&n[2..], &[0, 0]);
}
