use spotr::token::{decode_token, encode_token, Token, TokenResponse};

fn sample_token() -> Token {
    Token::new(
        TokenResponse {
            access_token: b"access".to_vec(),
            refresh_token: b"refresh".to_vec(),
            expires_in: 3600,
        },
        1_000_000,
    )
}

#[test]
fn token_new_fixes_expiry_at_issuance_plus_lifetime() {
    let t = sample_token();
    assert_eq!(t.expires_at, 1_003_600);
    assert_eq!(t.access_token, b"access".to_vec());
    assert_eq!(t.refresh_token, b"refresh".to_vec());
}

#[test]
fn has_expired_is_the_absolute_comparison() {
    let t = sample_token();
    assert!(!t.has_expired(1_003_599));
    assert!(t.has_expired(1_003_600));
    assert!(t.has_expired(1_003_601));
}

#[test]
fn token_frame_round_trips() {
    let t = sample_token();
    let frame = encode_token(&t);
    let back = decode_token(&frame).unwrap();
    assert_eq!(back.access_token, t.access_token);
    assert_eq!(back.refresh_token, t.refresh_token);
    assert_eq!(back.expires_at, t.expires_at);
}

#[test]
fn token_frame_has_the_exact_documented_layout() {
    let t = Token {
        access_token: b"ab".to_vec(),
        refresh_token: b"c".to_vec(),
        expires_at: 258,
    };
    let frame = encode_token(&t);
    let expected: Vec<u8> = vec![
        2, 0, 0, 0, // access length, little endian
        97, 98, // "ab"
        1, 0, 0, 0, // refresh length
        99, // "c"
        2, 1, 0, 0, 0, 0, 0, 0, // 258 as eight little-endian bytes
    ];
    assert_eq!(frame, expected);
}

#[test]
fn empty_token_fields_round_trip() {
    let t = Token { access_token: Vec::new(), refresh_token: Vec::new(), expires_at: 0 };
    let frame = encode_token(&t);
    assert_eq!(frame.len(), 16);
    let back = decode_token(&frame).unwrap();
    assert_eq!(back.access_token, t.access_token);
    assert_eq!(back.refresh_token, t.refresh_token);
    assert_eq!(back.expires_at, 0);
}

#[test]
fn malformed_frames_do_not_decode() {
    // too short for even a length prefix
    assert!(decode_token(&vec![1, 2, 3]).is_none());
    // claims more access bytes than exist
    assert!(decode_token(&vec![200, 0, 0, 0, 1]).is_none());
    // a valid frame with a trailing byte
    let t = Token { access_token: b"a".to_vec(), refresh_token: b"b".to_vec(), expires_at: 5 };
    let mut frame = encode_token(&t);
    frame.push(0);
    assert!(decode_token(&frame).is_none());
    // a valid frame with the last byte missing
    let mut short = encode_token(&t);
    short.pop();
    assert!(decode_token(&short).is_none());
}

#[test]
fn out_of_range_expiry_does_not_decode() {
    let t = Token { access_token: Vec::new(), refresh_token: Vec::new(), expires_at: 1 };
    let mut frame = encode_token(&t);
    // force the stored u64 above i64::MAX
    let n = frame.len();
    frame[n - 1] = 0x80;
    assert!(decode_token(&frame).is_none());
}
