use spotr::binding::{
    next_auth_step, prepare_binding, resolve_client_id, store_fresh_token, AuthStep, LazyBinding,
};
use spotr::config::Config;
use spotr::crypto::{MasterKey, KEY_LEN};
use spotr::error::{ApplicationError, ArcAnyhowError};
use spotr::token::{Token, TokenResponse};

fn key() -> MasterKey {
    MasterKey::from_bytes(vec![5u8; KEY_LEN]).unwrap()
}

fn token(expires_at_base: i64, lifetime: i64) -> Token {
    Token::new(
        TokenResponse {
            access_token: b"acc".to_vec(),
            refresh_token: b"ref".to_vec(),
            expires_in: lifetime,
        },
        expires_at_base,
    )
}

#[test]
fn an_explicit_id_wins_over_the_default() {
    let mut cfg = Config::empty();
    cfg.set_default_force("default-id".to_string());
    let id = resolve_client_id(Some("explicit".to_string()), &cfg).unwrap();
    assert_eq!(id, "explicit".to_string());
}

#[test]
fn the_default_id_is_used_when_none_is_given() {
    let mut cfg = Config::empty();
    cfg.set_default_force("default-id".to_string());
    let id = resolve_client_id(None, &cfg).unwrap();
    assert_eq!(id, "default-id".to_string());
}

#[test]
fn no_id_at_all_cannot_bind() {
    let cfg = Config::empty();
    let r = resolve_client_id(None, &cfg);
    assert!(matches!(r, Err(ApplicationError::ClientIdRequired)));
}

#[test]
fn a_missing_token_asks_for_authorization() {
    assert!(matches!(next_auth_step(None, 0), AuthStep::Authorize));
}

#[test]
fn an_expired_token_asks_for_a_refresh() {
    let t = token(100, 60); // expires at 160
    match next_auth_step(Some(t), 160) {
        AuthStep::Refresh(old) => assert_eq!(old.expires_at, 160),
        _ => panic!("an expired token must be refreshed"),
    }
}

#[test]
fn a_fresh_token_is_reused_unchanged() {
    let t = token(100, 60);
    match next_auth_step(Some(t), 159) {
        AuthStep::UseStored(same) => {
            assert_eq!(same.access_token, b"acc".to_vec());
            assert_eq!(same.expires_at, 160);
        },
        _ => panic!("a fresh token must be reused"),
    }
}

#[test]
fn preparing_an_unknown_client_fails() {
    let cfg = Config::empty();
    let r = prepare_binding(&cfg, &key(), Some("ghost".to_string()), 0);
    assert!(matches!(r, Err(ApplicationError::UnknownClient)));
}

#[test]
fn preparing_without_any_id_fails() {
    let cfg = Config::empty();
    let r = prepare_binding(&cfg, &key(), None, 0);
    assert!(matches!(r, Err(ApplicationError::ClientIdRequired)));
}

#[test]
fn a_client_without_a_token_needs_authorization() {
    let k = key();
    let mut cfg = Config::empty();
    cfg.add_client("abc".to_string(), b"shh".to_vec(), &k).unwrap();
    let b = prepare_binding(&cfg, &k, Some("abc".to_string()), 0).unwrap();
    assert_eq!(b.id, "abc".to_string());
    assert_eq!(b.secret, b"shh".to_vec());
    assert!(matches!(b.step, AuthStep::Authorize));
}

#[test]
fn a_wrong_key_surfaces_a_cryptography_error() {
    let k = key();
    let mut cfg = Config::empty();
    cfg.add_client("abc".to_string(), b"shh".to_vec(), &k).unwrap();
    let other = MasterKey::from_bytes(vec![6u8; KEY_LEN]).unwrap();
    let r = prepare_binding(&cfg, &other, Some("abc".to_string()), 0);
    assert!(matches!(r, Err(ApplicationError::CryptographyError)));
}

#[test]
fn an_expired_stored_token_triggers_the_refresh_path() {
    let k = key();
    let now: i64 = 1_700_000_000;
    let mut cfg = Config::empty();
    cfg.add_client("abc".to_string(), b"shh".to_vec(), &k).unwrap();

    // store a token that expired an hour ago
    let old = token(now - 7200, 3600); // expired at now - 3600
    cfg.set_token(&"abc".to_string(), &old, &k).unwrap();

    // before any authenticated call, the binding demands a refresh
    let b = prepare_binding(&cfg, &k, Some("abc".to_string()), now).unwrap();
    let old_expiry = match b.step {
        AuthStep::Refresh(ref stored) => stored.expires_at,
        _ => panic!("the expired token must be refreshed first"),
    };
    assert_eq!(old_expiry, now - 3600);

    // the refreshed token's expiry is strictly later than the old one
    let refreshed = store_fresh_token(
        &mut cfg,
        &"abc".to_string(),
        &k,
        TokenResponse {
            access_token: b"acc2".to_vec(),
            refresh_token: b"ref2".to_vec(),
            expires_in: 3600,
        },
        now,
    )
    .unwrap();
    assert!(refreshed.expires_at > old_expiry);
    assert_eq!(refreshed.expires_at, now + 3600);

    // and it replaced the old token in the store
    let (_, stored) = cfg
        .get_client_data(&"abc".to_string(), &k)
        .unwrap()
        .unwrap();
    assert_eq!(stored.unwrap().access_token, b"acc2".to_vec());
}

#[test]
fn the_lazy_binding_repeats_its_first_outcome() {
    let mut lazy = LazyBinding::new();
    assert!(!lazy.is_resolved());
    assert!(lazy.get().is_none());

    lazy.fill(Err(ArcAnyhowError::new(ApplicationError::SecretStoreError)));
    assert!(lazy.is_resolved());

    // every later lookup sees the same failure, cloned out cheaply
    for _ in 0..3 {
        match lazy.get().unwrap() {
            Err(e) => assert_eq!(e.clone().error(), ApplicationError::SecretStoreError),
            Ok(_) => panic!("the recorded outcome was a failure"),
        }
    }
}
