use spotr::error::{ApplicationError, ArcAnyhowError};

#[test]
fn every_error_kind_has_its_own_message() {
    let kinds = [
        ApplicationError::UnavailableConfigDir,
        ApplicationError::CryptographyError,
        ApplicationError::ClientIdRequired,
        ApplicationError::UnknownClient,
        ApplicationError::SecretStoreError,
        ApplicationError::TokenRequestFailed,
        ApplicationError::RefreshFailed,
    ];
    for (i, a) in kinds.iter().enumerate() {
        assert!(!a.message().is_empty());
        for b in kinds.iter().skip(i + 1) {
            assert_ne!(a.message(), b.message());
        }
    }
}

#[test]
fn a_wrapped_error_survives_copies_unchanged() {
    let original = ArcAnyhowError::new(ApplicationError::RefreshFailed);
    let copy = original.clone();
    assert_eq!(copy.error(), ApplicationError::RefreshFailed);
    assert_eq!(original.error(), copy.error());
}
