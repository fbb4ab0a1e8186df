//! The error taxonomy of the vault, and a cheaply clonable error cell for
//! results that are read again after they first occur.

use vstd::prelude::*;

verus! {

/// Every failure the vault and the authorization flow can surface.
#[derive(Clone, Copy, Debug, PartialEq, Eq, Structural)]
pub enum ApplicationError {
    /// No platform application-data directory could be located.
    UnavailableConfigDir,
    /// An AEAD seal or open failed, the nonce counter is exhausted, or a
    /// stored key is malformed.
    CryptographyError,
    /// Neither an explicit client id nor a configured default is available.
    ClientIdRequired,
    /// An operation referenced a client id that the store does not hold.
    UnknownClient,
    /// The OS secret store could not be accessed.
    SecretStoreError,
    /// The token endpoint rejected the authorization-code exchange.
    TokenRequestFailed,
    /// The token endpoint rejected a refresh request.
    RefreshFailed,
}

impl ApplicationError {
    /// The user-facing description of the error.
    pub fn message(&self) -> (r: &'static str)
        ensures
            r@ == self.spec_message(),
    {
        match self {
            ApplicationError::UnavailableConfigDir => "could not find the application data directory",
            ApplicationError::CryptographyError => "a cryptographic operation failed",
            ApplicationError::ClientIdRequired => "a client id is required",
            ApplicationError::UnknownClient => "no client with that id exists",
            ApplicationError::SecretStoreError => "the OS secret store could not be accessed",
            ApplicationError::TokenRequestFailed => "the token request was rejected",
            ApplicationError::RefreshFailed => "the token refresh was rejected",
        }
    }

    pub open spec fn spec_message(&self) -> Seq<char> {
        match self {
            ApplicationError::UnavailableConfigDir => "could not find the application data directory"@,
            ApplicationError::CryptographyError => "a cryptographic operation failed"@,
            ApplicationError::ClientIdRequired => "a client id is required"@,
            ApplicationError::UnknownClient => "no client with that id exists"@,
            ApplicationError::SecretStoreError => "the OS secret store could not be accessed"@,
            ApplicationError::TokenRequestFailed => "the token request was rejected"@,
            ApplicationError::RefreshFailed => "the token refresh was rejected"@,
        }
    }
}

/// An error value that can be handed out repeatedly after it is first
/// recorded: the memoized client binding caches one failure and every later
/// lookup receives a copy of it.
#[derive(Clone, Copy, Debug)]
pub struct ArcAnyhowError {
    inner: ApplicationError,
}

impl View for ArcAnyhowError {
    type V = ApplicationError;

    closed spec fn view(&self) -> ApplicationError {
        self.inner
    }
}

impl ArcAnyhowError {
    /// Wraps an error so that it can be handed out of a cache cheaply.
    pub fn new(err: ApplicationError) -> (r: Self)
        ensures
            r@ == err,
    {
        ArcAnyhowError { inner: err }
    }

    /// The wrapped error, by value.
    pub fn error(&self) -> (r: ApplicationError)
        ensures
            r == self@,
    {
        self.inner
    }
}

} // verus!
