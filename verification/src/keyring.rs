//! Master-key provisioning.
//!
//! The master key lives base64-encoded in one named entry of the OS secret
//! store. The store itself is touched by the surrounding program, which
//! hands the lookup's outcome in as a [`KeyLookup`]; the decisions — use
//! the stored key, regenerate a corrupt one, fail when the store cannot be
//! reached — are made and verified here. A decode-length mismatch is the
//! sole corruption signal, and a corrupt entry is regenerated and
//! overwritten, never silently replaced by an ephemeral key.

use crate::crypto::{MasterKey, KEY_LEN};
use crate::error::ApplicationError;
use base64::Engine;
use ring::rand::SecureRandom;
use vstd::prelude::*;

verus! {

/// The base64 (standard alphabet, no padding) encoding of a byte string.
pub uninterp spec fn b64_of(bytes: Seq<u8>) -> Seq<char>;

/// What decoding a string as base64 (standard alphabet, no padding) yields.
pub uninterp spec fn b64_decode_of(s: Seq<char>) -> Option<Seq<u8>>;

/// Relies on base64's `Engine::encode` with the standard no-padding
/// alphabet: the encoding is a deterministic function of the input bytes,
/// and decoding it yields the input back.
#[verifier::external_body]
fn b64_encode(bytes: &Vec<u8>) -> (r: String)
    ensures
        r@ == b64_of(bytes@),
        b64_decode_of(r@) == Some(bytes@),
{
    base64::engine::general_purpose::STANDARD_NO_PAD.encode(bytes)
}

/// Relies on base64's `Engine::decode` with the standard no-padding
/// alphabet: the outcome is a deterministic function of the input string,
/// and a string that is not valid base64 yields nothing.
#[verifier::external_body]
fn b64_decode(s: &String) -> (r: Option<Vec<u8>>)
    ensures
        match r {
            Some(v) => b64_decode_of(s@) == Some(v@),
            None => b64_decode_of(s@) is None,
        },
{
    base64::engine::general_purpose::STANDARD_NO_PAD.decode(s.as_bytes()).ok()
}

/// Relies on ring's `SystemRandom::fill`: on success the buffer holds `len`
/// bytes from the system's cryptographically secure random source. Nothing
/// is assumed about the values themselves.
#[verifier::external_body]
fn random_bytes(len: usize) -> (r: Option<Vec<u8>>)
    ensures
        r matches Some(v) ==> v@.len() == len,
{
    let mut buf = vec![0u8; len];
    match ring::rand::SystemRandom::new().fill(&mut buf) {
        Ok(()) => Some(buf),
        Err(_) => None,
    }
}

/// What the OS secret store returned for the vault's key entry.
pub enum KeyLookup {
    /// The entry exists and holds this string.
    Found(String),
    /// No entry exists yet: the first run on this machine.
    Missing,
    /// The secret store itself could not be accessed.
    Failed,
}

/// A provisioned master key, together with the encoding that must be
/// written back to the OS secret store when a fresh key was generated.
pub struct ProvisionedKey {
    pub key: MasterKey,
    pub store_back: Option<String>,
}

/// The outcome of generating a fresh key: a well-formed key whose encoding
/// is to be stored — and decodes back to exactly that key, so a later run
/// that finds the stored entry recovers the same key — or a cryptography
/// error when the random source failed.
pub open spec fn fresh_key_outcome(r: Result<ProvisionedKey, ApplicationError>) -> bool {
    match r {
        Ok(p) => p.key.wf() && match p.store_back {
            Some(enc) => enc@ == b64_of(p.key@) && b64_decode_of(enc@) == Some(p.key@),
            None => false,
        },
        Err(e) => e == ApplicationError::CryptographyError,
    }
}

/// Generates a fresh master key from the secure random source and pairs it
/// with the encoding to store.
fn provision_fresh_key() -> (r: Result<ProvisionedKey, ApplicationError>)
    ensures
        fresh_key_outcome(r),
{
    match random_bytes(KEY_LEN) {
        None => Err(ApplicationError::CryptographyError),
        Some(bytes) => {
            let encoded = b64_encode(&bytes);
            match MasterKey::from_bytes(bytes) {
                Ok(key) => Ok(ProvisionedKey { key, store_back: Some(encoded) }),
                Err(e) => Err(e),
            }
        },
    }
}

/// Turns the secret store's answer into a usable master key.
///
/// A stored entry that decodes to exactly the key width is the key. One
/// that does not decode, or decodes to the wrong width, is corrupt and is
/// regenerated (the caller overwrites the entry with `store_back`). A
/// missing entry means first use: a key is generated and stored. A store
/// failure is fatal: no operation can proceed without the key, and an
/// ephemeral one would orphan every previously sealed secret.
pub fn get_or_create_key(lookup: KeyLookup) -> (r: Result<ProvisionedKey, ApplicationError>)
    ensures
        match lookup {
            KeyLookup::Failed => r == Err::<ProvisionedKey, ApplicationError>(
                ApplicationError::SecretStoreError,
            ),
            KeyLookup::Missing => fresh_key_outcome(r),
            KeyLookup::Found(s) => match b64_decode_of(s@) {
                Some(v) => {
                    if v.len() == KEY_LEN {
                        match r {
                            Ok(p) => p.key.wf() && p.key@ == v && p.store_back is None,
                            Err(_) => false,
                        }
                    } else {
                        fresh_key_outcome(r)
                    }
                },
                None => fresh_key_outcome(r),
            },
        },
{
    match lookup {
        KeyLookup::Failed => Err(ApplicationError::SecretStoreError),
        KeyLookup::Missing => provision_fresh_key(),
        KeyLookup::Found(s) => match b64_decode(&s) {
            None => provision_fresh_key(),
            Some(bytes) => {
                if bytes.len() == KEY_LEN {
                    match MasterKey::from_bytes(bytes) {
                        Ok(key) => Ok(ProvisionedKey { key, store_back: None }),
                        Err(e) => Err(e),
                    }
                } else {
                    provision_fresh_key()
                }
            },
        },
    }
}

} // verus!
