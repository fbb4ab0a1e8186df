//! AEAD sealing for the store's secrets.
//!
//! Every secret value is persisted only as an [`Encrypted`] blob: the nonce
//! it was sealed under and the ciphertext with its authentication tag. The
//! AEAD itself is ring's AES-256-GCM; its two operations are trusted under
//! the names [`seal_of`] and [`open_of`], and everything around them —
//! nonce discipline, length checks, error mapping — is verified.

use crate::error::ApplicationError;
use crate::nonce::NONCE_LEN;
use vstd::prelude::*;

verus! {

/// The AEAD key width in bytes (AES-256-GCM).
pub const KEY_LEN: usize = 32;

/// The AEAD authentication tag width in bytes.
pub const TAG_LEN: usize = 16;

/// The largest plaintext the store will seal; far below AES-GCM's input
/// limit, so sealing a plaintext this size cannot fail.
pub const MAX_PLAINTEXT_LEN: usize = 0xFFFF_FFFF;

/// The ciphertext-with-tag that AES-256-GCM produces for a key, a nonce and
/// a plaintext (with empty associated data).
pub uninterp spec fn seal_of(key: Seq<u8>, nonce: Seq<u8>, plaintext: Seq<u8>) -> Seq<u8>;

/// The outcome of opening a ciphertext-with-tag under a key and a nonce
/// (with empty associated data): the plaintext, or nothing when
/// authentication fails.
pub uninterp spec fn open_of(key: Seq<u8>, nonce: Seq<u8>, ciphertext: Seq<u8>) -> Option<Seq<u8>>;

/// Relies on ring's `LessSafeKey::seal_in_place_append_tag` with
/// `AES_256_GCM` and empty associated data: the ciphertext is a
/// deterministic function of key, nonce and plaintext, it is the plaintext
/// plus one appended 16-byte tag, and opening it under the same key and
/// nonce yields the plaintext back.
#[verifier::external_body]
fn aead_seal(key: &Vec<u8>, nonce: &Vec<u8>, plaintext: &Vec<u8>) -> (r: Vec<u8>)
    requires
        key@.len() == KEY_LEN,
        nonce@.len() == NONCE_LEN,
        plaintext@.len() <= MAX_PLAINTEXT_LEN,
    ensures
        r@ == seal_of(key@, nonce@, plaintext@),
        r@.len() == plaintext@.len() + TAG_LEN,
        open_of(key@, nonce@, r@) == Some(plaintext@),
{
    let unbound = ring::aead::UnboundKey::new(&ring::aead::AES_256_GCM, key)
        .expect("the caller checked the key length");
    let sealing_key = ring::aead::LessSafeKey::new(unbound);
    let nonce = ring::aead::Nonce::try_assume_unique_for_key(nonce)
        .expect("the caller checked the nonce length");
    let mut buf = plaintext.clone();
    sealing_key
        .seal_in_place_append_tag(nonce, ring::aead::Aad::empty(), &mut buf)
        .expect("the plaintext is far below AES-GCM's input limit");
    buf
}

/// Relies on ring's `LessSafeKey::open_in_place` with `AES_256_GCM` and
/// empty associated data: the outcome is a deterministic function of key,
/// nonce and ciphertext, and it fails closed — when authentication fails no
/// plaintext comes back.
#[verifier::external_body]
fn aead_open(key: &Vec<u8>, nonce: &Vec<u8>, ciphertext: &Vec<u8>) -> (r: Option<Vec<u8>>)
    requires
        key@.len() == KEY_LEN,
        nonce@.len() == NONCE_LEN,
    ensures
        match r {
            Some(p) => open_of(key@, nonce@, ciphertext@) == Some(p@),
            None => open_of(key@, nonce@, ciphertext@) is None,
        },
{
    let unbound = ring::aead::UnboundKey::new(&ring::aead::AES_256_GCM, key)
        .expect("the caller checked the key length");
    let opening_key = ring::aead::LessSafeKey::new(unbound);
    let nonce = ring::aead::Nonce::try_assume_unique_for_key(nonce)
        .expect("the caller checked the nonce length");
    let mut buf = ciphertext.clone();
    match opening_key.open_in_place(nonce, ring::aead::Aad::empty(), &mut buf) {
        Ok(plain) => Some(plain.to_vec()),
        Err(_) => None,
    }
}

/// The process-wide symmetric key, read from or created in the OS secret
/// store once per run and borrowed by every seal and open.
pub struct MasterKey {
    bytes: Vec<u8>,
}

impl View for MasterKey {
    type V = Seq<u8>;

    closed spec fn view(&self) -> Seq<u8> {
        self.bytes@
    }
}

impl MasterKey {
    /// The key has the width the AEAD algorithm dictates.
    pub open spec fn wf(&self) -> bool {
        self@.len() == KEY_LEN
    }

    /// Takes the raw key bytes; anything but exactly [`KEY_LEN`] bytes is
    /// malformed key material.
    pub fn from_bytes(bytes: Vec<u8>) -> (r: Result<MasterKey, ApplicationError>)
        ensures
            match r {
                Ok(k) => k@ == bytes@ && k.wf(),
                Err(e) => bytes@.len() != KEY_LEN && e == ApplicationError::CryptographyError,
            },
    {
        if bytes.len() == KEY_LEN {
            Ok(MasterKey { bytes })
        } else {
            Err(ApplicationError::CryptographyError)
        }
    }
}

/// Seals a plaintext under the master key with the given nonce.
pub(crate) fn seal_with(key: &MasterKey, nonce: &Vec<u8>, plaintext: &Vec<u8>) -> (r: Vec<u8>)
    requires
        key.wf(),
        nonce@.len() == NONCE_LEN,
        plaintext@.len() <= MAX_PLAINTEXT_LEN,
    ensures
        r@ == seal_of(key@, nonce@, plaintext@),
        r@.len() == plaintext@.len() + TAG_LEN,
        open_of(key@, nonce@, r@) == Some(plaintext@),
{
    aead_seal(&key.bytes, nonce, plaintext)
}

/// A sealed value as it is persisted: the nonce it was sealed under, and
/// the ciphertext with its appended authentication tag.
pub struct Encrypted {
    pub nonce: Vec<u8>,
    pub data: Vec<u8>,
}

/// The mathematical shape of an [`Encrypted`] blob.
pub struct EncryptedView {
    pub nonce: Seq<u8>,
    pub data: Seq<u8>,
}

impl View for Encrypted {
    type V = EncryptedView;

    open spec fn view(&self) -> EncryptedView {
        EncryptedView { nonce: self.nonce@, data: self.data@ }
    }
}

/// The blob is what sealing `plain` under `key` produces, and opening it
/// gives `plain` back.
pub open spec fn is_sealed(key: Seq<u8>, blob: EncryptedView, plain: Seq<u8>) -> bool {
    &&& blob.nonce.len() == NONCE_LEN
    &&& blob.data == seal_of(key, blob.nonce, plain)
    &&& open_of(key, blob.nonce, blob.data) == Some(plain)
}

/// What decrypting a blob under a key yields: nothing for a malformed nonce
/// or a failed authentication, the plaintext otherwise.
pub open spec fn decrypt_spec(key: Seq<u8>, blob: EncryptedView) -> Option<Seq<u8>> {
    if blob.nonce.len() == NONCE_LEN {
        open_of(key, blob.nonce, blob.data)
    } else {
        None
    }
}

impl Encrypted {
    /// Opens the blob under the master key. A malformed nonce length or a
    /// tag-verification failure is a cryptography error, never a different
    /// plaintext.
    pub fn decrypt(&self, key: &MasterKey) -> (r: Result<Vec<u8>, ApplicationError>)
        requires
            key.wf(),
        ensures
            match r {
                Ok(p) => decrypt_spec(key@, self@) == Some(p@),
                Err(e) => decrypt_spec(key@, self@) is None && e
                    == ApplicationError::CryptographyError,
            },
    {
        if self.nonce.len() != NONCE_LEN {
            return Err(ApplicationError::CryptographyError);
        }
        match aead_open(&key.bytes, &self.nonce, &self.data) {
            Some(plain) => Ok(plain),
            None => Err(ApplicationError::CryptographyError),
        }
    }
}

/// Law: decrypting what was sealed under the same key yields exactly the
/// sealed plaintext — the round trip loses nothing.
pub proof fn lemma_encrypt_decrypt_round_trip(key: Seq<u8>, blob: EncryptedView, plain: Seq<u8>)
    requires
        is_sealed(key, blob, plain),
    ensures
        decrypt_spec(key, blob) == Some(plain),
{
}

} // verus!
