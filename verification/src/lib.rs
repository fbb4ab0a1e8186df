//! A local credential vault with an OAuth client-bootstrap flow.
//!
//! The crate keeps a set of API client credentials (client id, client
//! secret, optional token) encrypted at rest under a single master key,
//! advancing one shared AEAD nonce counter for every encryption, and it
//! drives a browser-based authorization-code exchange through a loopback
//! callback listener together with a token-refresh policy.

pub mod binding;
pub mod config;
pub mod crypto;
pub mod error;
pub mod keyring;
pub mod nonce;
pub mod oauth;
pub mod token;
