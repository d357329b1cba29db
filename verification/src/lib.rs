//! An encrypted credential store: the cryptographic envelope around a set of
//! account records.
//!
//! A [`vault::Vault`] is written as bytes by [`codec::encode`], sealed into a
//! blob under a key from [`crypto::derive_key`] by [`crypto::encrypt_vault`],
//! and recovered by [`crypto::decrypt_vault`]. The contracts are stated over
//! the byte layouts that [`codec`] and [`crypto`] define.
//!
//! The ciphers and hash functions are those of outside crates. What is
//! assumed of them, and not proved, stands in [`primitives`]; the container
//! that clears a secret on drop stands in [`vault`], and the UTF-8 check of
//! the standard library in [`codec`].

pub mod codec;
pub mod crypto;
pub mod error;
pub mod primitives;
pub mod session;
pub mod vault;
