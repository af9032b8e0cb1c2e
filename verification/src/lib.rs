//! A password-protected registry of named TOTP seeds.
//!
//! The heart of the crate is the encrypted container format produced by
//! [`crpt::encrypt`] and consumed by [`crpt::decrypt`]: a byte buffer holding
//! a random key salt, a key-derivation cost, a random stream-cipher nonce,
//! the ciphertext and an authentication tag.  The decrypted payload is a
//! line-oriented list of `(name, secret)` records handled by [`records`].
//! Around that core, [`totp`] renders six-digit codes, [`listing`] lays the
//! codes of a whole registry out as a [`table::Table`], and [`table`] turns
//! tables into text.

pub mod crpt;
pub mod errors;
pub mod listing;
pub mod records;
pub mod table;
pub(crate) mod text;
pub mod totp;
