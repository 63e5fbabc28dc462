//! The core of a confidential, UTXO-style token transaction system.
//!
//! A token is a unit of value bound to a one-time public key. Spending
//! tokens makes a signed transaction that consumes input tokens and
//! creates output tokens, with the amounts hidden in Pedersen
//! commitments.
//!
//! - [`scalar`], [`amount`], [`keys`], [`hash`], [`range_proof`]: the
//!   values that transactions are made of. Each is held as the bytes that
//!   encode it; what only the cryptographic crates can compute is stated
//!   over those bytes.
//! - [`transaction`]: the encodings of a transaction, its hash, how it is
//!   signed and how it is verified.
//! - [`spentbook`]: the record of the inputs that were spent.
//! - [`spent_proof`], [`verification`]: the attestations of the spentbook
//!   and the verification of a transaction together with them.
//! - [`dbc`], [`builder`]: tokens, and the builders of transactions and
//!   of tokens.
//! - [`keymap`], [`bytes`], [`error`]: what the rest is built on.

pub mod amount;
pub mod builder;
pub mod bytes;
pub mod dbc;
pub mod error;
pub mod hash;
pub mod keymap;
pub mod keys;
pub mod range_proof;
pub mod scalar;
pub mod spent_proof;
pub mod spentbook;
pub mod transaction;
pub mod verification;
