//! A local secrets vault.
//!
//! Each user has a master passphrase. Two secrets are derived from it with
//! two different salts: a verification hash, which is stored and checked at
//! login, and a vault key, which is never stored and encrypts the user's
//! credentials field by field.
//!
//! - `encryption_algorithms`: the hash and the encryption of one field.
//! - `key_derivation`: the pair of salts and the two derived secrets.
//! - `password_generator`: random passwords and the rating of a passphrase.
//! - `store`, `users`, `credentials`, `rotation`: the two tables and the
//!   operations on them.
//! - `session`: login, the unlocked vault and logout.
//! - `search`: the filter over listed credentials.
//! - `cloud`: the text form in which encrypted credentials travel.

pub mod cloud;
pub mod credentials;
pub mod encryption_algorithms;
pub mod error;
pub mod key_derivation;
pub mod password_generator;
pub mod rotation;
pub mod search;
pub mod session;
pub mod store;
pub mod text;
pub mod users;
