//! Hashing, signing and encryption.

pub mod error;
pub mod hash;
pub mod key;
pub mod lock;
pub mod primitives;
pub mod signature;
pub mod stream;
pub mod vault;
