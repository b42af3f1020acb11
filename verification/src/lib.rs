//! The core of a content-addressed, signed document store.
//!
//! Values are written in one canonical binary form, so that a value has one hash. A
//! [`document::Document`] is the canonical form of an object followed by the signatures that
//! were put on it; an [`entry::Entry`] is a value under a field of a document, hashed together
//! with both. [`no_schema::NoSchema`] packs and unpacks them, compressed or not, and checks
//! what it unpacks. A [`schema::Schema`] holds the [`validator::Validator`]s that documents
//! and entries must pass, packs and unpacks what stands under it ([`with_schema`]), and
//! decides which queries may be asked. [`crypto::lock::Lock`] encrypts for the holder of a
//! key or of an identity.
//!
//! Every function is verified against its contract. The models that the contracts speak of
//! are in [`format`] and [`codec`] for bytes and values, in [`signed`] for what documents
//! and entries share, and in [`validator::rules`], [`validator::query`],
//! [`validator::deferred`], [`validator::written`] and [`validator::reading`] for validators.
//! What is taken on trust
//! of the libraries that hash, sign, encrypt and compress is stated in
//! [`crypto::primitives`] and [`compression`].

use vstd::prelude::*;

pub mod assoc;
pub mod bytes;
pub mod codec;
pub mod compress_type;
pub mod compression;
pub mod crypto;
pub mod decode;
pub mod document;
pub mod element;
pub mod encode;
pub mod entry;
pub mod error;
pub mod fields;
pub mod format;
pub mod integer;
pub mod no_schema;
pub mod parser;
pub mod schema;
pub mod signed;
pub mod timestamp;
pub mod validator;
pub mod value;
pub mod with_schema;

verus! {

/// Largest number of bytes a document may hold, body and signatures together.
pub const MAX_DOC_SIZE: usize = 1048576;

/// Largest number of bytes an entry may hold, body and signatures together.
pub const MAX_ENTRY_SIZE: usize = 65536;

/// How deep arrays and objects may nest.
pub const MAX_DEPTH: usize = 100;

} // verus!
