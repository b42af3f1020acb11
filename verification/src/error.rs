//! What can go wrong outside the cryptographic layer.

use vstd::prelude::*;
use crate::crypto::error::CryptoError;

verus! {

/// Why a validator does not pass a value.
#[derive(Clone, Copy, Debug, PartialEq, Eq, Structural)]
pub enum Reason {
    /// The value is of another kind than the validator passes.
    Kind,
    /// The value lies above the maximum.
    AboveMax,
    /// The value lies below the minimum.
    BelowMin,
    /// The value is longer, or holds more, than the maximum.
    TooLong,
    /// The value is shorter, or holds less, than the minimum.
    TooShort,
    /// The value is not on the list of the values allowed.
    NotListed,
    /// The value is on the list of the values forbidden.
    Forbidden,
    /// An item of the array occurs twice in it.
    NotUnique,
    /// No item of the array passes a validator that one of them must pass.
    NotContained,
    /// The items whose lengths must agree are neither all null nor all arrays of one length.
    LengthsDiffer,
    /// A key of the object does not pass the validator for keys.
    BadKey,
    /// A key that must be there is missing.
    MissingKey,
    /// A key, or the field of an entry, leads to no validator.
    UnknownKey,
    /// The enum does not list the variant, or lists it with data where the value has none,
    /// or without where it has some.
    Variant,
    /// None of the branches of a choice passes the value.
    NoBranch,
    /// The table of types holds nothing under the name.
    NoType,
}

/// What can go wrong outside the cryptographic layer.
#[derive(Clone, Copy, Debug, PartialEq, Eq, Structural)]
pub enum Error {
    /// The bytes end before the value does.
    Truncated,
    /// A string that is not UTF-8.
    InvalidUtf8,
    /// A value that is not written in its one canonical form: a length or an integer in a
    /// longer form than it needs, or the marker byte that the format leaves unused.
    NotCanonical,
    /// A key of an object that does not come after the key before it.
    KeyOrder,
    /// A key of an object that repeats the key before it.
    DuplicateKey,
    /// A key of an object that is not a string.
    KeyNotStr,
    /// An extension tag that the format does not define.
    UnknownTag,
    /// An extension whose payload is not what its tag calls for.
    BadExt,
    /// Arrays and objects nested deeper than the format allows.
    DepthExceeded,
    /// An object larger than its maximum size, as it stands or once decompressed.
    TooLarge,
    /// A value that cannot be written: a string, array or object too long for the format, or
    /// an object whose keys are out of order.
    Malformed,
    /// A document whose body is not an object, or whose key `""` is not a hash.
    NotADocument,
    /// A document that names a schema where none is expected, or the reverse.
    SchemaMismatch,
    /// A compression marker that is not known, or a compressed frame that does not expand.
    BadCompression,
    /// Bytes after the body that are no signature.
    BadSignature,
    /// A signature that does not verify against the hash it should sign.
    SignatureInvalid,
    /// A value that its validator does not accept, and why.
    FailValidate(Reason),
    /// A value that is no validator, or a document that is no schema.
    BadValidator,
    /// A query that the schema does not permit.
    QueryNotAllowed,
    /// A failure of the cryptographic layer.
    Crypto(CryptoError),
}

} // verus!
