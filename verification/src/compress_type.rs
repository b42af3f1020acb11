//! The marker byte that says how a document or entry was packed.

use vstd::prelude::*;
use crate::error::Error;

verus! {

/// The first byte of every stored blob: how what follows is packed.
#[derive(Clone, Copy, Debug, PartialEq, Eq, Structural)]
pub enum CompressType {
    /// The bytes follow as they are.
    Uncompressed,
    /// A zstd frame follows directly.
    CompressedNoSchema,
    /// The start of the document up to and including its schema hash follows as it is, then
    /// a zstd frame of the rest.
    Compressed,
    /// As `Compressed`, the frame made with the dictionary that the schema names.
    DictCompressed,
}

impl CompressType {
    /// The marker byte.
    pub open spec fn byte(self) -> u8 {
        match self {
            CompressType::Uncompressed => 0,
            CompressType::CompressedNoSchema => 1,
            CompressType::Compressed => 2,
            CompressType::DictCompressed => 3,
        }
    }

    /// The type that a marker byte names, if it names one.
    pub open spec fn of_byte(b: u8) -> Option<CompressType> {
        if b == 0 {
            Some(CompressType::Uncompressed)
        } else if b == 1 {
            Some(CompressType::CompressedNoSchema)
        } else if b == 2 {
            Some(CompressType::Compressed)
        } else if b == 3 {
            Some(CompressType::DictCompressed)
        } else {
            None
        }
    }

    /// The marker byte.
    pub fn to_u8(self) -> (b: u8)
        ensures
            b == self.byte(),
            CompressType::of_byte(b) == Some(self),
    {
        match self {
            CompressType::Uncompressed => 0,
            CompressType::CompressedNoSchema => 1,
            CompressType::Compressed => 2,
            CompressType::DictCompressed => 3,
        }
    }

    /// The type that a marker byte names, if it names one.
    pub fn from_u8(b: u8) -> (r: Option<CompressType>)
        ensures
            r == CompressType::of_byte(b),
    {
        if b == 0 {
            Some(CompressType::Uncompressed)
        } else if b == 1 {
            Some(CompressType::CompressedNoSchema)
        } else if b == 2 {
            Some(CompressType::Compressed)
        } else if b == 3 {
            Some(CompressType::DictCompressed)
        } else {
            None
        }
    }

    /// Appends the marker byte.
    pub fn encode(self, buf: &mut Vec<u8>)
        ensures
            final(buf)@ == old(buf)@.push(self.byte()),
    {
        buf.push(self.to_u8());
    }

    /// Reads the marker byte that `buf` starts with.
    pub fn decode(buf: &[u8]) -> (r: Result<CompressType, Error>)
        ensures
            match r {
                Ok(t) => buf@.len() > 0 && CompressType::of_byte(buf@[0]) == Some(t),
                Err(e) => if buf@.len() == 0 {
                    e == Error::Truncated
                } else {
                    e == Error::BadCompression && CompressType::of_byte(buf@[0]) is None
                },
            },
    {
        if buf.len() == 0 {
            return Err(Error::Truncated);
        }
        match CompressType::from_u8(buf[0]) {
            Some(t) => Ok(t),
            None => Err(Error::BadCompression),
        }
    }
}

} // verus!
