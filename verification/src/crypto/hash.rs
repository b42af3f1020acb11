//! Hashes, and the hasher that documents and entries are fed through.

use vstd::prelude::*;
use crate::bytes::{array64_at, zeros};
use crate::crypto::error::CryptoError;
use crate::crypto::primitives::{absorbed, blake2b, hasher_clone, hasher_finalize, hasher_new, hasher_update};

verus! {

/// A hash as contracts see it: the version tag and the digest.
pub struct HashView {
    pub version: u8,
    pub digest: Seq<u8>,
}

impl HashView {
    /// The empty hash: version 0 over a digest of zeros. It stands for "no hash".
    pub open spec fn empty() -> HashView {
        HashView { version: 0, digest: zeros(64) }
    }

    /// The version-1 hash of `data`.
    pub open spec fn of(data: Seq<u8>) -> HashView {
        HashView { version: 1, digest: blake2b(data) }
    }

    /// A hash is either the empty hash or a version-1 hash with a 64-byte digest.
    pub open spec fn wf(self) -> bool {
        &&& self.digest.len() == 64
        &&& (self.version == 1 || self == HashView::empty())
    }

    /// The bytes a hash is written as: the version, then, unless the hash is empty, the digest.
    pub open spec fn encoding(self) -> Seq<u8> {
        if self.version == 0 {
            seq![0u8]
        } else {
            seq![self.version] + self.digest
        }
    }

    /// What `bytes` starts with, read as a hash, and how many bytes that takes.
    pub open spec fn parse(bytes: Seq<u8>) -> Result<(HashView, int), CryptoError> {
        if bytes.len() == 0 {
            Err(CryptoError::BadLength)
        } else if bytes[0] == 0 {
            Ok((HashView::empty(), 1))
        } else if bytes[0] != 1 {
            Err(CryptoError::UnsupportedVersion)
        } else if bytes.len() < 65 {
            Err(CryptoError::BadLength)
        } else {
            Ok((HashView { version: 1, digest: bytes.subrange(1, 65) }, 65))
        }
    }
}

/// Reading back what was written gives the hash that was written.
pub proof fn lemma_hash_parse_encoding(h: HashView, rest: Seq<u8>)
    requires
        h.wf(),
    ensures
        HashView::parse(h.encoding() + rest) == Ok::<(HashView, int), CryptoError>((h, h.encoding().len() as int)),
{
    let b = h.encoding() + rest;
    if h.version != 0 {
        assert(b.subrange(1, 65) =~= h.digest);
    }
}

/// What was read, written again, is the bytes it was read from.
pub proof fn lemma_hash_encoding_parse(bytes: Seq<u8>)
    requires
        HashView::parse(bytes) is Ok,
    ensures
        HashView::parse(bytes)->Ok_0.0.wf(),
        HashView::parse(bytes)->Ok_0.0.encoding() == bytes.take(HashView::parse(bytes)->Ok_0.1),
        0 < HashView::parse(bytes)->Ok_0.1 <= bytes.len(),
{
    let (h, n) = HashView::parse(bytes)->Ok_0;
    assert(h.encoding() =~= bytes.take(n));
}

/// A version tag and the BLAKE2b digest it names.
#[derive(Debug, PartialEq, Eq)]
pub struct Hash {
    version: u8,
    digest: [u8; 64],
}

impl View for Hash {
    type V = HashView;

    closed spec fn view(&self) -> HashView {
        HashView { version: self.version, digest: self.digest@ }
    }
}

impl Clone for Hash {
    fn clone(&self) -> (h: Hash)
        ensures
            h@ == self@,
    {
        proof {
            use_type_invariant(self);
        }
        Hash { version: self.version, digest: self.digest }
    }
}

impl Hash {
    #[verifier::type_invariant]
    spec fn inv(self) -> bool {
        self@.wf()
    }

    /// The hash of `data`. Only version 1 is known.
    pub fn new(version: u8, data: &[u8]) -> (r: Result<Hash, CryptoError>)
        ensures
            version == 1 ==> r is Ok && r->Ok_0@ == HashView::of(data@),
            version != 1 ==> r == Err::<Hash, CryptoError>(CryptoError::UnsupportedVersion),
    {
        if version != 1 {
            return Err(CryptoError::UnsupportedVersion);
        }
        let mut state = hasher_new();
        hasher_update(&mut state, data);
        assert(absorbed(state) =~= data@);
        Ok(Hash { version: 1, digest: hasher_finalize(&state) })
    }

    /// The empty hash.
    pub fn new_empty() -> (h: Hash)
        ensures
            h@ == HashView::empty(),
    {
        let digest = [0u8; 64];
        assert(digest@ =~= zeros(64));
        Hash { version: 0, digest }
    }

    /// The version tag: 1, or 0 for the empty hash. Every hash is well formed.
    pub fn version(&self) -> (v: u8)
        ensures
            v == self@.version,
            self@.wf(),
    {
        proof {
            use_type_invariant(self);
        }
        self.version
    }

    /// The digest.
    pub fn digest(&self) -> (d: &[u8])
        ensures
            d@ == self@.digest,
    {
        &self.digest
    }

    /// How many bytes `encode` writes.
    pub fn len(&self) -> (n: usize)
        ensures
            n == self@.encoding().len(),
            n == 1 || n == 65,
    {
        proof {
            use_type_invariant(self);
        }
        if self.version == 0 {
            1
        } else {
            65
        }
    }

    /// Whether the two hashes have the same version and digest.
    pub fn same(&self, other: &Hash) -> (r: bool)
        ensures
            r == (self@ == other@),
    {
        if self.version != other.version {
            return false;
        }
        let mut i: usize = 0;
        while i < 64
            invariant
                0 <= i <= 64,
                forall|j: int| 0 <= j < i ==> self.digest@[j] == other.digest@[j],
            decreases 64 - i,
        {
            if self.digest[i] != other.digest[i] {
                return false;
            }
            i += 1;
        }
        assert(self.digest@ =~= other.digest@);
        true
    }

    /// Appends the hash's bytes to `buf`.
    pub fn encode(&self, buf: &mut Vec<u8>)
        ensures
            final(buf)@ == old(buf)@ + self@.encoding(),
    {
        buf.push(self.version);
        if self.version != 0 {
            buf.extend_from_slice(&self.digest);
        }
        assert(buf@ =~= old(buf)@ + self@.encoding());
    }

    /// Reads a hash from the start of `buf`; gives the hash and how many bytes it took.
    pub fn decode(buf: &[u8]) -> (r: Result<(Hash, usize), CryptoError>)
        ensures
            match HashView::parse(buf@) {
                Ok((h, n)) => r is Ok && r->Ok_0.0@ == h && r->Ok_0.1 == n,
                Err(e) => r == Err::<(Hash, usize), CryptoError>(e),
            },
    {
        if buf.len() == 0 {
            return Err(CryptoError::BadLength);
        }
        let version = buf[0];
        if version == 0 {
            return Ok((Hash::new_empty(), 1));
        }
        if version != 1 {
            return Err(CryptoError::UnsupportedVersion);
        }
        if buf.len() < 65 {
            return Err(CryptoError::BadLength);
        }
        let digest = array64_at(buf, 1);
        Ok((Hash { version: 1, digest }, 65))
    }
}

/// An incremental hash: bytes are fed in pieces, and the hash of what was fed so far can be
/// taken at any point.
pub struct HashState {
    state: blake2b_simd::State,
}

impl View for HashState {
    type V = Seq<u8>;

    /// Everything fed so far.
    closed spec fn view(&self) -> Seq<u8> {
        absorbed(self.state)
    }
}

impl Clone for HashState {
    fn clone(&self) -> (s: HashState)
        ensures
            s@ == self@,
    {
        HashState { state: hasher_clone(&self.state) }
    }
}

impl HashState {
    /// A state that has been fed nothing. Only version 1 is known.
    pub fn new(version: u8) -> (r: Result<HashState, CryptoError>)
        ensures
            version == 1 ==> r is Ok && r->Ok_0@ == Seq::<u8>::empty(),
            version != 1 ==> r is Err && r->Err_0 == CryptoError::UnsupportedVersion,
    {
        if version != 1 {
            return Err(CryptoError::UnsupportedVersion);
        }
        Ok(HashState { state: hasher_new() })
    }

    /// A version-1 state that has been fed nothing.
    pub fn start() -> (s: HashState)
        ensures
            s@ == Seq::<u8>::empty(),
    {
        HashState { state: hasher_new() }
    }

    /// Feeds `data`.
    pub fn update(&mut self, data: &[u8])
        ensures
            final(self)@ == old(self)@ + data@,
    {
        hasher_update(&mut self.state, data);
    }

    /// The hash of everything fed so far. The state can be fed more afterwards.
    pub fn get_hash(&self) -> (h: Hash)
        ensures
            h@ == HashView::of(self@),
    {
        Hash { version: 1, digest: hasher_finalize(&self.state) }
    }
}

} // verus!
