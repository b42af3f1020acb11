//! Identities, the public halves of signing keys, and the keys that name them.

use vstd::prelude::*;
use crate::bytes::array32_at;
use crate::crypto::error::CryptoError;

verus! {

/// A public signing key as contracts see it.
pub struct IdentityView {
    pub version: u8,
    pub key: Seq<u8>,
}

impl IdentityView {
    /// Only version 1 is known, and its keys are 32 bytes long.
    pub open spec fn wf(self) -> bool {
        self.version == 1 && self.key.len() == 32
    }

    /// The bytes an identity is written as: the version, then the key.
    pub open spec fn encoding(self) -> Seq<u8> {
        seq![self.version] + self.key
    }

    /// What `bytes` starts with, read as an identity, and how many bytes that takes.
    pub open spec fn parse(bytes: Seq<u8>) -> Result<(IdentityView, int), CryptoError> {
        if bytes.len() == 0 {
            Err(CryptoError::BadLength)
        } else if bytes[0] != 1 {
            Err(CryptoError::UnsupportedVersion)
        } else if bytes.len() < 33 {
            Err(CryptoError::BadLength)
        } else {
            Ok((IdentityView { version: 1, key: bytes.subrange(1, 33) }, 33))
        }
    }
}

/// Reading back what was written gives the identity that was written.
pub proof fn lemma_identity_parse_encoding(id: IdentityView, rest: Seq<u8>)
    requires
        id.wf(),
    ensures
        IdentityView::parse(id.encoding() + rest) == Ok::<(IdentityView, int), CryptoError>((id, 33)),
        id.encoding().len() == 33,
{
    assert((id.encoding() + rest).subrange(1, 33) =~= id.key);
}

/// What was read, written again, is the bytes it was read from.
pub proof fn lemma_identity_encoding_parse(bytes: Seq<u8>)
    requires
        IdentityView::parse(bytes) is Ok,
    ensures
        IdentityView::parse(bytes)->Ok_0.0.wf(),
        IdentityView::parse(bytes)->Ok_0.0.encoding() == bytes.take(33),
        IdentityView::parse(bytes)->Ok_0.1 == 33,
        bytes.len() >= 33,
{
    let (id, n) = IdentityView::parse(bytes)->Ok_0;
    assert(id.encoding() =~= bytes.take(33));
}

/// The public half of a signing key pair: who signed.
#[derive(Debug, PartialEq, Eq)]
pub struct Identity {
    version: u8,
    id: [u8; 32],
}

impl View for Identity {
    type V = IdentityView;

    closed spec fn view(&self) -> IdentityView {
        IdentityView { version: self.version, key: self.id@ }
    }
}

impl Clone for Identity {
    fn clone(&self) -> (c: Identity)
        ensures
            c@ == self@,
    {
        proof {
            use_type_invariant(self);
        }
        Identity { version: self.version, id: self.id }
    }
}

impl Identity {
    #[verifier::type_invariant]
    spec fn inv(self) -> bool {
        self@.wf()
    }

    /// The identity with the given public key.
    pub fn from_public(key: [u8; 32]) -> (id: Identity)
        ensures
            id@ == (IdentityView { version: 1, key: key@ }),
    {
        Identity { version: 1, id: key }
    }

    /// The version tag. Every identity is well formed.
    pub fn version(&self) -> (v: u8)
        ensures
            v == self@.version,
            self@.wf(),
    {
        proof {
            use_type_invariant(self);
        }
        self.version
    }

    /// The public key.
    pub fn key(&self) -> (k: &[u8; 32])
        ensures
            k@ == self@.key,
    {
        &self.id
    }

    /// How many bytes `encode` writes.
    pub fn len(&self) -> (n: usize)
        ensures
            n == 33,
            self@.encoding().len() == 33,
    {
        proof {
            use_type_invariant(self);
        }
        33
    }

    /// Whether the two identities are the same key.
    pub fn same(&self, other: &Identity) -> (r: bool)
        ensures
            r == (self@ == other@),
    {
        proof {
            use_type_invariant(self);
            use_type_invariant(other);
        }
        let mut i: usize = 0;
        while i < 32
            invariant
                0 <= i <= 32,
                forall|j: int| 0 <= j < i ==> self.id@[j] == other.id@[j],
            decreases 32 - i,
        {
            if self.id[i] != other.id[i] {
                return false;
            }
            i += 1;
        }
        assert(self.id@ =~= other.id@);
        true
    }

    /// Appends the identity's bytes to `buf`.
    pub fn encode(&self, buf: &mut Vec<u8>)
        ensures
            final(buf)@ == old(buf)@ + self@.encoding(),
    {
        buf.push(self.version);
        buf.extend_from_slice(&self.id);
        assert(buf@ =~= old(buf)@ + self@.encoding());
    }

    /// Reads an identity from the start of `buf`; gives it and how many bytes it took.
    pub fn decode(buf: &[u8]) -> (r: Result<(Identity, usize), CryptoError>)
        ensures
            match IdentityView::parse(buf@) {
                Ok((id, n)) => r is Ok && r->Ok_0.0@ == id && r->Ok_0.1 == n,
                Err(e) => r == Err::<(Identity, usize), CryptoError>(e),
            },
    {
        if buf.len() == 0 {
            return Err(CryptoError::BadLength);
        }
        if buf[0] != 1 {
            return Err(CryptoError::UnsupportedVersion);
        }
        if buf.len() < 33 {
            return Err(CryptoError::BadLength);
        }
        let id = array32_at(buf, 1);
        Ok((Identity { version: 1, id }, 33))
    }
}

/// The name under which a vault holds a secret signing key: the key's public half.
#[derive(Debug, PartialEq, Eq)]
pub struct Key {
    id: Identity,
}

impl View for Key {
    type V = IdentityView;

    closed spec fn view(&self) -> IdentityView {
        self.id@
    }
}

impl Clone for Key {
    fn clone(&self) -> (c: Key)
        ensures
            c@ == self@,
    {
        Key { id: self.id.clone() }
    }
}

impl Key {
    /// The key that names the secret half of `id`.
    pub fn from_identity(id: Identity) -> (k: Key)
        ensures
            k@ == id@,
    {
        Key { id }
    }

    /// The public half.
    pub fn identity(&self) -> (id: &Identity)
        ensures
            id@ == self@,
    {
        &self.id
    }
}

} // verus!
