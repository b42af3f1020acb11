//! Signatures over hashes, as they are appended to documents and entries.

use vstd::prelude::*;
use crate::bytes::{array32_at, array64_at};
use crate::crypto::error::CryptoError;
use crate::crypto::hash::{self, HashView};
use crate::crypto::key::{Identity, IdentityView};
use crate::crypto::primitives::{sign_verifies, verify_detached};

verus! {

/// A signature as contracts see it.
pub struct SignatureView {
    pub version: u8,
    pub signer: IdentityView,
    pub sig: Seq<u8>,
}

/// The length of a written signature: version, public key, signature.
pub const SIGNATURE_LEN: usize = 97;

impl SignatureView {
    pub open spec fn wf(self) -> bool {
        self.version == 1 && self.signer.wf() && self.sig.len() == 64
    }

    /// The bytes a signature is written as: the version, the signer's public key, the
    /// signature itself.
    pub open spec fn encoding(self) -> Seq<u8> {
        seq![self.version] + self.signer.key + self.sig
    }

    /// What `bytes` starts with, read as a signature, and how many bytes that takes.
    pub open spec fn parse(bytes: Seq<u8>) -> Result<(SignatureView, int), CryptoError> {
        if bytes.len() == 0 {
            Err(CryptoError::BadLength)
        } else if bytes[0] != 1 {
            Err(CryptoError::UnsupportedVersion)
        } else if bytes.len() < 97 {
            Err(CryptoError::BadLength)
        } else {
            Ok(
                (
                    SignatureView {
                        version: 1,
                        signer: IdentityView { version: 1, key: bytes.subrange(1, 33) },
                        sig: bytes.subrange(33, 97),
                    },
                    97,
                ),
            )
        }
    }

    /// Whether this is the signer's signature of `hash`. What is signed is the hash as it is
    /// written.
    pub open spec fn verifies(self, hash: HashView) -> bool {
        sign_verifies(self.signer.key, hash.encoding(), self.sig)
    }
}

/// Reading back what was written gives the signature that was written.
pub proof fn lemma_signature_parse_encoding(s: SignatureView, rest: Seq<u8>)
    requires
        s.wf(),
    ensures
        SignatureView::parse(s.encoding() + rest) == Ok::<(SignatureView, int), CryptoError>((s, 97)),
        s.encoding().len() == 97,
{
    let b = s.encoding() + rest;
    assert(b.subrange(1, 33) =~= s.signer.key);
    assert(b.subrange(33, 97) =~= s.sig);
}

/// What was read, written again, is the bytes it was read from.
pub proof fn lemma_signature_encoding_parse(bytes: Seq<u8>)
    requires
        SignatureView::parse(bytes) is Ok,
    ensures
        SignatureView::parse(bytes)->Ok_0.0.wf(),
        SignatureView::parse(bytes)->Ok_0.0.encoding() == bytes.take(97),
        SignatureView::parse(bytes)->Ok_0.1 == 97,
        bytes.len() >= 97,
{
    let (s, n) = SignatureView::parse(bytes)->Ok_0;
    assert(s.encoding() =~= bytes.take(97));
}

/// A signer's identity and their signature of a hash.
#[derive(Debug, PartialEq, Eq)]
pub struct Signature {
    version: u8,
    signer: Identity,
    sig: [u8; 64],
}

impl View for Signature {
    type V = SignatureView;

    closed spec fn view(&self) -> SignatureView {
        SignatureView { version: self.version, signer: self.signer@, sig: self.sig@ }
    }
}

impl Signature {
    #[verifier::type_invariant]
    spec fn inv(self) -> bool {
        self@.wf()
    }

    /// The signature `sig` as made by `signer`.
    pub(crate) fn from_parts(signer: Identity, sig: [u8; 64]) -> (s: Signature)
        ensures
            s@ == (SignatureView { version: 1, signer: signer@, sig: sig@ }),
    {
        let _ = signer.version();
        Signature { version: 1, signer, sig }
    }

    /// Who signed. Every signature is well formed.
    pub fn signed_by(&self) -> (id: &Identity)
        ensures
            id@ == self@.signer,
            self@.wf(),
    {
        proof {
            use_type_invariant(self);
        }
        &self.signer
    }

    /// How many bytes `encode` writes.
    pub fn len(&self) -> (n: usize)
        ensures
            n == SIGNATURE_LEN,
            self@.encoding().len() == SIGNATURE_LEN,
    {
        proof {
            use_type_invariant(self);
        }
        SIGNATURE_LEN
    }

    /// Whether this is the signer's signature of `hash`.
    pub fn verify(&self, hash: &hash::Hash) -> (ok: bool)
        ensures
            ok == self@.verifies(hash@),
    {
        let mut message: Vec<u8> = Vec::new();
        hash.encode(&mut message);
        assert(message@ =~= hash@.encoding());
        verify_detached(self.signer.key(), message.as_slice(), &self.sig)
    }

    /// Appends the signature's bytes to `buf`.
    pub fn encode(&self, buf: &mut Vec<u8>)
        ensures
            final(buf)@ == old(buf)@ + self@.encoding(),
    {
        buf.push(self.version);
        buf.extend_from_slice(self.signer.key());
        buf.extend_from_slice(&self.sig);
        assert(buf@ =~= old(buf)@ + self@.encoding());
    }

    /// Reads a signature from the start of `buf`; gives it and how many bytes it took.
    pub fn decode(buf: &[u8]) -> (r: Result<(Signature, usize), CryptoError>)
        ensures
            match SignatureView::parse(buf@) {
                Ok((s, n)) => r is Ok && r->Ok_0.0@ == s && r->Ok_0.1 == n,
                Err(e) => r == Err::<(Signature, usize), CryptoError>(e),
            },
    {
        if buf.len() == 0 {
            return Err(CryptoError::BadLength);
        }
        if buf[0] != 1 {
            return Err(CryptoError::UnsupportedVersion);
        }
        if buf.len() < 97 {
            return Err(CryptoError::BadLength);
        }
        let signer = Identity::from_public(array32_at(buf, 1));
        let sig = array64_at(buf, 33);
        Ok((Signature { version: 1, signer, sig }, 97))
    }
}

} // verus!
