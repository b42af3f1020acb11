//! A vault that keeps signing keys and signs with them.

use vstd::prelude::*;
use crate::bytes::array32_at;
use crate::crypto::error::CryptoError;
use crate::crypto::hash::{self, HashView};
use crate::crypto::key::{Identity, IdentityView, Key};
use crate::crypto::primitives::{random_bytes, sign_bytes, sign_detached, sign_keypair_public, sign_public};
use crate::crypto::signature::{Signature, SignatureView};

verus! {

/// A secret signing key and its public half.
struct StoredKey {
    seed: [u8; 32],
    public: [u8; 32],
}

impl StoredKey {
    #[verifier::type_invariant]
    spec fn inv(self) -> bool {
        self.public@ == sign_public(self.seed@)
    }
}

/// A store of secret signing keys. It signs on request and never hands a secret out.
pub struct Vault {
    keys: Vec<StoredKey>,
}

impl Vault {
    /// The secrets held, by public key, in the order they came.
    pub closed spec fn held(&self) -> Seq<(Seq<u8>, Seq<u8>)> {
        Seq::new(self.keys@.len(), |i: int| (self.keys@[i].public@, self.keys@[i].seed@))
    }

    /// Whether the vault holds the secret half of `key`.
    pub open spec fn holds(&self, key: IdentityView) -> bool {
        exists|i: int| 0 <= i < self.held().len() && #[trigger] self.held()[i].0 == key.key
    }

    /// The first position at which the secret half of `key` is held.
    pub open spec fn slot(&self, key: IdentityView) -> int {
        choose|i: int|
            0 <= i < self.held().len() && #[trigger] self.held()[i].0 == key.key && forall|j: int|
                0 <= j < i ==> #[trigger] self.held()[j].0 != key.key
    }

    /// What the vault's signature of `hash` with `key` is.
    pub open spec fn signature_of(&self, hash: HashView, key: IdentityView) -> SignatureView {
        SignatureView {
            version: 1,
            signer: key,
            sig: sign_bytes(self.held()[self.slot(key)].1, hash.encoding()),
        }
    }

    /// A vault that holds no key.
    pub fn new() -> (v: Vault)
        ensures
            v.held().len() == 0,
    {
        Vault { keys: Vec::new() }
    }

    /// Takes the secret key `seed` into the vault, and names it.
    pub fn add_key(&mut self, seed: [u8; 32]) -> (key: Key)
        ensures
            final(self).held() == old(self).held().push((sign_public(seed@), seed@)),
            key@ == (IdentityView { version: 1, key: sign_public(seed@) }),
            final(self).holds(key@),
    {
        let public = sign_keypair_public(&seed);
        self.keys.push(StoredKey { seed, public });
        assert(self.held() =~= old(self).held().push((sign_public(seed@), seed@)));
        assert(self.held()[self.held().len() - 1].0 == public@);
        Key::from_identity(Identity::from_public(public))
    }

    /// Makes a new key from the system's random numbers. Fails, leaving the vault as it was,
    /// only if that source fails.
    pub fn new_key(&mut self) -> (r: Result<Key, CryptoError>)
        ensures
            match r {
                Ok(key) => final(self).holds(key@) && key@.wf() && final(self).held().len()
                    == old(self).held().len() + 1 && final(self).held().drop_last() == old(
                    self,
                ).held(),
                Err(e) => e == CryptoError::RandomFailed && final(self).held() == old(self).held(),
            },
    {
        match random_bytes(32) {
            Some(bytes) => {
                let seed = array32_at(bytes.as_slice(), 0);
                let key = self.add_key(seed);
                assert(self.held().drop_last() =~= old(self).held());
                Ok(key)
            },
            None => Err(CryptoError::RandomFailed),
        }
    }

    /// Where the secret half of `key` is held, if it is.
    fn find(&self, key: &Key) -> (r: Option<usize>)
        ensures
            match r {
                Some(i) => self.holds(key@) && i == self.slot(key@) && i < self.keys@.len()
                    && self.held()[i as int].0 == key@.key,
                None => !self.holds(key@),
            },
    {
        let mut i: usize = 0;
        while i < self.keys.len()
            invariant
                0 <= i <= self.keys@.len(),
                forall|j: int| 0 <= j < i ==> #[trigger] self.held()[j].0 != key@.key,
            decreases self.keys@.len() - i,
        {
            if crate::bytes::bytes_eq(&self.keys[i].public, key.identity().key()) {
                assert(self.held()[i as int].0 == key@.key);
                return Some(i);
            }
            i += 1;
        }
        None
    }

    /// Whether the vault holds the secret half of `key`.
    pub fn has_key(&self, key: &Key) -> (r: bool)
        ensures
            r == self.holds(key@),
    {
        self.find(key).is_some()
    }

    /// Signs `hash` with the secret half of `key`. Fails if the vault does not hold it.
    pub fn sign(&self, hash: &hash::Hash, key: &Key) -> (r: Result<Signature, CryptoError>)
        ensures
            match r {
                Ok(s) => self.holds(key@) && s@ == self.signature_of(hash@, key@) && s@.verifies(
                    hash@,
                ) && s@.wf(),
                Err(e) => !self.holds(key@) && e == CryptoError::NotInStorage,
            },
    {
        match self.find(key) {
            None => Err(CryptoError::NotInStorage),
            Some(i) => {
                let mut message: Vec<u8> = Vec::new();
                hash.encode(&mut message);
                assert(message@ =~= hash@.encoding());
                let stored = &self.keys[i];
                let sig = sign_detached(&stored.seed, message.as_slice());
                assert(self.held()[i as int].1 == stored.seed@);
                assert(self.held()[i as int].0 == stored.public@);
                proof {
                    use_type_invariant(stored);
                }
                assert(key@.key == sign_public(stored.seed@));
                let s = Signature::from_parts(key.identity().clone(), sig);
                let _ = s.signed_by();
                Ok(s)
            },
        }
    }
}

} // verus!
