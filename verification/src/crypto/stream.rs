//! Stream keys, and the keys by which one is agreed on with an identity.

use vstd::prelude::*;
use crate::bytes::array32_at;
use crate::crypto::error::CryptoError;
use crate::crypto::hash;
use crate::crypto::key::Identity;
use crate::crypto::primitives::{
    blake2b, crypt_public_of, crypt_scalarmult, crypt_secret_of, random_bytes, sign_keypair_public,
    sign_public, sign_public_to_crypt, sign_secret_to_crypt, x25519,
};

verus! {

/// The first 32 bytes of the hash of `data`: how a key or an identifier is made from other
/// key material.
pub open spec fn derived(data: Seq<u8>) -> Seq<u8> {
    blake2b(data).subrange(0, 32)
}

/// Makes 32 bytes from `data` by hashing.
pub fn derive(data: &[u8]) -> (r: [u8; 32])
    ensures
        r@ == derived(data@),
{
    match hash::Hash::new(1, data) {
        Ok(h) => {
            let _ = h.version();
            array32_at(h.digest(), 0)
        },
        Err(_) => [0u8; 32],
    }
}

/// The point that X25519 key pairs are made from.
pub open spec fn basepoint() -> Seq<u8> {
    Seq::new(32, |i: int| if i == 0 { 9u8 } else { 0u8 })
}

/// The X25519 public key of the secret `secret`.
pub fn crypt_public(secret: &[u8; 32]) -> (public: [u8; 32])
    ensures
        public@ == x25519(secret@, basepoint()),
{
    let mut base = [0u8; 32];
    base[0] = 9;
    assert(base@ =~= basepoint());
    crypt_scalarmult(secret, &base)
}

/// A fresh X25519 key pair: the public and the secret half. Fails only if the system's
/// random number source fails.
pub fn crypt_keypair() -> (r: Result<([u8; 32], [u8; 32]), CryptoError>)
    ensures
        match r {
            Ok((public, secret)) => public@ == x25519(secret@, basepoint()),
            Err(e) => e == CryptoError::RandomFailed,
        },
{
    match random_bytes(32) {
        Some(bytes) => {
            let secret = array32_at(bytes.as_slice(), 0);
            Ok((crypt_public(&secret), secret))
        },
        None => Err(CryptoError::RandomFailed),
    }
}

/// A symmetric key as contracts see it.
pub struct StreamKeyView {
    pub version: u8,
    pub id: Seq<u8>,
    pub key: Seq<u8>,
}

/// A symmetric key shared by sender and recipient, with the identifier it goes by.
#[derive(Debug, PartialEq, Eq)]
pub struct FullStreamKey {
    version: u8,
    id: [u8; 32],
    key: [u8; 32],
}

impl View for FullStreamKey {
    type V = StreamKeyView;

    closed spec fn view(&self) -> StreamKeyView {
        StreamKeyView { version: self.version, id: self.id@, key: self.key@ }
    }
}

impl FullStreamKey {
    /// The key with the secret `key`. Its identifier is made from the secret by hashing.
    pub fn from_secret(key: [u8; 32]) -> (k: FullStreamKey)
        ensures
            k@ == (StreamKeyView { version: 1, id: derived(key@), key: key@ }),
    {
        let id = derive(&key);
        FullStreamKey { version: 1, id, key }
    }

    /// A fresh key. Fails only if the system's random number source fails.
    pub fn new() -> (r: Result<FullStreamKey, CryptoError>)
        ensures
            match r {
                Ok(k) => k@.version == 1 && k@.id == derived(k@.key) && k@.key.len() == 32,
                Err(e) => e == CryptoError::RandomFailed,
            },
    {
        match random_bytes(32) {
            Some(bytes) => Ok(FullStreamKey::from_secret(array32_at(bytes.as_slice(), 0))),
            None => Err(CryptoError::RandomFailed),
        }
    }

    pub fn get_version(&self) -> (v: u8)
        ensures
            v == self@.version,
    {
        self.version
    }

    pub fn get_id(&self) -> (id: [u8; 32])
        ensures
            id@ == self@.id,
    {
        self.id
    }

    pub fn get_key(&self) -> (key: &[u8; 32])
        ensures
            key@ == self@.key,
    {
        &self.key
    }
}

/// A recipient as contracts see it: the public signing key, and the public key that goes
/// with it for key exchange.
pub struct FullIdentityView {
    pub version: u8,
    pub id: Seq<u8>,
    pub crypt: Seq<u8>,
}

/// The public keys of someone that a message can be locked for.
#[derive(Debug, PartialEq, Eq)]
pub struct FullIdentity {
    version: u8,
    id: [u8; 32],
    crypt: [u8; 32],
}

impl View for FullIdentity {
    type V = FullIdentityView;

    closed spec fn view(&self) -> FullIdentityView {
        FullIdentityView { version: self.version, id: self.id@, crypt: self.crypt@ }
    }
}

impl FullIdentity {
    /// The public keys that go with `id`. Fails where the bytes of `id` are no public key.
    pub fn from_identity(id: &Identity) -> (r: Result<FullIdentity, CryptoError>)
        ensures
            match crypt_public_of(id@.key) {
                Some(crypt) => r is Ok && r->Ok_0@ == (FullIdentityView {
                    version: id@.version,
                    id: id@.key,
                    crypt,
                }),
                None => r is Err && r->Err_0 == CryptoError::BadKey,
            },
    {
        match sign_public_to_crypt(id.key()) {
            Some(crypt) => Ok(FullIdentity { version: id.version(), id: *id.key(), crypt }),
            None => Err(CryptoError::BadKey),
        }
    }

    pub fn get_version(&self) -> (v: u8)
        ensures
            v == self@.version,
    {
        self.version
    }

    pub fn get_id(&self) -> (id: [u8; 32])
        ensures
            id@ == self@.id,
    {
        self.id
    }

    /// The symmetric key that the secret half `esk` of a one-time key pair shares with this
    /// recipient.
    pub fn calc_stream_key(&self, esk: &[u8; 32]) -> (r: Result<[u8; 32], CryptoError>)
        ensures
            match r {
                Ok(key) => self@.version == 1 && key@ == derived(x25519(esk@, self@.crypt)),
                Err(e) => self@.version != 1 && e == CryptoError::UnsupportedVersion,
            },
    {
        if self.version != 1 {
            return Err(CryptoError::UnsupportedVersion);
        }
        let shared = crypt_scalarmult(esk, &self.crypt);
        Ok(derive(&shared))
    }
}

/// A key pair as contracts see it.
pub struct FullKeyView {
    pub version: u8,
    pub seed: Seq<u8>,
    pub id: Seq<u8>,
    pub crypt_secret: Seq<u8>,
}

/// Someone's secret keys: the one that signs, and the one that goes with it for key
/// exchange.
pub struct FullKey {
    version: u8,
    seed: [u8; 32],
    id: [u8; 32],
    crypt_secret: [u8; 32],
}

impl View for FullKey {
    type V = FullKeyView;

    closed spec fn view(&self) -> FullKeyView {
        FullKeyView { version: self.version, seed: self.seed@, id: self.id@, crypt_secret: self.crypt_secret@ }
    }
}

impl FullKey {
    /// The key pair of the secret `seed`.
    pub fn from_seed(seed: [u8; 32]) -> (k: FullKey)
        ensures
            k@ == (FullKeyView {
                version: 1,
                seed: seed@,
                id: sign_public(seed@),
                crypt_secret: crypt_secret_of(seed@),
            }),
    {
        let id = sign_keypair_public(&seed);
        let crypt_secret = sign_secret_to_crypt(&seed);
        FullKey { version: 1, seed, id, crypt_secret }
    }

    /// A fresh key pair, with the public keys that go with it. Fails if the system's random
    /// number source fails.
    pub fn new_pair() -> (r: Result<(FullKey, FullIdentity), CryptoError>)
        ensures
            match r {
                Ok((key, id)) => key@.version == 1 && key@.id == sign_public(key@.seed) && id@.id == key@.id
                    && id@.version == 1 && crypt_public_of(key@.id) == Some(id@.crypt),
                Err(e) => e == CryptoError::RandomFailed || e == CryptoError::BadKey,
            },
    {
        match random_bytes(32) {
            Some(bytes) => {
                let key = FullKey::from_seed(array32_at(bytes.as_slice(), 0));
                let id = FullIdentity::from_identity(&Identity::from_public(key.id))?;
                Ok((key, id))
            },
            None => Err(CryptoError::RandomFailed),
        }
    }

    pub fn get_version(&self) -> (v: u8)
        ensures
            v == self@.version,
    {
        self.version
    }

    pub fn get_id(&self) -> (id: [u8; 32])
        ensures
            id@ == self@.id,
    {
        self.id
    }

    /// The symmetric key that this recipient shares with the public half `epk` of a sender's
    /// one-time key pair.
    pub fn calc_stream_key(&self, epk: &[u8; 32]) -> (r: Result<[u8; 32], CryptoError>)
        ensures
            match r {
                Ok(key) => self@.version == 1 && key@ == derived(x25519(self@.crypt_secret, epk@)),
                Err(e) => self@.version != 1 && e == CryptoError::UnsupportedVersion,
            },
    {
        if self.version != 1 {
            return Err(CryptoError::UnsupportedVersion);
        }
        let shared = crypt_scalarmult(&self.crypt_secret, epk);
        Ok(derive(&shared))
    }
}

} // verus!
