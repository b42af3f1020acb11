//! Locks and lockboxes: encryption for the holder of a stream key or of an identity.

use vstd::prelude::*;
use vstd::slice::slice_subrange;
use crate::bytes::{array16_at, array24_at, array32_at, bytes_eq};
use crate::crypto::error::CryptoError;
use crate::crypto::primitives::{aead_decrypt, aead_encrypt, aead_opened, aead_sealed, random_bytes, x25519};
use crate::crypto::stream::{crypt_keypair, derived, FullIdentity, FullKey, FullStreamKey};

verus! {

/// The length of the tag that authenticates a ciphertext.
pub const TAG_LEN: usize = 16;

/// What a lock needs to be opened, as contracts see it.
pub enum LockTypeView {
    /// The secret half of `signer`; `epk` is the sender's one-time public key.
    Identity { signer: Seq<u8>, epk: Seq<u8> },
    /// The stream key that goes by `id`.
    Stream { id: Seq<u8> },
}

impl LockTypeView {
    /// The byte that tells the two kinds apart.
    pub open spec fn tag(self) -> u8 {
        match self {
            LockTypeView::Identity { .. } => 1,
            LockTypeView::Stream { .. } => 2,
        }
    }

    /// Keys and identifiers are 32 bytes long.
    pub open spec fn wf(self) -> bool {
        match self {
            LockTypeView::Identity { signer, epk } => signer.len() == 32 && epk.len() == 32,
            LockTypeView::Stream { id } => id.len() == 32,
        }
    }

    /// The bytes a lock type is written as: its tag, then its keys.
    pub open spec fn encoding(self) -> Seq<u8> {
        match self {
            LockTypeView::Identity { signer, epk } => seq![1u8] + signer + epk,
            LockTypeView::Stream { id } => seq![2u8] + id,
        }
    }

    /// How many bytes a lock type with the tag `tag` is written as, tag and all, where the tag
    /// is known.
    pub open spec fn len_of(tag: u8) -> Option<int> {
        if tag == 1 {
            Some(65)
        } else if tag == 2 {
            Some(33)
        } else {
            None
        }
    }

    /// What `bytes` starts with, read as a lock type, and how many bytes that takes.
    pub open spec fn parse(bytes: Seq<u8>) -> Result<(LockTypeView, int), CryptoError> {
        if bytes.len() == 0 {
            Err(CryptoError::BadLength)
        } else if bytes[0] == 1 {
            if bytes.len() < 65 {
                Err(CryptoError::BadLength)
            } else {
                Ok((LockTypeView::Identity { signer: bytes.subrange(1, 33), epk: bytes.subrange(33, 65) }, 65))
            }
        } else if bytes[0] == 2 {
            if bytes.len() < 33 {
                Err(CryptoError::BadLength)
            } else {
                Ok((LockTypeView::Stream { id: bytes.subrange(1, 33) }, 33))
            }
        } else {
            Err(CryptoError::UnsupportedVersion)
        }
    }
}

/// A lock type is read exactly where its tag is known and as many bytes are there as the tag
/// calls for; and it takes that many.
pub proof fn lemma_lock_type_parse_len(bytes: Seq<u8>)
    requires
        bytes.len() > 0,
    ensures
        match LockTypeView::len_of(bytes[0]) {
            Some(n) => if bytes.len() >= n {
                LockTypeView::parse(bytes) is Ok && LockTypeView::parse(bytes)->Ok_0.1 == n
            } else {
                LockTypeView::parse(bytes) == Err::<(LockTypeView, int), CryptoError>(CryptoError::BadLength)
            },
            None => LockTypeView::parse(bytes) == Err::<(LockTypeView, int), CryptoError>(
                CryptoError::UnsupportedVersion,
            ),
        },
{
}

/// Reading back what was written gives the lock type that was written.
pub proof fn lemma_lock_type_parse_encoding(t: LockTypeView, rest: Seq<u8>)
    requires
        t.wf(),
    ensures
        LockTypeView::parse(t.encoding() + rest) == Ok::<(LockTypeView, int), CryptoError>(
            (t, t.encoding().len() as int),
        ),
{
    let b = t.encoding() + rest;
    match t {
        LockTypeView::Identity { signer, epk } => {
            assert(b.subrange(1, 33) =~= signer);
            assert(b.subrange(33, 65) =~= epk);
        },
        LockTypeView::Stream { id } => {
            assert(b.subrange(1, 33) =~= id);
        },
    }
}

/// What a lock needs to be opened: the secret half of an identity, or a stream key.
#[derive(Debug, PartialEq)]
pub enum LockType {
    /// The recipient's public signing key, and the one-time public key that the sender made
    /// the shared key with.
    Identity(([u8; 32], [u8; 32])),
    /// The identifier of the stream key.
    Stream([u8; 32]),
}

impl View for LockType {
    type V = LockTypeView;

    open spec fn view(&self) -> LockTypeView {
        match self {
            LockType::Identity(v) => LockTypeView::Identity { signer: v.0@, epk: v.1@ },
            LockType::Stream(v) => LockTypeView::Stream { id: v@ },
        }
    }
}

impl Clone for LockType {
    fn clone(&self) -> (c: LockType)
        ensures
            c@ == self@,
    {
        match self {
            LockType::Identity(v) => LockType::Identity((v.0, v.1)),
            LockType::Stream(v) => LockType::Stream(*v),
        }
    }
}

impl LockType {
    fn to_u8(&self) -> (b: u8)
        ensures
            b == self@.tag(),
    {
        match *self {
            LockType::Identity(_) => 1,
            LockType::Stream(_) => 2,
        }
    }

    /// How many bytes a lock type with the tag `tag` is written as, tag and all, where the tag
    /// is known.
    pub fn len_of_tag(tag: u8) -> (r: Option<usize>)
        ensures
            match r {
                Some(n) => LockTypeView::len_of(tag) == Some(n as int),
                None => LockTypeView::len_of(tag) is None,
            },
    {
        match tag {
            1 => Some(65),
            2 => Some(33),
            _ => None,
        }
    }

    /// How many bytes `write` writes.
    pub fn len(&self) -> (n: usize)
        ensures
            n == self@.encoding().len(),
            self@.wf(),
    {
        1 + match *self {
            LockType::Identity(ref v) => 64,
            LockType::Stream(ref v) => 32,
        }
    }

    /// Appends the lock type's bytes to `wr`.
    pub fn write(&self, wr: &mut Vec<u8>)
        ensures
            final(wr)@ == old(wr)@ + self@.encoding(),
    {
        wr.push(self.to_u8());
        match *self {
            LockType::Identity(ref d) => {
                wr.extend_from_slice(&d.0);
                wr.extend_from_slice(&d.1);
            },
            LockType::Stream(ref d) => {
                wr.extend_from_slice(d);
            },
        }
        assert(wr@ =~= old(wr)@ + self@.encoding());
    }

    /// Reads a lock type from the start of `rd`; gives it and how many bytes it took.
    pub fn read(rd: &[u8]) -> (r: Result<(LockType, usize), CryptoError>)
        ensures
            match LockTypeView::parse(rd@) {
                Ok((t, n)) => r is Ok && r->Ok_0.0@ == t && r->Ok_0.1 == n,
                Err(e) => r is Err && r->Err_0 == e,
            },
    {
        if rd.len() == 0 {
            return Err(CryptoError::BadLength);
        }
        let id = rd[0];
        match id {
            1 => {
                if rd.len() < 65 {
                    return Err(CryptoError::BadLength);
                }
                let pk = array32_at(rd, 1);
                let epk = array32_at(rd, 33);
                Ok((LockType::Identity((pk, epk)), 65))
            },
            2 => {
                if rd.len() < 33 {
                    return Err(CryptoError::BadLength);
                }
                let id = array32_at(rd, 1);
                Ok((LockType::Stream(id), 33))
            },
            _ => Err(CryptoError::UnsupportedVersion),
        }
    }
}

/// An encrypted payload, kept as the bytes it travels as.
#[derive(Debug, PartialEq, Eq)]
pub struct Lockbox {
    v: Vec<u8>,
}

impl View for Lockbox {
    type V = Seq<u8>;

    closed spec fn view(&self) -> Seq<u8> {
        self.v@
    }
}

impl Clone for Lockbox {
    fn clone(&self) -> (c: Lockbox)
        ensures
            c@ == self@,
    {
        Lockbox { v: self.v.clone() }
    }
}

impl Lockbox {
    /// The lockbox that travels as `v`.
    pub fn from_vec(v: Vec<u8>) -> (l: Lockbox)
        ensures
            l@ == v@,
    {
        Lockbox { v }
    }

    /// The bytes the lockbox travels as.
    pub fn as_bytes(&self) -> (b: &[u8])
        ensures
            b@ == self@,
    {
        self.v.as_slice()
    }

    /// How many bytes the lockbox travels as.
    pub fn len(&self) -> (n: usize)
        ensures
            n == self@.len(),
    {
        self.v.len()
    }
}

/// An encrypted payload, borrowed from the bytes it was read from.
#[derive(Debug, PartialEq, Eq)]
pub struct LockboxRef<'a> {
    v: &'a [u8],
}

impl<'a> View for LockboxRef<'a> {
    type V = Seq<u8>;

    closed spec fn view(&self) -> Seq<u8> {
        self.v@
    }
}

impl<'a> LockboxRef<'a> {
    /// The lockbox that travels as `v`.
    pub fn from_bytes(v: &'a [u8]) -> (l: LockboxRef<'a>)
        ensures
            l@ == v@,
    {
        LockboxRef { v }
    }

    /// The bytes the lockbox travels as.
    pub fn as_bytes(&self) -> (b: &'a [u8])
        ensures
            b@ == self@,
    {
        self.v
    }
}


/// Where a lock stands.
#[derive(Clone, Copy, Debug, PartialEq, Eq, Structural)]
pub enum LockState {
    /// Read from bytes; the key is not known yet.
    Sealed,
    /// The key is known.
    Keyed,
    /// The key has locked its one message.
    Spent,
}

/// A lock as contracts see it.
pub struct LockView {
    pub version: u8,
    pub type_id: LockTypeView,
    pub key: Seq<u8>,
    pub nonce: Seq<u8>,
    pub state: LockState,
}

impl LockView {
    /// The bytes a lock is written as: the version, what it needs to be opened, the nonce.
    /// The key is never written.
    pub open spec fn encoding(self) -> Seq<u8> {
        seq![self.version] + self.type_id.encoding() + self.nonce
    }

    /// What `bytes` starts with, read as a lock, and how many bytes that takes. The lock
    /// that was read is sealed.
    pub open spec fn parse(bytes: Seq<u8>) -> Result<(LockView, int), CryptoError> {
        if bytes.len() == 0 {
            Err(CryptoError::BadLength)
        } else {
            match LockTypeView::parse(bytes.skip(1)) {
                Err(e) => Err(e),
                Ok((type_id, n)) => if bytes.len() < 1 + n + 24 {
                    Err(CryptoError::BadLength)
                } else {
                    Ok(
                        (
                            LockView {
                                version: bytes[0],
                                type_id,
                                key: crate::bytes::zeros(32),
                                nonce: bytes.subrange(1 + n, 1 + n + 24),
                                state: LockState::Sealed,
                            },
                            1 + n + 24,
                        ),
                    )
                },
            }
        }
    }
}

/// Reading back what was written gives the same lock, sealed: version, type and nonce are
/// as they were, and the key is gone.
pub proof fn lemma_lock_parse_encoding(l: LockView, rest: Seq<u8>)
    requires
        l.type_id.wf(),
        l.nonce.len() == 24,
    ensures
        LockView::parse(l.encoding() + rest) == Ok::<(LockView, int), CryptoError>(
            (
                LockView { key: crate::bytes::zeros(32), state: LockState::Sealed, ..l },
                l.encoding().len() as int,
            ),
        ),
{
    let b = l.encoding() + rest;
    let t = l.type_id.encoding();
    assert(b.skip(1) =~= t + (l.nonce + rest));
    lemma_lock_type_parse_encoding(l.type_id, l.nonce + rest);
    let n = t.len() as int;
    assert(b.subrange(1 + n, 1 + n + 24) =~= l.nonce);
}

/// Everything needed to lock one message, or to open one.
///
/// To lock: make the lock from a stream key or from a recipient's identity, write it, and
/// encrypt the message. A lock locks a single message: its nonce must not be used twice, so
/// encrypting spends it.
///
/// To open: read the lock, see what it needs, give it the stream key or the recipient's
/// secret key, and decrypt.
#[derive(Debug, PartialEq)]
pub struct Lock {
    version: u8,
    type_id: LockType,
    key: [u8; 32],
    nonce: [u8; 24],
    state: LockState,
}

impl View for Lock {
    type V = LockView;

    closed spec fn view(&self) -> LockView {
        LockView {
            version: self.version,
            type_id: self.type_id@,
            key: self.key@,
            nonce: self.nonce@,
            state: self.state,
        }
    }
}

impl Lock {
    /// A lock for one message under the stream key `k`, ready to encrypt. Fails where the
    /// key's version is not known or the system's random number source fails.
    pub fn from_stream(k: &FullStreamKey) -> (r: Result<Lock, CryptoError>)
        ensures
            match r {
                Ok(lock) => {
                    &&& k@.version == 1
                    &&& lock@.version == 1
                    &&& lock@.type_id == (LockTypeView::Stream { id: k@.id })
                    &&& lock@.key == k@.key
                    &&& lock@.state == LockState::Keyed
                },
                Err(e) => if k@.version != 1 {
                    e == CryptoError::UnsupportedVersion
                } else {
                    e == CryptoError::RandomFailed
                },
            },
    {
        let version = k.get_version();
        if version != 1 {
            return Err(CryptoError::UnsupportedVersion);
        }
        let nonce = match random_bytes(24) {
            Some(bytes) => array24_at(bytes.as_slice(), 0),
            None => {
                return Err(CryptoError::RandomFailed);
            },
        };
        Ok(Lock { version, type_id: LockType::Stream(k.get_id()), key: *k.get_key(), nonce, state: LockState::Keyed })
    }

    /// A lock for one message to the recipient `id`, ready to encrypt, and the stream key
    /// that it locks with. The key is shared with the recipient through a one-time key pair,
    /// whose public half travels in the lock.
    pub fn from_identity(id: &FullIdentity) -> (r: Result<(Lock, FullStreamKey), CryptoError>)
        ensures
            match r {
                Ok((lock, stream)) => {
                    &&& id@.version == 1
                    &&& lock@.version == 1
                    &&& lock@.type_id is Identity
                    &&& lock@.type_id->signer == id@.id
                    &&& lock@.key == stream@.key
                    &&& stream@.id == derived(stream@.key)
                    &&& exists|esk: Seq<u8>|
                        lock@.type_id->epk == x25519(esk, crate::crypto::stream::basepoint()) && lock@.key
                            == derived(#[trigger] x25519(esk, id@.crypt))
                    &&& lock@.state == LockState::Keyed
                },
                Err(e) => if id@.version != 1 {
                    e == CryptoError::UnsupportedVersion
                } else {
                    e == CryptoError::RandomFailed
                },
            },
    {
        let version = id.get_version();
        if version != 1 {
            return Err(CryptoError::UnsupportedVersion);
        }
        let nonce = match random_bytes(24) {
            Some(bytes) => array24_at(bytes.as_slice(), 0),
            None => {
                return Err(CryptoError::RandomFailed);
            },
        };
        let (epk, esk) = crypt_keypair()?;
        let k = id.calc_stream_key(&esk)?;
        let k = FullStreamKey::from_secret(k);
        Ok(
            (
                Lock {
                    version,
                    type_id: LockType::Identity((id.get_id(), epk)),
                    key: *k.get_key(),
                    nonce,
                    state: LockState::Keyed,
                },
                k,
            ),
        )
    }

    pub fn get_version(&self) -> (v: u8)
        ensures
            v == self@.version,
    {
        self.version
    }

    /// How many bytes `write` writes.
    pub fn len(&self) -> (n: usize)
        ensures
            n == self@.encoding().len(),
    {
        1 + self.type_id.len() + 24
    }

    /// The length of the encrypted data, given the length of the message.
    pub fn encrypt_len(&self, message_len: usize) -> (n: usize)
        requires
            message_len + TAG_LEN <= usize::MAX,
        ensures
            n == message_len + TAG_LEN,
    {
        message_len + TAG_LEN
    }

    /// Encrypts `message`, bound to the data `ad`, and appends ciphertext and tag to `out`.
    /// The lock is spent by it. What was appended opens to the message again under the same
    /// key, nonce and data.
    ///
    /// Fails, leaving `out` and the lock as they were, where the lock has no key or has
    /// locked a message already, or where the cipher refuses the message.
    pub fn encrypt(&mut self, message: &[u8], ad: &[u8], out: &mut Vec<u8>) -> (r: Result<(), CryptoError>)
        ensures
            if old(self)@.state != LockState::Keyed {
                r is Err && r->Err_0 == CryptoError::BadKey && final(out)@ == old(out)@ && final(self)@ == old(
                    self,
                )@
            } else {
                match aead_sealed(old(self)@.key, old(self)@.nonce, ad@, message@) {
                    Some((crypt, tag)) => {
                        &&& r is Ok
                        &&& final(out)@ == old(out)@ + crypt + tag
                        &&& final(out)@.len() == old(out)@.len() + message@.len() + TAG_LEN
                        &&& final(self)@ == (LockView { state: LockState::Spent, ..old(self)@ })
                        &&& aead_opened(
                            old(self)@.key,
                            old(self)@.nonce,
                            ad@,
                            (crypt + tag).take(message@.len() as int),
                            (crypt + tag).skip(message@.len() as int),
                        ) == Some(message@)
                    },
                    None => r is Err && r->Err_0 == CryptoError::EncryptFailed && final(out)@ == old(out)@
                        && final(self)@ == old(self)@,
                }
            },
    {
        if self.state != LockState::Keyed {
            return Err(CryptoError::BadKey);
        }
        match aead_encrypt(message, ad, &self.nonce, &self.key) {
            Some((crypt, tag)) => {
                out.extend_from_slice(crypt.as_slice());
                out.extend_from_slice(&tag);
                self.state = LockState::Spent;
                proof {
                    let whole = crypt@ + tag@;
                    assert(whole.take(message@.len() as int) =~= crypt@);
                    assert(whole.skip(message@.len() as int) =~= tag@);
                }
                Ok(())
            },
            None => Err(CryptoError::EncryptFailed),
        }
    }

    /// Checks `crypt`, a ciphertext followed by its tag, against the data `ad`, and appends
    /// the message to `out`.
    ///
    /// Fails, leaving `out` as it was, where the lock has no key, or where the tag does not
    /// match the key, the nonce, the data and the ciphertext.
    pub fn decrypt(&self, crypt: &[u8], ad: &[u8], out: &mut Vec<u8>) -> (r: Result<(), CryptoError>)
        ensures
            if self@.state != LockState::Keyed {
                r is Err && r->Err_0 == CryptoError::BadKey && final(out)@ == old(out)@
            } else if crypt@.len() < TAG_LEN {
                r is Err && r->Err_0 == CryptoError::DecryptFailed && final(out)@ == old(out)@
            } else {
                match aead_opened(
                    self@.key,
                    self@.nonce,
                    ad@,
                    crypt@.take(crypt@.len() - TAG_LEN),
                    crypt@.skip(crypt@.len() - TAG_LEN),
                ) {
                    Some(message) => r is Ok && final(out)@ == old(out)@ + message,
                    None => r is Err && r->Err_0 == CryptoError::DecryptFailed && final(out)@ == old(out)@,
                }
            },
    {
        if self.state != LockState::Keyed {
            return Err(CryptoError::BadKey);
        }
        if crypt.len() < TAG_LEN {
            return Err(CryptoError::DecryptFailed);
        }
        let m_len = crypt.len() - TAG_LEN;
        let body = slice_subrange(crypt, 0, m_len);
        let tag = array16_at(crypt, m_len);
        proof {
            assert(body@ =~= crypt@.take(m_len as int));
            assert(tag@ =~= crypt@.skip(m_len as int));
        }
        match aead_decrypt(body, ad, &tag, &self.nonce, &self.key) {
            Some(message) => {
                out.extend_from_slice(message.as_slice());
                Ok(())
            },
            None => Err(CryptoError::DecryptFailed),
        }
    }

    /// Appends the lock's bytes to `wr`: version, what it needs to be opened, nonce.
    pub fn write(&self, wr: &mut Vec<u8>)
        ensures
            final(wr)@ == old(wr)@ + self@.encoding(),
    {
        wr.push(self.version);
        self.type_id.write(wr);
        wr.extend_from_slice(&self.nonce);
        assert(wr@ =~= old(wr)@ + self@.encoding());
    }

    /// How many bytes a lock is written as whose lock type has the tag `tag`: the version,
    /// the lock type and the nonce.
    pub fn len_of_tag(tag: u8) -> (r: Option<usize>)
        ensures
            match r {
                Some(n) => LockTypeView::len_of(tag) == Some(n - 25),
                None => LockTypeView::len_of(tag) is None,
            },
    {
        match LockType::len_of_tag(tag) {
            Some(n) => Some(1 + n + 24),
            None => None,
        }
    }

    /// Reads a lock from the start of `rd`; gives it, sealed, and how many bytes it took.
    pub fn read(rd: &[u8]) -> (r: Result<(Lock, usize), CryptoError>)
        ensures
            match LockView::parse(rd@) {
                Ok((l, n)) => r is Ok && r->Ok_0.0@ == l && r->Ok_0.1 == n,
                Err(e) => r is Err && r->Err_0 == e,
            },
    {
        if rd.len() == 0 {
            return Err(CryptoError::BadLength);
        }
        let version = rd[0];
        let rest = slice_subrange(rd, 1, rd.len());
        assert(rest@ =~= rd@.skip(1));
        let (type_id, n) = LockType::read(rest)?;
        if rd.len() - 1 - n < 24 {
            return Err(CryptoError::BadLength);
        }
        let nonce = array24_at(rd, 1 + n);
        let key = [0u8; 32];
        assert(key@ =~= crate::bytes::zeros(32));
        Ok((Lock { version, type_id, key, nonce, state: LockState::Sealed }, 1 + n + 24))
    }

    /// What the lock needs to be opened, if it still needs anything.
    pub fn needs(&self) -> (r: Option<&LockType>)
        ensures
            match r {
                Some(t) => self@.state == LockState::Sealed && t@ == self@.type_id,
                None => self@.state != LockState::Sealed,
            },
    {
        match self.state {
            LockState::Sealed => Some(&self.type_id),
            _ => None,
        }
    }

    /// The stream key that the lock locks with, once it is known.
    pub fn get_stream(&self) -> (r: Option<FullStreamKey>)
        ensures
            match r {
                Some(k) => self@.state != LockState::Sealed && k@.key == self@.key && k@.id == derived(self@.key),
                None => self@.state == LockState::Sealed,
            },
    {
        match self.state {
            LockState::Sealed => None,
            _ => Some(FullStreamKey::from_secret(self.key)),
        }
    }

    /// Gives the lock the stream key that it asks for.
    ///
    /// Fails, leaving the lock as it was, where the lock asks for an identity, for another
    /// stream key, or for another version.
    pub fn decode_stream(&mut self, k: &FullStreamKey) -> (r: Result<(), CryptoError>)
        ensures
            if old(self)@.type_id is Stream && old(self)@.type_id->id == k@.id && old(self)@.version
                == k@.version {
                r is Ok && final(self)@ == (LockView { key: k@.key, state: LockState::Keyed, ..old(self)@ })
            } else {
                r is Err && r->Err_0 == CryptoError::BadKey && final(self)@ == old(self)@
            },
    {
        match self.type_id {
            LockType::Identity(_) => Err(CryptoError::BadKey),
            LockType::Stream(ref v) => {
                if !bytes_eq(v, &k.get_id()) || self.version != k.get_version() {
                    Err(CryptoError::BadKey)
                } else {
                    self.key = *k.get_key();
                    self.state = LockState::Keyed;
                    Ok(())
                }
            },
        }
    }

    /// Gives the lock the secret key of the identity that it asks for; the stream key is made
    /// from it and the sender's one-time public key.
    ///
    /// Fails, leaving the lock as it was, where the lock asks for a stream key, for another
    /// identity, or for another version.
    pub fn decode_identity(&mut self, k: &FullKey) -> (r: Result<(), CryptoError>)
        ensures
            if old(self)@.type_id is Identity && old(self)@.type_id->signer == k@.id && old(self)@.version
                == k@.version && k@.version == 1 {
                r is Ok && final(self)@ == (LockView {
                    key: derived(x25519(k@.crypt_secret, old(self)@.type_id->epk)),
                    state: LockState::Keyed,
                    ..old(self)@
                })
            } else {
                r is Err && final(self)@ == old(self)@ && (r->Err_0 == CryptoError::BadKey || r->Err_0
                    == CryptoError::UnsupportedVersion)
            },
    {
        match self.type_id {
            LockType::Identity(ref v) => {
                if !bytes_eq(&v.0, &k.get_id()) || self.version != k.get_version() {
                    Err(CryptoError::BadKey)
                } else {
                    let key = k.calc_stream_key(&v.1)?;
                    self.key = key;
                    self.state = LockState::Keyed;
                    Ok(())
                }
            },
            LockType::Stream(_) => Err(CryptoError::BadKey),
        }
    }
}

} // verus!
