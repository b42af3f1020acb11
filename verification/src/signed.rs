//! What documents and entries share: a body in canonical form, the signatures appended to it,
//! and the two hashes, one of the body alone and one of body and signatures.

use vstd::prelude::*;
use vstd::slice::slice_subrange;
use crate::codec::{encode_value, lemma_encode_parse_value, parse_value};
use crate::crypto::error::CryptoError;
use crate::crypto::hash;
use crate::crypto::hash::{HashState, HashView};
use crate::crypto::key::{Identity, IdentityView, Key};
use crate::crypto::signature::{
    lemma_signature_encoding_parse, lemma_signature_parse_encoding, Signature, SignatureView,
    SIGNATURE_LEN,
};
use crate::crypto::vault::Vault;
use crate::error::Error;
use crate::value::ValueView;
use crate::MAX_DEPTH;

verus! {

/// The signatures that `b` is made of, one after the other, if it is made of signatures.
pub open spec fn parse_signatures(b: Seq<u8>) -> Option<Seq<SignatureView>>
    decreases b.len(),
{
    if b.len() == 0 {
        Some(Seq::empty())
    } else {
        match SignatureView::parse(b) {
            Err(_) => None,
            Ok((s, n)) => match parse_signatures(b.skip(97)) {
                None => None,
                Some(rest) => Some(seq![s] + rest),
            },
        }
    }
}

/// Who made the signatures, in order.
pub open spec fn signers(sigs: Seq<SignatureView>) -> Seq<IdentityView> {
    Seq::new(sigs.len(), |i: int| sigs[i].signer)
}

/// That every one of the signatures is its signer's signature of `hash`.
pub open spec fn all_verify(sigs: Seq<SignatureView>, hash: HashView) -> bool {
    forall|i: int| 0 <= i < sigs.len() ==> (#[trigger] sigs[i]).verifies(hash)
}

/// Signatures followed by one more are read as those signatures and that one.
pub proof fn lemma_parse_signatures_push(b: Seq<u8>, s: SignatureView)
    requires
        parse_signatures(b) is Some,
        s.wf(),
    ensures
        parse_signatures(b + s.encoding()) == Some(parse_signatures(b)->0.push(s)),
    decreases b.len(),
{
    let all = b + s.encoding();
    if b.len() == 0 {
        assert(all =~= s.encoding() + Seq::<u8>::empty());
        lemma_signature_parse_encoding(s, Seq::empty());
        assert(all.skip(97) =~= Seq::<u8>::empty());
        assert(seq![s] + Seq::<SignatureView>::empty() =~= Seq::<SignatureView>::empty().push(s));
    } else {
        lemma_signature_encoding_parse(b);
        let (first, n) = SignatureView::parse(b)->Ok_0;
        assert(all.subrange(1, 33) =~= b.subrange(1, 33));
        assert(all.subrange(33, 97) =~= b.subrange(33, 97));
        assert(all.skip(97) =~= b.skip(97) + s.encoding());
        lemma_parse_signatures_push(b.skip(97), s);
        let rest = parse_signatures(b.skip(97))->0;
        assert(seq![first] + rest.push(s) =~= (seq![first] + rest).push(s));
    }
}

/// A body with its signatures, as contracts see it.
pub struct SignedView {
    /// What is hashed before the body: nothing for a document, the parent's hash and the
    /// field for an entry.
    pub prefix: Seq<u8>,
    /// The body, then the signatures.
    pub raw: Seq<u8>,
    /// How much of `raw` is the body.
    pub body_len: nat,
    /// Who signed, in the order they signed.
    pub signed_by: Seq<IdentityView>,
    /// Whether `hash` was computed here rather than taken on trust.
    pub hashed: bool,
    /// The hash of body and signatures.
    pub hash: HashView,
    /// The compressed form that was read, if one was.
    pub compressed: Option<Seq<u8>>,
    /// The largest `raw` allowed.
    pub max: nat,
}

impl SignedView {
    /// The body is one value in canonical form, what follows it is signatures and nothing
    /// else, the whole is within its size, and a hash that was computed is the hash of the
    /// whole.
    pub open spec fn wf(self) -> bool {
        &&& self.body_len <= self.raw.len() <= self.max
        &&& parse_value(self.raw, MAX_DEPTH as nat) is Ok
        &&& parse_value(self.raw, MAX_DEPTH as nat)->Ok_0.1 == self.body_len
        &&& parse_signatures(self.raw.skip(self.body_len as int)) is Some
        &&& signers(parse_signatures(self.raw.skip(self.body_len as int))->0) == self.signed_by
        &&& self.hashed ==> self.hash == HashView::of(self.prefix + self.raw)
    }

    /// The value that the body holds.
    pub open spec fn body(self) -> ValueView {
        parse_value(self.raw, MAX_DEPTH as nat)->Ok_0.0
    }

    /// The signatures after the body.
    pub open spec fn signatures(self) -> Seq<SignatureView> {
        parse_signatures(self.raw.skip(self.body_len as int))->0
    }

    /// The hash of the body alone: what signatures sign.
    pub open spec fn body_hash(self) -> HashView {
        HashView::of(self.prefix + self.raw.take(self.body_len as int))
    }
}

/// The body of a well-formed object is its first `body_len` bytes, written canonically.
pub proof fn lemma_signed_body(s: SignedView)
    requires
        s.wf(),
    ensures
        encode_value(s.body()) == s.raw.take(s.body_len as int),
        s.body().wf(),
        s.body_len > 0,
{
    lemma_encode_parse_value(s.raw, MAX_DEPTH as nat);
}

/// What a body of `body_len` bytes at the start of `raw`, with whatever follows it, is read
/// as. A strict reading computes the hashes and has every signature verify against the hash
/// of the body; a trusting one checks no signature and takes the hash `given`, if there is
/// one, for the hash of the whole.
pub open spec fn signed_read(
    prefix: Seq<u8>,
    raw: Seq<u8>,
    body_len: nat,
    compressed: Option<Seq<u8>>,
    max: nat,
    strict: bool,
    given: Option<HashView>,
) -> Result<SignedView, Error> {
    match parse_signatures(raw.skip(body_len as int)) {
        None => Err(Error::BadSignature),
        Some(sigs) => if strict && !all_verify(sigs, HashView::of(prefix + raw.take(body_len as int))) {
            Err(Error::SignatureInvalid)
        } else {
            Ok(
                SignedView {
                    prefix,
                    raw,
                    body_len,
                    signed_by: signers(sigs),
                    hashed: strict || given is None,
                    hash: if strict || given is None {
                        HashView::of(prefix + raw)
                    } else {
                        given->0
                    },
                    compressed,
                    max,
                },
            )
        },
    }
}

/// A body with its signatures and hashes.
pub struct Signed {
    prefix: Vec<u8>,
    raw: Vec<u8>,
    body_len: usize,
    signed_by: Vec<Identity>,
    hash_state: Option<HashState>,
    body_hash: Option<hash::Hash>,
    hash: hash::Hash,
    compressed: Option<Vec<u8>>,
    max: usize,
}

impl View for Signed {
    type V = SignedView;

    closed spec fn view(&self) -> SignedView {
        SignedView {
            prefix: self.prefix@,
            raw: self.raw@,
            body_len: self.body_len as nat,
            signed_by: Seq::new(self.signed_by@.len(), |i: int| self.signed_by@[i]@),
            hashed: self.hash_state is Some,
            hash: self.hash@,
            compressed: match self.compressed {
                Some(c) => Some(c@),
                None => None,
            },
            max: self.max as nat,
        }
    }
}

/// The signers that `buf`, a run of signatures, names. With a hash in `check`, every signature
/// must also be its signer's signature of that hash.
pub fn read_signers(buf: &[u8], check: Option<&hash::Hash>) -> (r: Result<Vec<Identity>, Error>)
    ensures
        match parse_signatures(buf@) {
            None => r is Err && r->Err_0 == Error::BadSignature,
            Some(sigs) => if check is Some && !all_verify(sigs, check->0@) {
                r is Err && r->Err_0 == Error::SignatureInvalid
            } else {
                r is Ok && Seq::new(r->Ok_0@.len(), |i: int| r->Ok_0@[i]@) == signers(sigs)
            },
        },
{
    let mut out: Vec<Identity> = Vec::new();
    let mut pos: usize = 0;
    let mut bad: bool = false;
    let ghost mut seen: Seq<SignatureView> = Seq::empty();
    proof {
        assert(buf@.skip(0) =~= buf@);
    }
    while pos < buf.len()
        invariant
            pos <= buf.len(),
            out@.len() == seen.len(),
            forall|i: int| 0 <= i < seen.len() ==> out@[i]@ == (#[trigger] seen[i]).signer,
            check is Some ==> (bad <==> !all_verify(seen, check->0@)),
            check is None ==> !bad,
            match parse_signatures(buf@.skip(pos as int)) {
                None => parse_signatures(buf@) is None,
                Some(rest) => parse_signatures(buf@) == Some(seen + rest),
            },
        decreases buf.len() - pos,
    {
        let rest = slice_subrange(buf, pos, buf.len());
        assert(rest@ =~= buf@.skip(pos as int));
        match Signature::decode(rest) {
            Err(_) => {
                return Err(Error::BadSignature);
            },
            Ok((s, n)) => {
                proof {
                    lemma_signature_encoding_parse(rest@);
                    assert(rest@.skip(97) =~= buf@.skip(pos + 97));
                    match parse_signatures(rest@.skip(97)) {
                        Some(more) => {
                            assert(seen.push(s@) + more =~= seen + (seq![s@] + more));
                        },
                        None => {},
                    }
                }
                match check {
                    Some(h) => {
                        if !s.verify(h) {
                            bad = true;
                        }
                    },
                    None => {},
                }
                proof {
                    let next = seen.push(s@);
                    if check is Some {
                        if all_verify(next, check->0@) {
                            assert forall|i: int| 0 <= i < seen.len() implies (#[trigger] seen[i]).verifies(
                                check->0@,
                            ) by {
                                assert(next[i] == seen[i]);
                            }
                            assert(next[seen.len() as int] == s@);
                        } else if all_verify(seen, check->0@) && s@.verifies(check->0@) {
                            assert forall|i: int| 0 <= i < next.len() implies (#[trigger] next[i]).verifies(
                                check->0@,
                            ) by {
                                if i < seen.len() {
                                    assert(next[i] == seen[i]);
                                }
                            }
                        }
                    }
                    seen = next;
                }
                out.push(s.signed_by().clone());
                pos = pos + n;
            },
        }
    }
    proof {
        assert(buf@.skip(pos as int) =~= Seq::<u8>::empty());
        assert(seen + Seq::<SignatureView>::empty() =~= seen);
        assert(Seq::new(out@.len(), |i: int| out@[i]@) =~= signers(seen));
    }
    if bad {
        Err(Error::SignatureInvalid)
    } else {
        Ok(out)
    }
}

impl Signed {
    /// That the parts agree with each other, beyond what `SignedView::wf` says of the view:
    /// the hash state, where there is one, has been fed prefix, body and signatures, and the
    /// body's hash is kept with it.
    pub closed spec fn wf(&self) -> bool {
        &&& self@.wf()
        &&& match self.hash_state {
            Some(state) => state@ == self.prefix@ + self.raw@ && self.body_hash is Some
                && self.body_hash->0@ == self@.body_hash(),
            None => true,
        }
    }

    /// What is well formed shows a well-formed view.
    pub proof fn lemma_wf(&self)
        requires
            self.wf(),
        ensures
            self@.wf(),
    {
    }

    /// A body without signatures, hashed. `raw` is one value in canonical form, and nothing
    /// more.
    pub(crate) fn create(prefix: Vec<u8>, raw: Vec<u8>, max: usize) -> (s: Signed)
        requires
            raw@.len() <= max,
            parse_value(raw@, MAX_DEPTH as nat) is Ok,
            parse_value(raw@, MAX_DEPTH as nat)->Ok_0.1 == raw@.len(),
        ensures
            s.wf(),
            s@ == (SignedView {
                prefix: prefix@,
                raw: raw@,
                body_len: raw@.len(),
                signed_by: Seq::empty(),
                hashed: true,
                hash: HashView::of(prefix@ + raw@),
                compressed: None,
                max: max as nat,
            }),
    {
        let mut state = HashState::start();
        state.update(prefix.as_slice());
        state.update(raw.as_slice());
        let h = state.get_hash();
        let body_hash = h.clone();
        let body_len = raw.len();
        let s = Signed {
            prefix,
            raw,
            body_len,
            signed_by: Vec::new(),
            hash_state: Some(state),
            body_hash: Some(body_hash),
            hash: h,
            compressed: None,
            max,
        };
        proof {
            assert(Seq::<u8>::empty() + prefix@ + raw@ =~= prefix@ + raw@);
            assert(raw@.take(raw@.len() as int) =~= raw@);
            assert(raw@.skip(raw@.len() as int) =~= Seq::<u8>::empty());
            assert(s@.signed_by =~= Seq::empty());
            assert(signers(Seq::<SignatureView>::empty()) =~= Seq::<IdentityView>::empty());
        }
        s
    }

    /// A body with signatures as it was read, not hashed: `hash` is taken on trust.
    pub(crate) fn from_parts(
        prefix: Vec<u8>,
        raw: Vec<u8>,
        body_len: usize,
        signed_by: Vec<Identity>,
        hash: hash::Hash,
        compressed: Option<Vec<u8>>,
        max: usize,
    ) -> (s: Signed)
        requires
            body_len <= raw@.len() <= max,
            parse_value(raw@, MAX_DEPTH as nat) is Ok,
            parse_value(raw@, MAX_DEPTH as nat)->Ok_0.1 == body_len,
            parse_signatures(raw@.skip(body_len as int)) is Some,
            signers(parse_signatures(raw@.skip(body_len as int))->0) == Seq::new(
                signed_by@.len(),
                |i: int| signed_by@[i]@,
            ),
        ensures
            s.wf(),
            s@ == (SignedView {
                prefix: prefix@,
                raw: raw@,
                body_len: body_len as nat,
                signed_by: Seq::new(signed_by@.len(), |i: int| signed_by@[i]@),
                hashed: false,
                hash: hash@,
                compressed: match compressed {
                    Some(c) => Some(c@),
                    None => None,
                },
                max: max as nat,
            }),
    {
        Signed {
            prefix,
            raw,
            body_len,
            signed_by,
            hash_state: None,
            body_hash: None,
            hash,
            compressed,
            max,
        }
    }

    /// Reads the signatures after a body that was checked already, and hashes as the kind of
    /// reading asks.
    pub(crate) fn read(
        prefix: Vec<u8>,
        raw: Vec<u8>,
        body_len: usize,
        compressed: Option<Vec<u8>>,
        max: usize,
        strict: bool,
        given: Option<hash::Hash>,
    ) -> (r: Result<Signed, Error>)
        requires
            body_len <= raw@.len() <= max,
            parse_value(raw@, MAX_DEPTH as nat) is Ok,
            parse_value(raw@, MAX_DEPTH as nat)->Ok_0.1 == body_len,
        ensures
            match signed_read(
                prefix@,
                raw@,
                body_len as nat,
                match compressed {
                    Some(c) => Some(c@),
                    None => None,
                },
                max as nat,
                strict,
                match given {
                    Some(h) => Some(h@),
                    None => None,
                },
            ) {
                Ok(view) => r is Ok && r->Ok_0@ == view && r->Ok_0.wf(),
                Err(e) => r is Err && r->Err_0 == e,
            },
    {
        let mut state = HashState::start();
        state.update(prefix.as_slice());
        state.update(slice_subrange(raw.as_slice(), 0, body_len));
        let body_hash = state.get_hash();
        let tail = slice_subrange(raw.as_slice(), body_len, raw.len());
        proof {
            assert(tail@ =~= raw@.skip(body_len as int));
            assert(Seq::<u8>::empty() + prefix@ + raw@.subrange(0, body_len as int) =~= prefix@ + raw@.take(
                body_len as int,
            ));
            assert(prefix@ + raw@.take(body_len as int) + tail@ =~= prefix@ + raw@);
        }
        let signed_by = if strict {
            read_signers(tail, Some(&body_hash))?
        } else {
            read_signers(tail, None)?
        };
        if !strict {
            match given {
                Some(h) => {
                    return Ok(Signed::from_parts(prefix, raw, body_len, signed_by, h, compressed, max));
                },
                None => {},
            }
        }
        state.update(tail);
        let hash = state.get_hash();
        Ok(
            Signed {
                prefix,
                raw,
                body_len,
                signed_by,
                hash_state: Some(state),
                body_hash: Some(body_hash),
                hash,
                compressed,
                max,
            },
        )
    }

    /// Computes the hashes from the bytes held, where they were taken on trust.
    pub fn populate_hash_state(&mut self)
        requires
            old(self).wf(),
        ensures
            final(self).wf(),
            final(self)@ == (SignedView {
                hashed: true,
                hash: HashView::of(old(self)@.prefix + old(self)@.raw),
                ..old(self)@
            }),
    {
        let mut state = HashState::start();
        state.update(self.prefix.as_slice());
        state.update(slice_subrange(self.raw.as_slice(), 0, self.body_len));
        let body_hash = state.get_hash();
        state.update(slice_subrange(self.raw.as_slice(), self.body_len, self.raw.len()));
        let h = state.get_hash();
        proof {
            let p = self.prefix@;
            let r = self.raw@;
            let n = self.body_len as int;
            assert(Seq::<u8>::empty() + p + r.subrange(0, n) =~= p + r.take(n));
            assert(p + r.take(n) + r.subrange(n, r.len() as int) =~= p + r);
        }
        self.hash_state = Some(state);
        self.body_hash = Some(body_hash);
        self.hash = h;
    }

    /// Appends the vault's signature of the body's hash with `key`.
    ///
    /// Fails, changing nothing that can be seen but that the hashes are computed, where the
    /// vault does not hold the key or the signature would not fit.
    pub fn sign(&mut self, vault: &Vault, key: &Key) -> (r: Result<(), CryptoError>)
        requires
            old(self).wf(),
        ensures
            final(self).wf(),
            final(self)@.hashed,
            final(self)@.prefix == old(self)@.prefix,
            final(self)@.body_len == old(self)@.body_len,
            final(self)@.max == old(self)@.max,
            final(self)@.body_hash() == old(self)@.body_hash(),
            match r {
                Ok(()) => {
                    &&& vault.holds(key@)
                    &&& old(self)@.raw.len() + SIGNATURE_LEN <= old(self)@.max
                    &&& final(self)@.raw == old(self)@.raw + vault.signature_of(
                        old(self)@.body_hash(),
                        key@,
                    ).encoding()
                    &&& final(self)@.signed_by == old(self)@.signed_by.push(key@)
                    &&& final(self)@.signatures() == old(self)@.signatures().push(
                        vault.signature_of(old(self)@.body_hash(), key@),
                    )
                    &&& vault.signature_of(old(self)@.body_hash(), key@).verifies(old(self)@.body_hash())
                    &&& final(self)@.compressed is None
                },
                Err(e) => {
                    &&& final(self)@.raw == old(self)@.raw
                    &&& final(self)@.signed_by == old(self)@.signed_by
                    &&& final(self)@.compressed == old(self)@.compressed
                    &&& e == (if !vault.holds(key@) {
                        CryptoError::NotInStorage
                    } else {
                        CryptoError::TooLarge
                    })
                    &&& vault.holds(key@) ==> old(self)@.raw.len() + SIGNATURE_LEN > old(self)@.max
                },
            },
    {
        if self.hash_state.is_none() || self.body_hash.is_none() {
            self.populate_hash_state();
        }
        let signature = match &self.body_hash {
            Some(h) => match vault.sign(h, key) {
                Ok(s) => s,
                Err(e) => {
                    return Err(e);
                },
            },
            None => {
                return Err(CryptoError::BadKey);
            },
        };
        if self.max < SIGNATURE_LEN || self.raw.len() > self.max - SIGNATURE_LEN {
            return Err(CryptoError::TooLarge);
        }
        let ghost before = self.raw@;
        let ghost old_sigs = self@.signatures();
        let ghost old_signers = self@.signed_by;
        let start = self.raw.len();
        signature.encode(&mut self.raw);
        self.signed_by.push(signature.signed_by().clone());
        match &mut self.hash_state {
            Some(state) => {
                state.update(slice_subrange(self.raw.as_slice(), start, self.raw.len()));
                self.hash = state.get_hash();
            },
            None => {},
        }
        self.compressed = None;
        proof {
            let n = self.body_len as int;
            let enc = signature@.encoding();
            assert(self.raw@ == before + enc);
            assert(self.raw@.subrange(start as int, self.raw@.len() as int) =~= enc);
            assert(self.prefix@ + before + enc =~= self.prefix@ + self.raw@);
            assert(self.raw@.skip(n) =~= before.skip(n) + enc);
            assert(self.raw@.take(n) =~= before.take(n));
            lemma_parse_signatures_push(before.skip(n), signature@);
            assert(self@.signed_by =~= old_signers.push(key@));
            assert(signers(old_sigs.push(signature@)) =~= signers(old_sigs).push(key@));
            lemma_encode_parse_value(before, MAX_DEPTH as nat);
            crate::codec::lemma_parse_encode_value(
                parse_value(before, MAX_DEPTH as nat)->Ok_0.0,
                MAX_DEPTH as nat,
                before.skip(n) + enc,
            );
            assert(before.take(n) + (before.skip(n) + enc) =~= self.raw@);
        }
        Ok(())
    }

    /// Who signed, in the order they signed.
    pub fn signed_by(&self) -> (ids: &Vec<Identity>)
        ensures
            Seq::new(ids@.len(), |i: int| ids@[i]@) == self@.signed_by,
    {
        &self.signed_by
    }

    /// How many bytes body and signatures take.
    pub fn len(&self) -> (n: usize)
        ensures
            n == self@.raw.len(),
    {
        self.raw.len()
    }

    /// How many bytes the body takes.
    pub fn body_len(&self) -> (n: usize)
        ensures
            n == self@.body_len,
    {
        self.body_len
    }

    /// The hash of body and signatures.
    pub fn hash(&self) -> (h: &hash::Hash)
        ensures
            h@ == self@.hash,
    {
        &self.hash
    }

    /// The hash of the body alone, where the hashes were computed here.
    pub fn body_hash(&self) -> (h: Option<&hash::Hash>)
        requires
            self.wf(),
        ensures
            h is Some <==> self@.hashed,
            h matches Some(x) ==> x@ == self@.body_hash(),
    {
        match &self.hash_state {
            Some(_) => match &self.body_hash {
                Some(h) => Some(h),
                None => None,
            },
            None => None,
        }
    }

    /// Body and signatures.
    pub fn raw(&self) -> (b: &[u8])
        ensures
            b@ == self@.raw,
    {
        self.raw.as_slice()
    }

    /// The compressed form that was read, if one was.
    pub fn compressed(&self) -> (c: Option<&[u8]>)
        ensures
            match c {
                Some(b) => self@.compressed == Some(b@),
                None => self@.compressed is None,
            },
    {
        match &self.compressed {
            Some(c) => Some(c.as_slice()),
            None => None,
        }
    }
}

} // verus!
