//! Entries: a value in canonical form under a field of a parent document, the signatures
//! appended to it, and its hashes.

use vstd::prelude::*;
use vstd::string::StringSliceAdditionalSpecFns;
use vstd::utf8::encode_utf8;
use crate::codec::{encode_value, lemma_encode_parse_value, lemma_parse_encode_value};
use crate::crypto::error::CryptoError;
use crate::crypto::hash;
use crate::crypto::hash::HashView;
use crate::crypto::key::{Identity, Key};
use crate::crypto::vault::Vault;
use crate::decode::read_value;
use crate::element::{write_hash, write_str};
use crate::encode::write_value;
use crate::error::Error;
use crate::format::len_limit;
use crate::signed::{Signed, SignedView};
use crate::value::{Value, ValueView};
use crate::{MAX_DEPTH, MAX_ENTRY_SIZE};

verus! {

/// What is hashed before the body of an entry: the parent document's hash, written as a
/// value, then the field, written as a value.
pub open spec fn entry_prefix(doc: HashView, field: Seq<u8>) -> Seq<u8> {
    encode_value(ValueView::Hash(doc)) + encode_value(ValueView::Str(field))
}

/// An entry as contracts see it.
pub struct EntryView {
    /// Body, signatures and hashes.
    pub signed: SignedView,
    /// The hash of the parent document.
    pub doc: HashView,
    /// The field of the parent document that the entry stands under, as UTF-8 bytes.
    pub field: Seq<u8>,
}

impl EntryView {
    /// The body is a value in canonical form, within the size of an entry, and it is hashed
    /// after the parent's hash and the field.
    pub open spec fn wf(self) -> bool {
        &&& self.signed.wf()
        &&& self.signed.max == MAX_ENTRY_SIZE
        &&& self.field.len() < len_limit()
        &&& self.signed.prefix == entry_prefix(self.doc, self.field)
    }

    /// The hash of parent, field and body: what signatures sign, whatever is appended later.
    pub open spec fn entry_hash(self) -> HashView {
        self.signed.body_hash()
    }
}

/// Size is enforced: whatever is an entry, and so has its hashes, is no larger than an entry
/// may be, signatures included.
pub proof fn lemma_entry_size(e: EntryView)
    requires
        e.wf(),
    ensures
        e.signed.raw.len() <= MAX_ENTRY_SIZE,
        e.signed.body_len <= MAX_ENTRY_SIZE,
{
}

/// Why `v` cannot become an entry under `field`, if it cannot.
pub open spec fn entry_fault(field: Seq<u8>, v: ValueView) -> Option<Error> {
    if field.len() >= len_limit() || !(v.wf() && v.fits(MAX_DEPTH as nat)) {
        Some(Error::Malformed)
    } else if encode_value(v).len() > MAX_ENTRY_SIZE {
        Some(Error::TooLarge)
    } else {
        None
    }
}

/// A value that can be signed, with the hash of its parent document and the field it stands
/// under.
pub struct Entry {
    inner: Signed,
    doc: hash::Hash,
    field: String,
}

impl View for Entry {
    type V = EntryView;

    closed spec fn view(&self) -> EntryView {
        EntryView { signed: self.inner@, doc: self.doc@, field: encode_utf8(self.field@) }
    }
}

impl PartialEq for Entry {
    /// Two entries are the same, parent and field included, if their hashes are.
    fn eq(&self, other: &Self) -> (r: bool) {
        self.inner.hash().same(other.inner.hash())
    }
}

impl vstd::std_specs::cmp::PartialEqSpecImpl for Entry {
    open spec fn obeys_eq_spec() -> bool {
        true
    }

    open spec fn eq_spec(&self, other: &Self) -> bool {
        self@.signed.hash == other@.signed.hash
    }
}

/// The bytes hashed before the body of an entry of `doc` under `field`.
pub(crate) fn write_entry_prefix(doc: &hash::Hash, field: &str) -> (p: Vec<u8>)
    requires
        field.spec_bytes().len() < len_limit(),
    ensures
        p@ == entry_prefix(doc@, field.spec_bytes()),
{
    let mut p: Vec<u8> = Vec::new();
    write_hash(&mut p, doc);
    write_str(&mut p, field);
    assert(p@ =~= entry_prefix(doc@, field.spec_bytes()));
    p
}

impl Entry {
    /// That the entry is well formed, inside and out.
    pub closed spec fn wf(&self) -> bool {
        self.inner.wf() && self@.wf()
    }

    /// What is well formed shows a well-formed view.
    pub proof fn lemma_wf(&self)
        requires
            self.wf(),
        ensures
            self@.wf(),
    {
    }

    /// An entry from parts that were read and checked elsewhere.
    pub(crate) fn from_parts(inner: Signed, doc: hash::Hash, field: String) -> (e: Entry)
        requires
            inner.wf(),
            inner@.max == MAX_ENTRY_SIZE,
            encode_utf8(field@).len() < len_limit(),
            inner@.prefix == entry_prefix(doc@, encode_utf8(field@)),
        ensures
            e.wf(),
            e@ == (EntryView { signed: inner@, doc: doc@, field: encode_utf8(field@) }),
    {
        proof {
            inner.lemma_wf();
        }
        Entry { inner, doc, field }
    }

    /// The entry that holds `v` under `field` of the document with hash `doc`. It carries no
    /// signature yet.
    ///
    /// Fails where `v` or `field` cannot be written, or `v` is larger than an entry may be.
    /// Nothing is hashed then.
    pub fn new(doc: hash::Hash, field: String, v: Value) -> (r: Result<Entry, Error>)
        ensures
            match entry_fault(encode_utf8(field@), v@) {
                Some(e) => r is Err && r->Err_0 == e,
                None => {
                    &&& r is Ok
                    &&& r->Ok_0.wf()
                    &&& r->Ok_0@.doc == doc@
                    &&& r->Ok_0@.field == encode_utf8(field@)
                    &&& r->Ok_0@.signed.raw == encode_value(v@)
                    &&& r->Ok_0@.signed.body() == v@
                    &&& r->Ok_0@.signed.body_len == encode_value(v@).len()
                    &&& r->Ok_0@.signed.signed_by == Seq::<crate::crypto::key::IdentityView>::empty()
                    &&& r->Ok_0@.signed.signatures() == Seq::<crate::crypto::signature::SignatureView>::empty()
                    &&& r->Ok_0@.signed.hashed
                    &&& r->Ok_0@.signed.hash == HashView::of(
                        entry_prefix(doc@, encode_utf8(field@)) + encode_value(v@),
                    )
                    &&& r->Ok_0@.signed.compressed is None
                },
            },
    {
        if field.as_str().as_bytes().len() > 0xffff_ffff || !v.is_well_formed(MAX_DEPTH) {
            return Err(Error::Malformed);
        }
        let mut raw: Vec<u8> = Vec::new();
        write_value(&mut raw, &v);
        if raw.len() > MAX_ENTRY_SIZE {
            return Err(Error::TooLarge);
        }
        proof {
            assert(raw@ =~= encode_value(v@));
            lemma_parse_encode_value(v@, MAX_DEPTH as nat, Seq::empty());
            assert(encode_value(v@) + Seq::<u8>::empty() =~= encode_value(v@));
        }
        let prefix = write_entry_prefix(&doc, field.as_str());
        let inner = Signed::create(prefix, raw, MAX_ENTRY_SIZE);
        proof {
            inner.lemma_wf();
        }
        Ok(Entry { inner, doc, field })
    }

    /// Computes the hashes from parent, field and the bytes held, where they were taken on
    /// trust.
    pub fn populate_hash_state(&mut self)
        requires
            old(self).wf(),
        ensures
            final(self).wf(),
            final(self)@ == (EntryView {
                signed: SignedView {
                    hashed: true,
                    hash: HashView::of(old(self)@.signed.prefix + old(self)@.signed.raw),
                    ..old(self)@.signed
                },
                ..old(self)@
            }),
    {
        proof {
            self.inner.lemma_wf();
        }
        self.inner.populate_hash_state();
        proof {
            self.inner.lemma_wf();
        }
    }

    /// Appends the vault's signature of the entry's hash with `key`. The entry's hash stays;
    /// the hash of the whole becomes that of parent, field, body and all signatures; no
    /// compressed form is kept.
    ///
    /// Fails where the vault does not hold the key or the signature would make the entry
    /// larger than an entry may be. The entry is then as it was.
    pub fn sign(&mut self, vault: &Vault, key: &Key) -> (r: Result<(), CryptoError>)
        requires
            old(self).wf(),
        ensures
            final(self).wf(),
            final(self)@.entry_hash() == old(self)@.entry_hash(),
            final(self)@.doc == old(self)@.doc,
            final(self)@.field == old(self)@.field,
            final(self)@.signed.body() == old(self)@.signed.body(),
            final(self)@.signed.body_len == old(self)@.signed.body_len,
            final(self)@.signed.hashed,
            match r {
                Ok(()) => {
                    &&& vault.holds(key@)
                    &&& old(self)@.signed.raw.len() + crate::crypto::signature::SIGNATURE_LEN <= MAX_ENTRY_SIZE
                    &&& final(self)@.signed.raw == old(self)@.signed.raw + vault.signature_of(
                        old(self)@.entry_hash(),
                        key@,
                    ).encoding()
                    &&& final(self)@.signed.signed_by == old(self)@.signed.signed_by.push(key@)
                    &&& final(self)@.signed.signatures() == old(self)@.signed.signatures().push(
                        vault.signature_of(old(self)@.entry_hash(), key@),
                    )
                    &&& vault.signature_of(old(self)@.entry_hash(), key@).verifies(old(self)@.entry_hash())
                    &&& crate::signed::all_verify(old(self)@.signed.signatures(), old(self)@.entry_hash())
                        ==> crate::signed::all_verify(final(self)@.signed.signatures(), final(self)@.entry_hash())
                    &&& final(self)@.signed.hash == HashView::of(final(self)@.signed.prefix + final(self)@.signed.raw)
                    &&& final(self)@.signed.compressed is None
                },
                Err(e) => {
                    &&& final(self)@.signed.raw == old(self)@.signed.raw
                    &&& final(self)@.signed.signed_by == old(self)@.signed.signed_by
                    &&& e == (if !vault.holds(key@) {
                        CryptoError::NotInStorage
                    } else {
                        CryptoError::TooLarge
                    })
                    &&& vault.holds(key@) ==> old(self)@.signed.raw.len()
                        + crate::crypto::signature::SIGNATURE_LEN > MAX_ENTRY_SIZE
                },
            },
    {
        let ghost before = self.inner@;
        proof {
            self.inner.lemma_wf();
        }
        let r = self.inner.sign(vault, key);
        proof {
            self.inner.lemma_wf();
            let after = self.inner@;
            let n = before.body_len as int;
            lemma_encode_parse_value(before.raw, MAX_DEPTH as nat);
            if r is Ok {
                let tail = after.raw.skip(n);
                assert(before.raw.take(n) + tail =~= after.raw);
                lemma_parse_encode_value(before.body(), MAX_DEPTH as nat, tail);
            }
        }
        r
    }

    /// Who signed, in the order they signed.
    pub fn signed_by(&self) -> (ids: &Vec<Identity>)
        ensures
            Seq::new(ids@.len(), |i: int| ids@[i]@) == self@.signed.signed_by,
    {
        self.inner.signed_by()
    }

    /// How many bytes body and signatures take, parent and field not counted.
    pub fn len(&self) -> (n: usize)
        ensures
            n == self@.signed.raw.len(),
    {
        self.inner.len()
    }

    /// How many bytes the body takes.
    pub fn entry_len(&self) -> (n: usize)
        ensures
            n == self@.signed.body_len,
    {
        self.inner.body_len()
    }

    /// The hash of parent, field, body and signatures. It changes with every signature.
    pub fn hash(&self) -> (h: &hash::Hash)
        ensures
            h@ == self@.signed.hash,
    {
        self.inner.hash()
    }

    /// The hash of parent, field and body alone, where the hashes were computed here.
    pub fn entry_hash(&self) -> (h: Option<&hash::Hash>)
        requires
            self.wf(),
        ensures
            h is Some <==> self@.signed.hashed,
            h matches Some(x) ==> x@ == self@.entry_hash(),
    {
        self.inner.body_hash()
    }

    /// The hash of the parent document.
    pub fn doc_hash(&self) -> (h: &hash::Hash)
        ensures
            h@ == self@.doc,
    {
        &self.doc
    }

    /// The field of the parent document that the entry stands under.
    pub fn field(&self) -> (f: &str)
        ensures
            f.spec_bytes() == self@.field,
    {
        self.field.as_str()
    }

    /// The value that the body holds.
    pub fn value(&self) -> (v: Value)
        requires
            self.wf(),
        ensures
            v@ == self@.signed.body(),
    {
        match read_value(self.inner.raw()) {
            Ok((v, _)) => v,
            Err(_) => Value::Null,
        }
    }

    /// Body and signatures, as they are stored.
    pub fn raw_entry(&self) -> (b: &[u8])
        ensures
            b@ == self@.signed.raw,
    {
        self.inner.raw()
    }

    /// The compressed form that the entry was read from, if it was read from one.
    pub fn compressed(&self) -> (c: Option<&[u8]>)
        ensures
            match c {
                Some(b) => self@.signed.compressed == Some(b@),
                None => self@.signed.compressed is None,
            },
    {
        self.inner.compressed()
    }
}

} // verus!
