//! Documents: an object in canonical form, the signatures appended to it, and its hashes.

use vstd::prelude::*;
use vstd::slice::slice_subrange;
use crate::codec::{encode_value, lemma_parse_encode_value, parse_entries, parse_value};
use crate::crypto::error::CryptoError;
use crate::crypto::hash;
use crate::crypto::hash::HashView;
use crate::crypto::key::{Identity, Key};
use crate::crypto::vault::Vault;
use crate::decode::read_value;
use crate::element::{read_element, Element};
use crate::encode::write_value;
use crate::error::Error;
use crate::format::{lemma_encode_parse_element, parse_element, ElementView};
use crate::signed::{Signed, SignedView};
use crate::value::{lemma_obj_view, Value, ValueView};
use crate::{MAX_DEPTH, MAX_DOC_SIZE};

verus! {

/// That `v` can be the body of a document: an object in which the key `""`, if there is one,
/// holds a hash.
pub open spec fn is_document_body(v: ValueView) -> bool {
    v is Obj && (v->Obj_0.len() > 0 && v->Obj_0[0].0.len() == 0 ==> v->Obj_0[0].1 is Hash)
}

/// The schema that the body `v` names under the key `""`, if it names one.
pub open spec fn schema_hash_of(v: ValueView) -> Option<HashView> {
    if v is Obj && v->Obj_0.len() > 0 && v->Obj_0[0].0.len() == 0 && v->Obj_0[0].1 is Hash {
        Some(v->Obj_0[0].1->Hash_0)
    } else {
        None
    }
}

/// What the first elements of `b` say of a schema: the hash under the key `""` of the object
/// that `b` starts with, and where the bytes after that hash begin; nothing where the object
/// has no such key; a fault where `b` does not start with an object or the key holds no hash.
pub open spec fn schema_hash_in(b: Seq<u8>) -> Result<Option<(HashView, int)>, Error> {
    match parse_element(b) {
        Err(e) => Err(e),
        Ok((ElementView::Obj(n), h)) => if n == 0 {
            Ok(None)
        } else {
            match parse_element(b.skip(h)) {
                Err(e) => Err(e),
                Ok((ElementView::Str(k), kn)) => if k.len() != 0 {
                    Ok(None)
                } else {
                    match parse_element(b.skip(h + kn)) {
                        Err(e) => Err(e),
                        Ok((ElementView::Hash(hv), hn)) => Ok(Some((hv, h + kn + hn))),
                        Ok(_) => Err(Error::NotADocument),
                    }
                },
                Ok(_) => Err(Error::KeyNotStr),
            }
        },
        Ok(_) => Err(Error::NotADocument),
    }
}

/// On bytes that hold a value, the first elements say of a schema what the value does.
pub proof fn lemma_schema_hash_in(b: Seq<u8>, depth: nat)
    requires
        parse_value(b, depth) is Ok,
    ensures
        ({
            let v = parse_value(b, depth)->Ok_0.0;
            match schema_hash_in(b) {
                Ok(Some((h, n))) => is_document_body(v) && schema_hash_of(v) == Some(h) && 0 < n <= b.len(),
                Ok(None) => is_document_body(v) && schema_hash_of(v) is None,
                Err(e) => !is_document_body(v) && e == Error::NotADocument,
            }
        }),
{
    reveal_with_fuel(parse_value, 2);
    reveal_with_fuel(parse_entries, 2);
    let (v, total) = parse_value(b, depth)->Ok_0;
    let (e, h) = parse_element(b)->Ok_0;
    lemma_encode_parse_element(b);
    match e {
        ElementView::Obj(n) => {
            let d = (depth - 1) as nat;
            let (entries, used) = parse_entries(b.skip(h), n, d, None)->Ok_0;
            if n > 0 {
                let b1 = b.skip(h);
                let (ke, kn) = parse_element(b1)->Ok_0;
                lemma_encode_parse_element(b1);
                let k = ke->Str_0;
                let b2 = b1.skip(kn);
                assert(b2 =~= b.skip(h + kn));
                let (val, m) = parse_value(b2, d)->Ok_0;
                let (rest, r) = parse_entries(b1.skip(kn + m), (n - 1) as nat, d, Some(k))->Ok_0;
                assert(entries == seq![(k, val)] + rest);
                assert(entries[0] == (k, val));
                crate::codec::lemma_encode_parse_value(b2, d);
                lemma_encode_parse_element(b2);
                crate::codec::lemma_encode_parse_value(b, depth);
                assert(v == ValueView::Obj(entries));
                if k.len() == 0 {
                    let (ve, vn) = parse_element(b2)->Ok_0;
                    match ve {
                        ElementView::Hash(hv) => {
                            assert(val == ValueView::Hash(hv));
                            assert(schema_hash_in(b) == Ok::<Option<(HashView, int)>, Error>(Some((hv, h + kn + vn))));
                        },
                        ElementView::Array(_) => {
                            assert(val is Array);
                            assert(schema_hash_in(b) == Err::<Option<(HashView, int)>, Error>(Error::NotADocument));
                        },
                        ElementView::Obj(_) => {
                            assert(val is Obj);
                            assert(schema_hash_in(b) == Err::<Option<(HashView, int)>, Error>(Error::NotADocument));
                        },
                        _ => {
                            assert(!(val is Hash));
                            assert(schema_hash_in(b) == Err::<Option<(HashView, int)>, Error>(Error::NotADocument));
                        },
                    }
                } else {
                    assert(schema_hash_in(b) == Ok::<Option<(HashView, int)>, Error>(None));
                }
            } else {
                assert(entries =~= Seq::empty());
                assert(schema_hash_in(b) == Ok::<Option<(HashView, int)>, Error>(None));
            }
        },
        ElementView::Array(_) => {},
        _ => {},
    }
}

/// An element is read from the bytes it takes alone: what follows them changes nothing.
proof fn lemma_parse_element_prefix(b: Seq<u8>, rest: Seq<u8>)
    requires
        parse_element(b) is Ok,
    ensures
        parse_element(b.take(parse_element(b)->Ok_0.1) + rest) == parse_element(b),
{
    lemma_encode_parse_element(b);
    crate::format::lemma_parse_encode_element(parse_element(b)->Ok_0.0, rest);
}

/// The schema that a document names is read from its first bytes alone, up to the end of
/// the schema's hash: what follows them changes nothing.
pub proof fn lemma_schema_hash_in_prefix(b: Seq<u8>, rest: Seq<u8>)
    ensures
        schema_hash_in(b) matches Ok(Some(found)) ==> 0 < found.1 <= b.len() && schema_hash_in(
            b.take(found.1) + rest,
        ) == schema_hash_in(b),
{
    if !(schema_hash_in(b) matches Ok(Some(_))) {
        return ;
    }
    let (e, h) = parse_element(b)->Ok_0;
    lemma_encode_parse_element(b);
    let b1 = b.skip(h);
    let (ke, kn) = parse_element(b1)->Ok_0;
    lemma_encode_parse_element(b1);
    let b2 = b.skip(h + kn);
    assert(b2 =~= b1.skip(kn));
    let (he, hn) = parse_element(b2)->Ok_0;
    lemma_encode_parse_element(b2);
    let n = h + kn + hn;
    let c = b.take(n) + rest;
    assert(c =~= b.take(h) + (b.subrange(h, n) + rest));
    lemma_parse_element_prefix(b, b.subrange(h, n) + rest);
    let c1 = c.skip(h);
    assert(c1 =~= b1.take(kn) + (b.subrange(h + kn, n) + rest));
    lemma_parse_element_prefix(b1, b.subrange(h + kn, n) + rest);
    let c2 = c.skip(h + kn);
    assert(c2 =~= b2.take(hn) + rest);
    lemma_parse_element_prefix(b2, rest);
}

/// Reads, from the start of a document's bytes, the schema that the document names. Gives the
/// hash and the position after it; nothing where the document names no schema.
pub fn parse_schema_hash(buf: &[u8]) -> (r: Result<Option<(hash::Hash, usize)>, Error>)
    ensures
        match schema_hash_in(buf@) {
            Ok(Some((h, n))) => r matches Ok(Some(x)) && x.0@ == h && x.1 == n,
            Ok(None) => r is Ok && r->Ok_0 is None,
            Err(e) => r is Err && r->Err_0 == e,
        },
{
    let (count, h) = match read_element(buf) {
        Err(e) => {
            return Err(e);
        },
        Ok((Element::Obj(count), h)) => (count, h),
        Ok(_) => {
            return Err(Error::NotADocument);
        },
    };
    if count == 0 {
        return Ok(None);
    }
    proof {
        lemma_encode_parse_element(buf@);
    }
    let b1 = slice_subrange(buf, h, buf.len());
    assert(b1@ =~= buf@.skip(h as int));
    let (key, kn) = match read_element(b1) {
        Err(e) => {
            return Err(e);
        },
        Ok((Element::Str(key), kn)) => (key, kn),
        Ok(_) => {
            return Err(Error::KeyNotStr);
        },
    };
    if key.as_bytes().len() != 0 {
        return Ok(None);
    }
    proof {
        lemma_encode_parse_element(b1@);
    }
    let b2 = slice_subrange(b1, kn, b1.len());
    assert(b2@ =~= buf@.skip(h + kn));
    match read_element(b2) {
        Err(e) => Err(e),
        Ok((Element::Hash(hv), hn)) => {
            proof {
                lemma_encode_parse_element(b2@);
            }
            Ok(Some((hv, h + kn + hn)))
        },
        Ok(_) => Err(Error::NotADocument),
    }
}

/// A document as contracts see it.
pub struct DocumentView {
    /// Body, signatures and hashes.
    pub signed: SignedView,
    /// The schema that the body names, if it names one.
    pub schema_hash: Option<HashView>,
}

impl DocumentView {
    /// The body is an object in canonical form, within the size of a document, hashed without
    /// anything before it; the schema is the one that the body names.
    pub open spec fn wf(self) -> bool {
        &&& self.signed.wf()
        &&& self.signed.max == MAX_DOC_SIZE
        &&& self.signed.prefix == Seq::<u8>::empty()
        &&& is_document_body(self.signed.body())
        &&& self.schema_hash == schema_hash_of(self.signed.body())
    }

    /// The hash of the body alone: what signatures sign, whatever is appended later.
    pub open spec fn doc_hash(self) -> HashView {
        self.signed.body_hash()
    }
}

/// Size is enforced: whatever is a document, and so has its hashes, is no larger than a
/// document may be, signatures included.
pub proof fn lemma_document_size(d: DocumentView)
    requires
        d.wf(),
    ensures
        d.signed.raw.len() <= MAX_DOC_SIZE,
        d.signed.body_len <= MAX_DOC_SIZE,
{
}

/// Why `v` cannot become a document, if it cannot.
pub open spec fn document_fault(v: ValueView) -> Option<Error> {
    if !(v.wf() && v.fits(MAX_DEPTH as nat)) {
        Some(Error::Malformed)
    } else if !is_document_body(v) {
        Some(Error::NotADocument)
    } else if encode_value(v).len() > MAX_DOC_SIZE {
        Some(Error::TooLarge)
    } else {
        None
    }
}

/// An immutable, hashed object that can be signed. Appending a signature is the one change
/// it allows.
pub struct Document {
    inner: Signed,
    schema_hash: Option<hash::Hash>,
}

impl View for Document {
    type V = DocumentView;

    closed spec fn view(&self) -> DocumentView {
        DocumentView {
            signed: self.inner@,
            schema_hash: match self.schema_hash {
                Some(h) => Some(h@),
                None => None,
            },
        }
    }
}

impl PartialEq for Document {
    /// Two documents are the same if their hashes are.
    fn eq(&self, other: &Self) -> (r: bool) {
        self.inner.hash().same(other.inner.hash())
    }
}

impl vstd::std_specs::cmp::PartialEqSpecImpl for Document {
    open spec fn obeys_eq_spec() -> bool {
        true
    }

    open spec fn eq_spec(&self, other: &Self) -> bool {
        self@.signed.hash == other@.signed.hash
    }
}

impl Document {
    /// That the document is well formed, inside and out.
    pub closed spec fn wf(&self) -> bool {
        self.inner.wf() && self@.wf()
    }

    /// What is well formed shows a well-formed view.
    pub proof fn lemma_wf(&self)
        requires
            self.wf(),
        ensures
            self@.wf(),
    {
    }

    /// A document from parts that were read and checked elsewhere.
    pub(crate) fn from_parts(inner: Signed, schema_hash: Option<hash::Hash>) -> (d: Document)
        requires
            inner.wf(),
            inner@.max == MAX_DOC_SIZE,
            inner@.prefix == Seq::<u8>::empty(),
            is_document_body(inner@.body()),
            match schema_hash {
                Some(h) => schema_hash_of(inner@.body()) == Some(h@),
                None => schema_hash_of(inner@.body()) is None,
            },
        ensures
            d.wf(),
            d@.signed == inner@,
            d@.schema_hash == schema_hash_of(inner@.body()),
    {
        proof {
            inner.lemma_wf();
        }
        Document { inner, schema_hash }
    }

    /// The document whose body is `v`. It carries no signature yet.
    ///
    /// Fails where `v` cannot be written, is no object, holds something other than a hash
    /// under the key `""`, or is larger than a document may be. Nothing is hashed then.
    pub fn new(v: Value) -> (r: Result<Document, Error>)
        ensures
            match document_fault(v@) {
                Some(e) => r is Err && r->Err_0 == e,
                None => {
                    &&& r is Ok
                    &&& r->Ok_0.wf()
                    &&& r->Ok_0@.signed.raw == encode_value(v@)
                    &&& r->Ok_0@.signed.body() == v@
                    &&& r->Ok_0@.signed.body_len == encode_value(v@).len()
                    &&& r->Ok_0@.signed.signed_by == Seq::<crate::crypto::key::IdentityView>::empty()
                    &&& r->Ok_0@.signed.signatures() == Seq::<crate::crypto::signature::SignatureView>::empty()
                    &&& r->Ok_0@.signed.hashed
                    &&& r->Ok_0@.signed.hash == HashView::of(encode_value(v@))
                    &&& r->Ok_0@.signed.compressed is None
                    &&& r->Ok_0@.schema_hash == schema_hash_of(v@)
                },
            },
    {
        if !v.is_well_formed(MAX_DEPTH) {
            return Err(Error::Malformed);
        }
        let schema_hash = match &v {
            Value::Obj(entries) => {
                proof {
                    lemma_obj_view(*entries);
                }
                if entries.len() > 0 && entries[0].0.as_str().as_bytes().len() == 0 {
                    match &entries[0].1 {
                        Value::Hash(h) => Some(h.clone()),
                        _ => {
                            return Err(Error::NotADocument);
                        },
                    }
                } else {
                    None
                }
            },
            _ => {
                return Err(Error::NotADocument);
            },
        };
        let mut raw: Vec<u8> = Vec::new();
        write_value(&mut raw, &v);
        if raw.len() > MAX_DOC_SIZE {
            return Err(Error::TooLarge);
        }
        proof {
            assert(raw@ =~= encode_value(v@));
            lemma_parse_encode_value(v@, MAX_DEPTH as nat, Seq::empty());
            assert(encode_value(v@) + Seq::<u8>::empty() =~= encode_value(v@));
        }
        let inner = Signed::create(Vec::new(), raw, MAX_DOC_SIZE);
        proof {
            inner.lemma_wf();
            assert(Seq::<u8>::empty() + encode_value(v@) =~= encode_value(v@));
        }
        Ok(Document { inner, schema_hash })
    }

    /// Appends the vault's signature of the body's hash with `key`. The body's hash stays;
    /// the document's hash becomes that of body and all signatures; no compressed form is
    /// kept.
    ///
    /// Fails where the vault does not hold the key or the signature would make the document
    /// larger than a document may be. The document is then as it was.
    pub fn sign(&mut self, vault: &Vault, key: &Key) -> (r: Result<(), CryptoError>)
        requires
            old(self).wf(),
        ensures
            final(self).wf(),
            final(self)@.doc_hash() == old(self)@.doc_hash(),
            final(self)@.schema_hash == old(self)@.schema_hash,
            final(self)@.signed.body() == old(self)@.signed.body(),
            final(self)@.signed.body_len == old(self)@.signed.body_len,
            final(self)@.signed.hashed,
            match r {
                Ok(()) => {
                    &&& vault.holds(key@)
                    &&& old(self)@.signed.raw.len() + crate::crypto::signature::SIGNATURE_LEN <= MAX_DOC_SIZE
                    &&& final(self)@.signed.raw == old(self)@.signed.raw + vault.signature_of(
                        old(self)@.doc_hash(),
                        key@,
                    ).encoding()
                    &&& final(self)@.signed.signed_by == old(self)@.signed.signed_by.push(key@)
                    &&& final(self)@.signed.signatures() == old(self)@.signed.signatures().push(
                        vault.signature_of(old(self)@.doc_hash(), key@),
                    )
                    &&& vault.signature_of(old(self)@.doc_hash(), key@).verifies(old(self)@.doc_hash())
                    &&& crate::signed::all_verify(old(self)@.signed.signatures(), old(self)@.doc_hash())
                        ==> crate::signed::all_verify(final(self)@.signed.signatures(), final(self)@.doc_hash())
                    &&& final(self)@.signed.hash == HashView::of(final(self)@.signed.prefix + final(self)@.signed.raw)
                    &&& final(self)@.signed.compressed is None
                },
                Err(e) => {
                    &&& final(self)@.signed.raw == old(self)@.signed.raw
                    &&& final(self)@.signed.signed_by == old(self)@.signed.signed_by
                    &&& e == (if !vault.holds(key@) {
                        CryptoError::NotInStorage
                    } else {
                        CryptoError::TooLarge
                    })
                    &&& vault.holds(key@) ==> old(self)@.signed.raw.len()
                        + crate::crypto::signature::SIGNATURE_LEN > MAX_DOC_SIZE
                },
            },
    {
        let ghost before = self.inner@;
        proof {
            self.inner.lemma_wf();
        }
        let r = self.inner.sign(vault, key);
        proof {
            self.inner.lemma_wf();
            let after = self.inner@;
            let n = before.body_len as int;
            crate::codec::lemma_encode_parse_value(before.raw, MAX_DEPTH as nat);
            if r is Ok {
                let tail = after.raw.skip(n);
                assert(before.raw.take(n) + tail =~= after.raw);
                lemma_parse_encode_value(before.body(), MAX_DEPTH as nat, tail);
            }
        }
        r
    }

    /// Who signed, in the order they signed.
    pub fn signed_by(&self) -> (ids: &Vec<Identity>)
        ensures
            Seq::new(ids@.len(), |i: int| ids@[i]@) == self@.signed.signed_by,
    {
        self.inner.signed_by()
    }

    /// How many bytes body and signatures take.
    pub fn len(&self) -> (n: usize)
        ensures
            n == self@.signed.raw.len(),
    {
        self.inner.len()
    }

    /// How many bytes the body takes.
    pub fn doc_len(&self) -> (n: usize)
        ensures
            n == self@.signed.body_len,
    {
        self.inner.body_len()
    }

    /// The hash of body and signatures. It changes with every signature.
    pub fn hash(&self) -> (h: &hash::Hash)
        ensures
            h@ == self@.signed.hash,
    {
        self.inner.hash()
    }

    /// The hash of the body alone, where the hashes were computed here.
    pub fn doc_hash(&self) -> (h: Option<&hash::Hash>)
        requires
            self.wf(),
        ensures
            h is Some <==> self@.signed.hashed,
            h matches Some(x) ==> x@ == self@.doc_hash(),
    {
        self.inner.body_hash()
    }

    /// The schema that the document names, if it names one.
    pub fn schema_hash(&self) -> (h: Option<&hash::Hash>)
        ensures
            match h {
                Some(x) => self@.schema_hash == Some(x@),
                None => self@.schema_hash is None,
            },
    {
        match &self.schema_hash {
            Some(h) => Some(h),
            None => None,
        }
    }

    /// Body and signatures, as they are stored.
    pub fn raw_doc(&self) -> (b: &[u8])
        ensures
            b@ == self@.signed.raw,
    {
        self.inner.raw()
    }

    /// The compressed form that the document was read from, if it was read from one.
    pub fn compressed(&self) -> (c: Option<&[u8]>)
        ensures
            match c {
                Some(b) => self@.signed.compressed == Some(b@),
                None => self@.signed.compressed is None,
            },
    {
        self.inner.compressed()
    }

    /// The value that the body holds.
    pub fn value(&self) -> (v: Value)
        requires
            self.wf(),
        ensures
            v@ == self@.signed.body(),
    {
        match read_value(self.inner.raw()) {
            Ok((v, _)) => v,
            Err(_) => Value::Null,
        }
    }
}

} // verus!
