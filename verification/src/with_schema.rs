//! Packing and unpacking documents and entries that stand under a schema.
//!
//! A document that names a schema is compressed from the end of the schema's hash on, so
//! that the schema can be seen without unpacking. What is unpacked under a schema must name
//! that schema and pass its validators.

use vstd::prelude::*;
use vstd::slice::slice_subrange;
use vstd::utf8::encode_utf8;
use crate::codec::parse_value;
use crate::compress_type::CompressType;
use crate::compression::{
    zstd_bound, zstd_content_size, zstd_dict_frame, zstd_dict_inflated, zstd_frame_content_size,
    zstd_inflated,
};
use crate::crypto::hash;
use crate::crypto::hash::HashView;
use crate::decode::verify_value;
use crate::document::{
    is_document_body, lemma_schema_hash_in, lemma_schema_hash_in_prefix, parse_schema_hash,
    schema_hash_in, schema_hash_of, Document, DocumentView,
};
use crate::entry::Entry;
use crate::error::Error;
use crate::no_schema::{compressed_doc, compressed_entry, decoded_entry, doc_split, NoSchema};
use crate::schema::Schema;
use crate::signed::{signed_read, Signed};
use crate::validator::checklist::Checklist;
use crate::{MAX_DEPTH, MAX_DOC_SIZE};

verus! {

/// What a blob that holds a document under a schema unpacks to: the bytes of the document
/// and, where the blob was compressed, the blob itself. In a compressed blob the start of
/// the document, up to the end of the schema's hash, stands as it is before the frame. A
/// blob that was compressed as one without schema is refused, and so is one that needs a
/// dictionary where there is none in `dict`.
pub open spec fn unpacked_with_schema(b: Seq<u8>, max: nat, dict: Option<Seq<u8>>) -> Result<
    (Seq<u8>, Option<Seq<u8>>),
    Error,
> {
    if b.len() == 0 {
        Err(Error::Truncated)
    } else {
        match CompressType::of_byte(b[0]) {
            None => Err(Error::BadCompression),
            Some(CompressType::Uncompressed) => if b.len() - 1 > max {
                Err(Error::TooLarge)
            } else {
                Ok((b.skip(1), None))
            },
            Some(CompressType::CompressedNoSchema) => Err(Error::SchemaMismatch),
            Some(CompressType::Compressed) => match schema_hash_in(b.skip(1)) {
                Err(e) => Err(e),
                Ok(None) => Err(Error::SchemaMismatch),
                Ok(Some((_, n))) => match zstd_content_size(b.skip(1 + n)) {
                    None => Err(Error::BadCompression),
                    Some(m) => if n + m > max {
                        Err(Error::TooLarge)
                    } else {
                        match zstd_inflated(b.skip(1 + n), m as nat) {
                            None => Err(Error::BadCompression),
                            Some(content) => Ok((b.subrange(1, 1 + n) + content, Some(b))),
                        }
                    },
                },
            },
            Some(CompressType::DictCompressed) => match dict {
                None => Err(Error::BadCompression),
                Some(words) => match schema_hash_in(b.skip(1)) {
                    Err(e) => Err(e),
                    Ok(None) => Err(Error::SchemaMismatch),
                    Ok(Some((_, n))) => match zstd_content_size(b.skip(1 + n)) {
                        None => Err(Error::BadCompression),
                        Some(m) => if n + m > max {
                            Err(Error::TooLarge)
                        } else {
                            match zstd_dict_inflated(b.skip(1 + n), words, m as nat) {
                                None => Err(Error::BadCompression),
                                Some(content) => Ok((b.subrange(1, 1 + n) + content, Some(b))),
                            }
                        },
                    },
                },
            },
        }
    }
}

/// The blob that compressing a document under a schema at `level` gives, with the schema's
/// dictionary where it has one, or nothing where compression fails.
pub open spec fn compressed_schema_doc(d: DocumentView, dict: Option<Seq<u8>>, level: int) -> Option<Seq<u8>> {
    match dict {
        None => compressed_doc(d, level),
        Some(words) => {
            let raw = d.signed.raw;
            let split = doc_split(raw);
            match zstd_dict_frame(raw.skip(split), words, level, zstd_bound((raw.len() - split) as nat)) {
                Some(frame) => Some(seq![CompressType::DictCompressed.byte()] + raw.take(split) + frame),
                None => None,
            }
        },
    }
}

/// The document under the schema `schema` that a blob holds, or why it holds none. A strict
/// reading takes only a document that names that schema, computes the hashes and has every
/// signature verify; a trusting one checks neither schema nor signature and takes the hash
/// `given`, if there is one, for the document's.
pub open spec fn decoded_schema_doc(
    b: Seq<u8>,
    schema: HashView,
    dict: Option<Seq<u8>>,
    strict: bool,
    given: Option<HashView>,
) -> Result<DocumentView, Error> {
    match unpacked_with_schema(b, MAX_DOC_SIZE as nat, dict) {
        Err(e) => Err(e),
        Ok((raw, compressed)) => match parse_value(raw, MAX_DEPTH as nat) {
            Err(e) => Err(e),
            Ok((v, n)) => if !is_document_body(v) {
                Err(Error::NotADocument)
            } else if strict && schema_hash_of(v) != Some(schema) {
                Err(Error::SchemaMismatch)
            } else {
                match signed_read(Seq::empty(), raw, n as nat, compressed, MAX_DOC_SIZE as nat, strict, given) {
                    Err(e) => Err(e),
                    Ok(signed) => Ok(DocumentView { signed, schema_hash: schema_hash_of(v) }),
                }
            },
        },
    }
}

/// Unpacks a blob that holds a document under a schema. The size that a compressed frame
/// declares is checked against `max_size`, together with what stands before the frame,
/// before anything is unpacked.
fn unpack(packer: &mut NoSchema, max_size: usize, dict: Option<&Vec<u8>>, buf: &[u8]) -> (r: Result<
    (Vec<u8>, Option<Vec<u8>>),
    Error,
>)
    ensures
        match unpacked_with_schema(
            buf@,
            max_size as nat,
            match dict {
                Some(words) => Some(words@),
                None => None,
            },
        ) {
            Ok((raw, compressed)) => r is Ok && r->Ok_0.0@ == raw && raw.len() <= max_size && match compressed {
                Some(c) => r->Ok_0.1 is Some && r->Ok_0.1->0@ == c,
                None => r->Ok_0.1 is None,
            },
            Err(e) => r is Err && r->Err_0 == e,
        },
{
    let compress_type = CompressType::decode(buf)?;
    let rest = slice_subrange(buf, 1, buf.len());
    assert(rest@ =~= buf@.skip(1));
    match compress_type {
        CompressType::Uncompressed => {
            if rest.len() > max_size {
                return Err(Error::TooLarge);
            }
            let mut doc: Vec<u8> = Vec::new();
            doc.extend_from_slice(rest);
            Ok((doc, None))
        },
        CompressType::CompressedNoSchema => Err(Error::SchemaMismatch),
        CompressType::Compressed => {
            proof {
                lemma_schema_hash_in_prefix(rest@, Seq::empty());
            }
            let split = match parse_schema_hash(rest)? {
                Some((_, n)) => n,
                None => {
                    return Err(Error::SchemaMismatch);
                },
            };
            let head = slice_subrange(rest, 0, split);
            let frame = slice_subrange(rest, split, rest.len());
            assert(frame@ =~= buf@.skip(1 + split));
            assert(head@ =~= buf@.subrange(1, 1 + split));
            let expected_len = match zstd_frame_content_size(frame) {
                Some(n) => n,
                None => {
                    return Err(Error::BadCompression);
                },
            };
            if split > max_size || expected_len > (max_size - split) as u64 {
                return Err(Error::TooLarge);
            }
            let content = match packer.inflate(frame, expected_len as usize) {
                Some(content) => content,
                None => {
                    return Err(Error::BadCompression);
                },
            };
            let mut doc: Vec<u8> = Vec::new();
            doc.extend_from_slice(head);
            doc.extend_from_slice(content.as_slice());
            let mut compressed: Vec<u8> = Vec::new();
            compressed.extend_from_slice(buf);
            Ok((doc, Some(compressed)))
        },
        CompressType::DictCompressed => {
            let words = match dict {
                Some(words) => words,
                None => {
                    return Err(Error::BadCompression);
                },
            };
            proof {
                lemma_schema_hash_in_prefix(rest@, Seq::empty());
            }
            let split = match parse_schema_hash(rest)? {
                Some((_, n)) => n,
                None => {
                    return Err(Error::SchemaMismatch);
                },
            };
            let head = slice_subrange(rest, 0, split);
            let frame = slice_subrange(rest, split, rest.len());
            assert(frame@ =~= buf@.skip(1 + split));
            assert(head@ =~= buf@.subrange(1, 1 + split));
            let expected_len = match zstd_frame_content_size(frame) {
                Some(n) => n,
                None => {
                    return Err(Error::BadCompression);
                },
            };
            if split > max_size || expected_len > (max_size - split) as u64 {
                return Err(Error::TooLarge);
            }
            let content = match packer.inflate_with(frame, words.as_slice(), expected_len as usize) {
                Some(content) => content,
                None => {
                    return Err(Error::BadCompression);
                },
            };
            let mut doc: Vec<u8> = Vec::new();
            doc.extend_from_slice(head);
            doc.extend_from_slice(content.as_slice());
            let mut compressed: Vec<u8> = Vec::new();
            compressed.extend_from_slice(buf);
            Ok((doc, Some(compressed)))
        },
    }
}

/// Reads a document under the schema `schema` from a blob, in either kind of reading.
fn read_doc(
    packer: &mut NoSchema,
    schema: &hash::Hash,
    dict: Option<&Vec<u8>>,
    buf: &[u8],
    strict: bool,
    given: Option<hash::Hash>,
) -> (r: Result<Document, Error>)
    ensures
        match decoded_schema_doc(
            buf@,
            schema@,
            match dict {
                Some(words) => Some(words@),
                None => None,
            },
            strict,
            match given {
                Some(h) => Some(h@),
                None => None,
            },
        ) {
            Ok(d) => r is Ok && r->Ok_0@ == d && r->Ok_0.wf(),
            Err(e) => r is Err && r->Err_0 == e,
        },
{
    let (doc, compressed) = unpack(packer, MAX_DOC_SIZE, dict, buf)?;
    let doc_len = verify_value(doc.as_slice())?;
    proof {
        lemma_schema_hash_in(doc@, MAX_DEPTH as nat);
    }
    let schema_hash = match parse_schema_hash(doc.as_slice())? {
        Some((h, _)) => Some(h),
        None => None,
    };
    if strict {
        let named = match &schema_hash {
            Some(h) => h.same(schema),
            None => false,
        };
        if !named {
            return Err(Error::SchemaMismatch);
        }
    }
    let inner = Signed::read(Vec::new(), doc, doc_len, compressed, MAX_DOC_SIZE, strict, given)?;
    proof {
        inner.lemma_wf();
    }
    Ok(Document::from_parts(inner, schema_hash))
}

/// Appends a document that names a schema to `buf`, compressed at `level` with the
/// dictionary `dict` from the end of the schema's hash on.
fn compress_with_dict(packer: &mut NoSchema, doc: &Document, dict: &Vec<u8>, level: i32, buf: &mut Vec<u8>) -> (r:
    Result<(), Error>)
    requires
        doc.wf(),
        doc@.schema_hash is Some,
    ensures
        match compressed_schema_doc(doc@, Some(dict@), level as int) {
            Some(bytes) => r is Ok && final(buf)@ == old(buf)@ + bytes,
            None => r is Err && r->Err_0 == Error::BadCompression && final(buf)@ == old(buf)@,
        },
        r is Ok ==> ({
            let blob = final(buf)@.skip(old(buf)@.len() as int);
            let back = decoded_schema_doc(blob, doc@.schema_hash->0, Some(dict@), false, None);
            &&& back is Ok
            &&& back->Ok_0.signed.raw == doc@.signed.raw
            &&& back->Ok_0.signed.hash == HashView::of(doc@.signed.raw)
            &&& doc@.signed.hashed ==> back->Ok_0.signed.hash == doc@.signed.hash
            &&& back->Ok_0.doc_hash() == doc@.doc_hash()
            &&& back->Ok_0.signed.signed_by == doc@.signed.signed_by
            &&& back->Ok_0.schema_hash == doc@.schema_hash
            &&& crate::signed::all_verify(doc@.signed.signatures(), doc@.doc_hash()) ==> decoded_schema_doc(
                blob,
                doc@.schema_hash->0,
                Some(dict@),
                true,
                None,
            ) == back
        }),
{
    proof {
        doc.lemma_wf();
        lemma_schema_hash_in(doc@.signed.raw, MAX_DEPTH as nat);
    }
    let raw = doc.raw_doc();
    let split = match parse_schema_hash(raw) {
        Ok(Some((_, n))) => n,
        _ => 0,
    };
    let rest = slice_subrange(raw, split, raw.len());
    assert(rest@ =~= raw@.skip(split as int));
    let frame = match packer.compress_with(rest, dict.as_slice(), level) {
        Some(frame) => frame,
        None => {
            return Err(Error::BadCompression);
        },
    };
    CompressType::DictCompressed.encode(buf);
    buf.extend_from_slice(slice_subrange(raw, 0, split));
    buf.extend_from_slice(frame.as_slice());
    proof {
        assert(raw@.subrange(0, split as int) =~= raw@.take(split as int));
        let bytes = seq![CompressType::DictCompressed.byte()] + raw@.take(split as int) + frame@;
        assert(buf@ =~= old(buf)@ + bytes);
        let blob = buf@.skip(old(buf)@.len() as int);
        assert(blob =~= bytes);
        let n = split as int;
        lemma_schema_hash_in_prefix(raw@, frame@);
        assert(blob.skip(1) =~= raw@.take(n) + frame@);
        assert(blob.skip(1 + n) =~= frame@);
        assert(blob.subrange(1, 1 + n) =~= raw@.take(n));
        assert(raw@.take(n) + raw@.skip(n) =~= raw@);
        crate::codec::lemma_encode_parse_value(raw@, MAX_DEPTH as nat);
    }
    Ok(())
}

impl Schema {
    /// Checks the document against the schema and appends it to `buf` as it is, marked as
    /// uncompressed. Gives what is left to settle by a look at other documents.
    ///
    /// Succeeds exactly where the schema passes the document; nothing is appended where it
    /// does not.
    pub fn encode_doc(&self, doc: &Document, buf: &mut Vec<u8>) -> (r: Result<Checklist, Error>)
        requires
            doc.wf(),
        ensures
            r is Ok <==> self@.passes_doc(doc@),
            r matches Ok(list) ==> list@ == self@.doc_leaves(doc@) && final(buf)@ == old(buf)@
                + seq![CompressType::Uncompressed.byte()] + doc@.signed.raw,
            r matches Err(e) ==> final(buf)@ == old(buf)@ && (e == Error::SchemaMismatch || e is FailValidate || e
                == Error::DepthExceeded),
    {
        let list = self.validate_doc(doc)?;
        CompressType::Uncompressed.encode(buf);
        buf.extend_from_slice(doc.raw_doc());
        assert(buf@ =~= old(buf)@ + seq![CompressType::Uncompressed.byte()] + doc@.signed.raw);
        Ok(list)
    }

    /// Checks the document against the schema and appends it to `buf`, compressed at `level`
    /// from the end of the schema's hash on. Gives what is left to settle by a look at other
    /// documents.
    ///
    /// Fails, leaving `buf` as it was, where the schema does not pass the document or
    /// compression fails. What was appended unpacks under this schema to the same document,
    /// with the same hash, whether the reading checks its signatures or not.
    pub fn compress_doc(&self, packer: &mut NoSchema, doc: &Document, level: i32, buf: &mut Vec<u8>) -> (r: Result<
        Checklist,
        Error,
    >)
        requires
            doc.wf(),
        ensures
            r is Ok <==> self@.passes_doc(doc@) && compressed_schema_doc(doc@, self@.dictionary, level as int)
                is Some,
            r matches Ok(list) ==> list@ == self@.doc_leaves(doc@) && final(buf)@ == old(buf)@
                + compressed_schema_doc(doc@, self@.dictionary, level as int)->0,
            r matches Err(e) ==> final(buf)@ == old(buf)@ && (if self@.passes_doc(doc@) {
                e == Error::BadCompression
            } else {
                e == Error::SchemaMismatch || e is FailValidate || e == Error::DepthExceeded
            }),
            r is Ok ==> ({
                let blob = final(buf)@.skip(old(buf)@.len() as int);
                let back = decoded_schema_doc(blob, self@.hash, self@.dictionary, false, None);
                &&& back is Ok
                &&& back->Ok_0.signed.raw == doc@.signed.raw
                &&& back->Ok_0.signed.hash == HashView::of(doc@.signed.raw)
                &&& doc@.signed.hashed ==> back->Ok_0.signed.hash == doc@.signed.hash
                &&& back->Ok_0.doc_hash() == doc@.doc_hash()
                &&& back->Ok_0.signed.signed_by == doc@.signed.signed_by
                &&& back->Ok_0.schema_hash == doc@.schema_hash
                &&& crate::signed::all_verify(doc@.signed.signatures(), doc@.doc_hash()) ==> decoded_schema_doc(
                    blob,
                    self@.hash,
                    self@.dictionary,
                    true,
                    None,
                ) == back
            }),
    {
        let list = self.validate_doc(doc)?;
        let packed = match self.dictionary() {
            Some(words) => compress_with_dict(packer, doc, words, level, buf),
            None => packer.compress_doc(doc, level, buf),
        };
        match packed {
            Ok(()) => Ok(list),
            Err(e) => Err(e),
        }
    }

    /// Reads a document from a blob that comes from a trusted place, checking as little as
    /// possible: no signature is verified, and the document is not held against the schema.
    /// With a hash in `hash`, that hash is taken for the document's and none is computed.
    pub fn trusted_decode_doc(&self, packer: &mut NoSchema, buf: &[u8], hash: Option<hash::Hash>) -> (r: Result<
        Document,
        Error,
    >)
        ensures
            match decoded_schema_doc(
                buf@,
                self@.hash,
                self@.dictionary,
                false,
                match hash {
                    Some(h) => Some(h@),
                    None => None,
                },
            ) {
                Ok(d) => r is Ok && r->Ok_0@ == d && r->Ok_0.wf(),
                Err(e) => r is Err && r->Err_0 == e,
            },
    {
        read_doc(packer, self.hash(), self.dictionary(), buf, false, hash)
    }

    /// Reads a document from a blob that may come from anywhere. Success means that the
    /// document is valid: it names this schema, every signature verifies against the hash of
    /// the body, and the schema passes it. Gives the document and what is left to settle by
    /// a look at other documents.
    pub fn decode_doc(&self, packer: &mut NoSchema, buf: &[u8]) -> (r: Result<(Document, Checklist), Error>)
        ensures
            match decoded_schema_doc(buf@, self@.hash, self@.dictionary, true, None) {
                Ok(d) => if self@.passes_doc(d) {
                    r is Ok && r->Ok_0.0@ == d && r->Ok_0.0.wf() && r->Ok_0.1@ == self@.doc_leaves(d)
                } else {
                    r is Err && (r->Err_0 is FailValidate || r->Err_0 == Error::DepthExceeded)
                },
                Err(e) => r is Err && r->Err_0 == e,
            },
    {
        let doc = read_doc(packer, self.hash(), self.dictionary(), buf, true, None)?;
        let list = self.validate_doc(&doc)?;
        Ok((doc, list))
    }

    /// Checks the entry against the schema and appends it to `buf` as it is, marked as
    /// uncompressed. Gives what is left to settle by a look at other documents.
    ///
    /// Succeeds exactly where the schema passes the entry; nothing is appended where it does
    /// not.
    pub fn encode_entry(&self, entry: &Entry, buf: &mut Vec<u8>) -> (r: Result<Checklist, Error>)
        requires
            entry.wf(),
        ensures
            r is Ok <==> self@.passes_entry(entry@),
            r matches Ok(list) ==> list@ == self@.entry_leaves(entry@) && final(buf)@ == old(buf)@
                + seq![CompressType::Uncompressed.byte()] + entry@.signed.raw,
            r matches Err(e) ==> final(buf)@ == old(buf)@ && (e is FailValidate || e == Error::DepthExceeded),
    {
        let list = self.validate_entry(entry)?;
        CompressType::Uncompressed.encode(buf);
        buf.extend_from_slice(entry.raw_entry());
        assert(buf@ =~= old(buf)@ + seq![CompressType::Uncompressed.byte()] + entry@.signed.raw);
        Ok(list)
    }

    /// Checks the entry against the schema and appends it to `buf`, compressed at `level`.
    /// Gives what is left to settle by a look at other documents.
    ///
    /// Fails, leaving `buf` as it was, where the schema does not pass the entry or
    /// compression fails.
    pub fn compress_entry(&self, packer: &mut NoSchema, entry: &Entry, level: i32, buf: &mut Vec<u8>) -> (r: Result<
        Checklist,
        Error,
    >)
        requires
            entry.wf(),
        ensures
            r is Ok <==> self@.passes_entry(entry@) && compressed_entry(entry@, level as int) is Some,
            r matches Ok(list) ==> list@ == self@.entry_leaves(entry@) && final(buf)@ == old(buf)@ + compressed_entry(
                entry@,
                level as int,
            )->0,
            r matches Err(e) ==> final(buf)@ == old(buf)@ && (if self@.passes_entry(entry@) {
                e == Error::BadCompression
            } else {
                e is FailValidate || e == Error::DepthExceeded
            }),
    {
        let list = self.validate_entry(entry)?;
        match packer.compress_entry(entry, level, buf) {
            Ok(()) => Ok(list),
            Err(e) => Err(e),
        }
    }

    /// Reads an entry of the document `doc` under `field` from a blob that may come from
    /// anywhere. Success means that the entry is valid: every signature verifies against
    /// the hash of parent, field and body, and the schema passes the entry. Gives the entry
    /// and what is left to settle by a look at other documents.
    pub fn decode_entry(&self, packer: &mut NoSchema, buf: &[u8], doc: hash::Hash, field: String) -> (r: Result<
        (Entry, Checklist),
        Error,
    >)
        ensures
            match decoded_entry(buf@, doc@, encode_utf8(field@), true, None) {
                Ok(e) => if self@.passes_entry(e) {
                    r is Ok && r->Ok_0.0@ == e && r->Ok_0.0.wf() && r->Ok_0.1@ == self@.entry_leaves(e)
                } else {
                    r is Err && (r->Err_0 is FailValidate || r->Err_0 == Error::DepthExceeded)
                },
                Err(e) => r is Err && r->Err_0 == e,
            },
    {
        let entry = packer.decode_entry(buf, doc, field)?;
        let list = self.validate_entry(&entry)?;
        Ok((entry, list))
    }
}

} // verus!
