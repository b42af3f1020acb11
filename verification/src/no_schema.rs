//! Packing and unpacking documents and entries that stand under no schema.

use vstd::prelude::*;
use vstd::slice::slice_subrange;
use vstd::utf8::encode_utf8;
use crate::codec::{lemma_encode_parse_value, parse_value};
use crate::compress_type::CompressType;
use crate::compression::{
    zstd_bound, zstd_cctx, zstd_compress, zstd_compress_bound, zstd_compress_dict, zstd_content_size,
    zstd_dctx, zstd_decompress, zstd_decompress_dict, zstd_dict_frame, zstd_dict_inflated, zstd_frame,
    zstd_frame_content_size, zstd_inflated,
};
use crate::crypto::hash;
use crate::crypto::hash::HashView;
use crate::decode::verify_value;
use crate::document::{
    is_document_body, lemma_schema_hash_in, lemma_schema_hash_in_prefix, parse_schema_hash,
    schema_hash_in, schema_hash_of, Document, DocumentView,
};
use crate::entry::{entry_prefix, write_entry_prefix, Entry, EntryView};
use crate::error::Error;
use crate::format::len_limit;
use crate::signed::{signed_read, Signed};
use crate::with_schema::decoded_schema_doc;
use crate::{MAX_DEPTH, MAX_DOC_SIZE, MAX_ENTRY_SIZE};

verus! {

/// What a blob unpacks to: the bytes of the object and, where the blob was compressed, the
/// blob itself. A blob that needs a schema to unpack is refused.
pub open spec fn unpacked(b: Seq<u8>, max: nat) -> Result<(Seq<u8>, Option<Seq<u8>>), Error> {
    if b.len() == 0 {
        Err(Error::Truncated)
    } else {
        match CompressType::of_byte(b[0]) {
            None => Err(Error::BadCompression),
            Some(CompressType::Uncompressed) => if b.len() - 1 > max {
                Err(Error::TooLarge)
            } else {
                Ok((b.skip(1), None))
            },
            Some(CompressType::CompressedNoSchema) => match zstd_content_size(b.skip(1)) {
                None => Err(Error::BadCompression),
                Some(n) => if n > max {
                    Err(Error::TooLarge)
                } else {
                    match zstd_inflated(b.skip(1), n as nat) {
                        None => Err(Error::BadCompression),
                        Some(content) => Ok((content, Some(b))),
                    }
                },
            },
            Some(_) => Err(Error::SchemaMismatch),
        }
    }
}

/// The document that a blob holds, or why it holds none. A strict reading takes no document
/// that names a schema, computes the hashes and has every signature verify; a trusting one
/// checks neither schema nor signature and takes the hash `given`, if there is one, for the
/// document's.
pub open spec fn decoded_doc(b: Seq<u8>, strict: bool, given: Option<HashView>) -> Result<DocumentView, Error> {
    match unpacked(b, MAX_DOC_SIZE as nat) {
        Err(e) => Err(e),
        Ok((raw, compressed)) => match parse_value(raw, MAX_DEPTH as nat) {
            Err(e) => Err(e),
            Ok((v, n)) => if !is_document_body(v) {
                Err(Error::NotADocument)
            } else if strict && schema_hash_of(v) is Some {
                Err(Error::SchemaMismatch)
            } else {
                match signed_read(Seq::empty(), raw, n as nat, compressed, MAX_DOC_SIZE as nat, strict, given) {
                    Err(e) => Err(e),
                    Ok(signed) => Ok(DocumentView { signed, schema_hash: schema_hash_of(v) }),
                }
            },
        },
    }
}

/// The entry of `doc` under `field` that a blob holds, or why it holds none.
pub open spec fn decoded_entry(
    b: Seq<u8>,
    doc: HashView,
    field: Seq<u8>,
    strict: bool,
    given: Option<HashView>,
) -> Result<EntryView, Error> {
    if field.len() >= len_limit() {
        Err(Error::Malformed)
    } else {
        match unpacked(b, MAX_ENTRY_SIZE as nat) {
            Err(e) => Err(e),
            Ok((raw, compressed)) => match parse_value(raw, MAX_DEPTH as nat) {
                Err(e) => Err(e),
                Ok((v, n)) => match signed_read(
                    entry_prefix(doc, field),
                    raw,
                    n as nat,
                    compressed,
                    MAX_ENTRY_SIZE as nat,
                    strict,
                    given,
                ) {
                    Err(e) => Err(e),
                    Ok(signed) => Ok(EntryView { signed, doc, field }),
                },
            },
        }
    }
}

/// Where the compressed part of a document begins: after its schema hash, if it names a
/// schema, and at its start if not.
pub open spec fn doc_split(raw: Seq<u8>) -> int {
    match schema_hash_in(raw) {
        Ok(Some((_, n))) => n,
        _ => 0,
    }
}

/// The blob that compressing a document at `level` gives, or nothing where compression fails.
pub open spec fn compressed_doc(d: DocumentView, level: int) -> Option<Seq<u8>> {
    let raw = d.signed.raw;
    let split = doc_split(raw);
    let marker = if d.schema_hash is Some {
        CompressType::Compressed.byte()
    } else {
        CompressType::CompressedNoSchema.byte()
    };
    match zstd_frame(raw.skip(split), level, zstd_bound((raw.len() - split) as nat)) {
        Some(frame) => Some(seq![marker] + raw.take(split) + frame),
        None => None,
    }
}

/// The blob that compressing an entry at `level` gives, or nothing where compression fails.
pub open spec fn compressed_entry(e: EntryView, level: int) -> Option<Seq<u8>> {
    match zstd_frame(e.signed.raw, level, zstd_bound(e.signed.raw.len())) {
        Some(frame) => Some(seq![CompressType::CompressedNoSchema.byte()] + frame),
        None => None,
    }
}

/// Packs and unpacks documents and entries without a schema. It keeps the contexts that
/// compression works in, so that they are set up once.
pub struct NoSchema {
    compress: zstd_safe::CCtx<'static>,
    decompress: zstd_safe::DCtx<'static>,
}

impl NoSchema {
    /// A packer with fresh contexts, or nothing where none can be allocated.
    pub fn new() -> (r: Option<NoSchema>) {
        let compress = zstd_cctx()?;
        let decompress = zstd_dctx()?;
        Some(NoSchema { compress, decompress })
    }

    /// What `frame` decompresses to in a buffer of `capacity` bytes.
    pub(crate) fn inflate(&mut self, frame: &[u8], capacity: usize) -> (r: Option<Vec<u8>>)
        ensures
            match r {
                Some(content) => zstd_inflated(frame@, capacity as nat) == Some(content@) && content@.len()
                    <= capacity,
                None => zstd_inflated(frame@, capacity as nat) is None,
            },
    {
        zstd_decompress(&mut self.decompress, frame, capacity)
    }

    /// What `frame` decompresses to with the dictionary `dict` in a buffer of `capacity`
    /// bytes.
    pub(crate) fn inflate_with(&mut self, frame: &[u8], dict: &[u8], capacity: usize) -> (r: Option<Vec<u8>>)
        ensures
            match r {
                Some(content) => zstd_dict_inflated(frame@, dict@, capacity as nat) == Some(content@) && content@.len()
                    <= capacity,
                None => zstd_dict_inflated(frame@, dict@, capacity as nat) is None,
            },
    {
        zstd_decompress_dict(&mut self.decompress, frame, dict, capacity)
    }

    /// The zstd frame of `raw` at `level` with the dictionary `dict`.
    pub(crate) fn compress_with(&mut self, raw: &[u8], dict: &[u8], level: i32) -> (r: Option<Vec<u8>>)
        requires
            raw@.len() <= MAX_DOC_SIZE,
        ensures
            match r {
                Some(frame) => {
                    &&& zstd_dict_frame(raw@, dict@, level as int, zstd_bound(raw@.len())) == Some(frame@)
                    &&& zstd_content_size(frame@) == Some(raw@.len() as u64)
                    &&& zstd_dict_inflated(frame@, dict@, raw@.len()) == Some(raw@)
                },
                None => zstd_dict_frame(raw@, dict@, level as int, zstd_bound(raw@.len())) is None,
            },
    {
        let capacity = zstd_compress_bound(raw.len());
        zstd_compress_dict(&mut self.compress, raw, dict, level, capacity)
    }

    /// Appends the document to `buf` as it is, marked as uncompressed.
    pub fn encode_doc(&self, doc: &Document, buf: &mut Vec<u8>)
        ensures
            final(buf)@ == old(buf)@ + seq![CompressType::Uncompressed.byte()] + doc@.signed.raw,
    {
        CompressType::Uncompressed.encode(buf);
        buf.extend_from_slice(doc.raw_doc());
        assert(buf@ =~= old(buf)@ + seq![CompressType::Uncompressed.byte()] + doc@.signed.raw);
    }

    /// The zstd frame of `raw` at `level`.
    fn compress(&mut self, raw: &[u8], level: i32) -> (r: Option<Vec<u8>>)
        requires
            raw@.len() <= MAX_DOC_SIZE,
        ensures
            match r {
                Some(frame) => {
                    &&& zstd_frame(raw@, level as int, zstd_bound(raw@.len())) == Some(frame@)
                    &&& zstd_content_size(frame@) == Some(raw@.len() as u64)
                    &&& zstd_inflated(frame@, raw@.len()) == Some(raw@)
                },
                None => zstd_frame(raw@, level as int, zstd_bound(raw@.len())) is None,
            },
    {
        let capacity = zstd_compress_bound(raw.len());
        zstd_compress(&mut self.compress, raw, level, capacity)
    }

    /// Appends the document to `buf`, compressed at `level` (0 for the default level). The
    /// start of a document that names a schema, up to and including the schema's hash, stays
    /// as it is, so that the schema can be seen without unpacking.
    ///
    /// Fails, leaving `buf` as it was, only where compression fails. What was appended
    /// unpacks to the same document, with the same hash, whether the reading checks its
    /// signatures or not: without a schema where the document names none, and under its
    /// schema where it names one.
    pub fn compress_doc(&mut self, doc: &Document, level: i32, buf: &mut Vec<u8>) -> (r: Result<(), Error>)
        requires
            doc.wf(),
        ensures
            match compressed_doc(doc@, level as int) {
                Some(bytes) => r is Ok && final(buf)@ == old(buf)@ + bytes,
                None => r is Err && r->Err_0 == Error::BadCompression && final(buf)@ == old(buf)@,
            },
            r is Ok && doc@.schema_hash is None ==> ({
                let blob = final(buf)@.skip(old(buf)@.len() as int);
                &&& decoded_doc(blob, false, None) is Ok
                &&& decoded_doc(blob, false, None)->Ok_0.signed.raw == doc@.signed.raw
                &&& decoded_doc(blob, false, None)->Ok_0.signed.hash == HashView::of(doc@.signed.raw)
                &&& doc@.signed.hashed ==> decoded_doc(blob, false, None)->Ok_0.signed.hash == doc@.signed.hash
                &&& decoded_doc(blob, false, None)->Ok_0.doc_hash() == doc@.doc_hash()
                &&& decoded_doc(blob, false, None)->Ok_0.signed.signed_by == doc@.signed.signed_by
                &&& crate::signed::all_verify(doc@.signed.signatures(), doc@.doc_hash()) ==> decoded_doc(
                    blob,
                    true,
                    None,
                ) == decoded_doc(blob, false, None)
            }),
            r is Ok && doc@.schema_hash is Some ==> ({
                let blob = final(buf)@.skip(old(buf)@.len() as int);
                let back = decoded_schema_doc(blob, doc@.schema_hash->0, None, false, None);
                &&& back is Ok
                &&& back->Ok_0.signed.raw == doc@.signed.raw
                &&& back->Ok_0.signed.hash == HashView::of(doc@.signed.raw)
                &&& doc@.signed.hashed ==> back->Ok_0.signed.hash == doc@.signed.hash
                &&& back->Ok_0.doc_hash() == doc@.doc_hash()
                &&& back->Ok_0.signed.signed_by == doc@.signed.signed_by
                &&& back->Ok_0.schema_hash == doc@.schema_hash
                &&& crate::signed::all_verify(doc@.signed.signatures(), doc@.doc_hash()) ==> decoded_schema_doc(
                    blob,
                    doc@.schema_hash->0,
                    None,
                    true,
                    None,
                ) == back
            }),
    {
        proof {
            doc.lemma_wf();
            lemma_schema_hash_in(doc@.signed.raw, MAX_DEPTH as nat);
        }
        let raw = doc.raw_doc();
        let (marker, split) = match parse_schema_hash(raw) {
            Ok(Some((_, n))) => (CompressType::Compressed, n),
            _ => (CompressType::CompressedNoSchema, 0),
        };
        let rest = slice_subrange(raw, split, raw.len());
        assert(rest@ =~= raw@.skip(split as int));
        let frame = match self.compress(rest, level) {
            Some(frame) => frame,
            None => {
                return Err(Error::BadCompression);
            },
        };
        marker.encode(buf);
        buf.extend_from_slice(slice_subrange(raw, 0, split));
        buf.extend_from_slice(frame.as_slice());
        proof {
            assert(raw@.subrange(0, split as int) =~= raw@.take(split as int));
            let bytes = seq![marker.byte()] + raw@.take(split as int) + frame@;
            assert(buf@ =~= old(buf)@ + bytes);
            let blob = buf@.skip(old(buf)@.len() as int);
            assert(blob =~= bytes);
            if doc@.schema_hash is None {
                assert(raw@.take(0) =~= Seq::<u8>::empty());
                assert(raw@.skip(0) =~= raw@);
                assert(blob.skip(1) =~= frame@);
                lemma_encode_parse_value(raw@, MAX_DEPTH as nat);
            } else {
                let n = split as int;
                lemma_schema_hash_in_prefix(raw@, frame@);
                assert(blob.skip(1) =~= raw@.take(n) + frame@);
                assert(blob.skip(1 + n) =~= frame@);
                assert(blob.subrange(1, 1 + n) =~= raw@.take(n));
                assert(raw@.take(n) + raw@.skip(n) =~= raw@);
                lemma_encode_parse_value(raw@, MAX_DEPTH as nat);
            }
        }
        Ok(())
    }

    /// Appends the entry to `buf` as it is, marked as uncompressed. Parent and field are not
    /// written.
    pub fn encode_entry(&self, entry: &Entry, buf: &mut Vec<u8>)
        ensures
            final(buf)@ == old(buf)@ + seq![CompressType::Uncompressed.byte()] + entry@.signed.raw,
    {
        CompressType::Uncompressed.encode(buf);
        buf.extend_from_slice(entry.raw_entry());
        assert(buf@ =~= old(buf)@ + seq![CompressType::Uncompressed.byte()] + entry@.signed.raw);
    }

    /// Appends the entry to `buf`, compressed at `level`. Parent and field are not written.
    ///
    /// Fails, leaving `buf` as it was, only where compression fails. What was appended
    /// unpacks, under the same parent and field, to the same entry with the same hash.
    pub fn compress_entry(&mut self, entry: &Entry, level: i32, buf: &mut Vec<u8>) -> (r: Result<(), Error>)
        requires
            entry.wf(),
        ensures
            match compressed_entry(entry@, level as int) {
                Some(bytes) => r is Ok && final(buf)@ == old(buf)@ + bytes,
                None => r is Err && r->Err_0 == Error::BadCompression && final(buf)@ == old(buf)@,
            },
            r is Ok ==> ({
                let blob = final(buf)@.skip(old(buf)@.len() as int);
                let back = decoded_entry(blob, entry@.doc, entry@.field, false, None);
                &&& back is Ok
                &&& back->Ok_0.signed.raw == entry@.signed.raw
                &&& back->Ok_0.signed.hash == HashView::of(entry@.signed.prefix + entry@.signed.raw)
                &&& entry@.signed.hashed ==> back->Ok_0.signed.hash == entry@.signed.hash
                &&& back->Ok_0.entry_hash() == entry@.entry_hash()
                &&& back->Ok_0.signed.signed_by == entry@.signed.signed_by
                &&& crate::signed::all_verify(entry@.signed.signatures(), entry@.entry_hash()) ==> decoded_entry(
                    blob,
                    entry@.doc,
                    entry@.field,
                    true,
                    None,
                ) == back
            }),
    {
        proof {
            entry.lemma_wf();
        }
        let raw = entry.raw_entry();
        let frame = match self.compress(raw, level) {
            Some(frame) => frame,
            None => {
                return Err(Error::BadCompression);
            },
        };
        CompressType::CompressedNoSchema.encode(buf);
        buf.extend_from_slice(frame.as_slice());
        proof {
            let bytes = seq![CompressType::CompressedNoSchema.byte()] + frame@;
            assert(buf@ =~= old(buf)@ + bytes);
            let blob = buf@.skip(old(buf)@.len() as int);
            assert(blob =~= bytes);
            assert(blob.skip(1) =~= frame@);
            lemma_encode_parse_value(raw@, MAX_DEPTH as nat);
        }
        Ok(())
    }

    /// Unpacks a blob: the bytes of the object and, where the blob was compressed, a copy of
    /// the blob. The size that a compressed frame declares is checked against `max_size`
    /// before anything is unpacked.
    fn decode_raw(&mut self, max_size: usize, buf: &[u8]) -> (r: Result<(Vec<u8>, Option<Vec<u8>>), Error>)
        ensures
            match unpacked(buf@, max_size as nat) {
                Ok((raw, compressed)) => r is Ok && r->Ok_0.0@ == raw && raw.len() <= max_size && match compressed {
                    Some(c) => r->Ok_0.1 is Some && r->Ok_0.1->0@ == c,
                    None => r->Ok_0.1 is None,
                },
                Err(e) => r is Err && r->Err_0 == e,
            },
    {
        let compress_type = CompressType::decode(buf)?;
        let rest = slice_subrange(buf, 1, buf.len());
        assert(rest@ =~= buf@.skip(1));
        match compress_type {
            CompressType::Uncompressed => {
                if rest.len() > max_size {
                    return Err(Error::TooLarge);
                }
                let mut doc: Vec<u8> = Vec::new();
                doc.extend_from_slice(rest);
                Ok((doc, None))
            },
            CompressType::CompressedNoSchema => {
                let expected_len = match zstd_frame_content_size(rest) {
                    Some(n) => n,
                    None => {
                        return Err(Error::BadCompression);
                    },
                };
                if expected_len > max_size as u64 {
                    return Err(Error::TooLarge);
                }
                let doc = match zstd_decompress(&mut self.decompress, rest, expected_len as usize) {
                    Some(doc) => doc,
                    None => {
                        return Err(Error::BadCompression);
                    },
                };
                let mut compressed: Vec<u8> = Vec::new();
                compressed.extend_from_slice(buf);
                Ok((doc, Some(compressed)))
            },
            CompressType::Compressed => Err(Error::SchemaMismatch),
            CompressType::DictCompressed => Err(Error::SchemaMismatch),
        }
    }

    /// Reads a document from a blob of either kind of reading.
    fn read_doc(&mut self, buf: &[u8], strict: bool, given: Option<hash::Hash>) -> (r: Result<Document, Error>)
        ensures
            match decoded_doc(
                buf@,
                strict,
                match given {
                    Some(h) => Some(h@),
                    None => None,
                },
            ) {
                Ok(d) => r is Ok && r->Ok_0@ == d && r->Ok_0.wf(),
                Err(e) => r is Err && r->Err_0 == e,
            },
    {
        let (doc, compressed) = self.decode_raw(MAX_DOC_SIZE, buf)?;
        let doc_len = verify_value(doc.as_slice())?;
        proof {
            lemma_schema_hash_in(doc@, MAX_DEPTH as nat);
        }
        let schema_hash = match parse_schema_hash(doc.as_slice())? {
            Some((h, _)) => Some(h),
            None => None,
        };
        if strict && schema_hash.is_some() {
            return Err(Error::SchemaMismatch);
        }
        let inner = Signed::read(Vec::new(), doc, doc_len, compressed, MAX_DOC_SIZE, strict, given)?;
        proof {
            inner.lemma_wf();
        }
        Ok(Document::from_parts(inner, schema_hash))
    }

    /// Reads a document from a blob that comes from a trusted place, checking as little as
    /// possible: no signature is verified, and a document that names a schema is taken as it
    /// is. With a hash in `hash`, that hash is taken for the document's and none is computed;
    /// to check integrity, give none and compare the hash of what comes back.
    ///
    /// Fails where the blob is cut short or packed in a way that needs a schema, where it
    /// would unpack to more than a document may hold, where its body is no object in
    /// canonical form, or where what follows the body is no run of signatures.
    pub fn trusted_decode_doc(&mut self, buf: &[u8], hash: Option<hash::Hash>) -> (r: Result<Document, Error>)
        ensures
            match decoded_doc(
                buf@,
                false,
                match hash {
                    Some(h) => Some(h@),
                    None => None,
                },
            ) {
                Ok(d) => r is Ok && r->Ok_0@ == d && r->Ok_0.wf(),
                Err(e) => r is Err && r->Err_0 == e,
            },
    {
        self.read_doc(buf, false, hash)
    }

    /// Reads a document from a blob that may come from anywhere. Success means that the
    /// document is valid: beyond what a trusting reading checks, the document names no
    /// schema, and every signature verifies against the hash of the body.
    pub fn decode_doc(&mut self, buf: &[u8]) -> (r: Result<Document, Error>)
        ensures
            match decoded_doc(buf@, true, None) {
                Ok(d) => r is Ok && r->Ok_0@ == d && r->Ok_0.wf(),
                Err(e) => r is Err && r->Err_0 == e,
            },
    {
        self.read_doc(buf, true, None)
    }

    /// Reads an entry from a blob of either kind of reading.
    fn read_entry(
        &mut self,
        buf: &[u8],
        doc: hash::Hash,
        field: String,
        strict: bool,
        given: Option<hash::Hash>,
    ) -> (r: Result<Entry, Error>)
        ensures
            match decoded_entry(
                buf@,
                doc@,
                encode_utf8(field@),
                strict,
                match given {
                    Some(h) => Some(h@),
                    None => None,
                },
            ) {
                Ok(e) => r is Ok && r->Ok_0@ == e && r->Ok_0.wf(),
                Err(e) => r is Err && r->Err_0 == e,
            },
    {
        if field.as_str().as_bytes().len() > 0xffff_ffff {
            return Err(Error::Malformed);
        }
        let (entry, compressed) = self.decode_raw(MAX_ENTRY_SIZE, buf)?;
        let entry_len = verify_value(entry.as_slice())?;
        let prefix = write_entry_prefix(&doc, field.as_str());
        let inner = Signed::read(prefix, entry, entry_len, compressed, MAX_ENTRY_SIZE, strict, given)?;
        Ok(Entry::from_parts(inner, doc, field))
    }

    /// Reads an entry of `doc` under `field` from a blob that comes from a trusted place. It
    /// checks what `trusted_decode_doc` checks of a document, but for the body being an
    /// object.
    pub fn trusted_decode_entry(
        &mut self,
        buf: &[u8],
        doc: hash::Hash,
        field: String,
        hash: Option<hash::Hash>,
    ) -> (r: Result<Entry, Error>)
        ensures
            match decoded_entry(
                buf@,
                doc@,
                encode_utf8(field@),
                false,
                match hash {
                    Some(h) => Some(h@),
                    None => None,
                },
            ) {
                Ok(e) => r is Ok && r->Ok_0@ == e && r->Ok_0.wf(),
                Err(e) => r is Err && r->Err_0 == e,
            },
    {
        self.read_entry(buf, doc, field, false, hash)
    }

    /// Reads an entry of `doc` under `field` from a blob that may come from anywhere. Success
    /// means that the entry is valid: every signature verifies against the hash of parent,
    /// field and body.
    pub fn decode_entry(&mut self, buf: &[u8], doc: hash::Hash, field: String) -> (r: Result<Entry, Error>)
        ensures
            match decoded_entry(buf@, doc@, encode_utf8(field@), true, None) {
                Ok(e) => r is Ok && r->Ok_0@ == e && r->Ok_0.wf(),
                Err(e) => r is Err && r->Err_0 == e,
            },
    {
        self.read_entry(buf, doc, field, true, None)
    }
}

/// Anything that can be sent to another thread.
fn assert_send<T: Send>(_t: T) {
}

/// A packer can be sent to another thread.
fn _assert_traits() {
    match NoSchema::new() {
        Some(packer) => assert_send(packer),
        None => {},
    }
}

} // verus!
