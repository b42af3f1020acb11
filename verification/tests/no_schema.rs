use fog_pack::crypto::hash;
use fog_pack::crypto::key::Key;
use fog_pack::crypto::vault::Vault;
use fog_pack::document::Document;
use fog_pack::entry::Entry;
use fog_pack::error::Error;
use fog_pack::integer::Integer;
use fog_pack::no_schema::NoSchema;
use fog_pack::value::Value;

fn s(text: &str) -> String {
    String::from(text)
}

fn test_doc() -> Document {
    let test = Value::obj(vec![
        (s("test"), Value::Bool(true)),
        (s("boolean"), Value::Bool(true)),
        (s("positive"), Value::Int(Integer::from_u64(1))),
        (s("negative"), Value::Int(Integer::from_i64(-1))),
        (s("string"), Value::Str(s("string"))),
        (s("float32"), Value::F32(1.0f32.to_bits())),
        (s("float64"), Value::F64(1.0f64.to_bits())),
        (s("binary"), Value::Bin(vec![0u8, 1u8, 2u8])),
        (
            s("array"),
            Value::Array(vec![Value::Int(Integer::from_u64(0)), Value::Str(s("an_array"))]),
        ),
    ]);
    Document::new(test).expect("Should've been able to encode as a document")
}

fn test_doc_with_schema() -> Document {
    let fake_hash = hash::Hash::new(1, "test".as_bytes()).expect("Should've been able to make hash");
    let test = Value::obj(vec![
        (s(""), Value::Hash(fake_hash)),
        (s("test"), Value::Bool(true)),
        (s("boolean"), Value::Bool(true)),
    ]);
    Document::new(test).expect("Should've been able to encode as a document")
}

fn test_entry(doc: hash::Hash, field: String) -> Entry {
    let test = Value::Bin(vec![0u8, 1u8, 2u8]);
    Entry::new(doc, field, test).expect("Should've been able to encode as an entry")
}

fn prep_vault() -> (Vault, Key) {
    let mut vault = Vault::new();
    let key = vault.new_key().expect("Should have been able to make a new key for testing");
    (vault, key)
}

fn packer() -> NoSchema {
    NoSchema::new().expect("Should have been able to set up compression")
}

#[test]
fn encode_decode() {
    let test = test_doc();
    let mut schema_none = packer();
    let mut enc = Vec::new();
    schema_none.encode_doc(&test, &mut enc);
    let dec = schema_none.trusted_decode_doc(&enc[..], None).expect("Decoding should have worked");
    let mut enc2 = Vec::new();
    schema_none.encode_doc(&dec, &mut enc2);
    assert!(test == dec, "Encode->Decode should yield same document");
    assert!(enc == enc2, "Encode->Decode->encode didn't yield identical results");
}

#[test]
fn compress_decompress() {
    let test = test_doc();
    let mut schema_none = packer();
    let mut enc = Vec::new();
    schema_none.compress_doc(&test, 3, &mut enc).expect("Compression should have worked");
    let dec = schema_none.trusted_decode_doc(&enc[..], None).expect("Decoding should have worked");
    let mut enc2 = Vec::new();
    schema_none.encode_doc(&dec, &mut enc2);
    assert!(test == dec, "Compress->Decode should yield same document");
}

#[test]
fn compress_decompress_sign() {
    let mut test = test_doc();
    let (mut vault, key0) = prep_vault();
    let key1 = vault.new_key().unwrap();
    let key2 = vault.new_key().unwrap();
    test.sign(&vault, &key0).expect("Should have been able to sign test document w/ key0");
    test.sign(&vault, &key1).expect("Should have been able to sign test document w/ key1");
    let mut schema_none = packer();
    let mut enc = Vec::new();
    schema_none.compress_doc(&test, 3, &mut enc).expect("Compression should have worked");
    let mut dec = schema_none.trusted_decode_doc(&enc[..], None).expect("Decoding should have worked");
    test.sign(&vault, &key2).expect("Should have been able to sign test document w/ key2");
    dec.sign(&vault, &key2).expect("Should have been able to sign decoded document w/ key2");
    assert!(test == dec, "Compress->Decode should yield same document, even after signing");
}

#[test]
fn compress_sign_existing_hash() {
    let mut test = test_doc();
    let (vault, key) = prep_vault();
    let mut schema_none = packer();
    let mut enc = Vec::new();
    schema_none.compress_doc(&test, 3, &mut enc).expect("Compression should have worked");
    let mut dec = schema_none
        .trusted_decode_doc(&enc[..], Some(test.hash().clone()))
        .expect("Decoding should have worked");
    test.sign(&vault, &key).expect("Should have been able to sign test document");
    dec.sign(&vault, &key).expect("Should have been able to sign decoded document");
    assert!(test == dec, "Compress->Decode should yield same document, even after signing");
}

#[test]
fn compress_schema_decode_fails() {
    let test = test_doc_with_schema();
    let mut schema_none = packer();
    let mut enc = Vec::new();
    schema_none.compress_doc(&test, 3, &mut enc).expect("Compression should have worked");
    let dec = schema_none.trusted_decode_doc(&enc[..], Some(test.hash().clone()));
    assert!(dec.is_err(), "Decompression should have failed, as a schema was in the document");
}

#[test]
fn strict_decode_tests() {
    // Prep encode/decode & byte vector
    let mut schema_none = packer();
    let mut enc = Vec::new();

    // Prep schema-using document
    let test = test_doc_with_schema();

    schema_none.encode_doc(&test, &mut enc);
    let dec = schema_none.decode_doc(&enc[..]);
    assert!(dec.is_err(), "Decoding should have failed when a schema was in the document");

    enc.clear();
    schema_none.compress_doc(&test, 3, &mut enc).expect("Compression should have worked");
    let dec = schema_none.decode_doc(&enc[..]);
    assert!(dec.is_err(), "Decompression should have failed when a schema was in the document");

    // Prep new non-schema document with signature
    let (vault, key) = prep_vault();
    let mut test = test_doc();
    test.sign(&vault, &key).expect("Should have been able to sign test document");

    enc.clear();
    schema_none.encode_doc(&test, &mut enc);
    let dec = schema_none.decode_doc(&enc[..]);
    assert!(dec.is_ok(), "Decoding a valid document should have succeeded");
}

#[test]
fn corrupted_data_tests() {
    // Prep encode/decode & byte vector
    let mut schema_none = packer();
    let mut enc = Vec::new();
    // Prep a non-schema document with a signature. The last byte of a signature may be zero,
    // and setting it to zero below would then corrupt nothing: sign with a key whose
    // signature ends otherwise.
    let test = loop {
        let (vault, key) = prep_vault();
        let mut test = test_doc();
        test.sign(&vault, &key).expect("Should have been able to sign test document");
        if *test.raw_doc().last().unwrap() != 0 {
            break test;
        }
    };

    schema_none.encode_doc(&test, &mut enc);
    *(enc.last_mut().unwrap()) = 0;
    let dec = schema_none.decode_doc(&enc[..]);
    assert!(dec.is_err(), "Document signature was corrupted, but decoding succeeded anyway");

    enc.clear();
    schema_none.encode_doc(&test, &mut enc);
    enc[10] = 0xFF;
    let dec = schema_none.decode_doc(&enc[..]);
    assert!(dec.is_err(), "Document payload was corrupted, but decoding succeeded anyway");

    enc.clear();
    schema_none.encode_doc(&test, &mut enc);
    enc[0] = 0x1;
    let dec = schema_none.decode_doc(&enc[..]);
    assert!(dec.is_err(), "Document payload was corrupted, but decoding succeeded anyway");
}

fn zero_hash_doc() -> Document {
    let body = Value::obj(vec![
        (s(""), Value::Hash(hash::Hash::new_empty())),
        (s("title"), Value::Str(s("t"))),
        (s("description"), Value::Str(s("d"))),
    ]);
    Document::new(body).expect("Should've been able to encode as a document")
}

#[test]
fn doc_round_trip_keeps_the_body_hash() {
    let doc = zero_hash_doc();
    let mut codec = packer();
    let mut enc = Vec::new();
    codec.encode_doc(&doc, &mut enc);
    assert_eq!(enc[0], 0);
    let dec = codec.trusted_decode_doc(&enc[..], None).expect("Decoding should have worked");
    assert!(doc == dec);
    assert_eq!(doc.raw_doc(), dec.raw_doc());
    assert!(doc.doc_hash().unwrap() == dec.doc_hash().unwrap());
    assert!(dec.schema_hash().is_some());
    assert!(dec.value() == doc.value());
}

#[test]
fn sign_twice_then_compress_then_strict_decode() {
    let body = Value::obj(vec![(s("title"), Value::Str(s("t"))), (s("description"), Value::Str(s("d")))]);
    let mut doc = Document::new(body).unwrap();
    let body_hash = doc.doc_hash().unwrap().clone();
    let hash_before = doc.hash().clone();
    let (mut vault, k1) = prep_vault();
    let k2 = vault.new_key().unwrap();
    doc.sign(&vault, &k1).unwrap();
    let hash_one = doc.hash().clone();
    doc.sign(&vault, &k2).unwrap();
    // Signing keeps the hash of the body and moves the hash of the whole.
    assert!(doc.doc_hash().unwrap() == &body_hash);
    assert!(hash_before != hash_one);
    assert!(&hash_one != doc.hash());
    assert_eq!(doc.len(), doc.doc_len() + 2 * 97);

    let mut codec = packer();
    let mut enc = Vec::new();
    codec.compress_doc(&doc, 3, &mut enc).unwrap();
    assert_eq!(enc[0], 1);
    let dec = codec.decode_doc(&enc[..]).expect("Strict decoding should have worked");
    assert!(dec.doc_hash().unwrap() == &body_hash);
    assert!(dec.hash() == doc.hash());
    let signers = dec.signed_by();
    assert_eq!(signers.len(), 2);
    assert!(&signers[0] == k1.identity());
    assert!(&signers[1] == k2.identity());
    assert!(dec.compressed().is_some());
}

#[test]
fn schema_document_is_refused_by_strict_decode() {
    let doc = zero_hash_doc();
    let mut codec = packer();
    let mut enc = Vec::new();
    codec.encode_doc(&doc, &mut enc);
    assert_eq!(codec.decode_doc(&enc[..]).err(), Some(Error::SchemaMismatch));
    // Compressed, the schema's hash stays readable in front of the frame.
    let mut packed = Vec::new();
    codec.compress_doc(&doc, 3, &mut packed).unwrap();
    assert_eq!(packed[0], 2);
    assert_eq!(&packed[1..6], &doc.raw_doc()[0..5]);
    assert_eq!(codec.trusted_decode_doc(&packed[..], None).err(), Some(Error::SchemaMismatch));
}

#[test]
fn tampered_signature_is_refused() {
    let body = Value::obj(vec![(s("title"), Value::Str(s("t")))]);
    let mut doc = Document::new(body).unwrap();
    let (vault, key) = prep_vault();
    doc.sign(&vault, &key).unwrap();
    let mut codec = packer();
    let mut enc = Vec::new();
    codec.encode_doc(&doc, &mut enc);
    assert!(codec.decode_doc(&enc[..]).is_ok());
    let last = enc.len() - 1;
    enc[last] ^= 0x01;
    assert_eq!(codec.decode_doc(&enc[..]).err(), Some(Error::SignatureInvalid));
    // A trusting reading does not look at signatures.
    assert!(codec.trusted_decode_doc(&enc[..], None).is_ok());
    // A tail that is no run of signatures is refused either way.
    enc.push(1);
    assert_eq!(codec.trusted_decode_doc(&enc[..], None).err(), Some(Error::BadSignature));
}

#[test]
fn entries_round_trip_under_their_parent_and_field() {
    let parent = hash::Hash::new(1, b"parent").unwrap();
    let mut entry = test_entry(parent.clone(), s("post"));
    let (vault, key) = prep_vault();
    entry.sign(&vault, &key).unwrap();
    let mut codec = packer();
    let mut enc = Vec::new();
    codec.compress_entry(&entry, 3, &mut enc).unwrap();
    let dec = codec.decode_entry(&enc[..], parent.clone(), s("post")).unwrap();
    assert!(dec == entry);
    assert!(dec.entry_hash().unwrap() == entry.entry_hash().unwrap());
    assert_eq!(dec.field(), "post");
    assert!(dec.doc_hash() == &parent);
    assert!(dec.value() == Value::Bin(vec![0u8, 1u8, 2u8]));
    // Under another field the hash that was signed is another, so the signature fails.
    assert_eq!(
        codec.decode_entry(&enc[..], parent.clone(), s("other")).err(),
        Some(Error::SignatureInvalid)
    );
    let mut plain = Vec::new();
    codec.encode_entry(&entry, &mut plain);
    let trusted = codec.trusted_decode_entry(&plain[..], parent, s("post"), None).unwrap();
    assert!(trusted == entry);
}

#[test]
fn blobs_are_refused_for_size_and_marker() {
    let mut codec = packer();
    assert_eq!(codec.decode_doc(&[]).err(), Some(Error::Truncated));
    assert_eq!(codec.decode_doc(&[9, 0x80]).err(), Some(Error::BadCompression));
    assert_eq!(codec.decode_doc(&[3, 0x80]).err(), Some(Error::SchemaMismatch));
    assert_eq!(codec.decode_doc(&[0, 0xc0]).err(), Some(Error::NotADocument));
    let mut big = vec![0u8; fog_pack::MAX_ENTRY_SIZE + 2];
    big[1] = 0xc0;
    let parent = hash::Hash::new_empty();
    assert_eq!(codec.decode_entry(&big[..], parent, s("")).err(), Some(Error::TooLarge));
}

#[test]
fn documents_are_refused_before_they_are_hashed() {
    assert_eq!(Document::new(Value::Null).err(), Some(Error::NotADocument));
    let not_a_hash = Value::obj(vec![(s(""), Value::Bool(true))]);
    assert_eq!(Document::new(not_a_hash).err(), Some(Error::NotADocument));
    let unsorted = Value::Obj(vec![(s("b"), Value::Null), (s("a"), Value::Null)]);
    assert_eq!(Document::new(unsorted).err(), Some(Error::Malformed));
    let large = Value::obj(vec![(s("data"), Value::Bin(vec![0u8; fog_pack::MAX_DOC_SIZE]))]);
    assert_eq!(Document::new(large).err(), Some(Error::TooLarge));
}
