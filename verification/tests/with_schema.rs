use fog_pack::crypto::hash;
use fog_pack::crypto::key::Key;
use fog_pack::crypto::vault::Vault;
use fog_pack::document::Document;
use fog_pack::entry::Entry;
use fog_pack::error::{Error, Reason};
use fog_pack::no_schema::NoSchema;
use fog_pack::schema::{Schema, SchemaBuilder};
use fog_pack::timestamp::Timestamp;
use fog_pack::validator::hash::HashValidator;
use fog_pack::validator::obj::ObjValidator;
use fog_pack::validator::string::StrValidator;
use fog_pack::validator::time::TimeValidator;
use fog_pack::validator::Validator;
use fog_pack::value::Value;

fn text(t: &str) -> String {
    String::from(t)
}

fn forum() -> Schema {
    let doc = ObjValidator::new()
        .req_add("title", StrValidator::new().max_len(255).build())
        .req_add("description", StrValidator::new().build())
        .opt_add("parent", HashValidator::new().schema_add(hash::Hash::new_empty()).build())
        .build();
    let post = ObjValidator::new()
        .req_add("time", TimeValidator::new().build())
        .req_add("text", StrValidator::new().build())
        .build();
    let schema_doc = SchemaBuilder::new(doc).entry_add("post", post, Some(3)).build().unwrap();
    Schema::from_doc(&schema_doc).unwrap()
}

fn thread_of(schema: &Schema, title: &str) -> Document {
    Document::new(Value::obj(vec![
        (text(""), Value::Hash(schema.hash().clone())),
        (text("title"), Value::Str(text(title))),
        (text("description"), Value::Str("d".repeat(400))),
    ]))
    .unwrap()
}

fn post_in(doc: &Document, body: &str) -> Entry {
    Entry::new(
        doc.hash().clone(),
        text("post"),
        Value::obj(vec![
            (text("time"), Value::Timestamp(Timestamp::from_utc(1577854800, 5).unwrap())),
            (text("text"), Value::Str(text(body))),
        ]),
    )
    .unwrap()
}

fn keys() -> (Vault, Key, Key) {
    let mut vault = Vault::new();
    let first = vault.new_key().unwrap();
    let second = vault.new_key().unwrap();
    (vault, first, second)
}

#[test]
fn a_document_under_a_schema_is_packed_and_unpacked() {
    let schema = forum();
    let mut packer = NoSchema::new().unwrap();
    let doc = thread_of(&schema, "t");
    let mut plain = Vec::new();
    let list = schema.encode_doc(&doc, &mut plain).unwrap();
    assert_eq!(list.len(), 0);
    assert_eq!(plain[0], 0);
    assert_eq!(&plain[1..], doc.raw_doc());
    let (back, list) = schema.decode_doc(&mut packer, &plain[..]).unwrap();
    assert_eq!(list.len(), 0);
    assert!(back == doc);
    assert_eq!(back.raw_doc(), doc.raw_doc());
    assert!(back.schema_hash() == Some(schema.hash()));
    let trusted = schema.trusted_decode_doc(&mut packer, &plain[..], None).unwrap();
    assert!(trusted == doc);
}

#[test]
fn a_signed_document_keeps_its_hashes_through_compression_under_its_schema() {
    let schema = forum();
    let mut packer = NoSchema::new().unwrap();
    let mut doc = thread_of(&schema, "t");
    let body_hash = doc.doc_hash().unwrap().clone();
    let (vault, first, second) = keys();
    doc.sign(&vault, &first).unwrap();
    doc.sign(&vault, &second).unwrap();
    let mut blob = Vec::new();
    schema.compress_doc(&mut packer, &doc, 3, &mut blob).unwrap();
    // The marker, then the start of the document as it is: the object's header, the empty
    // key, and the schema's hash.
    assert_eq!(blob[0], 2);
    let head = 1 + 1 + 3 + 65;
    assert_eq!(&blob[1..1 + head], &doc.raw_doc()[..head]);
    assert!(blob.len() < doc.len());
    let (back, _) = schema.decode_doc(&mut packer, &blob[..]).unwrap();
    assert!(back.doc_hash().unwrap() == &body_hash);
    assert!(back.hash() == doc.hash());
    assert_eq!(back.raw_doc(), doc.raw_doc());
    let signers = back.signed_by();
    assert_eq!(signers.len(), 2);
    assert!(&signers[0] == first.identity());
    assert!(&signers[1] == second.identity());
    assert!(back.compressed().is_some());
    let trusted = schema.trusted_decode_doc(&mut packer, &blob[..], None).unwrap();
    assert!(trusted.hash() == doc.hash());
    // A reading without schema does not take it.
    assert_eq!(packer.decode_doc(&blob[..]).err(), Some(Error::SchemaMismatch));
    assert_eq!(packer.trusted_decode_doc(&blob[..], None).err(), Some(Error::SchemaMismatch));
}

#[test]
fn what_does_not_stand_under_the_schema_is_refused() {
    let schema = forum();
    let mut packer = NoSchema::new().unwrap();
    // A title that is too long.
    let long = thread_of(&schema, &"t".repeat(256));
    let mut buf = vec![7u8];
    assert_eq!(schema.encode_doc(&long, &mut buf).err(), Some(Error::FailValidate(Reason::TooLong)));
    assert_eq!(
        schema.compress_doc(&mut packer, &long, 3, &mut buf).err(),
        Some(Error::FailValidate(Reason::TooLong))
    );
    assert_eq!(buf, vec![7u8]);
    let mut blob = Vec::new();
    packer.encode_doc(&long, &mut blob);
    assert_eq!(
        schema.decode_doc(&mut packer, &blob[..]).err(),
        Some(Error::FailValidate(Reason::TooLong))
    );
    assert!(schema.trusted_decode_doc(&mut packer, &blob[..], None).is_ok());
    let mut blob = Vec::new();
    packer.compress_doc(&long, 3, &mut blob).unwrap();
    assert_eq!(blob[0], 2);
    assert_eq!(
        schema.decode_doc(&mut packer, &blob[..]).err(),
        Some(Error::FailValidate(Reason::TooLong))
    );
    // A document under another schema, or under none.
    let other = Document::new(Value::obj(vec![
        (text(""), Value::Hash(hash::Hash::new_empty())),
        (text("title"), Value::Str(text("t"))),
        (text("description"), Value::Str(text("d"))),
    ]))
    .unwrap();
    let mut blob = Vec::new();
    packer.compress_doc(&other, 3, &mut blob).unwrap();
    assert_eq!(schema.decode_doc(&mut packer, &blob[..]).err(), Some(Error::SchemaMismatch));
    assert!(schema.trusted_decode_doc(&mut packer, &blob[..], None).is_ok());
    assert_eq!(schema.encode_doc(&other, &mut Vec::new()).err(), Some(Error::SchemaMismatch));
    let none = Document::new(Value::obj(vec![
        (text("description"), Value::Str(text("d"))),
        (text("title"), Value::Str(text("t"))),
    ]))
    .unwrap();
    let mut blob = Vec::new();
    packer.encode_doc(&none, &mut blob);
    assert_eq!(schema.decode_doc(&mut packer, &blob[..]).err(), Some(Error::SchemaMismatch));
    let mut blob = Vec::new();
    packer.compress_doc(&none, 3, &mut blob).unwrap();
    assert_eq!(blob[0], 1);
    assert_eq!(schema.decode_doc(&mut packer, &blob[..]).err(), Some(Error::SchemaMismatch));
    assert_eq!(
        schema.trusted_decode_doc(&mut packer, &blob[..], None).err(),
        Some(Error::SchemaMismatch)
    );
}

#[test]
fn blobs_under_a_schema_are_refused_when_broken() {
    let schema = forum();
    let mut packer = NoSchema::new().unwrap();
    let mut doc = thread_of(&schema, "t");
    let (vault, first, _) = keys();
    doc.sign(&vault, &first).unwrap();
    let mut blob = Vec::new();
    schema.compress_doc(&mut packer, &doc, 3, &mut blob).unwrap();
    assert_eq!(schema.decode_doc(&mut packer, &[]).err(), Some(Error::Truncated));
    assert_eq!(schema.decode_doc(&mut packer, &[9]).err(), Some(Error::BadCompression));
    // A blob that needs a dictionary.
    let mut dict = blob.clone();
    dict[0] = 3;
    assert_eq!(schema.decode_doc(&mut packer, &dict[..]).err(), Some(Error::BadCompression));
    // A frame that is cut short.
    assert_eq!(
        schema.decode_doc(&mut packer, &blob[..blob.len() - 1]).err(),
        Some(Error::BadCompression)
    );
    // A blob that ends within the schema's hash.
    assert_eq!(schema.decode_doc(&mut packer, &blob[..20]).err(), Some(Error::Truncated));
    // A document whose signature was changed.
    let mut plain = Vec::new();
    schema.encode_doc(&doc, &mut plain).unwrap();
    let last = plain.len() - 1;
    plain[last] ^= 1;
    assert_eq!(schema.decode_doc(&mut packer, &plain[..]).err(), Some(Error::SignatureInvalid));
    assert!(schema.trusted_decode_doc(&mut packer, &plain[..], None).is_ok());
}

#[test]
fn hashes_that_need_a_look_elsewhere_come_back_with_the_document() {
    let schema = forum();
    let mut packer = NoSchema::new().unwrap();
    let parent = hash::Hash::new(1, b"parent").unwrap();
    let doc = Document::new(Value::obj(vec![
        (text(""), Value::Hash(schema.hash().clone())),
        (text("title"), Value::Str(text("t"))),
        (text("description"), Value::Str(text("d"))),
        (text("parent"), Value::Hash(parent.clone())),
    ]))
    .unwrap();
    let mut blob = Vec::new();
    let list = schema.compress_doc(&mut packer, &doc, 3, &mut blob).unwrap();
    assert_eq!(list.len(), 1);
    assert_eq!(list.get(0).hash, parent);
    let (_, list) = schema.decode_doc(&mut packer, &blob[..]).unwrap();
    assert_eq!(list.len(), 1);
    assert_eq!(list.get(0).hash, parent);
    assert_eq!(list.get(0).schema, vec![hash::Hash::new_empty()]);
}

#[test]
fn entries_under_a_schema_are_packed_and_unpacked() {
    let schema = forum();
    let mut packer = NoSchema::new().unwrap();
    let doc = thread_of(&schema, "t");
    let mut entry = post_in(&doc, &"x".repeat(300));
    let (vault, first, _) = keys();
    entry.sign(&vault, &first).unwrap();
    let mut plain = Vec::new();
    schema.encode_entry(&entry, &mut plain).unwrap();
    let (back, list) = schema
        .decode_entry(&mut packer, &plain[..], doc.hash().clone(), text("post"))
        .unwrap();
    assert_eq!(list.len(), 0);
    assert!(back == entry);
    let mut blob = Vec::new();
    schema.compress_entry(&mut packer, &entry, 3, &mut blob).unwrap();
    assert!(blob.len() < plain.len());
    let (back, _) = schema
        .decode_entry(&mut packer, &blob[..], doc.hash().clone(), text("post"))
        .unwrap();
    assert!(back.hash() == entry.hash());
    assert_eq!(back.signed_by().len(), 1);
    // Under a field that the schema does not know, or with a body that it does not pass.
    let stray = Entry::new(doc.hash().clone(), text("other"), Value::Null).unwrap();
    let mut buf = Vec::new();
    assert_eq!(
        schema.encode_entry(&stray, &mut buf).err(),
        Some(Error::FailValidate(Reason::UnknownKey))
    );
    assert!(buf.is_empty());
    let empty = Entry::new(doc.hash().clone(), text("post"), Value::obj(vec![])).unwrap();
    let mut blob = Vec::new();
    packer.encode_entry(&empty, &mut blob);
    assert_eq!(
        schema
            .decode_entry(&mut packer, &blob[..], doc.hash().clone(), text("post"))
            .err(),
        Some(Error::FailValidate(Reason::MissingKey))
    );
}

#[test]
fn a_schema_says_how_to_compress_the_entries_of_a_field() {
    let schema = forum();
    assert_eq!(schema.entry_level("post"), Some(3));
    assert_eq!(schema.entry_level("other"), None);
    let plain = Schema::from_doc(
        &SchemaBuilder::new(StrValidator::new().build())
            .entry_add("a", StrValidator::new().build(), None)
            .entry_add("b", StrValidator::new().build(), Some(-5))
            .build()
            .unwrap(),
    )
    .unwrap();
    assert_eq!(plain.entry_level("a"), None);
    assert_eq!(plain.entry_level("b"), Some(-5));
}

#[test]
fn a_schema_finds_its_types_by_name() {
    let schema_doc = SchemaBuilder::new(
        ObjValidator::new().req_add("tags", Validator::Ref(text("tag"))).build(),
    )
    .type_add("tag", StrValidator::new().max_len(4).build())
    .type_add("tag", StrValidator::new().max_len(3).build())
    .build()
    .unwrap();
    let schema = Schema::from_doc(&schema_doc).unwrap();
    let doc = |tag: &str| {
        Document::new(Value::obj(vec![
            (text(""), Value::Hash(schema.hash().clone())),
            (text("tags"), Value::Str(text(tag))),
        ]))
        .unwrap()
    };
    assert!(schema.validate_doc(&doc("abc")).is_ok());
    assert_eq!(
        schema.validate_doc(&doc("abcd")).err(),
        Some(Error::FailValidate(Reason::TooLong))
    );
}

#[test]
fn a_schema_with_a_dictionary_compresses_with_it() {
    let words: Vec<u8> = b"title description This is a test chat parent time text".repeat(8);
    let plain = forum();
    let schema = forum().with_dictionary(words.clone());
    assert!(plain.dictionary().is_none());
    assert_eq!(schema.dictionary(), Some(&words));
    let mut packer = NoSchema::new().unwrap();
    let mut doc = thread_of(&schema, "Test chat");
    let (vault, first, _) = keys();
    doc.sign(&vault, &first).unwrap();
    let mut blob = Vec::new();
    schema.compress_doc(&mut packer, &doc, 3, &mut blob).unwrap();
    // The marker, then the start of the document as it is.
    assert_eq!(blob[0], 3);
    let head = 1 + 1 + 3 + 65;
    assert_eq!(&blob[1..1 + head], &doc.raw_doc()[..head]);
    let (back, _) = schema.decode_doc(&mut packer, &blob[..]).unwrap();
    assert!(back.hash() == doc.hash());
    assert_eq!(back.raw_doc(), doc.raw_doc());
    assert_eq!(back.signed_by().len(), 1);
    let trusted = schema.trusted_decode_doc(&mut packer, &blob[..], None).unwrap();
    assert!(trusted == doc);
    // Without the dictionary, or without a schema, the blob is refused.
    assert_eq!(plain.decode_doc(&mut packer, &blob[..]).err(), Some(Error::BadCompression));
    assert_eq!(packer.decode_doc(&blob[..]).err(), Some(Error::SchemaMismatch));
    // With another dictionary it does not unpack to the document.
    let other = forum().with_dictionary(b"another dictionary altogether, of other words".repeat(8));
    match other.decode_doc(&mut packer, &blob[..]) {
        Ok((read, _)) => assert!(read.raw_doc() != doc.raw_doc()),
        Err(_) => {}
    }
    // What was compressed without a dictionary still unpacks under the schema that has one.
    let mut blob = Vec::new();
    plain.compress_doc(&mut packer, &doc, 3, &mut blob).unwrap();
    assert_eq!(blob[0], 2);
    let (back, _) = schema.decode_doc(&mut packer, &blob[..]).unwrap();
    assert!(back == doc);
}
