//! Schemas: the validators that a family of documents and their entries stand under, and the
//! queries that may be asked of them.

use vstd::prelude::*;
use vstd::string::StringSliceAdditionalSpecFns;
use vstd::utf8::encode_utf8;
use crate::assoc::{assoc_find, find_key, held, lemma_find_from, names_ascending, Named};
use crate::codec::{encode_value, lemma_encode_parse_value, lemma_parse_encode_value};
use crate::crypto::hash;
use crate::crypto::hash::HashView;
use crate::document::{document_fault, Document, DocumentView};
use crate::encode::{encode, write_value};
use crate::entry::{Entry, EntryView};
use crate::error::{Error, Reason};
use crate::fields::{field_map, get, lemma_field_map_empty, lemma_field_map_view, put};
use crate::format::{element_wf, ElementView};
use crate::parser::Parser;
use crate::validator::checklist::Checklist;
use crate::validator::deferred::deferred;
use crate::validator::query::allows;
use crate::validator::rules::{accepts, depth_suffices, passes};
use crate::fields::pairs_map;
use crate::validator::reading::{lemma_record_view, named_read_as, named_readable, readable, reads_as};
use crate::validator::schema_form::{named_values, read_named};
use crate::validator::serial::opt_field;
use crate::validator::written::{lemma_named_nest, map_nest_within, nests_within};
use crate::validator::serial::name_key;
use crate::validator::written::{is_record, lemma_named_written, map_written, with_value, written_as};
use crate::validator::{Types, Validator};
use crate::value::{entries_view, lemma_obj_view, lemma_utf8_injective, Value, ValueView};
use crate::MAX_DEPTH;

verus! {

/// The body of a document without the key `""` that names its schema.
pub open spec fn without_schema(v: ValueView) -> ValueView {
    if v is Obj && v->Obj_0.len() > 0 && v->Obj_0[0].0.len() == 0 {
        ValueView::Obj(v->Obj_0.drop_first())
    } else {
        v
    }
}

/// What is left of a body that can be written can be written.
pub proof fn lemma_without_schema(v: ValueView, depth: nat)
    requires
        v.wf(),
        v.fits(depth),
    ensures
        without_schema(v).wf(),
        without_schema(v).fits(depth),
{
    reveal(element_wf);
    if v is Obj && v->Obj_0.len() > 0 && v->Obj_0[0].0.len() == 0 {
        let entries = v->Obj_0;
        let rest = entries.drop_first();
        assert forall|i: int| 0 <= i < rest.len() implies element_wf(ElementView::Str((#[trigger] rest[i]).0))
            && rest[i].1.wf() && rest[i].1.fits((depth - 1) as nat) by {
            assert(rest[i] == entries[i + 1]);
        }
        assert forall|i: int| 0 <= i < rest.len() - 1 implies crate::bytes::lex_lt(
            #[trigger] rest[i].0,
            rest[i + 1].0,
        ) by {
            assert(rest[i] == entries[i + 1]);
            assert(rest[i + 1] == entries[i + 2]);
        }
    }
}

/// The value without the key `""`, if it is an object that starts with it.
fn strip_schema(v: Value) -> (r: Value)
    ensures
        r@ == without_schema(v@),
{
    match v {
        Value::Obj(entries) => {
            proof {
                lemma_obj_view(entries);
            }
            if entries.len() > 0 && entries[0].0.as_str().as_bytes().len() == 0 {
                let mut entries = entries;
                let ghost before = entries@;
                let _ = entries.remove(0);
                proof {
                    lemma_obj_view(entries);
                    assert(crate::value::entries_view(entries@) =~= crate::value::entries_view(before).drop_first());
                }
                Value::Obj(entries)
            } else {
                Value::Obj(entries)
            }
        },
        other => other,
    }
}

/// What a client asks of the entries under one field of a document: the entries that pass
/// the validator.
#[derive(Debug, PartialEq)]
pub struct NewQuery {
    /// The field whose entries are asked for.
    pub field: String,
    /// What the entries must pass.
    pub validator: Validator,
}

impl NewQuery {
    /// The query for the entries under `field` that pass `validator`.
    pub fn new(field: &str, validator: Validator) -> (q: NewQuery)
        ensures
            q.field@ == field@,
            q.validator == validator,
    {
        NewQuery { field: field.to_owned(), validator }
    }
}

/// A query that a schema has let in.
#[derive(Debug, PartialEq)]
pub struct Query {
    field: String,
    validator: Validator,
}

impl Query {
    /// The field whose entries are asked for.
    pub fn field(&self) -> (f: &str)
        ensures
            f@ == self.spec_field(),
    {
        self.field.as_str()
    }

    /// The field whose entries are asked for.
    pub closed spec fn spec_field(&self) -> Seq<char> {
        self.field@
    }

    /// What the entries must pass.
    pub fn validator(&self) -> (v: &Validator)
        ensures
            *v == self.spec_validator(),
    {
        &self.validator
    }

    /// What the entries must pass.
    pub closed spec fn spec_validator(&self) -> Validator {
        self.validator
    }
}

/// Puts a schema together: the validator for documents, the validators for their entries by
/// field, and the validators that go by a name.
#[derive(Debug, PartialEq)]
pub struct SchemaBuilder {
    doc: Validator,
    entries: Named<Validator>,
    types: Named<Validator>,
    compress: Vec<(String, Value)>,
}

impl SchemaBuilder {
    /// The validator for documents.
    pub closed spec fn spec_doc(&self) -> Validator {
        self.doc
    }

    /// The validators for entries, by field.
    pub closed spec fn spec_entries(&self) -> Map<Seq<u8>, Validator> {
        held(self.entries@)
    }

    /// The validators that go by a name.
    pub closed spec fn spec_types(&self) -> Map<Seq<u8>, Validator> {
        held(self.types@)
    }

    /// The levels at which entries are to be compressed, by field.
    pub closed spec fn spec_levels(&self) -> Map<Seq<u8>, ValueView> {
        field_map(self.compress@)
    }

    /// Whether a level was given for any field.
    pub closed spec fn has_levels(&self) -> bool {
        self.compress@.len() > 0
    }

    /// That every validator of the schema leads into others at most `MAX_DEPTH` deep, so
    /// that the schema can be written.
    pub open spec fn nests(&self) -> bool {
        &&& nests_within(self.spec_doc(), MAX_DEPTH as nat)
        &&& map_nest_within(self.spec_entries(), MAX_DEPTH as nat)
        &&& map_nest_within(self.spec_types(), MAX_DEPTH as nat)
    }

    /// That the builder is well formed: what it holds, it holds in the order of the names.
    pub closed spec fn wf(&self) -> bool {
        names_ascending(self.entries@) && names_ascending(self.types@) && names_ascending(self.compress@)
    }

    /// That `body` is what the schema is written as: an object that holds under `doc` what
    /// the validator for documents is written as, under `entries` and `types` what the
    /// validators for entries and the validators that go by a name are written as, each
    /// under its name, and under `compress` the levels, where there are any.
    pub open spec fn written_as(&self, body: ValueView) -> bool {
        exists|doc: ValueView, entries: ValueView, types: ValueView, levels: ValueView|
            {
                &&& is_record(body, #[trigger] schema_fields(doc, entries, types, self.has_levels(), levels))
                &&& written_as(self.spec_doc(), doc)
                &&& map_written(self.spec_entries(), entries)
                &&& map_written(self.spec_types(), types)
                &&& self.has_levels() ==> is_record(levels, self.spec_levels())
            }
    }

    /// A schema whose documents must pass `doc`, so far without entries and types.
    pub fn new(doc: Validator) -> (b: SchemaBuilder)
        ensures
            b.wf(),
            b.spec_doc() == doc,
            b.spec_entries() == Map::<Seq<u8>, Validator>::empty(),
            b.spec_types() == Map::<Seq<u8>, Validator>::empty(),
            b.spec_levels() == Map::<Seq<u8>, ValueView>::empty(),
    {
        proof {
            lemma_field_map_empty();
            assert(held(Seq::<(String, Validator)>::empty()) =~= Map::<Seq<u8>, Validator>::empty());
        }
        SchemaBuilder { doc, entries: Named::new(), types: Named::new(), compress: Vec::new() }
    }

    /// Lets documents have entries under `entry` that pass `validator`, in place of the
    /// validator that stood under that field, if one did. `compress` is the level at which
    /// such entries are to be compressed, where they are to be.
    pub fn entry_add(self, entry: &str, validator: Validator, compress: Option<i32>) -> (b: SchemaBuilder)
        ensures
            self.wf() ==> b.wf(),
            b.spec_doc() == self.spec_doc(),
            b.spec_types() == self.spec_types(),
            b.spec_entries() == self.spec_entries().insert(entry.spec_bytes(), validator),
            b.spec_levels() == match compress {
                Some(level) => self.spec_levels().insert(entry.spec_bytes(), ValueView::Int(level as int)),
                None => self.spec_levels(),
            },
    {
        let mut s = self;
        let mut taken: Named<Validator> = Named::new();
        core::mem::swap(&mut s.entries, &mut taken);
        s.entries = taken.with(entry.to_owned(), validator);
        match compress {
            Some(level) => {
                put(&mut s.compress, entry, Value::Int(crate::integer::Integer::from_i64(level as i64)));
            },
            None => {},
        }
        s
    }

    /// Puts `validator` under `name` for `Validator::Ref` to find, in place of the
    /// validator that stood under that name, if one did.
    pub fn type_add(self, name: &str, validator: Validator) -> (b: SchemaBuilder)
        ensures
            self.wf() ==> b.wf(),
            b.spec_doc() == self.spec_doc(),
            b.spec_entries() == self.spec_entries(),
            b.spec_levels() == self.spec_levels(),
            b.spec_types() == self.spec_types().insert(name.spec_bytes(), validator),
    {
        let mut s = self;
        let mut taken: Named<Validator> = Named::new();
        core::mem::swap(&mut s.types, &mut taken);
        s.types = taken.with(name.to_owned(), validator);
        s
    }

    /// The document that holds the schema. Fails where a validator cannot be written or the
    /// whole is larger than a document may be.
    pub fn build(self) -> (r: Result<Document, Error>)
        ensures
            r matches Ok(doc) ==> doc.wf() && doc@.schema_hash is None && doc@.signed.hashed
                && doc@.signed.signed_by.len() == 0,
            r matches Ok(doc) ==> self.wf() ==> self.written_as(doc@.signed.body()),
            r matches Err(e) ==> e == Error::DepthExceeded || e == Error::Malformed || e == Error::TooLarge,
            self.wf() && !self.nests() ==> r is Err && r->Err_0 == Error::DepthExceeded,
            self.wf() && self.nests() ==> exists|body: ValueView|
                #[trigger] self.written_as(body) && match document_fault(body) {
                    Some(e) => r is Err && r->Err_0 == e,
                    None => r is Ok && r->Ok_0@.signed.body() == body,
                },
    {
        let mut e: Vec<(String, Value)> = Vec::new();
        let ghost has_levels = self.has_levels();
        proof {
            reveal(name_key);
            lemma_field_map_empty();
        }
        proof {
            if self.wf() {
                lemma_named_nest(self.entries@, MAX_DEPTH as nat);
                lemma_named_nest(self.types@, MAX_DEPTH as nat);
            }
        }
        let doc_value = self.doc.to_value()?;
        let entries_value = named_values(self.entries.list(), MAX_DEPTH)?;
        let types_value = named_values(self.types.list(), MAX_DEPTH)?;
        let ghost doc_view = doc_value@;
        let ghost entries_view_ = entries_value@;
        let ghost types_view = types_value@;
        let ghost levels_view = Value::Obj(self.compress)@;
        put(&mut e, "doc", doc_value);
        put(&mut e, "entries", entries_value);
        put(&mut e, "types", types_value);
        if self.compress.len() > 0 {
            put(&mut e, "compress", Value::Obj(self.compress));
        }
        proof {
            // No key of the body is empty, so the body names no schema.
            reveal_strlit("doc");
            reveal_strlit("entries");
            reveal_strlit("types");
            reveal_strlit("compress");
            assert(encode_utf8(Seq::<char>::empty()) =~= Seq::<u8>::empty()) by {
                reveal_with_fuel(encode_utf8, 1);
            }
            lemma_obj_view(e);
            assert(field_map(e@).contains_key("doc".spec_bytes()));
            lemma_find_from(e@, "doc".spec_bytes(), 0);
            assert(e@.len() > 0);
            let first = encode_utf8(e@[0].0@);
            assert(entries_view(e@)[0].0 == first);
            lemma_find_from(e@, first, 0);
            assert(field_map(e@).contains_key(first));
            if first.len() == 0 {
                assert(first =~= encode_utf8(Seq::<char>::empty()));
                if first == "doc".spec_bytes() {
                    lemma_utf8_injective("doc"@, Seq::empty());
                } else if first == "entries".spec_bytes() {
                    lemma_utf8_injective("entries"@, Seq::empty());
                } else if first == "types".spec_bytes() {
                    lemma_utf8_injective("types"@, Seq::empty());
                } else {
                    lemma_utf8_injective("compress"@, Seq::empty());
                }
            }
            if self.wf() {
                let fields = schema_fields(doc_view, entries_view_, types_view, has_levels, levels_view);
                assert(field_map(e@) == fields);
                lemma_field_map_view(e@);
                lemma_named_written(self.entries@, entries_view_);
                lemma_named_written(self.types@, types_view);
                if has_levels {
                    lemma_obj_view(self.compress);
                    lemma_field_map_view(self.compress@);
                }
                assert(is_record(ValueView::Obj(entries_view(e@)), fields));
                assert(self.written_as(ValueView::Obj(entries_view(e@))));
            }
        }
        let body = Value::Obj(e);
        let doc = Document::new(body)?;
        proof {
            doc.lemma_wf();
        }
        Ok(doc)
    }
}

/// The fields that a schema is written as: what its validators are written as, and the
/// levels where `has_levels` says that there are any.
pub open spec fn schema_fields(
    doc: ValueView,
    entries: ValueView,
    types: ValueView,
    has_levels: bool,
    levels: ValueView,
) -> Map<Seq<u8>, ValueView> {
    let m = Map::<Seq<u8>, ValueView>::empty();
    let m = m.insert(name_key("doc"@), doc);
    let m = m.insert(name_key("entries"@), entries);
    let m = m.insert(name_key("types"@), types);
    with_value(m, name_key("compress"@), has_levels, levels)
}

/// A copy of the pairs.
fn copy_pairs(list: &Vec<(String, Value)>) -> (r: Vec<(String, Value)>)
    ensures
        r@.len() == list@.len(),
        forall|i: int| 0 <= i < list@.len() ==> (#[trigger] r@[i]).0@ == list@[i].0@ && r@[i].1@ == list@[i].1@,
        field_map(r@) == field_map(list@),
{
    let mut r: Vec<(String, Value)> = Vec::new();
    let mut i: usize = 0;
    while i < list.len()
        invariant
            0 <= i <= list.len(),
            r@.len() == i,
            forall|j: int| 0 <= j < i ==> (#[trigger] r@[j]).0@ == list@[j].0@ && r@[j].1@ == list@[j].1@,
        decreases list.len() - i,
    {
        r.push((list[i].0.clone(), list[i].1.deep_clone()));
        i += 1;
    }
    proof {
        assert forall|k: Seq<u8>| #[trigger]
            field_map(r@).contains_key(k) == field_map(list@).contains_key(k) && (field_map(r@).contains_key(k)
                ==> field_map(r@)[k] == field_map(list@)[k]) by {
            crate::validator::refine::lemma_same_names_find(r@, list@, k, 0);
            lemma_find_from(list@, k, 0);
        }
        assert(field_map(r@) =~= field_map(list@));
    }
    r
}

/// That `body` can be read as a schema: an object that holds under `doc` what can be read
/// as a validator, under `entries` and `types`, if there, objects that can be read as
/// validators under names, and under `compress`, if there, an object.
pub open spec fn schema_readable(body: ValueView) -> bool {
    body matches ValueView::Obj(p) && {
        let m = pairs_map(p);
        &&& opt_field(m, name_key("doc"@)) matches Some(d) && readable(d, MAX_DEPTH as nat)
        &&& named_readable(opt_field(m, name_key("entries"@)), MAX_DEPTH as nat)
        &&& named_readable(opt_field(m, name_key("types"@)), MAX_DEPTH as nat)
        &&& opt_field(m, name_key("compress"@)) matches Some(c) ==> c is Obj
    }
}

/// That the schema `s` is what `body` says.
pub open spec fn schema_reads_as(body: ValueView, s: SchemaView) -> bool {
    body matches ValueView::Obj(p) && {
        let m = pairs_map(p);
        &&& opt_field(m, name_key("doc"@)) matches Some(d) && reads_as(d, s.doc, MAX_DEPTH as nat)
        &&& named_read_as(opt_field(m, name_key("entries"@)), s.entries, MAX_DEPTH as nat)
        &&& named_read_as(opt_field(m, name_key("types"@)), s.types, MAX_DEPTH as nat)
        &&& s.levels == match opt_field(m, name_key("compress"@)) {
            Some(ValueView::Obj(q)) => pairs_map(q),
            _ => Map::<Seq<u8>, ValueView>::empty(),
        }
        &&& s.dictionary is None
    }
}

/// The fields that a query is written as.
pub open spec fn query_fields(field: Seq<u8>, validator: ValueView) -> Map<Seq<u8>, ValueView> {
    Map::<Seq<u8>, ValueView>::empty().insert(name_key("field"@), ValueView::Str(field)).insert(
        name_key("validator"@),
        validator,
    )
}

/// That `body` is what the query for `field` with the validator `v` is written as.
pub open spec fn query_written(field: Seq<char>, v: Validator, body: ValueView) -> bool {
    exists|validator: ValueView|
        is_record(body, #[trigger] query_fields(encode_utf8(field), validator)) && written_as(v, validator)
}

/// A schema as contracts see it.
pub struct SchemaView {
    /// The hash of the document that holds the schema.
    pub hash: HashView,
    /// The validator for documents.
    pub doc: Validator,
    /// The validators for entries, by field.
    pub entries: Seq<(String, Validator)>,
    /// The validators that go by a name.
    pub types: Seq<(String, Validator)>,
    /// What the schema says of compression, by field.
    pub levels: Map<Seq<u8>, ValueView>,
    /// The dictionary that documents under the schema are compressed with, if there is one.
    pub dictionary: Option<Seq<u8>>,
}

/// The validators that a family of documents and their entries stand under.
#[derive(Debug, PartialEq)]
pub struct Schema {
    hash: hash::Hash,
    doc: Validator,
    entries: Named<Validator>,
    types: Types,
    levels: Vec<(String, Value)>,
    dictionary: Option<Vec<u8>>,
}

impl View for Schema {
    type V = SchemaView;

    closed spec fn view(&self) -> SchemaView {
        SchemaView {
            hash: self.hash@,
            doc: self.doc,
            entries: self.entries@,
            types: self.types@,
            levels: field_map(self.levels@),
            dictionary: match self.dictionary {
                Some(words) => Some(words@),
                None => None,
            },
        }
    }
}

/// The level that stands under `field`, where a level stands there.
pub open spec fn level_in(levels: Map<Seq<u8>, ValueView>, field: Seq<u8>) -> Option<i32> {
    if levels.contains_key(field) && levels[field] is Int && i32::MIN <= levels[field]->Int_0 <= i32::MAX {
        Some(levels[field]->Int_0 as i32)
    } else {
        None
    }
}

impl SchemaView {
    /// Whether the schema passes the document: the document names this schema, and its body,
    /// but for that name, passes the validator for documents.
    pub open spec fn passes_doc(self, d: DocumentView) -> bool {
        &&& d.schema_hash == Some(self.hash)
        &&& accepts(self.doc, self.types, without_schema(d.signed.body()), Seq::empty(), MAX_DEPTH as nat)
    }

    /// Whether the schema passes the entry: it has a validator for the entry's field, and
    /// the entry's body passes it.
    pub open spec fn passes_entry(self, e: EntryView) -> bool {
        match find_key(self.entries, e.field) {
            Some(k) => 0 <= k < self.entries.len() && accepts(
                self.entries[k].1,
                self.types,
                e.signed.body(),
                Seq::empty(),
                MAX_DEPTH as nat,
            ),
            None => false,
        }
    }

    /// What a document that the schema passes leaves to settle by a look at other
    /// documents.
    pub open spec fn doc_leaves(self, d: DocumentView) -> Seq<(HashView, Seq<HashView>)> {
        deferred(self.doc, self.types, without_schema(d.signed.body()), Seq::empty(), MAX_DEPTH as nat)
    }

    /// What an entry that the schema passes leaves to settle by a look at other documents.
    pub open spec fn entry_leaves(self, e: EntryView) -> Seq<(HashView, Seq<HashView>)> {
        match find_key(self.entries, e.field) {
            Some(k) => deferred(self.entries[k].1, self.types, e.signed.body(), Seq::empty(), MAX_DEPTH as nat),
            None => Seq::empty(),
        }
    }

    /// Whether the schema permits the query: it has a validator for the field asked of, and
    /// that validator permits the query's.
    pub open spec fn permits(self, field: Seq<u8>, validator: Validator) -> bool {
        match find_key(self.entries, field) {
            Some(k) => 0 <= k < self.entries.len() && allows(
                self.entries[k].1,
                self.types,
                validator,
                MAX_DEPTH as nat,
            ),
            None => false,
        }
    }
}

impl Schema {
    /// Reads the schema that `doc` holds. Succeeds exactly where the document's body can be
    /// read as a schema, and then holds what the body says.
    pub fn from_doc(doc: &Document) -> (r: Result<Schema, Error>)
        requires
            doc.wf(),
        ensures
            r is Ok <==> schema_readable(doc@.signed.body()),
            r matches Ok(s) ==> s@.hash == doc@.signed.hash && schema_reads_as(doc@.signed.body(), s@),
            r matches Err(e) ==> e == Error::BadValidator || e == Error::DepthExceeded,
    {
        let body = doc.value();
        proof {
            reveal(name_key);
            if body is Obj {
                lemma_record_view(body);
            }
        }
        let e = match &body {
            Value::Obj(e) => e,
            _ => {
                return Err(Error::BadValidator);
            },
        };
        let validator = match get(e, "doc") {
            Some(v) => Validator::from_value(v)?,
            None => {
                return Err(Error::BadValidator);
            },
        };
        let entries = read_named(e, "entries", MAX_DEPTH)?;
        let types = read_named(e, "types", MAX_DEPTH)?;
        let levels = match get(e, "compress") {
            None => {
                proof {
                    lemma_field_map_empty();
                }
                Vec::new()
            },
            Some(Value::Obj(list)) => {
                proof {
                    lemma_record_view(Value::Obj(*list));
                }
                copy_pairs(list)
            },
            Some(_) => {
                return Err(Error::BadValidator);
            },
        };
        Ok(
            Schema {
                hash: doc.hash().clone(),
                doc: validator,
                entries: Named::from_list(entries),
                types: Types::from_list(types),
                levels,
                dictionary: None,
            },
        )
    }

    /// The schema with `words` for the dictionary that documents under it are compressed
    /// with. A document compressed with a dictionary unpacks only with the same dictionary.
    pub fn with_dictionary(self, words: Vec<u8>) -> (r: Schema)
        ensures
            r@ == (SchemaView { dictionary: Some(words@), ..self@ }),
    {
        let Schema { hash, doc, entries, types, levels, dictionary: _ } = self;
        Schema { hash, doc, entries, types, levels, dictionary: Some(words) }
    }

    /// The dictionary that documents under the schema are compressed with, if there is one.
    pub fn dictionary(&self) -> (r: Option<&Vec<u8>>)
        ensures
            match r {
                Some(words) => self@.dictionary == Some(words@),
                None => self@.dictionary is None,
            },
    {
        match &self.dictionary {
            Some(words) => Some(words),
            None => None,
        }
    }

    /// The level at which the schema wants entries under `field` compressed, where it names
    /// one.
    pub fn entry_level(&self, field: &str) -> (r: Option<i32>)
        ensures
            r == level_in(self@.levels, field.spec_bytes()),
    {
        match get(&self.levels, field) {
            Some(Value::Int(level)) => {
                let n = level.get();
                if -0x8000_0000 <= n && n <= 0x7fff_ffff {
                    Some(n as i32)
                } else {
                    None
                }
            },
            _ => None,
        }
    }

    /// The hash of the document that holds the schema.
    pub fn hash(&self) -> (h: &hash::Hash)
        ensures
            h@ == self@.hash,
    {
        &self.hash
    }

    /// Checks a document against the schema. Gives what is left to settle by looking at
    /// other documents: the hashes that the body holds under validators that ask for
    /// schemas, in the order in which the body holds them.
    ///
    /// Succeeds exactly where the document names this schema and its body, but for that
    /// name, passes the validator for documents. Fails with `SchemaMismatch` exactly where
    /// the document does not name this schema.
    pub fn validate_doc(&self, doc: &Document) -> (r: Result<Checklist, Error>)
        requires
            doc.wf(),
        ensures
            r is Ok <==> self@.passes_doc(doc@),
            r matches Ok(list) ==> list@ == self@.doc_leaves(doc@),
            r matches Err(e) ==> (e == Error::SchemaMismatch <==> doc@.schema_hash != Some(self@.hash)),
            r matches Err(e) ==> e == Error::SchemaMismatch || e is FailValidate || e == Error::DepthExceeded,
            r matches Err(e) ==> depth_suffices(
                self@.doc,
                self@.types,
                without_schema(doc@.signed.body()),
                Seq::empty(),
                MAX_DEPTH as nat,
            ) ==> e != Error::DepthExceeded,
    {
        proof {
            doc.lemma_wf();
            lemma_encode_parse_value(doc@.signed.raw, MAX_DEPTH as nat);
        }
        match doc.schema_hash() {
            Some(h) => {
                if !h.same(&self.hash) {
                    return Err(Error::SchemaMismatch);
                }
            },
            None => {
                return Err(Error::SchemaMismatch);
            },
        }
        let body = strip_schema(doc.value());
        proof {
            lemma_without_schema(doc@.signed.body(), MAX_DEPTH as nat);
            lemma_parse_encode_value(body@, MAX_DEPTH as nat, Seq::empty());
            assert(encode_value(body@) + Seq::<u8>::empty() =~= encode_value(body@));
        }
        let mut bytes: Vec<u8> = Vec::new();
        write_value(&mut bytes, &body);
        assert(bytes@ =~= encode_value(body@));
        match self.doc.validate(&self.types, Parser::new(bytes.as_slice()), Some(Checklist::new())) {
            Ok((_, Some(list))) => {
                assert(list@ =~= self@.doc_leaves(doc@));
                Ok(list)
            },
            Ok((_, None)) => Ok(Checklist::new()),
            Err(e) => Err(e),
        }
    }

    /// Checks an entry against the schema. Gives what is left to settle by looking at other
    /// documents.
    ///
    /// Succeeds exactly where the schema has a validator for the entry's field and the
    /// entry's body passes it.
    pub fn validate_entry(&self, entry: &Entry) -> (r: Result<Checklist, Error>)
        requires
            entry.wf(),
        ensures
            r is Ok <==> self@.passes_entry(entry@),
            r matches Ok(list) ==> list@ == self@.entry_leaves(entry@),
            r matches Err(e) ==> e is FailValidate || e == Error::DepthExceeded,
            r matches Err(e) ==> (find_key(self@.entries, entry@.field) matches Some(k) ==> depth_suffices(
                self@.entries[k].1,
                self@.types,
                entry@.signed.body(),
                Seq::empty(),
                MAX_DEPTH as nat,
            )) ==> e is FailValidate,
    {
        proof {
            entry.lemma_wf();
            lemma_find_from(self.entries@, entry@.field, 0);
        }
        let k = match assoc_find(self.entries.list(), entry.field()) {
            Some(k) => k,
            None => {
                return Err(Error::FailValidate(Reason::UnknownKey));
            },
        };
        match self.entries.list()[k].1.validate(&self.types, Parser::new(entry.raw_entry()), Some(Checklist::new())) {
            Ok((_, Some(list))) => {
                assert(list@ =~= self@.entry_leaves(entry@));
                Ok(list)
            },
            Ok((_, None)) => Ok(Checklist::new()),
            Err(e) => Err(e),
        }
    }

    /// Lets a query in, or refuses it: a query is let in exactly where the schema has a
    /// validator for the field asked of and that validator permits the query's. What is not
    /// let in is never run.
    pub fn check_query(&self, query: NewQuery) -> (r: Result<Query, Error>)
        ensures
            r is Ok <==> self@.permits(encode_utf8(query.field@), query.validator),
            r matches Ok(q) ==> q.spec_field() == query.field@ && q.spec_validator() == query.validator,
            r matches Err(e) ==> e == Error::QueryNotAllowed,
    {
        proof {
            lemma_find_from(self.entries@, encode_utf8(query.field@), 0);
        }
        let k = match assoc_find(self.entries.list(), query.field.as_str()) {
            Some(k) => k,
            None => {
                return Err(Error::QueryNotAllowed);
            },
        };
        if !self.entries.list()[k].1.query_check(&self.types, &query.validator) {
            return Err(Error::QueryNotAllowed);
        }
        Ok(Query { field: query.field, validator: query.validator })
    }

    /// Lets a query in and writes it, or refuses it. Fails with `QueryNotAllowed` exactly
    /// where `check_query` refuses the query, and with `Malformed` where a query that is let
    /// in cannot be written: its validator leads into others more than `MAX_DEPTH` deep, or
    /// what it is written as is no value of the format. What comes back is the canonical
    /// form of the object that holds the field under `field` and, under `validator`, what
    /// the validator is written as.
    pub fn encode_query(&self, query: NewQuery) -> (r: Result<Vec<u8>, Error>)
        ensures
            !self@.permits(encode_utf8(query.field@), query.validator) ==> r is Err && r->Err_0
                == Error::QueryNotAllowed,
            self@.permits(encode_utf8(query.field@), query.validator) && !nests_within(
                query.validator,
                MAX_DEPTH as nat,
            ) ==> r is Err && r->Err_0 == Error::Malformed,
            self@.permits(encode_utf8(query.field@), query.validator) && nests_within(
                query.validator,
                MAX_DEPTH as nat,
            ) ==> exists|body: ValueView|
                #[trigger] query_written(query.field@, query.validator, body) && (if body.wf() && body.fits(
                    MAX_DEPTH as nat,
                ) {
                    r is Ok && r->Ok_0@ == encode_value(body)
                } else {
                    r is Err && r->Err_0 == Error::Malformed
                }),
    {
        let ghost field = query.field@;
        let ghost asked = query.validator;
        let q = self.check_query(query)?;
        let mut e: Vec<(String, Value)> = Vec::new();
        proof {
            reveal(name_key);
            lemma_field_map_empty();
        }
        put(&mut e, "field", Value::Str(q.field.clone()));
        let validator = match q.validator.to_value() {
            Ok(v) => v,
            Err(_) => {
                return Err(Error::Malformed);
            },
        };
        let ghost written = validator@;
        put(&mut e, "validator", validator);
        proof {
            lemma_obj_view(e);
            lemma_field_map_view(e@);
            let body = ValueView::Obj(entries_view(e@));
            assert(field_map(e@) == query_fields(encode_utf8(field), written));
            assert(query_written(field, asked, body));
        }
        encode(&Value::Obj(e))
    }
}

} // verus!
