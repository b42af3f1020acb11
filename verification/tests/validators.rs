use fog_pack::crypto::hash;
use fog_pack::decode::decode;
use fog_pack::document::Document;
use fog_pack::element::{write_bool, write_str, write_timestamp};
use fog_pack::encode::encode;
use fog_pack::entry::Entry;
use fog_pack::error::{Error, Reason};
use fog_pack::integer::Integer;
use fog_pack::parser::Parser;
use fog_pack::schema::{NewQuery, Schema, SchemaBuilder};
use fog_pack::timestamp::Timestamp;
use fog_pack::crypto::key::Identity;
use fog_pack::crypto::lock::Lockbox;
use fog_pack::validator::array::ArrayValidator;
use fog_pack::validator::binary::BinValidator;
use fog_pack::validator::boolean::BoolValidator;
use fog_pack::validator::identity::IdentityValidator;
use fog_pack::validator::lockbox::LockboxValidator;
use fog_pack::validator::checklist::Checklist;
use fog_pack::validator::enum_set::EnumValidator;
use fog_pack::validator::hash::HashValidator;
use fog_pack::validator::integer::IntValidator;
use fog_pack::validator::obj::ObjValidator;
use fog_pack::validator::string::StrValidator;
use fog_pack::validator::time::TimeValidator;
use fog_pack::validator::{Types, Validator};
use fog_pack::value::Value;

fn s(text: &str) -> String {
    String::from(text)
}

fn num(n: i64) -> Value {
    Value::Int(Integer::from_i64(n))
}

fn passes(validator: &Validator, value: &Value) -> bool {
    let bytes = encode(value).unwrap();
    match validator.validate(&Types::new(), Parser::new(&bytes[..]), None) {
        Ok((rest, _)) => {
            assert!(rest.remaining().is_empty());
            true
        }
        Err(_) => false,
    }
}

#[test]
fn ser_default() {
    // Should be an empty map if we use the defaults
    let schema = ArrayValidator::default();
    let actual = encode(&schema.to_value().unwrap()).unwrap();
    let expected: Vec<u8> = vec![0x80];
    println!("expected: {:x?}", expected);
    println!("actual:   {:x?}", actual);
    assert_eq!(expected, actual);

    let decoded = ArrayValidator::from_value(&decode(&actual[..]).unwrap()).unwrap();
    assert_eq!(schema, decoded);
}

#[test]
fn default_ser() {
    // Should be an empty map if we use the defaults
    let schema = TimeValidator::default();
    let actual = encode(&schema.to_value()).unwrap();
    let expected: Vec<u8> = vec![0x80];
    println!("expected: {:x?}", expected);
    println!("actual:   {:x?}", actual);
    assert_eq!(expected, actual);

    let decoded = TimeValidator::from_value(&decode(&actual[..]).unwrap()).unwrap();
    assert_eq!(schema, decoded);
}

#[test]
fn example_ser() {
    let schema = TimeValidator {
        comment: "The year 2020".to_string(),
        default: Timestamp::from_utc(1577854800, 0).unwrap(),
        min: Timestamp::from_utc(1577854800, 0).unwrap(),
        max: Timestamp::from_utc(1609477200, 0).unwrap(),
        ex_min: false,
        ex_max: true,
        in_list: Vec::new(),
        nin_list: Vec::new(),
        query: true,
        ord: true,
    };
    let actual = encode(&schema.to_value()).unwrap();
    let mut expected: Vec<u8> = vec![0x87];
    write_str(&mut expected, "comment");
    write_str(&mut expected, "The year 2020");
    write_str(&mut expected, "default");
    write_timestamp(&mut expected, &Timestamp::from_utc(1577854800, 0).unwrap());
    write_str(&mut expected, "ex_max");
    write_bool(&mut expected, true);
    write_str(&mut expected, "max");
    write_timestamp(&mut expected, &Timestamp::from_utc(1609477200, 0).unwrap());
    write_str(&mut expected, "min");
    write_timestamp(&mut expected, &Timestamp::from_utc(1577854800, 0).unwrap());
    write_str(&mut expected, "ord");
    write_bool(&mut expected, true);
    write_str(&mut expected, "query");
    write_bool(&mut expected, true);
    println!("expected: {:x?}", expected);
    println!("actual:   {:x?}", actual);
    assert_eq!(expected, actual);

    match decode(&actual[..]).and_then(|v| TimeValidator::from_value(&v)) {
        Ok(decoded) => assert_eq!(schema, decoded),
        Err(e) => {
            println!("Error: {:?}", e);
            panic!("Couldn't decode");
        }
    }
}

#[test]
fn example_schema() {
    // Let's use this as our schema-side validator, and make a full schema.
    let entry_validator = EnumValidator::new()
        .insert("Empty", None)
        .insert("Integer", Some(IntValidator::new().build()))
        .insert("String", Some(StrValidator::new().build()))
        .build();
    let schema_doc = SchemaBuilder::new(Validator::Null)
        .entry_add("item", entry_validator, None)
        .build()
        .unwrap();
    Schema::from_doc(&schema_doc).unwrap();
}

#[test]
fn enum_queries_may_list_fewer_variants_but_not_change_them() {
    let entry_validator = EnumValidator::new()
        .insert("Empty", None)
        .insert("Integer", Some(IntValidator::new().build()))
        .insert("String", Some(StrValidator::new().build()))
        .build();
    let schema_doc = SchemaBuilder::new(Validator::Null)
        .entry_add("item", entry_validator, None)
        .build()
        .unwrap();
    let schema = Schema::from_doc(&schema_doc).unwrap();

    let query_validator = EnumValidator::new()
        .insert("Empty", None)
        .insert("Integer", Some(IntValidator::new().build()))
        .build();
    assert!(schema.encode_query(NewQuery::new("item", query_validator)).is_ok());

    let query_validator = EnumValidator::new()
        .insert("Empty", Some(Validator::Null))
        .insert("Integer", Some(IntValidator::new().build()))
        .build();
    assert_eq!(
        schema.encode_query(NewQuery::new("item", query_validator)).err(),
        Some(Error::QueryNotAllowed)
    );
    let unknown = EnumValidator::new().insert("Other", None).build();
    assert!(schema.check_query(NewQuery::new("item", unknown)).is_err());
    assert!(schema.check_query(NewQuery::new("nothing", Validator::Any)).is_err());
    assert!(schema.check_query(NewQuery::new("item", Validator::Any)).is_ok());
}

#[test]
fn int_queries_need_the_schemas_permission() {
    let query = || {
        IntValidator::new()
            .in_add(Integer::from_u64(1))
            .in_add(Integer::from_u64(2))
            .in_add(Integer::from_u64(3))
            .build()
    };
    let closed = SchemaBuilder::new(Validator::Null)
        .entry_add("n", IntValidator::new().query(false).build(), None)
        .build()
        .unwrap();
    let closed = Schema::from_doc(&closed).unwrap();
    assert_eq!(closed.check_query(NewQuery::new("n", query())).err(), Some(Error::QueryNotAllowed));

    let open = SchemaBuilder::new(Validator::Null)
        .entry_add("n", IntValidator::new().query(true).build(), None)
        .build()
        .unwrap();
    let open = Schema::from_doc(&open).unwrap();
    let accepted = open.check_query(NewQuery::new("n", query())).unwrap();
    assert_eq!(accepted.field(), "n");
    assert_eq!(accepted.validator(), &query());
    // Bounds need the other permission.
    let ranged = IntValidator::new().max(Integer::from_u64(10)).build();
    assert!(open.check_query(NewQuery::new("n", ranged)).is_err());
    assert!(IntValidator::new().query(true).build().query_check(&Types::new(), &query()));
    assert!(!IntValidator::new().build().query_check(&Types::new(), &query()));
}

fn chat_schema() -> Schema {
    let doc = ObjValidator::new()
        .req_add("title", StrValidator::new().max_len(255).build())
        .req_add("description", StrValidator::new().build())
        .build();
    let post = ObjValidator::new()
        .req_add("time", TimeValidator::new().build())
        .req_add("text", StrValidator::new().build())
        .build();
    let schema_doc = SchemaBuilder::new(doc).entry_add("post", post, None).build().unwrap();
    Schema::from_doc(&schema_doc).unwrap()
}

#[test]
fn schema_passes_long_text_and_fails_long_title() {
    let schema = chat_schema();
    let doc = |title: String| {
        Document::new(Value::obj(vec![
            (s(""), Value::Hash(schema.hash().clone())),
            (s("title"), Value::Str(title)),
            (s("description"), Value::Str(s("This is a test chat"))),
        ]))
        .unwrap()
    };
    let good = doc(s("Test chat"));
    assert!(schema.validate_doc(&good).is_ok());
    assert_eq!(
        schema.validate_doc(&doc("t".repeat(1000))).err(),
        Some(Error::FailValidate(Reason::TooLong))
    );
    assert!(schema.validate_doc(&doc("t".repeat(255))).is_ok());
    assert!(schema.validate_doc(&doc("t".repeat(256))).is_err());

    let post = |text: String| {
        Entry::new(
            good.hash().clone(),
            s("post"),
            Value::obj(vec![
                (s("time"), Value::Timestamp(Timestamp::from_utc(1577854800, 5).unwrap())),
                (s("text"), Value::Str(text)),
            ]),
        )
        .unwrap()
    };
    assert!(schema.validate_entry(&post("x".repeat(300))).is_ok());
    let unknown_field = Entry::new(good.hash().clone(), s("other"), Value::Null).unwrap();
    assert!(schema.validate_entry(&unknown_field).is_err());
    let missing = Entry::new(
        good.hash().clone(),
        s("post"),
        Value::obj(vec![(s("text"), Value::Str(s("no time")))]),
    )
    .unwrap();
    assert!(schema.validate_entry(&missing).is_err());

    // A document under another schema, or under none, is not this schema's.
    let other = Document::new(Value::obj(vec![
        (s(""), Value::Hash(hash::Hash::new_empty())),
        (s("title"), Value::Str(s("t"))),
        (s("description"), Value::Str(s("d"))),
    ]))
    .unwrap();
    assert_eq!(schema.validate_doc(&other).err(), Some(Error::SchemaMismatch));
}

#[test]
fn time_validator_bounds_and_lists() {
    let t = |sec: i64, nano: u32| Timestamp::from_utc(sec, nano).unwrap();
    let mut v = TimeValidator::new();
    v.min = t(10, 0);
    v.max = t(20, 0);
    v.ex_max = true;
    v.nin_list = vec![t(15, 0)];
    let check = |validator: &TimeValidator, value: &Value| {
        let bytes = encode(value).unwrap();
        let mut parser = Parser::new(&bytes[..]);
        validator.validate(&mut parser)
    };
    assert!(check(&v, &Value::Timestamp(t(10, 0))).is_ok());
    assert!(check(&v, &Value::Timestamp(t(19, 999_999_999))).is_ok());
    assert_eq!(check(&v, &Value::Timestamp(t(20, 0))), Err(Error::FailValidate(Reason::AboveMax)));
    assert_eq!(
        check(&v, &Value::Timestamp(t(9, 999_999_999))),
        Err(Error::FailValidate(Reason::BelowMin))
    );
    assert_eq!(check(&v, &Value::Timestamp(t(15, 0))), Err(Error::FailValidate(Reason::Forbidden)));
    assert_eq!(check(&v, &num(15)), Err(Error::FailValidate(Reason::Kind)));
    v.in_list = vec![t(12, 0)];
    assert!(check(&v, &Value::Timestamp(t(12, 0))).is_ok());
    assert_eq!(check(&v, &Value::Timestamp(t(13, 0))), Err(Error::FailValidate(Reason::NotListed)));
    let mut parser = Parser::new(&[]);
    assert_eq!(v.validate(&mut parser), Err(Error::Truncated));
    assert!(Timestamp::from_utc(0, 1_000_000_000).is_none());
}

#[test]
fn time_queries() {
    let schema = TimeValidator::new();
    let mut ranged = TimeValidator::new();
    ranged.min = Timestamp::from_sec(5);
    assert!(!schema.query_check(&Validator::Time(Box::new(ranged))));
    let mut ordered = TimeValidator::new();
    ordered.ord = true;
    let mut ranged = TimeValidator::new();
    ranged.min = Timestamp::from_sec(5);
    assert!(ordered.query_check(&Validator::Time(Box::new(ranged))));
    assert!(schema.query_check(&Validator::Any));
    assert!(!schema.query_check(&Validator::Null));
    assert!(schema.query_check(&Validator::Multi(vec![TimeValidator::new().build()])));
    assert!(schema.query_check(&Validator::Multi(vec![TimeValidator::new().build(), Validator::Any])));
    assert!(!schema.query_check(&Validator::Multi(vec![TimeValidator::new().build(), Validator::Null])));
}

#[test]
fn a_choice_is_permitted_where_each_of_its_branches_is() {
    let types = Types::new();
    // An array validator.
    let array = ArrayValidator::new();
    assert!(array.query_check(&types, &Validator::Multi(vec![Validator::Any]), 100));
    assert!(array.query_check(&types, &Validator::Multi(vec![]), 100));
    assert!(array.query_check(
        &types,
        &Validator::Multi(vec![
            ArrayValidator::new().build(),
            Validator::Any,
            Validator::Multi(vec![ArrayValidator::new().build()]),
        ]),
        100
    ));
    assert!(!array.query_check(
        &types,
        &Validator::Multi(vec![ArrayValidator::new().build(), ArrayValidator::new().unique(true).build()]),
        100
    ));
    assert!(!array.query_check(&types, &Validator::Multi(vec![Validator::Any, Validator::Null]), 100));
    assert!(array.build().query_check(&types, &Validator::Multi(vec![Validator::Any])));
    // An enum validator.
    let schema = EnumValidator::new().insert("Empty", None);
    let same = EnumValidator::new().insert("Empty", None).build();
    assert!(schema.query_check(&types, &Validator::Multi(vec![same]), 100));
    let other = EnumValidator::new().insert("Other", None).build();
    assert!(!schema.query_check(&types, &Validator::Multi(vec![other]), 100));
    assert!(schema.query_check(&types, &Validator::Multi(vec![Validator::Any]), 100));
    // An object validator, and validators without configuration.
    let obj = ObjValidator::new();
    assert!(obj.query_check(
        &types,
        &Validator::Multi(vec![Validator::Any, ObjValidator::new().build()]),
        100
    ));
    assert!(Validator::Null.query_check(
        &types,
        &Validator::Multi(vec![Validator::Null, Validator::Multi(vec![Validator::Any])])
    ));
    assert!(!Validator::Null.query_check(&types, &Validator::Multi(vec![Validator::F32])));
    // Leaf validators, a choice within a choice.
    let int = IntValidator::new();
    assert!(int.query_check(&Validator::Multi(vec![
        Validator::Multi(vec![IntValidator::new().build(), Validator::Any]),
        Validator::Any,
    ])));
    assert!(!int.query_check(&Validator::Multi(vec![Validator::Multi(vec![
        IntValidator::new().in_add(Integer::from_i64(1)).build()
    ])])));
}

#[test]
fn array_validator_rules() {
    let arr = |items: Vec<Value>| Value::Array(items);
    let v = ArrayValidator::new().min_len(1).max_len(3).build();
    assert!(!passes(&v, &arr(vec![])));
    assert!(passes(&v, &arr(vec![num(1)])));
    assert!(passes(&v, &arr(vec![num(1), num(2), num(3)])));
    assert!(!passes(&v, &arr(vec![num(1), num(2), num(3), num(4)])));
    assert!(!passes(&v, &num(1)));

    let v = ArrayValidator::new()
        .prefix_add(IntValidator::new().build())
        .items(StrValidator::new().build())
        .build();
    assert!(passes(&v, &arr(vec![num(1), Value::Str(s("a")), Value::Str(s("b"))])));
    assert!(!passes(&v, &arr(vec![Value::Str(s("a"))])));
    assert!(!passes(&v, &arr(vec![num(1), num(2)])));
    assert!(passes(&v, &arr(vec![])));

    let v = ArrayValidator::new().unique(true).build();
    assert!(passes(&v, &arr(vec![num(1), num(2), num(3)])));
    assert!(!passes(&v, &arr(vec![num(1), num(2), num(1)])));
    assert!(passes(&v, &arr(vec![num(1)])));

    let v = ArrayValidator::new()
        .contains_add(IntValidator::new().min(Integer::from_u64(10)).build())
        .contains_add(Validator::Null)
        .build();
    assert!(passes(&v, &arr(vec![num(1), Value::Null, num(11)])));
    assert!(!passes(&v, &arr(vec![num(1), Value::Null])));
    assert!(!passes(&v, &arr(vec![num(11)])));

    let v = ArrayValidator::new().in_add(vec![num(1), num(2)]).nin_add(vec![num(3)]).build();
    assert!(passes(&v, &arr(vec![num(1), num(2)])));
    assert!(!passes(&v, &arr(vec![num(2), num(1)])));
    let v = ArrayValidator::new().nin_add(vec![num(3)]).build();
    assert!(!passes(&v, &arr(vec![num(3)])));
    assert!(passes(&v, &arr(vec![num(4)])));

    let v = ArrayValidator::new().same_len_add(0).same_len_add(2).same_len_add(0).build();
    let two = || arr(vec![num(1), num(2)]);
    assert!(passes(&v, &arr(vec![two(), num(0), two()])));
    assert!(!passes(&v, &arr(vec![two(), num(0), arr(vec![num(1)])])));
    assert!(passes(&v, &arr(vec![Value::Null, num(0), Value::Null])));
    assert!(passes(&v, &arr(vec![Value::Null])));
    assert!(!passes(&v, &arr(vec![two(), num(0), Value::Null])));
    assert!(!passes(&v, &arr(vec![Value::Null, num(0), two()])));
    assert!(!passes(&v, &arr(vec![two()])));
    assert!(!passes(&v, &arr(vec![num(0)])));
}

#[test]
fn array_queries() {
    let types = Types::new();
    let schema = ArrayValidator::new().items(IntValidator::new().query(true).build());
    let plain = ArrayValidator::new().build();
    assert!(schema.query_check(&types, &plain, 100));
    let sized = ArrayValidator::new().max_len(3).build();
    assert!(!schema.query_check(&types, &sized, 100));
    let schema = schema.size(true).array(true).contains_ok(true);
    assert!(schema.query_check(&types, &sized, 100));
    let items = ArrayValidator::new().items(IntValidator::new().in_add(Integer::from_u64(1)).build()).build();
    assert!(schema.query_check(&types, &items, 100));
    let wrong = ArrayValidator::new().items(StrValidator::new().build()).build();
    assert!(!schema.query_check(&types, &wrong, 100));
    let contains = ArrayValidator::new().contains_add(IntValidator::new().build()).build();
    assert!(schema.query_check(&types, &contains, 100));
    let contains = ArrayValidator::new().contains_add(Validator::Null).build();
    assert!(!schema.query_check(&types, &contains, 100));
    let unique = ArrayValidator::new().unique(true).build();
    assert!(!schema.query_check(&types, &unique, 100));
    assert!(schema.query_check(&types, &Validator::Any, 100));
    assert!(!schema.query_check(&types, &Validator::Null, 100));
    assert!(!schema.query_check(&types, &plain, 0) || schema.query_check(&types, &plain, 0));
}

#[test]
fn obj_enum_multi_and_ref() {
    let obj = ObjValidator::new()
        .req_add("a", IntValidator::new().build())
        .opt_add("b", BoolValidator::new().build())
        .build();
    let with = |pairs: Vec<(String, Value)>| Value::obj(pairs);
    assert!(passes(&obj, &with(vec![(s("a"), num(1))])));
    assert!(passes(&obj, &with(vec![(s("a"), num(1)), (s("b"), Value::Bool(false))])));
    assert!(!passes(&obj, &with(vec![(s("b"), Value::Bool(false))])));
    assert!(!passes(&obj, &with(vec![(s("a"), num(1)), (s("c"), Value::Null)])));
    assert!(!passes(&obj, &with(vec![(s("a"), Value::Null)])));
    let open = ObjValidator::new().unknown_ok(true).max_len(1).build();
    assert!(passes(&open, &with(vec![(s("c"), Value::Null)])));
    assert!(!passes(&open, &with(vec![(s("c"), Value::Null), (s("d"), Value::Null)])));
    let valued = ObjValidator::new()
        .values(IntValidator::new().build())
        .keys(StrValidator::new().max_len(1))
        .build();
    assert!(passes(&valued, &with(vec![(s("x"), num(1)), (s("y"), num(2))])));
    assert!(!passes(&valued, &with(vec![(s("xy"), num(1))])));
    assert!(!passes(&valued, &with(vec![(s("x"), Value::Null)])));

    let e = EnumValidator::new().insert("Unit", None).insert("Data", Some(IntValidator::new().build())).build();
    assert!(passes(&e, &Value::Str(s("Unit"))));
    assert!(passes(&e, &with(vec![(s("Data"), num(5))])));
    assert!(!passes(&e, &Value::Str(s("Data"))));
    assert!(!passes(&e, &with(vec![(s("Unit"), Value::Null)])));
    assert!(!passes(&e, &with(vec![(s("Data"), Value::Null)])));
    assert!(!passes(&e, &Value::Str(s("Other"))));
    assert!(!passes(&e, &num(1)));

    let multi = Validator::Multi(vec![Validator::Null, IntValidator::new().build()]);
    assert!(passes(&multi, &Value::Null));
    assert!(passes(&multi, &num(3)));
    assert!(!passes(&multi, &Value::Bool(true)));

    // A list is nothing or a pair of an integer and a list.
    let mut types = Types::new();
    types.insert(
        "list",
        Validator::Multi(vec![
            Validator::Null,
            ArrayValidator::new()
                .prefix_add(IntValidator::new().build())
                .prefix_add(Validator::Ref(s("list")))
                .min_len(2)
                .max_len(2)
                .build(),
        ]),
    );
    let list = Value::Array(vec![num(1), Value::Array(vec![num(2), Value::Null])]);
    let bytes = encode(&list).unwrap();
    let by_name = Validator::Ref(s("list"));
    assert!(by_name.validate(&types, Parser::new(&bytes[..]), None).is_ok());
    let bytes = encode(&Value::Array(vec![num(1), num(2)])).unwrap();
    assert!(by_name.validate(&types, Parser::new(&bytes[..]), None).is_err());
    assert!(Validator::Ref(s("missing")).validate(&types, Parser::new(&bytes[..]), None).is_err());
    // A name that leads back to itself at the same value asks nothing more.
    let mut types = Types::new();
    types.insert("loop", Validator::Ref(s("loop")));
    assert!(Validator::Ref(s("loop")).validate(&types, Parser::new(&bytes[..]), None).is_ok());
}

#[test]
fn hashes_go_on_the_checklist() {
    let wanted = hash::Hash::new(1, b"schema").unwrap();
    let found = hash::Hash::new(1, b"document").unwrap();
    let v = ArrayValidator::new()
        .items(Validator::Multi(vec![
            HashValidator::new().schema_add(wanted.clone()).build(),
            Validator::Null,
        ]))
        .build();
    let value = Value::Array(vec![Value::Null, Value::Hash(found.clone()), Value::Null]);
    let bytes = encode(&value).unwrap();
    let (_, list) = v
        .validate(&Types::new(), Parser::new(&bytes[..]), Some(Checklist::new()))
        .unwrap();
    let list = list.unwrap();
    assert_eq!(list.len(), 1);
    assert_eq!(list.get(0).hash, found);
    assert_eq!(list.get(0).schema, vec![wanted]);
    let (_, none) = v.validate(&Types::new(), Parser::new(&bytes[..]), None).unwrap();
    assert!(none.is_none());
}

#[test]
fn the_checklist_holds_what_was_met_in_the_order_it_was_met() {
    let first = hash::Hash::new(1, b"first schema").unwrap();
    let second = hash::Hash::new(1, b"second schema").unwrap();
    let a = hash::Hash::new(1, b"a").unwrap();
    let b = hash::Hash::new(1, b"b").unwrap();
    // Each hash is met once by `contains`, at the first item only, and once by `items`.
    let v = ArrayValidator::new()
        .contains_add(HashValidator::new().schema_add(first.clone()).build())
        .items(HashValidator::new().schema_add(second.clone()).build())
        .build();
    let value = Value::Array(vec![Value::Hash(a.clone()), Value::Hash(b.clone())]);
    let bytes = encode(&value).unwrap();
    let (_, list) = v
        .validate(&Types::new(), Parser::new(&bytes[..]), Some(Checklist::new()))
        .unwrap();
    let list = list.unwrap();
    assert_eq!(list.len(), 3);
    assert_eq!(list.get(0).hash, a);
    assert_eq!(list.get(0).schema, vec![first.clone()]);
    assert_eq!(list.get(1).hash, a);
    assert_eq!(list.get(1).schema, vec![second.clone()]);
    assert_eq!(list.get(2).hash, b);
    assert_eq!(list.get(2).schema, vec![second.clone()]);
    // An object leaves what its values leave, pair by pair; a hash validator that asks for
    // no schema leaves nothing.
    let v = ObjValidator::new()
        .req_add("x", HashValidator::new().schema_add(first.clone()).build())
        .opt_add("y", HashValidator::new().build())
        .values(HashValidator::new().schema_add(second.clone()).build())
        .build();
    let value = Value::obj(vec![
        (s("x"), Value::Hash(a.clone())),
        (s("y"), Value::Hash(b.clone())),
        (s("z"), Value::Hash(b.clone())),
    ]);
    let bytes = encode(&value).unwrap();
    let (_, list) = v
        .validate(&Types::new(), Parser::new(&bytes[..]), Some(Checklist::new()))
        .unwrap();
    let list = list.unwrap();
    assert_eq!(list.len(), 2);
    assert_eq!(list.get(0).hash, a);
    assert_eq!(list.get(0).schema, vec![first.clone()]);
    assert_eq!(list.get(1).hash, b);
    assert_eq!(list.get(1).schema, vec![second.clone()]);
    // A branch of a choice that fails leaves nothing behind.
    let v = Validator::Multi(vec![
        ArrayValidator::new()
            .items(HashValidator::new().schema_add(first.clone()).build())
            .max_len(1)
            .build(),
        ArrayValidator::new()
            .items(HashValidator::new().schema_add(second.clone()).build())
            .build(),
    ]);
    let value = Value::Array(vec![Value::Hash(a.clone()), Value::Hash(b.clone())]);
    let bytes = encode(&value).unwrap();
    let (_, list) = v
        .validate(&Types::new(), Parser::new(&bytes[..]), Some(Checklist::new()))
        .unwrap();
    let list = list.unwrap();
    assert_eq!(list.len(), 2);
    assert_eq!(list.get(0).schema, vec![second.clone()]);
    assert_eq!(list.get(1).schema, vec![second]);
}

#[test]
fn validation_says_what_is_wrong_with_bytes_that_hold_no_value() {
    let v = ArrayValidator::new().items(IntValidator::new().build()).build();
    // An array of two items of which the second is missing.
    let bytes = [0x92u8, 0x01];
    assert_eq!(
        v.validate(&Types::new(), Parser::new(&bytes[..]), None).err(),
        Some(Error::Truncated)
    );
    // An array whose second item is no integer.
    let bytes = [0x92u8, 0x01, 0xc0];
    assert_eq!(
        v.validate(&Types::new(), Parser::new(&bytes[..]), None).err(),
        Some(Error::FailValidate(Reason::Kind))
    );
    // An object whose keys do not ascend.
    let v = ObjValidator::new().values(Validator::Any).build();
    let bytes = [0x82u8, 0xa1, b'b', 0x01, 0xa1, b'a', 0x02];
    assert_eq!(
        v.validate(&Types::new(), Parser::new(&bytes[..]), None).err(),
        Some(Error::KeyOrder)
    );
    let bytes = [0x82u8, 0xa1, b'a', 0x01, 0xa1, b'a', 0x02];
    assert_eq!(
        v.validate(&Types::new(), Parser::new(&bytes[..]), None).err(),
        Some(Error::DuplicateKey)
    );
}

#[test]
fn what_a_validator_refuses_its_refinements_refuse() {
    // Each pair is a validator and one that asks more of the same values.
    let pairs = vec![
        (
            StrValidator::new().max_len(5).build(),
            StrValidator::new().max_len(3).min_len(1).nin_add("ab").build(),
        ),
        (
            IntValidator::new().min(Integer::from_i64(0)).max(Integer::from_i64(10)).build(),
            IntValidator::new().min(Integer::from_i64(0)).ex_min(true).max(Integer::from_i64(4)).build(),
        ),
        (
            ArrayValidator::new().items(StrValidator::new().max_len(5).build()).max_len(3).build(),
            ArrayValidator::new()
                .items(StrValidator::new().max_len(3).build())
                .max_len(2)
                .unique(true)
                .build(),
        ),
        (
            ObjValidator::new().req_add("a", IntValidator::new().build()).unknown_ok(true).build(),
            ObjValidator::new()
                .req_add("a", IntValidator::new().max(Integer::from_i64(4)).build())
                .build(),
        ),
        (
            Validator::Multi(vec![Validator::Null, StrValidator::new().build(), BoolValidator::new().build()]),
            Validator::Multi(vec![StrValidator::new().max_len(1).build(), Validator::Null]),
        ),
        (Validator::Any, BoolValidator::new().build()),
    ];
    let values = vec![
        Value::Null,
        Value::Bool(true),
        num(0),
        num(3),
        num(7),
        num(-1),
        Value::Str(s("")),
        Value::Str(s("ab")),
        Value::Str(s("abcd")),
        Value::Str(s("abcdefg")),
        Value::Array(vec![]),
        Value::Array(vec![Value::Str(s("a")), Value::Str(s("a"))]),
        Value::Array(vec![Value::Str(s("a")), Value::Str(s("abcd"))]),
        Value::Array(vec![Value::Str(s("a")), Value::Str(s("b")), Value::Str(s("c"))]),
        Value::Array(vec![num(1)]),
        Value::obj(vec![(s("a"), num(3))]),
        Value::obj(vec![(s("a"), num(7))]),
        Value::obj(vec![(s("a"), num(3)), (s("b"), Value::Null)]),
        Value::obj(vec![(s("b"), num(3))]),
    ];
    let mut narrowed = 0;
    for (base, refinement) in pairs.iter() {
        for value in values.iter() {
            if passes(refinement, value) {
                assert!(passes(base, value));
            } else if passes(base, value) {
                narrowed += 1;
            }
        }
    }
    // The refinements do ask more: each refuses something that its base passes.
    assert!(narrowed >= pairs.len());
}

#[test]
fn a_schema_takes_the_validator_given_last_for_a_field() {
    let doc = SchemaBuilder::new(Validator::Any)
        .entry_add("post", Validator::Null, None)
        .entry_add("post", IntValidator::new().build(), Some(3))
        .build()
        .unwrap();
    let schema = Schema::from_doc(&doc).unwrap();
    let ok = Entry::new(doc.hash().clone(), s("post"), num(1)).unwrap();
    assert!(schema.validate_entry(&ok).is_ok());
    let refused = Entry::new(doc.hash().clone(), s("post"), Value::Null).unwrap();
    assert_eq!(schema.validate_entry(&refused).err(), Some(Error::FailValidate(Reason::Kind)));
    let unknown = Entry::new(doc.hash().clone(), s("other"), num(1)).unwrap();
    assert_eq!(
        schema.validate_entry(&unknown).err(),
        Some(Error::FailValidate(Reason::UnknownKey))
    );
}

#[test]
fn every_reason_for_refusing_a_value_is_given() {
    let why = |validator: &Validator, value: &Value| {
        let bytes = encode(value).unwrap();
        match validator.validate(&Types::new(), Parser::new(&bytes[..]), None) {
            Ok(_) => None,
            Err(Error::FailValidate(reason)) => Some(reason),
            Err(other) => panic!("{:?}", other),
        }
    };
    let text = |t: &str| Value::Str(s(t));
    let int = IntValidator::new()
        .min(Integer::from_i64(0))
        .max(Integer::from_i64(9))
        .nin_add(Integer::from_i64(5))
        .build();
    assert_eq!(why(&int, &num(10)), Some(Reason::AboveMax));
    assert_eq!(why(&int, &num(-1)), Some(Reason::BelowMin));
    assert_eq!(why(&int, &num(5)), Some(Reason::Forbidden));
    assert_eq!(why(&int, &Value::Null), Some(Reason::Kind));
    assert_eq!(why(&int, &num(4)), None);
    let listed = IntValidator::new().in_add(Integer::from_i64(1)).build();
    assert_eq!(why(&listed, &num(2)), Some(Reason::NotListed));
    let string = StrValidator::new().min_len(2).max_len(3).nin_add("no").in_add("yes").in_add("no").build();
    assert_eq!(why(&string, &text("long")), Some(Reason::TooLong));
    assert_eq!(why(&string, &text("s")), Some(Reason::TooShort));
    assert_eq!(why(&string, &text("abc")), Some(Reason::NotListed));
    assert_eq!(why(&string, &text("no")), Some(Reason::Forbidden));
    assert_eq!(why(&string, &text("yes")), None);
    let array = ArrayValidator::new()
        .min_len(1)
        .max_len(3)
        .unique(true)
        .contains_add(Validator::Null)
        .same_len_add(0)
        .same_len_add(1)
        .build();
    assert_eq!(why(&array, &Value::Array(vec![])), Some(Reason::TooShort));
    assert_eq!(why(&array, &Value::Array(vec![Value::Null; 4])), Some(Reason::TooLong));
    assert_eq!(why(&array, &Value::Array(vec![Value::Null, Value::Null])), Some(Reason::NotUnique));
    assert_eq!(why(&array, &Value::Array(vec![num(1), num(2)])), Some(Reason::LengthsDiffer));
    assert_eq!(
        why(&array, &Value::Array(vec![Value::Array(vec![]), Value::Array(vec![num(1)])])),
        Some(Reason::LengthsDiffer)
    );
    assert_eq!(
        why(&array, &Value::Array(vec![Value::Array(vec![num(2)]), Value::Array(vec![num(1)])])),
        Some(Reason::NotContained)
    );
    assert_eq!(why(&array, &Value::Null), Some(Reason::Kind));
    let obj = ObjValidator::new()
        .req_add("a", Validator::Null)
        .keys(StrValidator::new().max_len(1))
        .max_len(2)
        .build();
    assert_eq!(why(&obj, &Value::obj(vec![])), Some(Reason::MissingKey));
    assert_eq!(why(&obj, &Value::obj(vec![(s("a"), Value::Null), (s("b"), Value::Null)])), Some(Reason::UnknownKey));
    assert_eq!(why(&obj, &Value::obj(vec![(s("a"), Value::Null), (s("bc"), Value::Null)])), Some(Reason::BadKey));
    assert_eq!(why(&obj, &Value::obj(vec![(s("a"), num(1))])), Some(Reason::Kind));
    assert_eq!(
        why(
            &obj,
            &Value::obj(vec![(s("a"), Value::Null), (s("b"), Value::Null), (s("c"), Value::Null)])
        ),
        Some(Reason::TooLong)
    );
    let e = EnumValidator::new().insert("Unit", None).insert("Data", Some(Validator::Null)).build();
    assert_eq!(why(&e, &text("Other")), Some(Reason::Variant));
    assert_eq!(why(&e, &text("Data")), Some(Reason::Variant));
    assert_eq!(why(&e, &Value::obj(vec![(s("Unit"), Value::Null)])), Some(Reason::Variant));
    assert_eq!(why(&e, &num(1)), Some(Reason::Kind));
    assert_eq!(why(&Validator::Multi(vec![Validator::Null, BoolValidator::new().build()]), &num(1)), Some(Reason::NoBranch));
    assert_eq!(why(&Validator::Ref(s("missing")), &num(1)), Some(Reason::NoType));
}

#[test]
fn booleans_bytes_identities_and_lockboxes_pass_as_configured() {
    let why = |validator: &Validator, value: &Value| {
        let bytes = encode(value).unwrap();
        match validator.validate(&Types::new(), Parser::new(&bytes[..]), None) {
            Ok(_) => None,
            Err(Error::FailValidate(reason)) => Some(reason),
            Err(other) => panic!("{:?}", other),
        }
    };
    let yes = BoolValidator::new().in_add(true).build();
    assert_eq!(why(&yes, &Value::Bool(true)), None);
    assert_eq!(why(&yes, &Value::Bool(false)), Some(Reason::NotListed));
    assert_eq!(why(&yes, &Value::Null), Some(Reason::Kind));
    let no = BoolValidator::new().nin_add(true).build();
    assert_eq!(why(&no, &Value::Bool(true)), Some(Reason::Forbidden));
    assert_eq!(why(&no, &Value::Bool(false)), None);

    let bin = BinValidator::new().min_len(1).max_len(3).nin_add(vec![0]).build();
    assert_eq!(why(&bin, &Value::Bin(vec![1, 2, 3])), None);
    assert_eq!(why(&bin, &Value::Bin(vec![])), Some(Reason::TooShort));
    assert_eq!(why(&bin, &Value::Bin(vec![1, 2, 3, 4])), Some(Reason::TooLong));
    assert_eq!(why(&bin, &Value::Bin(vec![0])), Some(Reason::Forbidden));
    assert_eq!(why(&bin, &Value::Str(s("a"))), Some(Reason::Kind));
    let listed = BinValidator::new().in_add(vec![9, 9]).build();
    assert_eq!(why(&listed, &Value::Bin(vec![9, 9])), None);
    assert_eq!(why(&listed, &Value::Bin(vec![9])), Some(Reason::NotListed));

    let alice = Identity::from_public([1u8; 32]);
    let bob = Identity::from_public([2u8; 32]);
    let id = IdentityValidator::new().in_add(alice.clone()).build();
    assert_eq!(why(&id, &Value::Identity(alice.clone())), None);
    assert_eq!(why(&id, &Value::Identity(bob.clone())), Some(Reason::NotListed));
    let id = IdentityValidator::new().nin_add(alice.clone()).build();
    assert_eq!(why(&id, &Value::Identity(alice)), Some(Reason::Forbidden));
    assert_eq!(why(&id, &Value::Identity(bob)), None);
    assert_eq!(why(&id, &Value::Null), Some(Reason::Kind));

    let lock = LockboxValidator::new().min_len(2).max_len(4).build();
    let boxed = |n: usize| Value::Lockbox(Lockbox::from_vec(vec![5u8; n]));
    assert_eq!(why(&lock, &boxed(1)), Some(Reason::TooShort));
    assert_eq!(why(&lock, &boxed(2)), None);
    assert_eq!(why(&lock, &boxed(4)), None);
    assert_eq!(why(&lock, &boxed(5)), Some(Reason::TooLong));
    assert_eq!(why(&lock, &Value::Bin(vec![5, 5])), Some(Reason::Kind));
}

#[test]
fn queries_on_booleans_bytes_identities_and_lockboxes_need_permission() {
    let types = Types::new();
    let closed = BoolValidator::new().build();
    let open = BoolValidator::new().query(true).build();
    let asks = BoolValidator::new().in_add(true).build();
    assert!(closed.query_check(&types, &BoolValidator::new().build()));
    assert!(!closed.query_check(&types, &asks));
    assert!(open.query_check(&types, &asks));
    assert!(!open.query_check(&types, &Validator::Null));
    assert!(open.query_check(&types, &Validator::Any));

    let sized = BinValidator::new().size(true).build();
    let listed = BinValidator::new().query(true).build();
    let by_len = BinValidator::new().max_len(4).build();
    let by_list = BinValidator::new().nin_add(vec![1]).build();
    assert!(sized.query_check(&types, &by_len));
    assert!(!sized.query_check(&types, &by_list));
    assert!(listed.query_check(&types, &by_list));
    assert!(!listed.query_check(&types, &by_len));
    assert!(listed.query_check(&types, &Validator::Multi(vec![by_list, BinValidator::new().build()])));

    let id_open = IdentityValidator::new().query(true).build();
    let id_closed = IdentityValidator::new().build();
    let id_asks = IdentityValidator::new().in_add(Identity::from_public([1u8; 32])).build();
    assert!(id_open.query_check(&types, &id_asks));
    assert!(!id_closed.query_check(&types, &id_asks));

    let lock_open = LockboxValidator::new().size(true).build();
    let lock_closed = LockboxValidator::new().build();
    let lock_asks = LockboxValidator::new().min_len(1).build();
    assert!(lock_open.query_check(&types, &lock_asks));
    assert!(!lock_closed.query_check(&types, &lock_asks));
    assert!(lock_closed.query_check(&types, &LockboxValidator::new().build()));
}

#[test]
fn validators_are_written_and_read_back() {
    let all = vec![
        Validator::Null,
        Validator::Any,
        BoolValidator::new().build(),
        Validator::F32,
        Validator::F64,
        BinValidator::new().in_add(vec![1, 2]).nin_add(vec![]).min_len(1).max_len(8).query(true).size(true).build(),
        IdentityValidator::new().comment("who").nin_add(Identity::from_public([7u8; 32])).query(true).build(),
        LockboxValidator::new().max_len(64).size(true).build(),
        BoolValidator::new().in_add(true).query(true).build(),
        Validator::Ref(s("name")),
        IntValidator::new()
            .comment("c")
            .min(Integer::from_i64(-5))
            .max(Integer::from_u64(5))
            .ex_min(true)
            .nin_add(Integer::from_u64(0))
            .ord(true)
            .build(),
        StrValidator::new().in_add("a").nin_add("b").min_len(1).max_len(9).size(true).query(true).build(),
        HashValidator::new().schema_add(hash::Hash::new_empty()).schema_ok(true).build(),
        ArrayValidator::new()
            .comment("array")
            .contains_add(Validator::Null)
            .items(IntValidator::new().build())
            .prefix_add(BoolValidator::new().build())
            .in_add(vec![Value::Null])
            .nin_add(vec![Value::Bool(true), Value::Null])
            .same_len_add(3)
            .unique(true)
            .extensible(true)
            .query(true)
            .array(true)
            .contains_ok(true)
            .unique_ok(true)
            .size(true)
            .same_len_ok(true)
            .min_len(1)
            .max_len(7)
            .build(),
        ObjValidator::new()
            .req_add("r", Validator::Null)
            .opt_add("o", Validator::Any)
            .keys(StrValidator::new().max_len(4))
            .values(BoolValidator::new().build())
            .unknown_ok(true)
            .min_len(1)
            .size(true)
            .obj_ok(true)
            .build(),
        EnumValidator::new().comment("e").extensible(true).insert("B", None).insert("A", Some(Validator::Any)).build(),
        Validator::Multi(vec![Validator::Null, TimeValidator::new().build()]),
    ];
    for validator in all {
        let bytes = encode(&validator.to_value().unwrap()).unwrap();
        let back = Validator::from_value(&decode(&bytes[..]).unwrap()).unwrap();
        assert_eq!(validator, back);
    }
    assert_eq!(encode(&Validator::Null.to_value().unwrap()).unwrap(), vec![0xa4, b'N', b'u', b'l', b'l']);
    let unknown = Value::obj(vec![(s("unknown"), Value::Bool(true))]);
    assert_eq!(TimeValidator::from_value(&unknown).err(), Some(Error::BadValidator));
    let wrong = Value::obj(vec![(s("query"), Value::Null)]);
    assert_eq!(TimeValidator::from_value(&wrong).err(), Some(Error::BadValidator));
    assert_eq!(Validator::from_value(&Value::Str(s("Nothing"))).err(), Some(Error::BadValidator));
    let variants = EnumValidator::new().insert("b", None).insert("a", None).insert("b", Some(Validator::Any));
    assert_eq!(variants.iter().len(), 2);
    assert_eq!(variants.iter()[0].0, "a");
    assert_eq!(variants.values(), vec![&None, &Some(Validator::Any)]);
}

#[test]
fn names_stand_in_ascending_order_and_once() {
    // Variants come out in the order of their names, however they were put in.
    let e = EnumValidator::new().insert("b", None).insert("a", None).insert("b", Some(Validator::Null));
    let names: Vec<&str> = e.iter().iter().map(|(name, _)| name.as_str()).collect();
    assert_eq!(names, vec!["a", "b"]);
    assert!(e.iter()[1].1.is_some());
    // So do the types of a table.
    let mut types = Types::new();
    types.insert("z", Validator::Null);
    types.insert("y", Validator::Any);
    types.insert("z", Validator::F32);
    assert_eq!(types.len(), 2);
    assert_eq!(types.find("y"), Some(0));
    assert_eq!(types.find("z"), Some(1));
    assert_eq!(types.find("x"), None);
    assert!(types.get(1) == &Validator::F32);
    // The positions of `same_len` stand once each.
    let a = ArrayValidator::new().same_len_add(3).same_len_add(1).same_len_add(3);
    assert_eq!(a.same_len.list(), &vec![3usize, 1]);
    // An object of validators whose names do not ascend is no validator.
    let unsorted = Value::Obj(vec![(
        s("Map"),
        Value::Obj(vec![(
            s("req"),
            Value::Obj(vec![(s("b"), Value::Str(s("Null"))), (s("a"), Value::Str(s("Null")))]),
        )]),
    )]);
    assert_eq!(Validator::from_value(&unsorted).err(), Some(Error::BadValidator));
    let sorted = Value::Obj(vec![(
        s("Map"),
        Value::Obj(vec![(
            s("req"),
            Value::Obj(vec![(s("a"), Value::Str(s("Null"))), (s("b"), Value::Str(s("Null")))]),
        )]),
    )]);
    let read = Validator::from_value(&sorted).unwrap();
    assert!(read == ObjValidator::new().req_add("b", Validator::Null).req_add("a", Validator::Null).build());
    // A default array validator is written as the empty object and read back.
    let written = ArrayValidator::new().to_value().unwrap();
    assert_eq!(encode(&written).unwrap(), vec![0x80]);
    assert!(ArrayValidator::from_value(&written).unwrap() == ArrayValidator::new());
}
