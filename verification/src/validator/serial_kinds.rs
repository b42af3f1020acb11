//! The validators for booleans, byte strings, identities and lockboxes as values.

use vstd::prelude::*;
use vstd::string::StringSliceAdditionalSpecFns;
use vstd::utf8::encode_utf8;
use crate::assoc::names_ascending;
use crate::crypto::key::Identity;
use crate::error::Error;
use crate::fields::{field_map, lemma_field_map_empty};
use crate::integer::Integer;
use crate::validator::binary::BinValidator;
use crate::validator::boolean::BoolValidator;
use crate::validator::identity::IdentityValidator;
use crate::validator::lockbox::LockboxValidator;
use crate::validator::serial::{
    flag_of, is_name, items_of, lemma_names_differ, name_key, number_of, put_flag, put_items,
    put_number, put_text, read_flag, read_items, read_text, read_u32, text_of, with_flag,
    with_items, with_number, with_text,
};
use crate::value::{items_view, Value, ValueView};

verus! {

/// A copy of the bytes.
fn copy_bytes(b: &Vec<u8>) -> (v: Vec<u8>)
    ensures
        v@ == b@,
{
    let mut v: Vec<u8> = Vec::new();
    v.extend_from_slice(b.as_slice());
    v
}

/// The booleans as values.
pub open spec fn bools_view(list: Seq<bool>) -> Seq<ValueView> {
    Seq::new(list.len(), |i: int| ValueView::Bool(list[i]))
}

pub(crate) fn bools_values(list: &Vec<bool>) -> (r: Vec<Value>)
    ensures
        items_view(r@) == bools_view(list@),
{
    let mut r: Vec<Value> = Vec::new();
    let mut i: usize = 0;
    while i < list.len()
        invariant
            0 <= i <= list.len(),
            r@.len() == i,
            forall|j: int| 0 <= j < i ==> r@[j]@ == ValueView::Bool(list@[j]),
        decreases list.len() - i,
    {
        r.push(Value::Bool(list[i]));
        i += 1;
    }
    assert(items_view(r@) =~= bools_view(list@));
    r
}

/// Whether every item is a boolean.
pub open spec fn all_bools(items: Seq<ValueView>) -> bool {
    forall|i: int| 0 <= i < items.len() ==> (#[trigger] items[i]) is Bool
}

pub(crate) fn read_bools(e: &Vec<(String, Value)>, key: &str) -> (r: Result<Vec<bool>, Error>)
    ensures
        match items_of(field_map(e@), key.spec_bytes()) {
            Some(items) => if all_bools(items) {
                r is Ok && bools_view(r->Ok_0@) == items
            } else {
                r is Err && r->Err_0 == Error::BadValidator
            },
            None => r is Err && r->Err_0 == Error::BadValidator,
        },
{
    let mut out: Vec<bool> = Vec::new();
    match read_items(e, key)? {
        None => {
            assert(bools_view(out@) =~= Seq::<ValueView>::empty());
        },
        Some(list) => {
            let ghost items = items_view(list@);
            let mut i: usize = 0;
            while i < list.len()
                invariant
                    0 <= i <= list.len(),
                    items == items_view(list@),
                    items_of(field_map(e@), key.spec_bytes()) == Some(items),
                    out@.len() == i,
                    forall|j: int| 0 <= j < i ==> bools_view(out@)[j] == #[trigger] items[j],
                decreases list.len() - i,
            {
                assert(items[i as int] == list@[i as int]@);
                match &list[i] {
                    Value::Bool(t) => {
                        let ghost before = out@;
                        out.push(*t);
                        assert forall|j: int| 0 <= j < i + 1 implies bools_view(out@)[j] == #[trigger] items[j] by {
                            if j < i {
                                assert(bools_view(before)[j] == items[j]);
                            }
                        }
                    },
                    _ => {
                        assert(!(items[i as int] is Bool));
                        return Err(Error::BadValidator);
                    },
                }
                i += 1;
            }
            assert(bools_view(out@) =~= items);
        },
    }
    Ok(out)
}

/// The byte strings as values.
pub open spec fn bins_view(list: Seq<Vec<u8>>) -> Seq<ValueView> {
    Seq::new(list.len(), |i: int| ValueView::Bin(list[i]@))
}

pub(crate) fn bins_values(list: &Vec<Vec<u8>>) -> (r: Vec<Value>)
    ensures
        items_view(r@) == bins_view(list@),
{
    let mut r: Vec<Value> = Vec::new();
    let mut i: usize = 0;
    while i < list.len()
        invariant
            0 <= i <= list.len(),
            r@.len() == i,
            forall|j: int| 0 <= j < i ==> r@[j]@ == ValueView::Bin(list@[j]@),
        decreases list.len() - i,
    {
        r.push(Value::Bin(copy_bytes(&list[i])));
        i += 1;
    }
    assert(items_view(r@) =~= bins_view(list@));
    r
}

/// Whether every item is a byte string.
pub open spec fn all_bins(items: Seq<ValueView>) -> bool {
    forall|i: int| 0 <= i < items.len() ==> (#[trigger] items[i]) is Bin
}

pub(crate) fn read_bins(e: &Vec<(String, Value)>, key: &str) -> (r: Result<Vec<Vec<u8>>, Error>)
    ensures
        match items_of(field_map(e@), key.spec_bytes()) {
            Some(items) => if all_bins(items) {
                r is Ok && bins_view(r->Ok_0@) == items
            } else {
                r is Err && r->Err_0 == Error::BadValidator
            },
            None => r is Err && r->Err_0 == Error::BadValidator,
        },
{
    let mut out: Vec<Vec<u8>> = Vec::new();
    match read_items(e, key)? {
        None => {
            assert(bins_view(out@) =~= Seq::<ValueView>::empty());
        },
        Some(list) => {
            let ghost items = items_view(list@);
            let mut i: usize = 0;
            while i < list.len()
                invariant
                    0 <= i <= list.len(),
                    items == items_view(list@),
                    items_of(field_map(e@), key.spec_bytes()) == Some(items),
                    out@.len() == i,
                    forall|j: int| 0 <= j < i ==> bins_view(out@)[j] == #[trigger] items[j],
                decreases list.len() - i,
            {
                assert(items[i as int] == list@[i as int]@);
                match &list[i] {
                    Value::Bin(t) => {
                        let ghost before = out@;
                        out.push(copy_bytes(t));
                        assert forall|j: int| 0 <= j < i + 1 implies bins_view(out@)[j] == #[trigger] items[j] by {
                            if j < i {
                                assert(bins_view(before)[j] == items[j]);
                            }
                        }
                    },
                    _ => {
                        assert(!(items[i as int] is Bin));
                        return Err(Error::BadValidator);
                    },
                }
                i += 1;
            }
            assert(bins_view(out@) =~= items);
        },
    }
    Ok(out)
}

/// The identities as values.
pub open spec fn ids_view(list: Seq<Identity>) -> Seq<ValueView> {
    Seq::new(list.len(), |i: int| ValueView::Identity(list[i]@))
}

pub(crate) fn ids_values(list: &Vec<Identity>) -> (r: Vec<Value>)
    ensures
        items_view(r@) == ids_view(list@),
{
    let mut r: Vec<Value> = Vec::new();
    let mut i: usize = 0;
    while i < list.len()
        invariant
            0 <= i <= list.len(),
            r@.len() == i,
            forall|j: int| 0 <= j < i ==> r@[j]@ == ValueView::Identity(list@[j]@),
        decreases list.len() - i,
    {
        r.push(Value::Identity(list[i].clone()));
        i += 1;
    }
    assert(items_view(r@) =~= ids_view(list@));
    r
}

/// Whether every item is an identity.
pub open spec fn all_ids(items: Seq<ValueView>) -> bool {
    forall|i: int| 0 <= i < items.len() ==> (#[trigger] items[i]) is Identity
}

pub(crate) fn read_ids(e: &Vec<(String, Value)>, key: &str) -> (r: Result<Vec<Identity>, Error>)
    ensures
        match items_of(field_map(e@), key.spec_bytes()) {
            Some(items) => if all_ids(items) {
                r is Ok && ids_view(r->Ok_0@) == items
            } else {
                r is Err && r->Err_0 == Error::BadValidator
            },
            None => r is Err && r->Err_0 == Error::BadValidator,
        },
{
    let mut out: Vec<Identity> = Vec::new();
    match read_items(e, key)? {
        None => {
            assert(ids_view(out@) =~= Seq::<ValueView>::empty());
        },
        Some(list) => {
            let ghost items = items_view(list@);
            let mut i: usize = 0;
            while i < list.len()
                invariant
                    0 <= i <= list.len(),
                    items == items_view(list@),
                    items_of(field_map(e@), key.spec_bytes()) == Some(items),
                    out@.len() == i,
                    forall|j: int| 0 <= j < i ==> ids_view(out@)[j] == #[trigger] items[j],
                decreases list.len() - i,
            {
                assert(items[i as int] == list@[i as int]@);
                match &list[i] {
                    Value::Identity(t) => {
                        let ghost before = out@;
                        out.push(t.clone());
                        assert forall|j: int| 0 <= j < i + 1 implies ids_view(out@)[j] == #[trigger] items[j] by {
                            if j < i {
                                assert(ids_view(before)[j] == items[j]);
                            }
                        }
                    },
                    _ => {
                        assert(!(items[i as int] is Identity));
                        return Err(Error::BadValidator);
                    },
                }
                i += 1;
            }
            assert(ids_view(out@) =~= items);
        },
    }
    Ok(out)
}

impl BoolValidator {
    /// The fields that a validator for booleans is written as: every field that does not have its default,
    /// under its name.
    pub open spec fn fields(self) -> Map<Seq<u8>, ValueView> {
        let m = Map::<Seq<u8>, ValueView>::empty();
        let m = with_text(m, name_key("comment"@), self.comment@);
        let m = with_items(m, name_key("in"@), bools_view(self.in_list@));
        let m = with_items(m, name_key("nin"@), bools_view(self.nin_list@));
        with_flag(m, name_key("query"@), self.query)
    }

    /// Whether `k` is the name of a field of a validator for booleans.
    pub open spec fn is_field(k: Seq<u8>) -> bool {
        ||| k == name_key("comment"@)
        ||| k == name_key("in"@)
        ||| k == name_key("nin"@)
        ||| k == name_key("query"@)
    }

    /// That the fields `m` can be read as a validator for booleans: every field is of its kind.
    pub open spec fn readable(m: Map<Seq<u8>, ValueView>) -> bool {
        &&& text_of(m, name_key("comment"@)) is Some
        &&& items_of(m, name_key("in"@)) is Some && all_bools(items_of(m, name_key("in"@))->0)
        &&& items_of(m, name_key("nin"@)) is Some && all_bools(items_of(m, name_key("nin"@))->0)
        &&& flag_of(m, name_key("query"@)) is Some
    }

    /// That this validator is what the fields `m` say: each field is what stands under its
    /// name, or has its default where nothing does.
    pub open spec fn is_read_from(self, m: Map<Seq<u8>, ValueView>) -> bool {
        &&& Some(encode_utf8(self.comment@)) == text_of(m, name_key("comment"@))
        &&& Some(bools_view(self.in_list@)) == items_of(m, name_key("in"@))
        &&& Some(bools_view(self.nin_list@)) == items_of(m, name_key("nin"@))
        &&& Some(self.query) == flag_of(m, name_key("query"@))
    }

    /// The validator as a value: an object of the fields that do not have their defaults,
    /// in the order of their names.
    pub fn to_value(&self) -> (v: Value)
        ensures
            v is Obj,
            names_ascending(v->Obj_0@),
            field_map(v->Obj_0@) == self.fields(),
    {
        let mut e: Vec<(String, Value)> = Vec::new();
        proof {
            reveal(name_key);
            lemma_field_map_empty();
        }
        put_text(&mut e, "comment", &self.comment);
        put_items(&mut e, "in", bools_values(&self.in_list));
        put_items(&mut e, "nin", bools_values(&self.nin_list));
        put_flag(&mut e, "query", self.query);
        Value::Obj(e)
    }

    /// Whether `key` is the name of a field of a validator for booleans.
    fn knows(key: &str) -> (r: bool)
        ensures
            r == BoolValidator::is_field(key.spec_bytes()),
    {
        proof {
            reveal(name_key);
        }
        is_name(key, "comment") || is_name(key, "in") || is_name(key, "nin") || is_name(key, "query")
    }

    /// Reads a validator from a value: an object of fields of a validator for booleans, each of its
    /// kind. A field that is not there has its default; a name that is no field of
    /// a validator for booleans is refused.
    pub fn from_value(v: &Value) -> (r: Result<BoolValidator, Error>)
        ensures
            r is Ok <==> v is Obj && (forall|i: int|
                0 <= i < v->Obj_0@.len() ==> BoolValidator::is_field(encode_utf8((#[trigger] v->Obj_0@[i]).0@)))
                && BoolValidator::readable(field_map(v->Obj_0@)),
            r matches Ok(x) ==> x.is_read_from(field_map(v->Obj_0@)),
            r matches Err(e) ==> e == Error::BadValidator,
    {
        proof {
            reveal(name_key);
        }
        let e = match v {
            Value::Obj(e) => e,
            _ => {
                return Err(Error::BadValidator);
            },
        };
        let mut i: usize = 0;
        while i < e.len()
            invariant
                0 <= i <= e.len(),
                v is Obj,
                v->Obj_0 == *e,
                forall|j: int| 0 <= j < i ==> BoolValidator::is_field(encode_utf8((#[trigger] e@[j]).0@)),
            decreases e.len() - i,
        {
            if !BoolValidator::knows(e[i].0.as_str()) {
                return Err(Error::BadValidator);
            }
            i += 1;
        }
        let comment = read_text(e, "comment")?;
        let in_list = read_bools(e, "in")?;
        let nin_list = read_bools(e, "nin")?;
        let query = read_flag(e, "query")?;
        Ok(BoolValidator { comment, in_list, nin_list, query })
    }
}

/// The names of the fields of a validator for booleans are all different.
proof fn lemma_bool_names()
    ensures
        name_key("comment"@) != name_key("in"@),
        name_key("comment"@) != name_key("nin"@),
        name_key("comment"@) != name_key("query"@),
        name_key("in"@) != name_key("nin"@),
        name_key("in"@) != name_key("query"@),
        name_key("nin"@) != name_key("query"@),
{
    reveal_strlit("comment");
    reveal_strlit("in");
    reveal_strlit("nin");
    reveal_strlit("query");
    lemma_names_differ("comment"@, "in"@, 0);
    lemma_names_differ("comment"@, "nin"@, 0);
    lemma_names_differ("comment"@, "query"@, 0);
    lemma_names_differ("in"@, "nin"@, 0);
    lemma_names_differ("in"@, "query"@, 0);
    lemma_names_differ("nin"@, "query"@, 0);
}

/// Written and read back, a validator for booleans is what it was: the fields it is written as can
/// be read, and say what each of its fields is.
pub proof fn lemma_bool_validator_round_trip(x: BoolValidator)
    ensures
        BoolValidator::readable(x.fields()),
        x.is_read_from(x.fields()),
        forall|k: Seq<u8>| x.fields().contains_key(k) ==> BoolValidator::is_field(k),
{
    lemma_bool_names();
    assert(encode_utf8(Seq::<char>::empty()) =~= Seq::<u8>::empty()) by {
        reveal_with_fuel(encode_utf8, 1);
    }
    if x.comment@.len() == 0 {
        assert(x.comment@ =~= Seq::<char>::empty());
    }
    if x.in_list@.len() == 0 {
        assert(bools_view(x.in_list@) =~= Seq::<ValueView>::empty());
    }
    if x.nin_list@.len() == 0 {
        assert(bools_view(x.nin_list@) =~= Seq::<ValueView>::empty());
    }
}

impl BinValidator {
    /// The fields that a validator for byte strings is written as: every field that does not have its default,
    /// under its name.
    pub open spec fn fields(self) -> Map<Seq<u8>, ValueView> {
        let m = Map::<Seq<u8>, ValueView>::empty();
        let m = with_text(m, name_key("comment"@), self.comment@);
        let m = with_items(m, name_key("in"@), bins_view(self.in_list@));
        let m = with_items(m, name_key("nin"@), bins_view(self.nin_list@));
        let m = with_number(m, name_key("max_len"@), self.max_len as int, u32::MAX as int);
        let m = with_number(m, name_key("min_len"@), self.min_len as int, 0);
        let m = with_flag(m, name_key("query"@), self.query);
        with_flag(m, name_key("size"@), self.size)
    }

    /// Whether `k` is the name of a field of a validator for byte strings.
    pub open spec fn is_field(k: Seq<u8>) -> bool {
        ||| k == name_key("comment"@)
        ||| k == name_key("in"@)
        ||| k == name_key("nin"@)
        ||| k == name_key("max_len"@)
        ||| k == name_key("min_len"@)
        ||| k == name_key("query"@)
        ||| k == name_key("size"@)
    }

    /// That the fields `m` can be read as a validator for byte strings: every field is of its kind.
    pub open spec fn readable(m: Map<Seq<u8>, ValueView>) -> bool {
        &&& text_of(m, name_key("comment"@)) is Some
        &&& items_of(m, name_key("in"@)) is Some && all_bins(items_of(m, name_key("in"@))->0)
        &&& items_of(m, name_key("nin"@)) is Some && all_bins(items_of(m, name_key("nin"@))->0)
        &&& number_of(m, name_key("max_len"@), u32::MAX as int, 0, u32::MAX as int) is Some
        &&& number_of(m, name_key("min_len"@), 0, 0, u32::MAX as int) is Some
        &&& flag_of(m, name_key("query"@)) is Some
        &&& flag_of(m, name_key("size"@)) is Some
    }

    /// That this validator is what the fields `m` say: each field is what stands under its
    /// name, or has its default where nothing does.
    pub open spec fn is_read_from(self, m: Map<Seq<u8>, ValueView>) -> bool {
        &&& Some(encode_utf8(self.comment@)) == text_of(m, name_key("comment"@))
        &&& Some(bins_view(self.in_list@)) == items_of(m, name_key("in"@))
        &&& Some(bins_view(self.nin_list@)) == items_of(m, name_key("nin"@))
        &&& Some(self.max_len as int) == number_of(m, name_key("max_len"@), u32::MAX as int, 0, u32::MAX as int)
        &&& Some(self.min_len as int) == number_of(m, name_key("min_len"@), 0, 0, u32::MAX as int)
        &&& Some(self.query) == flag_of(m, name_key("query"@))
        &&& Some(self.size) == flag_of(m, name_key("size"@))
    }

    /// The validator as a value: an object of the fields that do not have their defaults,
    /// in the order of their names.
    pub fn to_value(&self) -> (v: Value)
        ensures
            v is Obj,
            names_ascending(v->Obj_0@),
            field_map(v->Obj_0@) == self.fields(),
    {
        let mut e: Vec<(String, Value)> = Vec::new();
        proof {
            reveal(name_key);
            lemma_field_map_empty();
        }
        put_text(&mut e, "comment", &self.comment);
        put_items(&mut e, "in", bins_values(&self.in_list));
        put_items(&mut e, "nin", bins_values(&self.nin_list));
        put_number(&mut e, "max_len", Integer::from_u64(self.max_len as u64), Integer::from_u64(u32::MAX as u64));
        put_number(&mut e, "min_len", Integer::from_u64(self.min_len as u64), Integer::from_u64(0 as u64));
        put_flag(&mut e, "query", self.query);
        put_flag(&mut e, "size", self.size);
        Value::Obj(e)
    }

    /// Whether `key` is the name of a field of a validator for byte strings.
    fn knows(key: &str) -> (r: bool)
        ensures
            r == BinValidator::is_field(key.spec_bytes()),
    {
        proof {
            reveal(name_key);
        }
        is_name(key, "comment") || is_name(key, "in") || is_name(key, "nin") || is_name(key, "max_len") || is_name(key, "min_len") || is_name(key, "query") || is_name(key, "size")
    }

    /// Reads a validator from a value: an object of fields of a validator for byte strings, each of its
    /// kind. A field that is not there has its default; a name that is no field of
    /// a validator for byte strings is refused.
    pub fn from_value(v: &Value) -> (r: Result<BinValidator, Error>)
        ensures
            r is Ok <==> v is Obj && (forall|i: int|
                0 <= i < v->Obj_0@.len() ==> BinValidator::is_field(encode_utf8((#[trigger] v->Obj_0@[i]).0@)))
                && BinValidator::readable(field_map(v->Obj_0@)),
            r matches Ok(x) ==> x.is_read_from(field_map(v->Obj_0@)),
            r matches Err(e) ==> e == Error::BadValidator,
    {
        proof {
            reveal(name_key);
        }
        let e = match v {
            Value::Obj(e) => e,
            _ => {
                return Err(Error::BadValidator);
            },
        };
        let mut i: usize = 0;
        while i < e.len()
            invariant
                0 <= i <= e.len(),
                v is Obj,
                v->Obj_0 == *e,
                forall|j: int| 0 <= j < i ==> BinValidator::is_field(encode_utf8((#[trigger] e@[j]).0@)),
            decreases e.len() - i,
        {
            if !BinValidator::knows(e[i].0.as_str()) {
                return Err(Error::BadValidator);
            }
            i += 1;
        }
        let comment = read_text(e, "comment")?;
        let in_list = read_bins(e, "in")?;
        let nin_list = read_bins(e, "nin")?;
        let max_len = read_u32(e, "max_len", u32::MAX)?;
        let min_len = read_u32(e, "min_len", 0)?;
        let query = read_flag(e, "query")?;
        let size = read_flag(e, "size")?;
        Ok(BinValidator { comment, in_list, nin_list, max_len, min_len, query, size })
    }
}

/// The names of the fields of a validator for byte strings are all different.
proof fn lemma_bin_names()
    ensures
        name_key("comment"@) != name_key("in"@),
        name_key("comment"@) != name_key("nin"@),
        name_key("comment"@) != name_key("max_len"@),
        name_key("comment"@) != name_key("min_len"@),
        name_key("comment"@) != name_key("query"@),
        name_key("comment"@) != name_key("size"@),
        name_key("in"@) != name_key("nin"@),
        name_key("in"@) != name_key("max_len"@),
        name_key("in"@) != name_key("min_len"@),
        name_key("in"@) != name_key("query"@),
        name_key("in"@) != name_key("size"@),
        name_key("nin"@) != name_key("max_len"@),
        name_key("nin"@) != name_key("min_len"@),
        name_key("nin"@) != name_key("query"@),
        name_key("nin"@) != name_key("size"@),
        name_key("max_len"@) != name_key("min_len"@),
        name_key("max_len"@) != name_key("query"@),
        name_key("max_len"@) != name_key("size"@),
        name_key("min_len"@) != name_key("query"@),
        name_key("min_len"@) != name_key("size"@),
        name_key("query"@) != name_key("size"@),
{
    reveal_strlit("comment");
    reveal_strlit("in");
    reveal_strlit("nin");
    reveal_strlit("max_len");
    reveal_strlit("min_len");
    reveal_strlit("query");
    reveal_strlit("size");
    lemma_names_differ("comment"@, "in"@, 0);
    lemma_names_differ("comment"@, "nin"@, 0);
    lemma_names_differ("comment"@, "max_len"@, 0);
    lemma_names_differ("comment"@, "min_len"@, 0);
    lemma_names_differ("comment"@, "query"@, 0);
    lemma_names_differ("comment"@, "size"@, 0);
    lemma_names_differ("in"@, "nin"@, 0);
    lemma_names_differ("in"@, "max_len"@, 0);
    lemma_names_differ("in"@, "min_len"@, 0);
    lemma_names_differ("in"@, "query"@, 0);
    lemma_names_differ("in"@, "size"@, 0);
    lemma_names_differ("nin"@, "max_len"@, 0);
    lemma_names_differ("nin"@, "min_len"@, 0);
    lemma_names_differ("nin"@, "query"@, 0);
    lemma_names_differ("nin"@, "size"@, 0);
    lemma_names_differ("max_len"@, "min_len"@, 1);
    lemma_names_differ("max_len"@, "query"@, 0);
    lemma_names_differ("max_len"@, "size"@, 0);
    lemma_names_differ("min_len"@, "query"@, 0);
    lemma_names_differ("min_len"@, "size"@, 0);
    lemma_names_differ("query"@, "size"@, 0);
}

/// Written and read back, a validator for byte strings is what it was: the fields it is written as can
/// be read, and say what each of its fields is.
pub proof fn lemma_bin_validator_round_trip(x: BinValidator)
    ensures
        BinValidator::readable(x.fields()),
        x.is_read_from(x.fields()),
        forall|k: Seq<u8>| x.fields().contains_key(k) ==> BinValidator::is_field(k),
{
    lemma_bin_names();
    assert(encode_utf8(Seq::<char>::empty()) =~= Seq::<u8>::empty()) by {
        reveal_with_fuel(encode_utf8, 1);
    }
    if x.comment@.len() == 0 {
        assert(x.comment@ =~= Seq::<char>::empty());
    }
    if x.in_list@.len() == 0 {
        assert(bins_view(x.in_list@) =~= Seq::<ValueView>::empty());
    }
    if x.nin_list@.len() == 0 {
        assert(bins_view(x.nin_list@) =~= Seq::<ValueView>::empty());
    }
}

impl IdentityValidator {
    /// The fields that a validator for identities is written as: every field that does not have its default,
    /// under its name.
    pub open spec fn fields(self) -> Map<Seq<u8>, ValueView> {
        let m = Map::<Seq<u8>, ValueView>::empty();
        let m = with_text(m, name_key("comment"@), self.comment@);
        let m = with_items(m, name_key("in"@), ids_view(self.in_list@));
        let m = with_items(m, name_key("nin"@), ids_view(self.nin_list@));
        with_flag(m, name_key("query"@), self.query)
    }

    /// Whether `k` is the name of a field of a validator for identities.
    pub open spec fn is_field(k: Seq<u8>) -> bool {
        ||| k == name_key("comment"@)
        ||| k == name_key("in"@)
        ||| k == name_key("nin"@)
        ||| k == name_key("query"@)
    }

    /// That the fields `m` can be read as a validator for identities: every field is of its kind.
    pub open spec fn readable(m: Map<Seq<u8>, ValueView>) -> bool {
        &&& text_of(m, name_key("comment"@)) is Some
        &&& items_of(m, name_key("in"@)) is Some && all_ids(items_of(m, name_key("in"@))->0)
        &&& items_of(m, name_key("nin"@)) is Some && all_ids(items_of(m, name_key("nin"@))->0)
        &&& flag_of(m, name_key("query"@)) is Some
    }

    /// That this validator is what the fields `m` say: each field is what stands under its
    /// name, or has its default where nothing does.
    pub open spec fn is_read_from(self, m: Map<Seq<u8>, ValueView>) -> bool {
        &&& Some(encode_utf8(self.comment@)) == text_of(m, name_key("comment"@))
        &&& Some(ids_view(self.in_list@)) == items_of(m, name_key("in"@))
        &&& Some(ids_view(self.nin_list@)) == items_of(m, name_key("nin"@))
        &&& Some(self.query) == flag_of(m, name_key("query"@))
    }

    /// The validator as a value: an object of the fields that do not have their defaults,
    /// in the order of their names.
    pub fn to_value(&self) -> (v: Value)
        ensures
            v is Obj,
            names_ascending(v->Obj_0@),
            field_map(v->Obj_0@) == self.fields(),
    {
        let mut e: Vec<(String, Value)> = Vec::new();
        proof {
            reveal(name_key);
            lemma_field_map_empty();
        }
        put_text(&mut e, "comment", &self.comment);
        put_items(&mut e, "in", ids_values(&self.in_list));
        put_items(&mut e, "nin", ids_values(&self.nin_list));
        put_flag(&mut e, "query", self.query);
        Value::Obj(e)
    }

    /// Whether `key` is the name of a field of a validator for identities.
    fn knows(key: &str) -> (r: bool)
        ensures
            r == IdentityValidator::is_field(key.spec_bytes()),
    {
        proof {
            reveal(name_key);
        }
        is_name(key, "comment") || is_name(key, "in") || is_name(key, "nin") || is_name(key, "query")
    }

    /// Reads a validator from a value: an object of fields of a validator for identities, each of its
    /// kind. A field that is not there has its default; a name that is no field of
    /// a validator for identities is refused.
    pub fn from_value(v: &Value) -> (r: Result<IdentityValidator, Error>)
        ensures
            r is Ok <==> v is Obj && (forall|i: int|
                0 <= i < v->Obj_0@.len() ==> IdentityValidator::is_field(encode_utf8((#[trigger] v->Obj_0@[i]).0@)))
                && IdentityValidator::readable(field_map(v->Obj_0@)),
            r matches Ok(x) ==> x.is_read_from(field_map(v->Obj_0@)),
            r matches Err(e) ==> e == Error::BadValidator,
    {
        proof {
            reveal(name_key);
        }
        let e = match v {
            Value::Obj(e) => e,
            _ => {
                return Err(Error::BadValidator);
            },
        };
        let mut i: usize = 0;
        while i < e.len()
            invariant
                0 <= i <= e.len(),
                v is Obj,
                v->Obj_0 == *e,
                forall|j: int| 0 <= j < i ==> IdentityValidator::is_field(encode_utf8((#[trigger] e@[j]).0@)),
            decreases e.len() - i,
        {
            if !IdentityValidator::knows(e[i].0.as_str()) {
                return Err(Error::BadValidator);
            }
            i += 1;
        }
        let comment = read_text(e, "comment")?;
        let in_list = read_ids(e, "in")?;
        let nin_list = read_ids(e, "nin")?;
        let query = read_flag(e, "query")?;
        Ok(IdentityValidator { comment, in_list, nin_list, query })
    }
}

/// The names of the fields of a validator for identities are all different.
proof fn lemma_identity_names()
    ensures
        name_key("comment"@) != name_key("in"@),
        name_key("comment"@) != name_key("nin"@),
        name_key("comment"@) != name_key("query"@),
        name_key("in"@) != name_key("nin"@),
        name_key("in"@) != name_key("query"@),
        name_key("nin"@) != name_key("query"@),
{
    reveal_strlit("comment");
    reveal_strlit("in");
    reveal_strlit("nin");
    reveal_strlit("query");
    lemma_names_differ("comment"@, "in"@, 0);
    lemma_names_differ("comment"@, "nin"@, 0);
    lemma_names_differ("comment"@, "query"@, 0);
    lemma_names_differ("in"@, "nin"@, 0);
    lemma_names_differ("in"@, "query"@, 0);
    lemma_names_differ("nin"@, "query"@, 0);
}

/// Written and read back, a validator for identities is what it was: the fields it is written as can
/// be read, and say what each of its fields is.
pub proof fn lemma_identity_validator_round_trip(x: IdentityValidator)
    ensures
        IdentityValidator::readable(x.fields()),
        x.is_read_from(x.fields()),
        forall|k: Seq<u8>| x.fields().contains_key(k) ==> IdentityValidator::is_field(k),
{
    lemma_identity_names();
    assert(encode_utf8(Seq::<char>::empty()) =~= Seq::<u8>::empty()) by {
        reveal_with_fuel(encode_utf8, 1);
    }
    if x.comment@.len() == 0 {
        assert(x.comment@ =~= Seq::<char>::empty());
    }
    if x.in_list@.len() == 0 {
        assert(ids_view(x.in_list@) =~= Seq::<ValueView>::empty());
    }
    if x.nin_list@.len() == 0 {
        assert(ids_view(x.nin_list@) =~= Seq::<ValueView>::empty());
    }
}

impl LockboxValidator {
    /// The fields that a validator for lockboxes is written as: every field that does not have its default,
    /// under its name.
    pub open spec fn fields(self) -> Map<Seq<u8>, ValueView> {
        let m = Map::<Seq<u8>, ValueView>::empty();
        let m = with_text(m, name_key("comment"@), self.comment@);
        let m = with_number(m, name_key("max_len"@), self.max_len as int, u32::MAX as int);
        let m = with_number(m, name_key("min_len"@), self.min_len as int, 0);
        with_flag(m, name_key("size"@), self.size)
    }

    /// Whether `k` is the name of a field of a validator for lockboxes.
    pub open spec fn is_field(k: Seq<u8>) -> bool {
        ||| k == name_key("comment"@)
        ||| k == name_key("max_len"@)
        ||| k == name_key("min_len"@)
        ||| k == name_key("size"@)
    }

    /// That the fields `m` can be read as a validator for lockboxes: every field is of its kind.
    pub open spec fn readable(m: Map<Seq<u8>, ValueView>) -> bool {
        &&& text_of(m, name_key("comment"@)) is Some
        &&& number_of(m, name_key("max_len"@), u32::MAX as int, 0, u32::MAX as int) is Some
        &&& number_of(m, name_key("min_len"@), 0, 0, u32::MAX as int) is Some
        &&& flag_of(m, name_key("size"@)) is Some
    }

    /// That this validator is what the fields `m` say: each field is what stands under its
    /// name, or has its default where nothing does.
    pub open spec fn is_read_from(self, m: Map<Seq<u8>, ValueView>) -> bool {
        &&& Some(encode_utf8(self.comment@)) == text_of(m, name_key("comment"@))
        &&& Some(self.max_len as int) == number_of(m, name_key("max_len"@), u32::MAX as int, 0, u32::MAX as int)
        &&& Some(self.min_len as int) == number_of(m, name_key("min_len"@), 0, 0, u32::MAX as int)
        &&& Some(self.size) == flag_of(m, name_key("size"@))
    }

    /// The validator as a value: an object of the fields that do not have their defaults,
    /// in the order of their names.
    pub fn to_value(&self) -> (v: Value)
        ensures
            v is Obj,
            names_ascending(v->Obj_0@),
            field_map(v->Obj_0@) == self.fields(),
    {
        let mut e: Vec<(String, Value)> = Vec::new();
        proof {
            reveal(name_key);
            lemma_field_map_empty();
        }
        put_text(&mut e, "comment", &self.comment);
        put_number(&mut e, "max_len", Integer::from_u64(self.max_len as u64), Integer::from_u64(u32::MAX as u64));
        put_number(&mut e, "min_len", Integer::from_u64(self.min_len as u64), Integer::from_u64(0 as u64));
        put_flag(&mut e, "size", self.size);
        Value::Obj(e)
    }

    /// Whether `key` is the name of a field of a validator for lockboxes.
    fn knows(key: &str) -> (r: bool)
        ensures
            r == LockboxValidator::is_field(key.spec_bytes()),
    {
        proof {
            reveal(name_key);
        }
        is_name(key, "comment") || is_name(key, "max_len") || is_name(key, "min_len") || is_name(key, "size")
    }

    /// Reads a validator from a value: an object of fields of a validator for lockboxes, each of its
    /// kind. A field that is not there has its default; a name that is no field of
    /// a validator for lockboxes is refused.
    pub fn from_value(v: &Value) -> (r: Result<LockboxValidator, Error>)
        ensures
            r is Ok <==> v is Obj && (forall|i: int|
                0 <= i < v->Obj_0@.len() ==> LockboxValidator::is_field(encode_utf8((#[trigger] v->Obj_0@[i]).0@)))
                && LockboxValidator::readable(field_map(v->Obj_0@)),
            r matches Ok(x) ==> x.is_read_from(field_map(v->Obj_0@)),
            r matches Err(e) ==> e == Error::BadValidator,
    {
        proof {
            reveal(name_key);
        }
        let e = match v {
            Value::Obj(e) => e,
            _ => {
                return Err(Error::BadValidator);
            },
        };
        let mut i: usize = 0;
        while i < e.len()
            invariant
                0 <= i <= e.len(),
                v is Obj,
                v->Obj_0 == *e,
                forall|j: int| 0 <= j < i ==> LockboxValidator::is_field(encode_utf8((#[trigger] e@[j]).0@)),
            decreases e.len() - i,
        {
            if !LockboxValidator::knows(e[i].0.as_str()) {
                return Err(Error::BadValidator);
            }
            i += 1;
        }
        let comment = read_text(e, "comment")?;
        let max_len = read_u32(e, "max_len", u32::MAX)?;
        let min_len = read_u32(e, "min_len", 0)?;
        let size = read_flag(e, "size")?;
        Ok(LockboxValidator { comment, max_len, min_len, size })
    }
}

/// The names of the fields of a validator for lockboxes are all different.
proof fn lemma_lockbox_names()
    ensures
        name_key("comment"@) != name_key("max_len"@),
        name_key("comment"@) != name_key("min_len"@),
        name_key("comment"@) != name_key("size"@),
        name_key("max_len"@) != name_key("min_len"@),
        name_key("max_len"@) != name_key("size"@),
        name_key("min_len"@) != name_key("size"@),
{
    reveal_strlit("comment");
    reveal_strlit("max_len");
    reveal_strlit("min_len");
    reveal_strlit("size");
    lemma_names_differ("comment"@, "max_len"@, 0);
    lemma_names_differ("comment"@, "min_len"@, 0);
    lemma_names_differ("comment"@, "size"@, 0);
    lemma_names_differ("max_len"@, "min_len"@, 1);
    lemma_names_differ("max_len"@, "size"@, 0);
    lemma_names_differ("min_len"@, "size"@, 0);
}

/// Written and read back, a validator for lockboxes is what it was: the fields it is written as can
/// be read, and say what each of its fields is.
pub proof fn lemma_lockbox_validator_round_trip(x: LockboxValidator)
    ensures
        LockboxValidator::readable(x.fields()),
        x.is_read_from(x.fields()),
        forall|k: Seq<u8>| x.fields().contains_key(k) ==> LockboxValidator::is_field(k),
{
    lemma_lockbox_names();
    assert(encode_utf8(Seq::<char>::empty()) =~= Seq::<u8>::empty()) by {
        reveal_with_fuel(encode_utf8, 1);
    }
    if x.comment@.len() == 0 {
        assert(x.comment@ =~= Seq::<char>::empty());
    }
}

} // verus!
