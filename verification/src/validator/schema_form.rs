//! Validators that hold other validators, as values.

use vstd::prelude::*;
use vstd::string::StringSliceAdditionalSpecFns;
use vstd::utf8::encode_utf8;
use crate::assoc::{names_ascending, Named};
use crate::error::Error;
use crate::fields::{field_map, get, lemma_field_map_empty, lemma_field_map_view, put};
use crate::integer::Integer;
use crate::validator::array::{indices_distinct, ArrayValidator, Indices};
use crate::validator::binary::BinValidator;
use crate::validator::boolean::BoolValidator;
use crate::validator::identity::IdentityValidator;
use crate::validator::lockbox::LockboxValidator;
use crate::validator::enum_set::EnumValidator;
use crate::validator::hash::HashValidator;
use crate::validator::integer::IntValidator;
use crate::validator::obj::ObjValidator;
use crate::validator::serial::{
    is_name, items_of, name_key, opt_field, put_flag, put_items, put_number, put_text, read_flag,
    read_items, read_text, read_u32,
};
use crate::validator::string::StrValidator;
use crate::validator::time::TimeValidator;
use crate::validator::reading::{
    all_arrays, all_indices, all_read_as, all_readable, array_readable, array_reads_as, enum_readable,
    enum_reads_as, indices_read, lemma_record_view, named_read_as, named_readable, obj_readable,
    obj_reads_as, readable, reads_as, variants_read_as, variants_readable,
};
use crate::validator::written::{
    all_written, array_written_as, arrays_view, enum_written_as, indices_view, is_record, is_wrapped,
    all_nest_within, array_nests_within, enum_nests_within, is_named, named_nest_within, named_written,
    nests_within, obj_nests_within, obj_written_as, variants_nest_within, variants_written, wire_name,
    written_as,
};
use crate::validator::Validator;
use crate::value::{
    entries_view, items_view, keys_ascending, lemma_array_view, lemma_obj_view, Value, ValueView,
};
use crate::MAX_DEPTH;

verus! {

/// A value that is an object of the fields `fields`, in the order of their names, is seen as
/// the record of those fields.
proof fn lemma_is_record(v: Value, fields: Map<Seq<u8>, ValueView>)
    requires
        v is Obj,
        names_ascending(v->Obj_0@),
        field_map(v->Obj_0@) == fields,
    ensures
        is_record(v@, fields),
{
    lemma_obj_view(v->Obj_0);
    lemma_field_map_view(v->Obj_0@);
}

/// The object of one pair, `name` and `inner`.
fn wrap(name: &str, inner: Value) -> (v: Value)
    ensures
        is_wrapped(v@, name@, inner@),
        v is Obj,
        v->Obj_0@.len() == 1,
{
    let mut e: Vec<(String, Value)> = Vec::new();
    e.push((name.to_owned(), inner));
    proof {
        reveal(name_key);
        lemma_obj_view(e);
        assert(entries_view(e@) =~= seq![(name_key(name@), inner@)]);
    }
    Value::Obj(e)
}

/// The validators of `list` as values, in order.
fn validators_values(list: &Vec<Validator>, depth: usize) -> (r: Result<Vec<Value>, Error>)
    ensures
        r matches Ok(values) ==> all_written(list@, items_view(values@)),
        r is Ok <==> all_nest_within(list@, depth as nat),
        r matches Err(e) ==> e == Error::DepthExceeded,
    decreases depth, 4nat,
{
    let mut out: Vec<Value> = Vec::new();
    let mut i: usize = 0;
    while i < list.len()
        invariant
            0 <= i <= list.len(),
            out@.len() == i,
            forall|j: int| 0 <= j < i ==> written_as(#[trigger] list@[j], out@[j]@),
            forall|j: int| 0 <= j < i ==> nests_within(#[trigger] list@[j], depth as nat),
        decreases list.len() - i,
    {
        let value = match list[i].to_value_within(depth) {
            Ok(value) => value,
            Err(e) => {
                assert(!nests_within(list@[i as int], depth as nat));
                return Err(e);
            },
        };
        out.push(value);
        i += 1;
    }
    proof {
        assert forall|j: int| 0 <= j < list@.len() implies written_as(
            #[trigger] list@[j],
            items_view(out@)[j],
        ) by {
            assert(items_view(out@)[j] == out@[j]@);
        }
    }
    Ok(out)
}

/// The validators under their names as an object.
pub(crate) fn named_values(list: &Vec<(String, Validator)>, depth: usize) -> (r: Result<Value, Error>)
    ensures
        r matches Ok(v) ==> named_written(list@, v@),
        r is Ok <==> named_nest_within(list@, depth as nat),
        r matches Err(e) ==> e == Error::DepthExceeded,
    decreases depth, 4nat,
{
    let mut out: Vec<(String, Value)> = Vec::new();
    let mut i: usize = 0;
    while i < list.len()
        invariant
            0 <= i <= list.len(),
            out@.len() == i,
            forall|j: int|
                0 <= j < i ==> (#[trigger] out@[j]).0@ == list@[j].0@ && written_as(list@[j].1, out@[j].1@),
            forall|j: int| 0 <= j < i ==> nests_within((#[trigger] list@[j]).1, depth as nat),
        decreases list.len() - i,
    {
        let value = match list[i].1.to_value_within(depth) {
            Ok(value) => value,
            Err(e) => {
                assert(!nests_within(list@[i as int].1, depth as nat));
                return Err(e);
            },
        };
        out.push((list[i].0.clone(), value));
        i += 1;
    }
    proof {
        lemma_obj_view(out);
        let pairs = entries_view(out@);
        assert forall|j: int| 0 <= j < list@.len() implies pairs[j].0 == encode_utf8((#[trigger] list@[j]).0@)
            && written_as(list@[j].1, pairs[j].1) by {
            assert(out@[j].0@ == list@[j].0@);
        }
    }
    Ok(Value::Obj(out))
}

/// The variants under their names as an object, null standing for a variant without data.
fn variants_values(list: &Vec<(String, Option<Validator>)>, depth: usize) -> (r: Result<Value, Error>)
    ensures
        r matches Ok(v) ==> variants_written(list@, v@),
        r is Ok <==> variants_nest_within(list@, depth as nat),
        r matches Err(e) ==> e == Error::DepthExceeded,
    decreases depth, 4nat,
{
    let mut out: Vec<(String, Value)> = Vec::new();
    let mut i: usize = 0;
    while i < list.len()
        invariant
            0 <= i <= list.len(),
            out@.len() == i,
            forall|j: int|
                0 <= j < i ==> (#[trigger] out@[j]).0@ == list@[j].0@ && match list@[j].1 {
                    Some(v) => written_as(v, out@[j].1@),
                    None => out@[j].1@ is Null,
                },
            forall|j: int|
                0 <= j < i ==> ((#[trigger] list@[j]).1 matches Some(v) ==> nests_within(v, depth as nat)),
        decreases list.len() - i,
    {
        let value = match &list[i].1 {
            Some(validator) => match validator.to_value_within(depth) {
                Ok(value) => value,
                Err(e) => {
                    assert(!(list@[i as int].1 matches Some(v) ==> nests_within(v, depth as nat)));
                    return Err(e);
                },
            },
            None => Value::Null,
        };
        out.push((list[i].0.clone(), value));
        i += 1;
    }
    proof {
        lemma_obj_view(out);
        let pairs = entries_view(out@);
        assert forall|j: int| 0 <= j < list@.len() implies pairs[j].0 == encode_utf8((#[trigger] list@[j]).0@)
            && match list@[j].1 {
            Some(v) => written_as(v, pairs[j].1),
            None => pairs[j].1 is Null,
        } by {
            assert(out@[j].0@ == list@[j].0@);
        }
    }
    Ok(Value::Obj(out))
}

/// Copies of the arrays, each as a value.
fn arrays_values(list: &Vec<Vec<Value>>) -> (r: Vec<Value>)
    ensures
        items_view(r@) == arrays_view(list@),
        r@.len() == list@.len(),
        forall|i: int|
            0 <= i < r@.len() ==> (#[trigger] r@[i])@ == crate::value::ValueView::Array(
                crate::value::items_view(list@[i]@),
            ),
{
    let mut out: Vec<Value> = Vec::new();
    let mut i: usize = 0;
    while i < list.len()
        invariant
            0 <= i <= list.len(),
            out@.len() == i,
            forall|j: int|
                0 <= j < i ==> (#[trigger] out@[j])@ == crate::value::ValueView::Array(
                    crate::value::items_view(list@[j]@),
                ),
        decreases list.len() - i,
    {
        let mut copy: Vec<Value> = Vec::new();
        let mut k: usize = 0;
        while k < list[i].len()
            invariant
                0 <= i < list.len(),
                0 <= k <= list@[i as int]@.len(),
                copy@.len() == k,
                forall|j: int| 0 <= j < k ==> copy@[j]@ == list@[i as int]@[j]@,
            decreases list@[i as int]@.len() - k,
        {
            let item = list[i][k].deep_clone();
            copy.push(item);
            k += 1;
        }
        proof {
            crate::value::lemma_array_view(copy);
            assert(crate::value::items_view(copy@) =~= crate::value::items_view(list@[i as int]@));
        }
        out.push(Value::Array(copy));
        i += 1;
    }
    assert(items_view(out@) =~= arrays_view(list@));
    out
}

/// The numbers as values.
fn indices_values(list: &Vec<usize>) -> (r: Vec<Value>)
    ensures
        items_view(r@) == indices_view(list@),
        r@.len() == list@.len(),
        forall|i: int| 0 <= i < r@.len() ==> (#[trigger] r@[i])@ == crate::value::ValueView::Int(list@[i] as int),
{
    let mut out: Vec<Value> = Vec::new();
    let mut i: usize = 0;
    while i < list.len()
        invariant
            0 <= i <= list.len(),
            out@.len() == i,
            forall|j: int| 0 <= j < i ==> (#[trigger] out@[j])@ == crate::value::ValueView::Int(list@[j] as int),
        decreases list.len() - i,
    {
        out.push(Value::Int(Integer::from_u64(list[i] as u64)));
        i += 1;
    }
    assert(items_view(out@) =~= indices_view(list@));
    out
}

impl ArrayValidator {
    /// Puts the lists and flags that say which arrays pass.
    fn put_lists(&self, e: &mut Vec<(String, Value)>)
        ensures
            field_map(final(e)@) == self.with_lists(field_map(old(e)@)),
            names_ascending(old(e)@) ==> names_ascending(final(e)@),
    {
        proof {
            reveal(name_key);
        }
        put_items(e, "in", arrays_values(&self.in_list));
        put_items(e, "nin", arrays_values(&self.nin_list));
        put_items(e, "same_len", indices_values(self.same_len.list()));
        put_flag(e, "unique", self.unique);
        put_flag(e, "extend", self.extend);
    }

    /// Puts the flags that say what queries may use.
    fn put_permissions(&self, e: &mut Vec<(String, Value)>)
        ensures
            field_map(final(e)@) == self.with_permissions(field_map(old(e)@)),
            names_ascending(old(e)@) ==> names_ascending(final(e)@),
    {
        proof {
            reveal(name_key);
        }
        put_flag(e, "query", self.query);
        put_flag(e, "array", self.array);
        put_flag(e, "contains_ok", self.contains_ok);
        put_flag(e, "unique_ok", self.unique_ok);
        put_flag(e, "size", self.size);
        put_flag(e, "same_len_ok", self.same_len_ok);
    }

    /// The validator as a value: an object of the fields that do not have their defaults,
    /// in the order of their names. Fails only where validators lead into one another more
    /// than `depth` deep.
    pub fn to_value_within(&self, depth: usize) -> (r: Result<Value, Error>)
        ensures
            r matches Ok(v) ==> array_written_as(*self, v@),
            r is Ok <==> array_nests_within(*self, depth as nat),
            r matches Ok(v) ==> v is Obj && names_ascending(v->Obj_0@),
            r matches Ok(v) ==> self.is_default() ==> v->Obj_0@.len() == 0,
            r matches Err(e) ==> e == Error::DepthExceeded,
        decreases depth, 2nat,
    {
        if depth == 0 {
            return Err(Error::DepthExceeded);
        }
        let mut e: Vec<(String, Value)> = Vec::new();
        let ghost mut contains: Seq<ValueView> = Seq::empty();
        let ghost mut items: ValueView = ValueView::Null;
        let ghost mut prefix: Seq<ValueView> = Seq::empty();
        proof {
            reveal(name_key);
            lemma_field_map_empty();
        }
        put_text(&mut e, "comment", &self.comment);
        if self.contains.len() > 0 {
            let values = validators_values(&self.contains, depth - 1)?;
            proof {
                contains = items_view(values@);
                lemma_array_view(values);
            }
            put(&mut e, "contains", Value::Array(values));
        }
        match &*self.items {
            Validator::Any => {},
            inner => {
                let value = inner.to_value_within(depth - 1)?;
                proof {
                    items = value@;
                }
                put(&mut e, "items", value);
            },
        }
        if self.prefix.len() > 0 {
            let values = validators_values(&self.prefix, depth - 1)?;
            proof {
                prefix = items_view(values@);
                lemma_array_view(values);
            }
            put(&mut e, "prefix", Value::Array(values));
        }
        put_number(&mut e, "max_len", Integer::from_u64(self.max_len as u64), Integer::from_u64(0xffff_ffff));
        put_number(&mut e, "min_len", Integer::from_u64(self.min_len as u64), Integer::from_u64(0));
        self.put_lists(&mut e);
        self.put_permissions(&mut e);
        proof {
            if self.is_default() {
                crate::fields::lemma_fields_none(e@);
            }
            assert(field_map(e@) == self.fields(contains, items, prefix));
            lemma_is_record(Value::Obj(e), self.fields(contains, items, prefix));
            if self.contains@.len() == 0 {
                assert(all_written(self.contains@, contains));
            }
            if self.prefix@.len() == 0 {
                assert(all_written(self.prefix@, prefix));
            }
        }
        Ok(Value::Obj(e))
    }

    /// The validator as a value, validators leading into one another at most `MAX_DEPTH`
    /// deep.
    pub fn to_value(&self) -> (r: Result<Value, Error>)
        ensures
            r matches Ok(v) ==> array_written_as(*self, v@),
            r is Ok <==> array_nests_within(*self, MAX_DEPTH as nat),
            r matches Ok(v) ==> v is Obj && names_ascending(v->Obj_0@),
            r matches Ok(v) ==> self.is_default() ==> v->Obj_0@.len() == 0,
            r matches Err(e) ==> e == Error::DepthExceeded,
    {
        self.to_value_within(MAX_DEPTH)
    }
}

impl ObjValidator {
    /// The validator as a value: an object of the fields that do not have their defaults,
    /// in the order of their names. Fails only where validators lead into one another more
    /// than `depth` deep.
    pub fn to_value_within(&self, depth: usize) -> (r: Result<Value, Error>)
        ensures
            r matches Ok(v) ==> obj_written_as(*self, v@),
            r is Ok <==> obj_nests_within(*self, depth as nat),
            r matches Ok(v) ==> v is Obj && names_ascending(v->Obj_0@),
            r matches Err(e) ==> e == Error::DepthExceeded,
        decreases depth, 2nat,
    {
        if depth == 0 {
            return Err(Error::DepthExceeded);
        }
        let mut e: Vec<(String, Value)> = Vec::new();
        let ghost mut req: ValueView = ValueView::Null;
        let ghost mut opt: ValueView = ValueView::Null;
        let ghost mut keys: ValueView = ValueView::Null;
        let ghost mut values: ValueView = ValueView::Null;
        proof {
            reveal(name_key);
            lemma_field_map_empty();
        }
        put_text(&mut e, "comment", &self.comment);
        if self.req.len() > 0 {
            let value = named_values(self.req.list(), depth - 1)?;
            proof {
                req = value@;
            }
            put(&mut e, "req", value);
        }
        if self.opt.len() > 0 {
            let value = named_values(self.opt.list(), depth - 1)?;
            proof {
                opt = value@;
            }
            put(&mut e, "opt", value);
        }
        match &self.keys {
            Some(k) => {
                let value = k.to_value();
                proof {
                    keys = value@;
                    lemma_is_record(value, k.fields());
                }
                put(&mut e, "keys", value);
            },
            None => {},
        }
        match &self.values {
            Some(v) => {
                let value = v.to_value_within(depth - 1)?;
                proof {
                    values = value@;
                }
                put(&mut e, "values", value);
            },
            None => {},
        }
        put_flag(&mut e, "unknown_ok", self.unknown_ok);
        put_number(&mut e, "max_len", Integer::from_u64(self.max_len as u64), Integer::from_u64(0xffff_ffff));
        put_number(&mut e, "min_len", Integer::from_u64(self.min_len as u64), Integer::from_u64(0));
        put_flag(&mut e, "size", self.size);
        put_flag(&mut e, "map_ok", self.obj_ok);
        proof {
            assert(field_map(e@) == self.fields(req, opt, keys, values));
            lemma_is_record(Value::Obj(e), self.fields(req, opt, keys, values));
        }
        Ok(Value::Obj(e))
    }
}

impl EnumValidator {
    /// The validator as a value: an object of the fields that do not have their defaults,
    /// in the order of their names. A variant without data is written with null in place
    /// of a validator. Fails only where validators lead into one another more than `depth`
    /// deep.
    pub fn to_value_within(&self, depth: usize) -> (r: Result<Value, Error>)
        ensures
            r matches Ok(v) ==> enum_written_as(*self, v@),
            r is Ok <==> enum_nests_within(*self, depth as nat),
            r matches Ok(v) ==> v is Obj && names_ascending(v->Obj_0@),
            r matches Err(e) ==> e == Error::DepthExceeded,
        decreases depth, 2nat,
    {
        if depth == 0 {
            return Err(Error::DepthExceeded);
        }
        let mut e: Vec<(String, Value)> = Vec::new();
        let ghost mut var: ValueView = ValueView::Null;
        proof {
            reveal(name_key);
            lemma_field_map_empty();
        }
        put_text(&mut e, "comment", self.get_comment());
        put_flag(&mut e, "extend", self.is_extensible());
        if self.iter().len() > 0 {
            let value = variants_values(self.iter(), depth - 1)?;
            proof {
                var = value@;
            }
            put(&mut e, "var", value);
        }
        proof {
            assert(field_map(e@) == self.fields(var));
            lemma_is_record(Value::Obj(e), self.fields(var));
        }
        Ok(Value::Obj(e))
    }
}

impl Validator {
    /// The validator as a value: its name alone where it has no configuration, and else an
    /// object of one pair, its name and its configuration. Fails only where validators lead
    /// into one another more than `depth` deep.
    pub fn to_value_within(&self, depth: usize) -> (r: Result<Value, Error>)
        ensures
            r matches Ok(v) ==> written_as(*self, v@),
            r is Ok <==> nests_within(*self, depth as nat),
            r matches Ok(v) ==> v is Str || (v is Obj && v->Obj_0@.len() == 1),
            r matches Err(e) ==> e == Error::DepthExceeded,
        decreases depth, 3nat,
    {
        proof {
            reveal(name_key);
        }
        match self {
            Validator::Null => Ok(Value::Str("Null".to_owned())),
            Validator::F32 => Ok(Value::Str("F32".to_owned())),
            Validator::F64 => Ok(Value::Str("F64".to_owned())),
            Validator::Any => Ok(Value::Str("Any".to_owned())),
            Validator::Int(v) => {
                let inner = v.to_value();
                proof {
                    lemma_is_record(inner, v.fields());
                }
                Ok(wrap("Int", inner))
            },
            Validator::Str(v) => {
                let inner = v.to_value();
                proof {
                    lemma_is_record(inner, v.fields());
                }
                Ok(wrap("Str", inner))
            },
            Validator::Time(v) => {
                let inner = v.to_value();
                proof {
                    lemma_is_record(inner, v.fields());
                }
                Ok(wrap("Time", inner))
            },
            Validator::Hash(v) => {
                let inner = v.to_value();
                proof {
                    lemma_is_record(inner, v.fields());
                }
                Ok(wrap("Hash", inner))
            },
            Validator::Bool(v) => {
                let inner = v.to_value();
                proof {
                    lemma_is_record(inner, v.fields());
                }
                Ok(wrap("Bool", inner))
            },
            Validator::Bin(v) => {
                let inner = v.to_value();
                proof {
                    lemma_is_record(inner, v.fields());
                }
                Ok(wrap("Bin", inner))
            },
            Validator::Identity(v) => {
                let inner = v.to_value();
                proof {
                    lemma_is_record(inner, v.fields());
                }
                Ok(wrap("Identity", inner))
            },
            Validator::Lockbox(v) => {
                let inner = v.to_value();
                proof {
                    lemma_is_record(inner, v.fields());
                }
                Ok(wrap("Lockbox", inner))
            },
            Validator::Array(v) => Ok(wrap("Array", v.to_value_within(depth)?)),
            Validator::Obj(v) => Ok(wrap("Map", v.to_value_within(depth)?)),
            Validator::Enum(v) => Ok(wrap("Enum", v.to_value_within(depth)?)),
            Validator::Multi(list) => {
                if depth == 0 {
                    return Err(Error::DepthExceeded);
                }
                let values = validators_values(list, depth - 1)?;
                proof {
                    lemma_array_view(values);
                }
                Ok(wrap("Multi", Value::Array(values)))
            },
            Validator::Ref(name) => Ok(wrap("Ref", Value::Str(name.clone()))),
        }
    }

    /// The validator as a value, validators leading into one another at most `MAX_DEPTH`
    /// deep.
    pub fn to_value(&self) -> (r: Result<Value, Error>)
        ensures
            r matches Ok(v) ==> written_as(*self, v@),
            r is Ok <==> nests_within(*self, MAX_DEPTH as nat),
            r matches Ok(v) ==> v is Str || (v is Obj && v->Obj_0@.len() == 1),
            r matches Err(e) ==> e == Error::DepthExceeded,
    {
        self.to_value_within(MAX_DEPTH)
    }
}


/// The validators that the values of `list` hold, one for one.
fn read_all(list: &Vec<Value>, depth: usize) -> (r: Result<Vec<Validator>, Error>)
    ensures
        r is Ok <==> all_readable(items_view(list@), depth as nat),
        r matches Ok(out) ==> all_read_as(items_view(list@), out@, depth as nat),
        r matches Err(x) ==> x == Error::BadValidator || x == Error::DepthExceeded,
    decreases depth, 4nat,
{
    let ghost items = items_view(list@);
    let mut out: Vec<Validator> = Vec::new();
    let mut i: usize = 0;
    while i < list.len()
        invariant
            0 <= i <= list.len(),
            out@.len() == i,
            items == items_view(list@),
            forall|j: int| 0 <= j < i ==> readable(#[trigger] items[j], depth as nat),
            forall|j: int| 0 <= j < i ==> reads_as(#[trigger] items[j], out@[j], depth as nat),
        decreases list.len() - i,
    {
        assert(items[i as int] == list@[i as int]@);
        let validator = match Validator::from_value_within(&list[i], depth) {
            Ok(validator) => validator,
            Err(x) => {
                assert(!readable(items[i as int], depth as nat));
                return Err(x);
            },
        };
        out.push(validator);
        i += 1;
    }
    Ok(out)
}

/// The validators that the array under `key` holds, none where nothing stands there.
fn read_validators(e: &Vec<(String, Value)>, key: &str, depth: usize) -> (r: Result<Vec<Validator>, Error>)
    ensures
        match items_of(field_map(e@), key.spec_bytes()) {
            Some(items) => (r is Ok <==> all_readable(items, depth as nat)) && (r matches Ok(list) ==> all_read_as(
                items,
                list@,
                depth as nat,
            )),
            None => r is Err,
        },
        r matches Err(x) ==> x == Error::BadValidator || x == Error::DepthExceeded,
    decreases depth, 5nat,
{
    match read_items(e, key)? {
        None => Ok(Vec::new()),
        Some(list) => read_all(list, depth),
    }
}

/// Whether the names come in ascending order.
fn names_ascend(list: &Vec<(String, Value)>) -> (r: bool)
    ensures
        r == names_ascending(list@),
{
    let mut i: usize = 1;
    while i < list.len()
        invariant
            1 <= i,
            forall|j: int|
                0 <= j < i - 1 && j < list@.len() - 1 ==> crate::bytes::lex_lt(
                    encode_utf8((#[trigger] list@[j]).0@),
                    encode_utf8(list@[j + 1].0@),
                ),
        decreases list.len() - i,
    {
        let before = list[i - 1].0.as_str();
        let here = list[i].0.as_str();
        if !crate::bytes::bytes_lt(before.as_bytes(), here.as_bytes()) {
            assert(!crate::bytes::lex_lt(encode_utf8(list@[i - 1].0@), encode_utf8(list@[i - 1 + 1].0@)));
            return false;
        }
        i += 1;
    }
    true
}

/// The validators that the object under `key` holds under their names, none where nothing
/// stands there.
pub(crate) fn read_named(e: &Vec<(String, Value)>, key: &str, depth: usize) -> (r: Result<
    Vec<(String, Validator)>,
    Error,
>)
    ensures
        r is Ok <==> named_readable(opt_field(field_map(e@), key.spec_bytes()), depth as nat),
        r matches Ok(list) ==> named_read_as(opt_field(field_map(e@), key.spec_bytes()), list@, depth as nat)
            && names_ascending(list@),
        r matches Err(x) ==> x == Error::BadValidator || x == Error::DepthExceeded,
    decreases depth, 4nat,
{
    let mut out: Vec<(String, Validator)> = Vec::new();
    match get(e, key) {
        None => {},
        Some(Value::Obj(list)) => {
            proof {
                lemma_record_view(Value::Obj(*list));
                lemma_field_map_view(list@);
            }
            let ghost q = entries_view(list@);
            if !names_ascend(list) {
                return Err(Error::BadValidator);
            }
            assert(opt_field(field_map(e@), key.spec_bytes()) == Some(ValueView::Obj(q)));
            let mut i: usize = 0;
            while i < list.len()
                invariant
                    0 <= i <= list.len(),
                    out@.len() == i,
                    q == entries_view(list@),
                    keys_ascending(q),
                    opt_field(field_map(e@), key.spec_bytes()) == Some(ValueView::Obj(q)),
                    forall|j: int| 0 <= j < i ==> readable((#[trigger] q[j]).1, depth as nat),
                    forall|j: int|
                        0 <= j < i ==> (#[trigger] q[j]).0 == encode_utf8(out@[j].0@) && reads_as(
                            q[j].1,
                            out@[j].1,
                            depth as nat,
                        ),
                    forall|j: int| 0 <= j < i ==> (#[trigger] out@[j]).0@ == list@[j].0@,
                decreases list.len() - i,
            {
                assert(q[i as int].1 == list@[i as int].1@);
                assert(q[i as int].0 == encode_utf8(list@[i as int].0@));
                let validator = match Validator::from_value_within(&list[i].1, depth) {
                    Ok(validator) => validator,
                    Err(x) => {
                        assert(!readable(q[i as int].1, depth as nat));
                        return Err(x);
                    },
                };
                out.push((list[i].0.clone(), validator));
                i += 1;
            }
            proof {
                assert forall|j: int| 0 <= j < out@.len() - 1 implies crate::bytes::lex_lt(
                    encode_utf8((#[trigger] out@[j]).0@),
                    encode_utf8(out@[j + 1].0@),
                ) by {
                    assert(crate::bytes::lex_lt(encode_utf8(list@[j].0@), encode_utf8(list@[j + 1].0@)));
                }
            }
        },
        Some(_) => {
            return Err(Error::BadValidator);
        },
    }
    Ok(out)
}

/// The variants that the object under `key` holds under their names, null standing for a
/// variant without data; none where nothing stands there.
fn read_variants(e: &Vec<(String, Value)>, key: &str, depth: usize) -> (r: Result<
    Vec<(String, Option<Validator>)>,
    Error,
>)
    ensures
        r is Ok <==> variants_readable(opt_field(field_map(e@), key.spec_bytes()), depth as nat),
        r matches Ok(list) ==> variants_read_as(opt_field(field_map(e@), key.spec_bytes()), list@, depth as nat)
            && names_ascending(list@),
        r matches Err(x) ==> x == Error::BadValidator || x == Error::DepthExceeded,
    decreases depth, 4nat,
{
    let mut out: Vec<(String, Option<Validator>)> = Vec::new();
    match get(e, key) {
        None => {},
        Some(Value::Obj(list)) => {
            proof {
                lemma_record_view(Value::Obj(*list));
                lemma_field_map_view(list@);
            }
            let ghost q = entries_view(list@);
            if !names_ascend(list) {
                return Err(Error::BadValidator);
            }
            assert(opt_field(field_map(e@), key.spec_bytes()) == Some(ValueView::Obj(q)));
            let mut i: usize = 0;
            while i < list.len()
                invariant
                    0 <= i <= list.len(),
                    out@.len() == i,
                    q == entries_view(list@),
                    keys_ascending(q),
                    opt_field(field_map(e@), key.spec_bytes()) == Some(ValueView::Obj(q)),
                    forall|j: int| 0 <= j < i ==> (#[trigger] q[j]).1 is Null || readable(q[j].1, depth as nat),
                    forall|j: int|
                        0 <= j < i ==> (#[trigger] q[j]).0 == encode_utf8(out@[j].0@) && match out@[j].1 {
                            None => q[j].1 is Null,
                            Some(v) => !(q[j].1 is Null) && reads_as(q[j].1, v, depth as nat),
                        },
                    forall|j: int| 0 <= j < i ==> (#[trigger] out@[j]).0@ == list@[j].0@,
                decreases list.len() - i,
            {
                assert(q[i as int].1 == list@[i as int].1@);
                assert(q[i as int].0 == encode_utf8(list@[i as int].0@));
                let validator = match &list[i].1 {
                    Value::Null => None,
                    other => match Validator::from_value_within(other, depth) {
                        Ok(validator) => Some(validator),
                        Err(x) => {
                            assert(!(q[i as int].1 is Null || readable(q[i as int].1, depth as nat)));
                            return Err(x);
                        },
                    },
                };
                out.push((list[i].0.clone(), validator));
                i += 1;
            }
            proof {
                assert forall|j: int| 0 <= j < out@.len() - 1 implies crate::bytes::lex_lt(
                    encode_utf8((#[trigger] out@[j]).0@),
                    encode_utf8(out@[j + 1].0@),
                ) by {
                    assert(crate::bytes::lex_lt(encode_utf8(list@[j].0@), encode_utf8(list@[j + 1].0@)));
                }
            }
        },
        Some(_) => {
            return Err(Error::BadValidator);
        },
    }
    Ok(out)
}

/// Copies of the arrays that the array under `key` holds, none where nothing stands there.
fn read_arrays(e: &Vec<(String, Value)>, key: &str) -> (r: Result<Vec<Vec<Value>>, Error>)
    ensures
        match items_of(field_map(e@), key.spec_bytes()) {
            Some(items) => (r is Ok <==> all_arrays(items)) && (r matches Ok(list) ==> arrays_view(list@) == items),
            None => r is Err,
        },
        r matches Err(x) ==> x == Error::BadValidator,
{
    let mut out: Vec<Vec<Value>> = Vec::new();
    match read_items(e, key)? {
        None => {
            assert(arrays_view(out@) =~= Seq::<ValueView>::empty());
        },
        Some(list) => {
            let ghost items = items_view(list@);
            let mut i: usize = 0;
            while i < list.len()
                invariant
                    0 <= i <= list.len(),
                    out@.len() == i,
                    items == items_view(list@),
                    items_of(field_map(e@), key.spec_bytes()) == Some(items),
                    forall|j: int| 0 <= j < i ==> (#[trigger] items[j]) is Array,
                    forall|j: int| 0 <= j < i ==> #[trigger] items[j] == ValueView::Array(items_view(out@[j]@)),
                decreases list.len() - i,
            {
                assert(items[i as int] == list@[i as int]@);
                match &list[i] {
                    Value::Array(inner) => {
                        proof {
                            lemma_array_view(*inner);
                        }
                        let mut copy: Vec<Value> = Vec::new();
                        let mut k: usize = 0;
                        while k < inner.len()
                            invariant
                                0 <= k <= inner.len(),
                                copy@.len() == k,
                                forall|j: int| 0 <= j < k ==> copy@[j]@ == inner@[j]@,
                            decreases inner.len() - k,
                        {
                            let item = inner[k].deep_clone();
                            copy.push(item);
                            k += 1;
                        }
                        assert(items_view(copy@) =~= items_view(inner@));
                        out.push(copy);
                    },
                    _ => {
                        assert(!(items[i as int] is Array));
                        return Err(Error::BadValidator);
                    },
                }
                i += 1;
            }
            assert(arrays_view(out@) =~= items);
        },
    }
    Ok(out)
}

/// The positions that the array under `key` holds, each once; none where nothing stands
/// there.
fn read_indices(e: &Vec<(String, Value)>, key: &str) -> (r: Result<Vec<usize>, Error>)
    ensures
        match items_of(field_map(e@), key.spec_bytes()) {
            Some(items) => (r is Ok <==> all_indices(items)) && (r matches Ok(list) ==> list@ == indices_read(
                items,
                items.len(),
            )),
            None => r is Err,
        },
        r matches Ok(list) ==> indices_distinct(list@),
        r matches Err(x) ==> x == Error::BadValidator,
{
    let mut out: Vec<usize> = Vec::new();
    match read_items(e, key)? {
        None => {},
        Some(list) => {
            let ghost items = items_view(list@);
            let mut i: usize = 0;
            while i < list.len()
                invariant
                    0 <= i <= list.len(),
                    items == items_view(list@),
                    items_of(field_map(e@), key.spec_bytes()) == Some(items),
                    forall|j: int|
                        0 <= j < i ==> (#[trigger] items[j]) is Int && 0 <= items[j]->Int_0 <= 0xffff_ffff,
                    out@ == indices_read(items, i as nat),
                    indices_distinct(out@),
                decreases list.len() - i,
            {
                assert(items[i as int] == list@[i as int]@);
                match &list[i] {
                    Value::Int(n) => {
                        let n = n.get();
                        if n < 0 || n > 0xffff_ffff {
                            assert(!(0 <= items[i as int]->Int_0 <= 0xffff_ffff));
                            return Err(Error::BadValidator);
                        }
                        let at = n as usize;
                        if !crate::validator::array::index_in_list(&out, at) {
                            out.push(at);
                        }
                    },
                    _ => {
                        assert(!(items[i as int] is Int));
                        return Err(Error::BadValidator);
                    },
                }
                i += 1;
            }
        },
    }
    Ok(out)
}

/// An array validator with every field at its default is written as the empty object, and
/// the empty object reads as an array validator.
pub proof fn lemma_default_array_form(x: ArrayValidator, depth: nat)
    requires
        x.is_default(),
        depth > 0,
    ensures
        array_nests_within(x, depth),
        array_readable(ValueView::Obj(Seq::empty()), depth),
{
    reveal(name_key);
    let p = Seq::<(Seq<u8>, ValueView)>::empty();
    let m = crate::fields::pairs_map(p);
    assert(m =~= Map::<Seq<u8>, ValueView>::empty());
    assert(all_readable(Seq::<ValueView>::empty(), (depth - 1) as nat));
    assert(all_arrays(Seq::<ValueView>::empty()));
    assert(all_indices(Seq::<ValueView>::empty()));
    assert(ArrayValidator::keys_known(p));
}

/// The validators that hold other validators.
enum Holder {
    Array,
    Obj,
    Enum,
}

/// Whether `k` is the name of a field of a validator of the kind `holder`.
spec fn is_field_of(holder: Holder, k: Seq<u8>) -> bool {
    match holder {
        Holder::Array => ArrayValidator::is_field(k),
        Holder::Obj => ObjValidator::is_field(k),
        Holder::Enum => EnumValidator::is_field(k),
    }
}

/// Whether `key` is the name of a field of a validator of the kind `holder`.
fn knows(holder: &Holder, key: &str) -> (r: bool)
    ensures
        r == is_field_of(*holder, key.spec_bytes()),
{
    proof {
        reveal(name_key);
    }
    match holder {
        Holder::Array => is_name(key, "comment") || is_name(key, "contains") || is_name(key, "items") || is_name(
            key,
            "prefix",
        ) || is_name(key, "max_len") || is_name(key, "min_len") || is_name(key, "in") || is_name(key, "nin")
            || is_name(key, "same_len") || is_name(key, "unique") || is_name(key, "extend") || is_name(key, "query")
            || is_name(key, "array") || is_name(key, "contains_ok") || is_name(key, "unique_ok") || is_name(
            key,
            "size",
        ) || is_name(key, "same_len_ok"),
        Holder::Obj => is_name(key, "comment") || is_name(key, "req") || is_name(key, "opt") || is_name(key, "keys")
            || is_name(key, "values") || is_name(key, "unknown_ok") || is_name(key, "max_len") || is_name(
            key,
            "min_len",
        ) || is_name(key, "size") || is_name(key, "map_ok"),
        Holder::Enum => is_name(key, "comment") || is_name(key, "extend") || is_name(key, "var"),
    }
}

/// Whether every name of `e` is the name of a field of a validator of the kind `holder`.
fn names_known(e: &Vec<(String, Value)>, holder: Holder) -> (r: bool)
    ensures
        r == forall|i: int| 0 <= i < e@.len() ==> is_field_of(holder, encode_utf8((#[trigger] e@[i]).0@)),
{
    let mut i: usize = 0;
    while i < e.len()
        invariant
            0 <= i <= e.len(),
            forall|j: int| 0 <= j < i ==> is_field_of(holder, encode_utf8((#[trigger] e@[j]).0@)),
        decreases e.len() - i,
    {
        if !knows(&holder, e[i].0.as_str()) {
            return false;
        }
        i += 1;
    }
    true
}

impl ArrayValidator {
    /// Reads a validator from a value: an object of fields of an array validator, each of
    /// its kind. A field that is not there has its default; a name that is no field of an
    /// array validator is refused.
    pub fn from_value_within(v: &Value, depth: usize) -> (r: Result<ArrayValidator, Error>)
        ensures
            r is Ok <==> array_readable(v@, depth as nat),
            r matches Ok(x) ==> array_reads_as(v@, x, depth as nat),
            r matches Ok(x) ==> v is Obj && (v->Obj_0@.len() == 0 ==> x.is_default()),
            r matches Err(e) ==> e == Error::BadValidator || e == Error::DepthExceeded,
        decreases depth, 2nat,
    {
        proof {
            reveal(name_key);
            if v is Obj {
                lemma_record_view(*v);
            }
        }
        if depth == 0 {
            return Err(Error::DepthExceeded);
        }
        let e = match v {
            Value::Obj(e) => e,
            _ => {
                return Err(Error::BadValidator);
            },
        };
        let ghost p = entries_view(e@);
        if !names_known(e, Holder::Array) {
            proof {
                if ArrayValidator::keys_known(p) {
                    assert forall|i: int| 0 <= i < e@.len() implies is_field_of(
                        Holder::Array,
                        encode_utf8((#[trigger] e@[i]).0@),
                    ) by {
                        assert(ArrayValidator::is_field(p[i].0));
                    }
                }
            }
            return Err(Error::BadValidator);
        }
        proof {
            assert forall|i: int| 0 <= i < p.len() implies ArrayValidator::is_field((#[trigger] p[i]).0) by {
                assert(is_field_of(Holder::Array, encode_utf8(e@[i].0@)));
            }
            if e@.len() == 0 {
                assert(field_map(e@) =~= Map::<Seq<u8>, ValueView>::empty());
            }
        }
        let comment = read_text(e, "comment")?;
        let contains = read_validators(e, "contains", depth - 1)?;
        let items = match get(e, "items") {
            Some(items) => Validator::from_value_within(items, depth - 1)?,
            None => Validator::Any,
        };
        let prefix = read_validators(e, "prefix", depth - 1)?;
        let max_len = read_u32(e, "max_len", u32::MAX)?;
        let min_len = read_u32(e, "min_len", 0)?;
        let in_list = read_arrays(e, "in")?;
        let nin_list = read_arrays(e, "nin")?;
        let same_len = read_indices(e, "same_len")?;
        let unique = read_flag(e, "unique")?;
        let extend = read_flag(e, "extend")?;
        let query = read_flag(e, "query")?;
        let array = read_flag(e, "array")?;
        let contains_ok = read_flag(e, "contains_ok")?;
        let unique_ok = read_flag(e, "unique_ok")?;
        let size = read_flag(e, "size")?;
        let same_len_ok = read_flag(e, "same_len_ok")?;
        proof {
            if e@.len() == 0 {
                assert(encode_utf8(Seq::<char>::empty()) =~= Seq::<u8>::empty()) by {
                    reveal_with_fuel(encode_utf8, 1);
                }
                assert(encode_utf8(comment@) =~= Seq::<u8>::empty());
                crate::value::lemma_utf8_injective(comment@, Seq::empty());
                assert(arrays_view(in_list@).len() == 0);
                assert(arrays_view(nin_list@).len() == 0);
            }
        }
        Ok(
            ArrayValidator {
                comment,
                contains,
                items: Box::new(items),
                prefix,
                max_len,
                min_len,
                in_list,
                nin_list,
                same_len: Indices::from_list(same_len),
                unique,
                extend,
                query,
                array,
                contains_ok,
                unique_ok,
                size,
                same_len_ok,
            },
        )
    }

    /// Reads a validator from a value, validators leading into one another at most
    /// `MAX_DEPTH` deep.
    pub fn from_value(v: &Value) -> (r: Result<ArrayValidator, Error>)
        ensures
            r is Ok <==> array_readable(v@, MAX_DEPTH as nat),
            r matches Ok(x) ==> array_reads_as(v@, x, MAX_DEPTH as nat),
            r matches Ok(x) ==> v is Obj && (v->Obj_0@.len() == 0 ==> x.is_default()),
            r matches Err(e) ==> e == Error::BadValidator || e == Error::DepthExceeded,
    {
        ArrayValidator::from_value_within(v, MAX_DEPTH)
    }
}

impl ObjValidator {
    /// Reads a validator from a value: an object of fields of an object validator, each of
    /// its kind. A field that is not there has its default; a name that is no field of an
    /// object validator is refused.
    pub fn from_value_within(v: &Value, depth: usize) -> (r: Result<ObjValidator, Error>)
        ensures
            r is Ok <==> obj_readable(v@, depth as nat),
            r matches Ok(x) ==> obj_reads_as(v@, x, depth as nat),
            r matches Ok(x) ==> names_ascending(x.req@) && names_ascending(x.opt@),
            r matches Err(e) ==> e == Error::BadValidator || e == Error::DepthExceeded,
        decreases depth, 2nat,
    {
        proof {
            reveal(name_key);
            if v is Obj {
                lemma_record_view(*v);
            }
        }
        if depth == 0 {
            return Err(Error::DepthExceeded);
        }
        let e = match v {
            Value::Obj(e) => e,
            _ => {
                return Err(Error::BadValidator);
            },
        };
        let ghost p = entries_view(e@);
        if !names_known(e, Holder::Obj) {
            proof {
                if ObjValidator::keys_known(p) {
                    assert forall|i: int| 0 <= i < e@.len() implies is_field_of(
                        Holder::Obj,
                        encode_utf8((#[trigger] e@[i]).0@),
                    ) by {
                        assert(ObjValidator::is_field(p[i].0));
                    }
                }
            }
            return Err(Error::BadValidator);
        }
        proof {
            assert forall|i: int| 0 <= i < p.len() implies ObjValidator::is_field((#[trigger] p[i]).0) by {
                assert(is_field_of(Holder::Obj, encode_utf8(e@[i].0@)));
            }
        }
        let comment = read_text(e, "comment")?;
        let req = read_named(e, "req", depth - 1)?;
        let opt = read_named(e, "opt", depth - 1)?;
        let keys = match get(e, "keys") {
            Some(keys) => {
                proof {
                    StrValidator::lemma_form(*keys);
                }
                Some(StrValidator::from_value(keys)?)
            },
            None => None,
        };
        let values = match get(e, "values") {
            Some(values) => Some(Box::new(Validator::from_value_within(values, depth - 1)?)),
            None => None,
        };
        let unknown_ok = read_flag(e, "unknown_ok")?;
        let max_len = read_u32(e, "max_len", u32::MAX)?;
        let min_len = read_u32(e, "min_len", 0)?;
        let size = read_flag(e, "size")?;
        let obj_ok = read_flag(e, "map_ok")?;
        Ok(
            ObjValidator {
                comment,
                req: Named::from_list(req),
                opt: Named::from_list(opt),
                keys,
                values,
                unknown_ok,
                max_len,
                min_len,
                size,
                obj_ok,
            },
        )
    }
}

impl EnumValidator {
    /// Reads a validator from a value: an object of fields of an enum validator, each of its
    /// kind. A variant that holds null is one without data.
    pub fn from_value_within(v: &Value, depth: usize) -> (r: Result<EnumValidator, Error>)
        ensures
            r is Ok <==> enum_readable(v@, depth as nat),
            r matches Ok(x) ==> enum_reads_as(v@, x, depth as nat),
            r matches Ok(x) ==> names_ascending(x.spec_var()),
            r matches Err(e) ==> e == Error::BadValidator || e == Error::DepthExceeded,
        decreases depth, 2nat,
    {
        proof {
            reveal(name_key);
            if v is Obj {
                lemma_record_view(*v);
            }
        }
        if depth == 0 {
            return Err(Error::DepthExceeded);
        }
        let e = match v {
            Value::Obj(e) => e,
            _ => {
                return Err(Error::BadValidator);
            },
        };
        let ghost p = entries_view(e@);
        if !names_known(e, Holder::Enum) {
            proof {
                if EnumValidator::keys_known(p) {
                    assert forall|i: int| 0 <= i < e@.len() implies is_field_of(
                        Holder::Enum,
                        encode_utf8((#[trigger] e@[i]).0@),
                    ) by {
                        assert(EnumValidator::is_field(p[i].0));
                    }
                }
            }
            return Err(Error::BadValidator);
        }
        proof {
            assert forall|i: int| 0 <= i < p.len() implies EnumValidator::is_field((#[trigger] p[i]).0) by {
                assert(is_field_of(Holder::Enum, encode_utf8(e@[i].0@)));
            }
        }
        let comment = read_text(e, "comment")?;
        let extend = read_flag(e, "extend")?;
        let var = read_variants(e, "var", depth - 1)?;
        Ok(EnumValidator::from_parts(comment, extend, var))
    }
}

/// Whether the validator is one without configuration.
pub open spec fn is_unit(v: Validator) -> bool {
    v is Null || v is F32 || v is F64 || v is Any
}

impl Validator {
    /// Reads a validator from a value: the name of a validator without configuration, or an
    /// object of one pair, the name of a validator and its configuration.
    pub fn from_value_within(v: &Value, depth: usize) -> (r: Result<Validator, Error>)
        ensures
            r is Ok <==> readable(v@, depth as nat),
            r matches Ok(x) ==> reads_as(v@, x, depth as nat),
            r matches Ok(x) ==> is_named(v@, wire_name(x)),
            r matches Ok(x) ==> (v is Str && is_unit(x)) || (v is Obj && v->Obj_0@.len() == 1 && !is_unit(x)),
            r matches Err(e) ==> e == Error::BadValidator || e == Error::DepthExceeded,
        decreases depth, 3nat,
    {
        proof {
            reveal(name_key);
            if v is Obj {
                lemma_record_view(*v);
            }
        }
        match v {
            Value::Str(name) => {
                let name = name.as_str();
                if is_name(name, "Null") {
                    Ok(Validator::Null)
                } else if is_name(name, "F32") {
                    Ok(Validator::F32)
                } else if is_name(name, "F64") {
                    Ok(Validator::F64)
                } else if is_name(name, "Any") {
                    Ok(Validator::Any)
                } else {
                    Err(Error::BadValidator)
                }
            },
            Value::Obj(e) => {
                if e.len() != 1 {
                    return Err(Error::BadValidator);
                }
                let name = e[0].0.as_str();
                let inner = &e[0].1;
                assert(entries_view(e@)[0].1 == inner@);
                assert(entries_view(e@)[0].0 == name.spec_bytes());
                if is_name(name, "Int") {
                    proof {
                        IntValidator::lemma_form(*inner);
                    }
                    Ok(Validator::Int(Box::new(IntValidator::from_value(inner)?)))
                } else if is_name(name, "Str") {
                    proof {
                        StrValidator::lemma_form(*inner);
                    }
                    Ok(Validator::Str(Box::new(StrValidator::from_value(inner)?)))
                } else if is_name(name, "Time") {
                    proof {
                        TimeValidator::lemma_form(*inner);
                    }
                    Ok(Validator::Time(Box::new(TimeValidator::from_value(inner)?)))
                } else if is_name(name, "Hash") {
                    proof {
                        HashValidator::lemma_form(*inner);
                    }
                    Ok(Validator::Hash(Box::new(HashValidator::from_value(inner)?)))
                } else if is_name(name, "Bool") {
                    proof {
                        BoolValidator::lemma_form(*inner);
                    }
                    Ok(Validator::Bool(Box::new(BoolValidator::from_value(inner)?)))
                } else if is_name(name, "Bin") {
                    proof {
                        BinValidator::lemma_form(*inner);
                    }
                    Ok(Validator::Bin(Box::new(BinValidator::from_value(inner)?)))
                } else if is_name(name, "Identity") {
                    proof {
                        IdentityValidator::lemma_form(*inner);
                    }
                    Ok(Validator::Identity(Box::new(IdentityValidator::from_value(inner)?)))
                } else if is_name(name, "Lockbox") {
                    proof {
                        LockboxValidator::lemma_form(*inner);
                    }
                    Ok(Validator::Lockbox(Box::new(LockboxValidator::from_value(inner)?)))
                } else if is_name(name, "Array") {
                    Ok(Validator::Array(Box::new(ArrayValidator::from_value_within(inner, depth)?)))
                } else if is_name(name, "Map") {
                    Ok(Validator::Obj(Box::new(ObjValidator::from_value_within(inner, depth)?)))
                } else if is_name(name, "Enum") {
                    Ok(Validator::Enum(EnumValidator::from_value_within(inner, depth)?))
                } else if is_name(name, "Multi") {
                    if depth == 0 {
                        return Err(Error::DepthExceeded);
                    }
                    match inner {
                        Value::Array(list) => {
                            proof {
                                lemma_array_view(*list);
                            }
                            Ok(Validator::Multi(read_all(list, depth - 1)?))
                        },
                        _ => Err(Error::BadValidator),
                    }
                } else if is_name(name, "Ref") {
                    match inner {
                        Value::Str(s) => Ok(Validator::Ref(s.clone())),
                        _ => Err(Error::BadValidator),
                    }
                } else {
                    Err(Error::BadValidator)
                }
            },
            _ => Err(Error::BadValidator),
        }
    }

    /// Reads a validator from a value, validators leading into one another at most
    /// `MAX_DEPTH` deep.
    pub fn from_value(v: &Value) -> (r: Result<Validator, Error>)
        ensures
            r is Ok <==> readable(v@, MAX_DEPTH as nat),
            r matches Ok(x) ==> reads_as(v@, x, MAX_DEPTH as nat),
            r matches Ok(x) ==> is_named(v@, wire_name(x)),
            r matches Ok(x) ==> (v is Str && is_unit(x)) || (v is Obj && v->Obj_0@.len() == 1 && !is_unit(x)),
            r matches Err(e) ==> e == Error::BadValidator || e == Error::DepthExceeded,
    {
        Validator::from_value_within(v, MAX_DEPTH)
    }
}

} // verus!
