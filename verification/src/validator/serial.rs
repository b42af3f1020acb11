//! Validators as values: how a validator is written into a schema and read back from one.
//!
//! A validator with configuration is written as an object of its fields, each under its
//! name; a field that has its default is left out. A unit validator is written as its name,
//! and any other as an object of one pair, its name and its configuration.

use vstd::prelude::*;
use vstd::string::StringSliceAdditionalSpecFns;
use vstd::utf8::encode_utf8;
use crate::assoc::names_ascending;
use crate::bytes::bytes_eq;
use crate::crypto::hash;
use crate::error::Error;
use crate::fields::{field_map, get, lemma_field_map_empty, put};
use crate::integer::{int_max, int_min, Integer};
use crate::timestamp::{Timestamp, TimestampView};
use crate::validator::hash::HashValidator;
use crate::validator::integer::IntValidator;
use crate::validator::string::StrValidator;
use crate::validator::time::TimeValidator;
use crate::value::{items_view, lemma_array_view, Value, ValueView};

verus! {

/// The bytes of the name `name`, as a key of fields.
#[verifier::opaque]
pub open spec fn name_key(name: Seq<char>) -> Seq<u8> {
    encode_utf8(name)
}

/// The fields `m` with `flag` under `k`, unless the flag is off.
pub open spec fn with_flag(m: Map<Seq<u8>, ValueView>, k: Seq<u8>, flag: bool) -> Map<Seq<u8>, ValueView> {
    if flag {
        m.insert(k, ValueView::Bool(true))
    } else {
        m
    }
}

/// The fields `m` with the string `s` under `k`, unless the string is empty.
pub open spec fn with_text(m: Map<Seq<u8>, ValueView>, k: Seq<u8>, s: Seq<char>) -> Map<Seq<u8>, ValueView> {
    if s.len() == 0 {
        m
    } else {
        m.insert(k, ValueView::Str(encode_utf8(s)))
    }
}

/// The fields `m` with the number `x` under `k`, unless the number is `default`.
pub open spec fn with_number(m: Map<Seq<u8>, ValueView>, k: Seq<u8>, x: int, default: int) -> Map<Seq<u8>, ValueView> {
    if x == default {
        m
    } else {
        m.insert(k, ValueView::Int(x))
    }
}

/// The fields `m` with the time `t` under `k`, unless the time is `default`.
pub open spec fn with_time(
    m: Map<Seq<u8>, ValueView>,
    k: Seq<u8>,
    t: TimestampView,
    default: TimestampView,
) -> Map<Seq<u8>, ValueView> {
    if t == default {
        m
    } else {
        m.insert(k, ValueView::Timestamp(t))
    }
}

/// The fields `m` with the array `items` under `k`, unless the array is empty.
pub open spec fn with_items(m: Map<Seq<u8>, ValueView>, k: Seq<u8>, items: Seq<ValueView>) -> Map<Seq<u8>, ValueView> {
    if items.len() == 0 {
        m
    } else {
        m.insert(k, ValueView::Array(items))
    }
}

/// The times as values.
pub open spec fn times_view(list: Seq<Timestamp>) -> Seq<ValueView> {
    Seq::new(list.len(), |i: int| ValueView::Timestamp(list[i]@))
}

/// The integers as values.
pub open spec fn ints_view(list: Seq<Integer>) -> Seq<ValueView> {
    Seq::new(list.len(), |i: int| ValueView::Int(list[i]@))
}

/// The strings as values.
pub open spec fn texts_view(list: Seq<String>) -> Seq<ValueView> {
    Seq::new(list.len(), |i: int| ValueView::Str(encode_utf8(list[i]@)))
}

/// The hashes as values.
pub open spec fn hashes_values(list: Seq<hash::Hash>) -> Seq<ValueView> {
    Seq::new(list.len(), |i: int| ValueView::Hash(list[i]@))
}

pub(crate) fn put_flag(e: &mut Vec<(String, Value)>, key: &str, flag: bool)
    ensures
        field_map(final(e)@) == with_flag(field_map(old(e)@), key.spec_bytes(), flag),
        names_ascending(old(e)@) ==> names_ascending(final(e)@),
{
    if flag {
        put(e, key, Value::Bool(true));
    }
}

pub(crate) fn put_text(e: &mut Vec<(String, Value)>, key: &str, s: &String)
    ensures
        field_map(final(e)@) == with_text(field_map(old(e)@), key.spec_bytes(), s@),
        names_ascending(old(e)@) ==> names_ascending(final(e)@),
{
    if !s.as_str().is_empty() {
        put(e, key, Value::Str(s.clone()));
    }
}

pub(crate) fn put_number(e: &mut Vec<(String, Value)>, key: &str, x: Integer, default: Integer)
    ensures
        field_map(final(e)@) == with_number(field_map(old(e)@), key.spec_bytes(), x@, default@),
        names_ascending(old(e)@) ==> names_ascending(final(e)@),
{
    if !x.same(&default) {
        put(e, key, Value::Int(x));
    }
}

pub(crate) fn put_time(e: &mut Vec<(String, Value)>, key: &str, t: &Timestamp, default: &Timestamp)
    ensures
        field_map(final(e)@) == with_time(field_map(old(e)@), key.spec_bytes(), t@, default@),
        names_ascending(old(e)@) ==> names_ascending(final(e)@),
{
    if !t.same(default) {
        put(e, key, Value::Timestamp(*t));
    }
}

pub(crate) fn put_items(e: &mut Vec<(String, Value)>, key: &str, items: Vec<Value>)
    ensures
        field_map(final(e)@) == with_items(field_map(old(e)@), key.spec_bytes(), items_view(items@)),
        names_ascending(old(e)@) ==> names_ascending(final(e)@),
{
    if items.len() > 0 {
        proof {
            lemma_array_view(items);
        }
        put(e, key, Value::Array(items));
    }
}

pub(crate) fn times_values(list: &Vec<Timestamp>) -> (r: Vec<Value>)
    ensures
        items_view(r@) == times_view(list@),
{
    let mut r: Vec<Value> = Vec::new();
    let mut i: usize = 0;
    while i < list.len()
        invariant
            0 <= i <= list.len(),
            r@.len() == i,
            forall|j: int| 0 <= j < i ==> r@[j]@ == ValueView::Timestamp(list@[j]@),
        decreases list.len() - i,
    {
        r.push(Value::Timestamp(list[i]));
        i += 1;
    }
    assert(items_view(r@) =~= times_view(list@));
    r
}

pub(crate) fn ints_values(list: &Vec<Integer>) -> (r: Vec<Value>)
    ensures
        items_view(r@) == ints_view(list@),
{
    let mut r: Vec<Value> = Vec::new();
    let mut i: usize = 0;
    while i < list.len()
        invariant
            0 <= i <= list.len(),
            r@.len() == i,
            forall|j: int| 0 <= j < i ==> r@[j]@ == ValueView::Int(list@[j]@),
        decreases list.len() - i,
    {
        r.push(Value::Int(list[i]));
        i += 1;
    }
    assert(items_view(r@) =~= ints_view(list@));
    r
}

pub(crate) fn texts_values(list: &Vec<String>) -> (r: Vec<Value>)
    ensures
        items_view(r@) == texts_view(list@),
{
    let mut r: Vec<Value> = Vec::new();
    let mut i: usize = 0;
    while i < list.len()
        invariant
            0 <= i <= list.len(),
            r@.len() == i,
            forall|j: int| 0 <= j < i ==> r@[j]@ == ValueView::Str(encode_utf8(list@[j]@)),
        decreases list.len() - i,
    {
        r.push(Value::Str(list[i].clone()));
        i += 1;
    }
    assert(items_view(r@) =~= texts_view(list@));
    r
}

pub(crate) fn hashes_to_values(list: &Vec<hash::Hash>) -> (r: Vec<Value>)
    ensures
        items_view(r@) == hashes_values(list@),
{
    let mut r: Vec<Value> = Vec::new();
    let mut i: usize = 0;
    while i < list.len()
        invariant
            0 <= i <= list.len(),
            r@.len() == i,
            forall|j: int| 0 <= j < i ==> r@[j]@ == ValueView::Hash(list@[j]@),
        decreases list.len() - i,
    {
        r.push(Value::Hash(list[i].clone()));
        i += 1;
    }
    assert(items_view(r@) =~= hashes_values(list@));
    r
}

/// What stands under `k`, if anything does.
pub open spec fn opt_field(m: Map<Seq<u8>, ValueView>, k: Seq<u8>) -> Option<ValueView> {
    if m.contains_key(k) {
        Some(m[k])
    } else {
        None
    }
}

/// The flag under `k`: off where nothing stands there, and not readable where something
/// other than a boolean does.
pub open spec fn flag_of(m: Map<Seq<u8>, ValueView>, k: Seq<u8>) -> Option<bool> {
    match opt_field(m, k) {
        None => Some(false),
        Some(ValueView::Bool(b)) => Some(b),
        Some(_) => None,
    }
}

/// The string under `k`, as its bytes: empty where nothing stands there.
pub open spec fn text_of(m: Map<Seq<u8>, ValueView>, k: Seq<u8>) -> Option<Seq<u8>> {
    match opt_field(m, k) {
        None => Some(Seq::empty()),
        Some(ValueView::Str(s)) => Some(s),
        Some(_) => None,
    }
}

/// The number under `k`: `default` where nothing stands there, and not readable where what
/// stands there is no integer from `low` to `high`.
pub open spec fn number_of(m: Map<Seq<u8>, ValueView>, k: Seq<u8>, default: int, low: int, high: int) -> Option<int> {
    match opt_field(m, k) {
        None => Some(default),
        Some(ValueView::Int(x)) => if low <= x <= high { Some(x) } else { None },
        Some(_) => None,
    }
}

/// The time under `k`: `default` where nothing stands there.
pub open spec fn time_of(m: Map<Seq<u8>, ValueView>, k: Seq<u8>, default: TimestampView) -> Option<TimestampView> {
    match opt_field(m, k) {
        None => Some(default),
        Some(ValueView::Timestamp(t)) => Some(t),
        Some(_) => None,
    }
}

/// The array under `k`: empty where nothing stands there.
pub open spec fn items_of(m: Map<Seq<u8>, ValueView>, k: Seq<u8>) -> Option<Seq<ValueView>> {
    match opt_field(m, k) {
        None => Some(Seq::empty()),
        Some(ValueView::Array(items)) => Some(items),
        Some(_) => None,
    }
}

pub(crate) fn read_flag(e: &Vec<(String, Value)>, key: &str) -> (r: Result<bool, Error>)
    ensures
        match flag_of(field_map(e@), key.spec_bytes()) {
            Some(b) => r is Ok && r->Ok_0 == b,
            None => r is Err && r->Err_0 == Error::BadValidator,
        },
{
    match get(e, key) {
        None => Ok(false),
        Some(Value::Bool(b)) => Ok(*b),
        Some(_) => Err(Error::BadValidator),
    }
}

pub(crate) fn read_text(e: &Vec<(String, Value)>, key: &str) -> (r: Result<String, Error>)
    ensures
        match text_of(field_map(e@), key.spec_bytes()) {
            Some(s) => r is Ok && encode_utf8(r->Ok_0@) == s,
            None => r is Err && r->Err_0 == Error::BadValidator,
        },
{
    match get(e, key) {
        None => {
            let s = String::new();
            assert(encode_utf8(s@) =~= Seq::<u8>::empty()) by {
                reveal_with_fuel(encode_utf8, 1);
            }
            Ok(s)
        },
        Some(Value::Str(s)) => Ok(s.clone()),
        Some(_) => Err(Error::BadValidator),
    }
}

pub(crate) fn read_u32(e: &Vec<(String, Value)>, key: &str, default: u32) -> (r: Result<u32, Error>)
    ensures
        match number_of(field_map(e@), key.spec_bytes(), default as int, 0, u32::MAX as int) {
            Some(x) => r is Ok && r->Ok_0 == x,
            None => r is Err && r->Err_0 == Error::BadValidator,
        },
{
    match get(e, key) {
        None => Ok(default),
        Some(Value::Int(i)) => {
            let n = i.get();
            if 0 <= n && n <= 0xffff_ffff {
                Ok(n as u32)
            } else {
                Err(Error::BadValidator)
            }
        },
        Some(_) => Err(Error::BadValidator),
    }
}

pub(crate) fn read_integer(e: &Vec<(String, Value)>, key: &str, default: Integer) -> (r: Result<Integer, Error>)
    ensures
        match number_of(
            field_map(e@),
            key.spec_bytes(),
            default@,
            crate::integer::int_min(),
            crate::integer::int_max(),
        ) {
            Some(x) => r is Ok && r->Ok_0@ == x,
            None => r is Err && r->Err_0 == Error::BadValidator,
        },
{
    match get(e, key) {
        None => Ok(default),
        Some(Value::Int(i)) => {
            let _ = i.get();
            Ok(*i)
        },
        Some(_) => Err(Error::BadValidator),
    }
}

pub(crate) fn read_time(e: &Vec<(String, Value)>, key: &str, default: Timestamp) -> (r: Result<Timestamp, Error>)
    ensures
        match time_of(field_map(e@), key.spec_bytes(), default@) {
            Some(t) => r is Ok && r->Ok_0@ == t,
            None => r is Err && r->Err_0 == Error::BadValidator,
        },
{
    match get(e, key) {
        None => Ok(default),
        Some(Value::Timestamp(t)) => Ok(*t),
        Some(_) => Err(Error::BadValidator),
    }
}

/// The array under `key`, empty where nothing stands there.
pub(crate) fn read_items<'a>(e: &'a Vec<(String, Value)>, key: &str) -> (r: Result<Option<&'a Vec<Value>>, Error>)
    ensures
        match items_of(field_map(e@), key.spec_bytes()) {
            Some(items) => r is Ok && match r->Ok_0 {
                Some(list) => items_view(list@) == items,
                None => items.len() == 0,
            },
            None => r is Err && r->Err_0 == Error::BadValidator,
        },
        r matches Ok(Some(_)) ==> field_map(e@).contains_key(key.spec_bytes()),
{
    match get(e, key) {
        None => Ok(None),
        Some(Value::Array(items)) => {
            proof {
                lemma_array_view(*items);
            }
            Ok(Some(items))
        },
        Some(_) => Err(Error::BadValidator),
    }
}

/// Whether every item is a timestamp.
pub open spec fn all_times(items: Seq<ValueView>) -> bool {
    forall|i: int| 0 <= i < items.len() ==> (#[trigger] items[i]) is Timestamp
}

pub(crate) fn read_times(e: &Vec<(String, Value)>, key: &str) -> (r: Result<Vec<Timestamp>, Error>)
    ensures
        match items_of(field_map(e@), key.spec_bytes()) {
            Some(items) => if all_times(items) {
                r is Ok && times_view(r->Ok_0@) == items
            } else {
                r is Err && r->Err_0 == Error::BadValidator
            },
            None => r is Err && r->Err_0 == Error::BadValidator,
        },
{
    let mut out: Vec<Timestamp> = Vec::new();
    match read_items(e, key)? {
        None => {
            assert(times_view(out@) =~= Seq::<ValueView>::empty());
        },
        Some(list) => {
            let ghost items = items_view(list@);
            let mut i: usize = 0;
            while i < list.len()
                invariant
                    0 <= i <= list.len(),
                    items == items_view(list@),
                    items_of(field_map(e@), key.spec_bytes()) == Some(items),
                    out@.len() == i,
                    forall|j: int| 0 <= j < i ==> times_view(out@)[j] == #[trigger] items[j],
                decreases list.len() - i,
            {
                assert(items[i as int] == list@[i as int]@);
                match &list[i] {
                    Value::Timestamp(t) => {
                        let ghost before = out@;
                        out.push(*t);
                        assert forall|j: int| 0 <= j < i + 1 implies times_view(out@)[j] == #[trigger] items[j] by {
                            if j < i {
                                assert(times_view(before)[j] == items[j]);
                            }
                        }
                    },
                    _ => {
                        assert(!(items[i as int] is Timestamp));
                        return Err(Error::BadValidator);
                    },
                }
                i += 1;
            }
            assert(times_view(out@) =~= items);
        },
    }
    Ok(out)
}

/// Whether every item is an integer.
pub open spec fn all_ints(items: Seq<ValueView>) -> bool {
    forall|i: int| 0 <= i < items.len() ==> (#[trigger] items[i]) is Int
}

pub(crate) fn read_ints(e: &Vec<(String, Value)>, key: &str) -> (r: Result<Vec<Integer>, Error>)
    ensures
        match items_of(field_map(e@), key.spec_bytes()) {
            Some(items) => if all_ints(items) {
                r is Ok && ints_view(r->Ok_0@) == items
            } else {
                r is Err && r->Err_0 == Error::BadValidator
            },
            None => r is Err && r->Err_0 == Error::BadValidator,
        },
{
    let mut out: Vec<Integer> = Vec::new();
    match read_items(e, key)? {
        None => {
            assert(ints_view(out@) =~= Seq::<ValueView>::empty());
        },
        Some(list) => {
            let ghost items = items_view(list@);
            let mut i: usize = 0;
            while i < list.len()
                invariant
                    0 <= i <= list.len(),
                    items == items_view(list@),
                    items_of(field_map(e@), key.spec_bytes()) == Some(items),
                    out@.len() == i,
                    forall|j: int| 0 <= j < i ==> ints_view(out@)[j] == #[trigger] items[j],
                decreases list.len() - i,
            {
                assert(items[i as int] == list@[i as int]@);
                match &list[i] {
                    Value::Int(t) => {
                        let ghost before = out@;
                        out.push(*t);
                        assert forall|j: int| 0 <= j < i + 1 implies ints_view(out@)[j] == #[trigger] items[j] by {
                            if j < i {
                                assert(ints_view(before)[j] == items[j]);
                            }
                        }
                    },
                    _ => {
                        assert(!(items[i as int] is Int));
                        return Err(Error::BadValidator);
                    },
                }
                i += 1;
            }
            assert(ints_view(out@) =~= items);
        },
    }
    Ok(out)
}

/// Whether every item is a string.
pub open spec fn all_texts(items: Seq<ValueView>) -> bool {
    forall|i: int| 0 <= i < items.len() ==> (#[trigger] items[i]) is Str
}

pub(crate) fn read_texts(e: &Vec<(String, Value)>, key: &str) -> (r: Result<Vec<String>, Error>)
    ensures
        match items_of(field_map(e@), key.spec_bytes()) {
            Some(items) => if all_texts(items) {
                r is Ok && texts_view(r->Ok_0@) == items
            } else {
                r is Err && r->Err_0 == Error::BadValidator
            },
            None => r is Err && r->Err_0 == Error::BadValidator,
        },
{
    let mut out: Vec<String> = Vec::new();
    match read_items(e, key)? {
        None => {
            assert(texts_view(out@) =~= Seq::<ValueView>::empty());
        },
        Some(list) => {
            let ghost items = items_view(list@);
            let mut i: usize = 0;
            while i < list.len()
                invariant
                    0 <= i <= list.len(),
                    items == items_view(list@),
                    items_of(field_map(e@), key.spec_bytes()) == Some(items),
                    out@.len() == i,
                    forall|j: int| 0 <= j < i ==> texts_view(out@)[j] == #[trigger] items[j],
                decreases list.len() - i,
            {
                assert(items[i as int] == list@[i as int]@);
                match &list[i] {
                    Value::Str(t) => {
                        let ghost before = out@;
                        out.push(t.clone());
                        assert forall|j: int| 0 <= j < i + 1 implies texts_view(out@)[j] == #[trigger] items[j] by {
                            if j < i {
                                assert(texts_view(before)[j] == items[j]);
                            }
                        }
                    },
                    _ => {
                        assert(!(items[i as int] is Str));
                        return Err(Error::BadValidator);
                    },
                }
                i += 1;
            }
            assert(texts_view(out@) =~= items);
        },
    }
    Ok(out)
}

/// Whether every item is a hash.
pub open spec fn all_hashes(items: Seq<ValueView>) -> bool {
    forall|i: int| 0 <= i < items.len() ==> (#[trigger] items[i]) is Hash
}

pub(crate) fn read_hashes(e: &Vec<(String, Value)>, key: &str) -> (r: Result<Vec<hash::Hash>, Error>)
    ensures
        match items_of(field_map(e@), key.spec_bytes()) {
            Some(items) => if all_hashes(items) {
                r is Ok && hashes_values(r->Ok_0@) == items
            } else {
                r is Err && r->Err_0 == Error::BadValidator
            },
            None => r is Err && r->Err_0 == Error::BadValidator,
        },
{
    let mut out: Vec<hash::Hash> = Vec::new();
    match read_items(e, key)? {
        None => {
            assert(hashes_values(out@) =~= Seq::<ValueView>::empty());
        },
        Some(list) => {
            let ghost items = items_view(list@);
            let mut i: usize = 0;
            while i < list.len()
                invariant
                    0 <= i <= list.len(),
                    items == items_view(list@),
                    items_of(field_map(e@), key.spec_bytes()) == Some(items),
                    out@.len() == i,
                    forall|j: int| 0 <= j < i ==> hashes_values(out@)[j] == #[trigger] items[j],
                decreases list.len() - i,
            {
                assert(items[i as int] == list@[i as int]@);
                match &list[i] {
                    Value::Hash(t) => {
                        let ghost before = out@;
                        out.push(t.clone());
                        assert forall|j: int| 0 <= j < i + 1 implies hashes_values(out@)[j] == #[trigger] items[j] by {
                            if j < i {
                                assert(hashes_values(before)[j] == items[j]);
                            }
                        }
                    },
                    _ => {
                        assert(!(items[i as int] is Hash));
                        return Err(Error::BadValidator);
                    },
                }
                i += 1;
            }
            assert(hashes_values(out@) =~= items);
        },
    }
    Ok(out)
}

/// Whether the two strings are the same.
pub(crate) fn is_name(key: &str, name: &str) -> (r: bool)
    ensures
        r == (key.spec_bytes() == name.spec_bytes()),
{
    bytes_eq(key.as_bytes(), name.as_bytes())
}

/// Two names that differ in length or in a letter have different bytes.
pub(crate) proof fn lemma_names_differ(a: Seq<char>, b: Seq<char>, i: int)
    requires
        a.len() != b.len() || (0 <= i < a.len() && a[i] != b[i]),
    ensures
        name_key(a) != name_key(b),
{
    reveal(name_key);
    if encode_utf8(a) == encode_utf8(b) {
        crate::value::lemma_utf8_injective(a, b);
    }
}

impl TimeValidator {
    /// The fields that a time validator is written as: every field that does not have its default,
    /// under its name.
    pub open spec fn fields(self) -> Map<Seq<u8>, ValueView> {
        let m = Map::<Seq<u8>, ValueView>::empty();
        let m = with_text(m, name_key("comment"@), self.comment@);
        let m = with_time(m, name_key("default"@), self.default@, TimestampView::zero());
        let m = with_time(m, name_key("max"@), self.max@, TimestampView::max_value());
        let m = with_time(m, name_key("min"@), self.min@, TimestampView::min_value());
        let m = with_flag(m, name_key("ex_max"@), self.ex_max);
        let m = with_flag(m, name_key("ex_min"@), self.ex_min);
        let m = with_items(m, name_key("in"@), times_view(self.in_list@));
        let m = with_items(m, name_key("nin"@), times_view(self.nin_list@));
        let m = with_flag(m, name_key("query"@), self.query);
        with_flag(m, name_key("ord"@), self.ord)
    }

    /// Whether `k` is the name of a field of a time validator.
    pub open spec fn is_field(k: Seq<u8>) -> bool {
        ||| k == name_key("comment"@)
        ||| k == name_key("default"@)
        ||| k == name_key("max"@)
        ||| k == name_key("min"@)
        ||| k == name_key("ex_max"@)
        ||| k == name_key("ex_min"@)
        ||| k == name_key("in"@)
        ||| k == name_key("nin"@)
        ||| k == name_key("query"@)
        ||| k == name_key("ord"@)
    }

    /// That the fields `m` can be read as a time validator: every field is of its kind.
    pub open spec fn readable(m: Map<Seq<u8>, ValueView>) -> bool {
        &&& text_of(m, name_key("comment"@)) is Some
        &&& time_of(m, name_key("default"@), TimestampView::zero()) is Some
        &&& time_of(m, name_key("max"@), TimestampView::max_value()) is Some
        &&& time_of(m, name_key("min"@), TimestampView::min_value()) is Some
        &&& flag_of(m, name_key("ex_max"@)) is Some
        &&& flag_of(m, name_key("ex_min"@)) is Some
        &&& items_of(m, name_key("in"@)) is Some && all_times(items_of(m, name_key("in"@))->0)
        &&& items_of(m, name_key("nin"@)) is Some && all_times(items_of(m, name_key("nin"@))->0)
        &&& flag_of(m, name_key("query"@)) is Some
        &&& flag_of(m, name_key("ord"@)) is Some
    }

    /// That this validator is what the fields `m` say: each field is what stands under its
    /// name, or has its default where nothing does.
    pub open spec fn is_read_from(self, m: Map<Seq<u8>, ValueView>) -> bool {
        &&& Some(encode_utf8(self.comment@)) == text_of(m, name_key("comment"@))
        &&& Some(self.default@) == time_of(m, name_key("default"@), TimestampView::zero())
        &&& Some(self.max@) == time_of(m, name_key("max"@), TimestampView::max_value())
        &&& Some(self.min@) == time_of(m, name_key("min"@), TimestampView::min_value())
        &&& Some(self.ex_max) == flag_of(m, name_key("ex_max"@))
        &&& Some(self.ex_min) == flag_of(m, name_key("ex_min"@))
        &&& Some(times_view(self.in_list@)) == items_of(m, name_key("in"@))
        &&& Some(times_view(self.nin_list@)) == items_of(m, name_key("nin"@))
        &&& Some(self.query) == flag_of(m, name_key("query"@))
        &&& Some(self.ord) == flag_of(m, name_key("ord"@))
    }

    /// The validator as a value: an object of the fields that do not have their defaults,
    /// in the order of their names.
    pub fn to_value(&self) -> (v: Value)
        ensures
            v is Obj,
            names_ascending(v->Obj_0@),
            field_map(v->Obj_0@) == self.fields(),
    {
        let mut e: Vec<(String, Value)> = Vec::new();
        proof {
            reveal(name_key);
            lemma_field_map_empty();
        }
        put_text(&mut e, "comment", &self.comment);
        put_time(&mut e, "default", &self.default, &Timestamp::zero());
        put_time(&mut e, "max", &self.max, &Timestamp::max_value());
        put_time(&mut e, "min", &self.min, &Timestamp::min_value());
        put_flag(&mut e, "ex_max", self.ex_max);
        put_flag(&mut e, "ex_min", self.ex_min);
        put_items(&mut e, "in", times_values(&self.in_list));
        put_items(&mut e, "nin", times_values(&self.nin_list));
        put_flag(&mut e, "query", self.query);
        put_flag(&mut e, "ord", self.ord);
        Value::Obj(e)
    }

    /// Whether `key` is the name of a field of a time validator.
    fn knows(key: &str) -> (r: bool)
        ensures
            r == TimeValidator::is_field(key.spec_bytes()),
    {
        proof {
            reveal(name_key);
        }
        is_name(key, "comment") || is_name(key, "default") || is_name(key, "max") || is_name(key, "min") || is_name(key, "ex_max") || is_name(key, "ex_min") || is_name(key, "in") || is_name(key, "nin") || is_name(key, "query") || is_name(key, "ord")
    }

    /// Reads a validator from a value: an object of fields of a time validator, each of its
    /// kind. A field that is not there has its default; a name that is no field of
    /// a time validator is refused.
    pub fn from_value(v: &Value) -> (r: Result<TimeValidator, Error>)
        ensures
            r is Ok <==> v is Obj && (forall|i: int|
                0 <= i < v->Obj_0@.len() ==> TimeValidator::is_field(encode_utf8((#[trigger] v->Obj_0@[i]).0@)))
                && TimeValidator::readable(field_map(v->Obj_0@)),
            r matches Ok(x) ==> x.is_read_from(field_map(v->Obj_0@)),
            r matches Err(e) ==> e == Error::BadValidator,
    {
        proof {
            reveal(name_key);
        }
        let e = match v {
            Value::Obj(e) => e,
            _ => {
                return Err(Error::BadValidator);
            },
        };
        let mut i: usize = 0;
        while i < e.len()
            invariant
                0 <= i <= e.len(),
                v is Obj,
                v->Obj_0 == *e,
                forall|j: int| 0 <= j < i ==> TimeValidator::is_field(encode_utf8((#[trigger] e@[j]).0@)),
            decreases e.len() - i,
        {
            if !TimeValidator::knows(e[i].0.as_str()) {
                return Err(Error::BadValidator);
            }
            i += 1;
        }
        let comment = read_text(e, "comment")?;
        let default = read_time(e, "default", Timestamp::zero())?;
        let max = read_time(e, "max", Timestamp::max_value())?;
        let min = read_time(e, "min", Timestamp::min_value())?;
        let ex_max = read_flag(e, "ex_max")?;
        let ex_min = read_flag(e, "ex_min")?;
        let in_list = read_times(e, "in")?;
        let nin_list = read_times(e, "nin")?;
        let query = read_flag(e, "query")?;
        let ord = read_flag(e, "ord")?;
        Ok(TimeValidator { comment, default, max, min, ex_max, ex_min, in_list, nin_list, query, ord })
    }
}

/// The names of the fields of a time validator are all different.
proof fn lemma_time_names()
    ensures
        name_key("comment"@) != name_key("default"@),
        name_key("comment"@) != name_key("max"@),
        name_key("comment"@) != name_key("min"@),
        name_key("comment"@) != name_key("ex_max"@),
        name_key("comment"@) != name_key("ex_min"@),
        name_key("comment"@) != name_key("in"@),
        name_key("comment"@) != name_key("nin"@),
        name_key("comment"@) != name_key("query"@),
        name_key("comment"@) != name_key("ord"@),
        name_key("default"@) != name_key("max"@),
        name_key("default"@) != name_key("min"@),
        name_key("default"@) != name_key("ex_max"@),
        name_key("default"@) != name_key("ex_min"@),
        name_key("default"@) != name_key("in"@),
        name_key("default"@) != name_key("nin"@),
        name_key("default"@) != name_key("query"@),
        name_key("default"@) != name_key("ord"@),
        name_key("max"@) != name_key("min"@),
        name_key("max"@) != name_key("ex_max"@),
        name_key("max"@) != name_key("ex_min"@),
        name_key("max"@) != name_key("in"@),
        name_key("max"@) != name_key("nin"@),
        name_key("max"@) != name_key("query"@),
        name_key("max"@) != name_key("ord"@),
        name_key("min"@) != name_key("ex_max"@),
        name_key("min"@) != name_key("ex_min"@),
        name_key("min"@) != name_key("in"@),
        name_key("min"@) != name_key("nin"@),
        name_key("min"@) != name_key("query"@),
        name_key("min"@) != name_key("ord"@),
        name_key("ex_max"@) != name_key("ex_min"@),
        name_key("ex_max"@) != name_key("in"@),
        name_key("ex_max"@) != name_key("nin"@),
        name_key("ex_max"@) != name_key("query"@),
        name_key("ex_max"@) != name_key("ord"@),
        name_key("ex_min"@) != name_key("in"@),
        name_key("ex_min"@) != name_key("nin"@),
        name_key("ex_min"@) != name_key("query"@),
        name_key("ex_min"@) != name_key("ord"@),
        name_key("in"@) != name_key("nin"@),
        name_key("in"@) != name_key("query"@),
        name_key("in"@) != name_key("ord"@),
        name_key("nin"@) != name_key("query"@),
        name_key("nin"@) != name_key("ord"@),
        name_key("query"@) != name_key("ord"@),
{
    reveal_strlit("comment");
    reveal_strlit("default");
    reveal_strlit("max");
    reveal_strlit("min");
    reveal_strlit("ex_max");
    reveal_strlit("ex_min");
    reveal_strlit("in");
    reveal_strlit("nin");
    reveal_strlit("query");
    reveal_strlit("ord");
    lemma_names_differ("comment"@, "default"@, 0);
    lemma_names_differ("comment"@, "max"@, 0);
    lemma_names_differ("comment"@, "min"@, 0);
    lemma_names_differ("comment"@, "ex_max"@, 0);
    lemma_names_differ("comment"@, "ex_min"@, 0);
    lemma_names_differ("comment"@, "in"@, 0);
    lemma_names_differ("comment"@, "nin"@, 0);
    lemma_names_differ("comment"@, "query"@, 0);
    lemma_names_differ("comment"@, "ord"@, 0);
    lemma_names_differ("default"@, "max"@, 0);
    lemma_names_differ("default"@, "min"@, 0);
    lemma_names_differ("default"@, "ex_max"@, 0);
    lemma_names_differ("default"@, "ex_min"@, 0);
    lemma_names_differ("default"@, "in"@, 0);
    lemma_names_differ("default"@, "nin"@, 0);
    lemma_names_differ("default"@, "query"@, 0);
    lemma_names_differ("default"@, "ord"@, 0);
    lemma_names_differ("max"@, "min"@, 1);
    lemma_names_differ("max"@, "ex_max"@, 0);
    lemma_names_differ("max"@, "ex_min"@, 0);
    lemma_names_differ("max"@, "in"@, 0);
    lemma_names_differ("max"@, "nin"@, 0);
    lemma_names_differ("max"@, "query"@, 0);
    lemma_names_differ("max"@, "ord"@, 0);
    lemma_names_differ("min"@, "ex_max"@, 0);
    lemma_names_differ("min"@, "ex_min"@, 0);
    lemma_names_differ("min"@, "in"@, 0);
    lemma_names_differ("min"@, "nin"@, 0);
    lemma_names_differ("min"@, "query"@, 0);
    lemma_names_differ("min"@, "ord"@, 0);
    lemma_names_differ("ex_max"@, "ex_min"@, 4);
    lemma_names_differ("ex_max"@, "in"@, 0);
    lemma_names_differ("ex_max"@, "nin"@, 0);
    lemma_names_differ("ex_max"@, "query"@, 0);
    lemma_names_differ("ex_max"@, "ord"@, 0);
    lemma_names_differ("ex_min"@, "in"@, 0);
    lemma_names_differ("ex_min"@, "nin"@, 0);
    lemma_names_differ("ex_min"@, "query"@, 0);
    lemma_names_differ("ex_min"@, "ord"@, 0);
    lemma_names_differ("in"@, "nin"@, 0);
    lemma_names_differ("in"@, "query"@, 0);
    lemma_names_differ("in"@, "ord"@, 0);
    lemma_names_differ("nin"@, "query"@, 0);
    lemma_names_differ("nin"@, "ord"@, 0);
    lemma_names_differ("query"@, "ord"@, 0);
}

/// Written and read back, a time validator is what it was: the fields it is written as can
/// be read, and say what each of its fields is.
pub proof fn lemma_time_validator_round_trip(x: TimeValidator)
    ensures
        TimeValidator::readable(x.fields()),
        x.is_read_from(x.fields()),
        forall|k: Seq<u8>| x.fields().contains_key(k) ==> TimeValidator::is_field(k),
{
    lemma_time_names();
    assert(encode_utf8(Seq::<char>::empty()) =~= Seq::<u8>::empty()) by {
        reveal_with_fuel(encode_utf8, 1);
    }
    if x.comment@.len() == 0 {
        assert(x.comment@ =~= Seq::<char>::empty());
    }
    if x.in_list@.len() == 0 {
        assert(times_view(x.in_list@) =~= Seq::<ValueView>::empty());
    }
    if x.nin_list@.len() == 0 {
        assert(times_view(x.nin_list@) =~= Seq::<ValueView>::empty());
    }
}

impl IntValidator {
    /// The fields that an integer validator is written as: every field that does not have its default,
    /// under its name.
    pub open spec fn fields(self) -> Map<Seq<u8>, ValueView> {
        let m = Map::<Seq<u8>, ValueView>::empty();
        let m = with_text(m, name_key("comment"@), self.comment@);
        let m = with_number(m, name_key("max"@), self.max@, int_max());
        let m = with_number(m, name_key("min"@), self.min@, int_min());
        let m = with_flag(m, name_key("ex_max"@), self.ex_max);
        let m = with_flag(m, name_key("ex_min"@), self.ex_min);
        let m = with_items(m, name_key("in"@), ints_view(self.in_list@));
        let m = with_items(m, name_key("nin"@), ints_view(self.nin_list@));
        let m = with_flag(m, name_key("query"@), self.query);
        with_flag(m, name_key("ord"@), self.ord)
    }

    /// Whether `k` is the name of a field of an integer validator.
    pub open spec fn is_field(k: Seq<u8>) -> bool {
        ||| k == name_key("comment"@)
        ||| k == name_key("max"@)
        ||| k == name_key("min"@)
        ||| k == name_key("ex_max"@)
        ||| k == name_key("ex_min"@)
        ||| k == name_key("in"@)
        ||| k == name_key("nin"@)
        ||| k == name_key("query"@)
        ||| k == name_key("ord"@)
    }

    /// That the fields `m` can be read as an integer validator: every field is of its kind.
    pub open spec fn readable(m: Map<Seq<u8>, ValueView>) -> bool {
        &&& text_of(m, name_key("comment"@)) is Some
        &&& number_of(m, name_key("max"@), int_max(), int_min(), int_max()) is Some
        &&& number_of(m, name_key("min"@), int_min(), int_min(), int_max()) is Some
        &&& flag_of(m, name_key("ex_max"@)) is Some
        &&& flag_of(m, name_key("ex_min"@)) is Some
        &&& items_of(m, name_key("in"@)) is Some && all_ints(items_of(m, name_key("in"@))->0)
        &&& items_of(m, name_key("nin"@)) is Some && all_ints(items_of(m, name_key("nin"@))->0)
        &&& flag_of(m, name_key("query"@)) is Some
        &&& flag_of(m, name_key("ord"@)) is Some
    }

    /// That this validator is what the fields `m` say: each field is what stands under its
    /// name, or has its default where nothing does.
    pub open spec fn is_read_from(self, m: Map<Seq<u8>, ValueView>) -> bool {
        &&& Some(encode_utf8(self.comment@)) == text_of(m, name_key("comment"@))
        &&& Some(self.max@) == number_of(m, name_key("max"@), int_max(), int_min(), int_max())
        &&& Some(self.min@) == number_of(m, name_key("min"@), int_min(), int_min(), int_max())
        &&& Some(self.ex_max) == flag_of(m, name_key("ex_max"@))
        &&& Some(self.ex_min) == flag_of(m, name_key("ex_min"@))
        &&& Some(ints_view(self.in_list@)) == items_of(m, name_key("in"@))
        &&& Some(ints_view(self.nin_list@)) == items_of(m, name_key("nin"@))
        &&& Some(self.query) == flag_of(m, name_key("query"@))
        &&& Some(self.ord) == flag_of(m, name_key("ord"@))
    }

    /// The validator as a value: an object of the fields that do not have their defaults,
    /// in the order of their names.
    pub fn to_value(&self) -> (v: Value)
        ensures
            v is Obj,
            names_ascending(v->Obj_0@),
            field_map(v->Obj_0@) == self.fields(),
    {
        let mut e: Vec<(String, Value)> = Vec::new();
        proof {
            reveal(name_key);
            lemma_field_map_empty();
        }
        put_text(&mut e, "comment", &self.comment);
        put_number(&mut e, "max", self.max, Integer::from_u64(u64::MAX));
        put_number(&mut e, "min", self.min, Integer::from_i64(i64::MIN));
        put_flag(&mut e, "ex_max", self.ex_max);
        put_flag(&mut e, "ex_min", self.ex_min);
        put_items(&mut e, "in", ints_values(&self.in_list));
        put_items(&mut e, "nin", ints_values(&self.nin_list));
        put_flag(&mut e, "query", self.query);
        put_flag(&mut e, "ord", self.ord);
        Value::Obj(e)
    }

    /// Whether `key` is the name of a field of an integer validator.
    fn knows(key: &str) -> (r: bool)
        ensures
            r == IntValidator::is_field(key.spec_bytes()),
    {
        proof {
            reveal(name_key);
        }
        is_name(key, "comment") || is_name(key, "max") || is_name(key, "min") || is_name(key, "ex_max") || is_name(key, "ex_min") || is_name(key, "in") || is_name(key, "nin") || is_name(key, "query") || is_name(key, "ord")
    }

    /// Reads a validator from a value: an object of fields of an integer validator, each of its
    /// kind. A field that is not there has its default; a name that is no field of
    /// an integer validator is refused.
    pub fn from_value(v: &Value) -> (r: Result<IntValidator, Error>)
        ensures
            r is Ok <==> v is Obj && (forall|i: int|
                0 <= i < v->Obj_0@.len() ==> IntValidator::is_field(encode_utf8((#[trigger] v->Obj_0@[i]).0@)))
                && IntValidator::readable(field_map(v->Obj_0@)),
            r matches Ok(x) ==> x.is_read_from(field_map(v->Obj_0@)),
            r matches Err(e) ==> e == Error::BadValidator,
    {
        proof {
            reveal(name_key);
        }
        let e = match v {
            Value::Obj(e) => e,
            _ => {
                return Err(Error::BadValidator);
            },
        };
        let mut i: usize = 0;
        while i < e.len()
            invariant
                0 <= i <= e.len(),
                v is Obj,
                v->Obj_0 == *e,
                forall|j: int| 0 <= j < i ==> IntValidator::is_field(encode_utf8((#[trigger] e@[j]).0@)),
            decreases e.len() - i,
        {
            if !IntValidator::knows(e[i].0.as_str()) {
                return Err(Error::BadValidator);
            }
            i += 1;
        }
        let comment = read_text(e, "comment")?;
        let max = read_integer(e, "max", Integer::from_u64(u64::MAX))?;
        let min = read_integer(e, "min", Integer::from_i64(i64::MIN))?;
        let ex_max = read_flag(e, "ex_max")?;
        let ex_min = read_flag(e, "ex_min")?;
        let in_list = read_ints(e, "in")?;
        let nin_list = read_ints(e, "nin")?;
        let query = read_flag(e, "query")?;
        let ord = read_flag(e, "ord")?;
        Ok(IntValidator { comment, max, min, ex_max, ex_min, in_list, nin_list, query, ord })
    }
}

/// The names of the fields of an integer validator are all different.
proof fn lemma_int_names()
    ensures
        name_key("comment"@) != name_key("max"@),
        name_key("comment"@) != name_key("min"@),
        name_key("comment"@) != name_key("ex_max"@),
        name_key("comment"@) != name_key("ex_min"@),
        name_key("comment"@) != name_key("in"@),
        name_key("comment"@) != name_key("nin"@),
        name_key("comment"@) != name_key("query"@),
        name_key("comment"@) != name_key("ord"@),
        name_key("max"@) != name_key("min"@),
        name_key("max"@) != name_key("ex_max"@),
        name_key("max"@) != name_key("ex_min"@),
        name_key("max"@) != name_key("in"@),
        name_key("max"@) != name_key("nin"@),
        name_key("max"@) != name_key("query"@),
        name_key("max"@) != name_key("ord"@),
        name_key("min"@) != name_key("ex_max"@),
        name_key("min"@) != name_key("ex_min"@),
        name_key("min"@) != name_key("in"@),
        name_key("min"@) != name_key("nin"@),
        name_key("min"@) != name_key("query"@),
        name_key("min"@) != name_key("ord"@),
        name_key("ex_max"@) != name_key("ex_min"@),
        name_key("ex_max"@) != name_key("in"@),
        name_key("ex_max"@) != name_key("nin"@),
        name_key("ex_max"@) != name_key("query"@),
        name_key("ex_max"@) != name_key("ord"@),
        name_key("ex_min"@) != name_key("in"@),
        name_key("ex_min"@) != name_key("nin"@),
        name_key("ex_min"@) != name_key("query"@),
        name_key("ex_min"@) != name_key("ord"@),
        name_key("in"@) != name_key("nin"@),
        name_key("in"@) != name_key("query"@),
        name_key("in"@) != name_key("ord"@),
        name_key("nin"@) != name_key("query"@),
        name_key("nin"@) != name_key("ord"@),
        name_key("query"@) != name_key("ord"@),
{
    reveal_strlit("comment");
    reveal_strlit("max");
    reveal_strlit("min");
    reveal_strlit("ex_max");
    reveal_strlit("ex_min");
    reveal_strlit("in");
    reveal_strlit("nin");
    reveal_strlit("query");
    reveal_strlit("ord");
    lemma_names_differ("comment"@, "max"@, 0);
    lemma_names_differ("comment"@, "min"@, 0);
    lemma_names_differ("comment"@, "ex_max"@, 0);
    lemma_names_differ("comment"@, "ex_min"@, 0);
    lemma_names_differ("comment"@, "in"@, 0);
    lemma_names_differ("comment"@, "nin"@, 0);
    lemma_names_differ("comment"@, "query"@, 0);
    lemma_names_differ("comment"@, "ord"@, 0);
    lemma_names_differ("max"@, "min"@, 1);
    lemma_names_differ("max"@, "ex_max"@, 0);
    lemma_names_differ("max"@, "ex_min"@, 0);
    lemma_names_differ("max"@, "in"@, 0);
    lemma_names_differ("max"@, "nin"@, 0);
    lemma_names_differ("max"@, "query"@, 0);
    lemma_names_differ("max"@, "ord"@, 0);
    lemma_names_differ("min"@, "ex_max"@, 0);
    lemma_names_differ("min"@, "ex_min"@, 0);
    lemma_names_differ("min"@, "in"@, 0);
    lemma_names_differ("min"@, "nin"@, 0);
    lemma_names_differ("min"@, "query"@, 0);
    lemma_names_differ("min"@, "ord"@, 0);
    lemma_names_differ("ex_max"@, "ex_min"@, 4);
    lemma_names_differ("ex_max"@, "in"@, 0);
    lemma_names_differ("ex_max"@, "nin"@, 0);
    lemma_names_differ("ex_max"@, "query"@, 0);
    lemma_names_differ("ex_max"@, "ord"@, 0);
    lemma_names_differ("ex_min"@, "in"@, 0);
    lemma_names_differ("ex_min"@, "nin"@, 0);
    lemma_names_differ("ex_min"@, "query"@, 0);
    lemma_names_differ("ex_min"@, "ord"@, 0);
    lemma_names_differ("in"@, "nin"@, 0);
    lemma_names_differ("in"@, "query"@, 0);
    lemma_names_differ("in"@, "ord"@, 0);
    lemma_names_differ("nin"@, "query"@, 0);
    lemma_names_differ("nin"@, "ord"@, 0);
    lemma_names_differ("query"@, "ord"@, 0);
}

/// Written and read back, an integer validator is what it was: the fields it is written as can
/// be read, and say what each of its fields is.
pub proof fn lemma_int_validator_round_trip(x: IntValidator)
    requires
        int_min() <= x.max@ <= int_max(),
        int_min() <= x.min@ <= int_max(),
    ensures
        IntValidator::readable(x.fields()),
        x.is_read_from(x.fields()),
        forall|k: Seq<u8>| x.fields().contains_key(k) ==> IntValidator::is_field(k),
{
    lemma_int_names();
    assert(encode_utf8(Seq::<char>::empty()) =~= Seq::<u8>::empty()) by {
        reveal_with_fuel(encode_utf8, 1);
    }
    if x.comment@.len() == 0 {
        assert(x.comment@ =~= Seq::<char>::empty());
    }
    if x.in_list@.len() == 0 {
        assert(ints_view(x.in_list@) =~= Seq::<ValueView>::empty());
    }
    if x.nin_list@.len() == 0 {
        assert(ints_view(x.nin_list@) =~= Seq::<ValueView>::empty());
    }
}

impl StrValidator {
    /// The fields that a string validator is written as: every field that does not have its default,
    /// under its name.
    pub open spec fn fields(self) -> Map<Seq<u8>, ValueView> {
        let m = Map::<Seq<u8>, ValueView>::empty();
        let m = with_text(m, name_key("comment"@), self.comment@);
        let m = with_items(m, name_key("in"@), texts_view(self.in_list@));
        let m = with_items(m, name_key("nin"@), texts_view(self.nin_list@));
        let m = with_number(m, name_key("max_len"@), self.max_len as int, u32::MAX as int);
        let m = with_number(m, name_key("min_len"@), self.min_len as int, 0);
        let m = with_flag(m, name_key("query"@), self.query);
        with_flag(m, name_key("size"@), self.size)
    }

    /// Whether `k` is the name of a field of a string validator.
    pub open spec fn is_field(k: Seq<u8>) -> bool {
        ||| k == name_key("comment"@)
        ||| k == name_key("in"@)
        ||| k == name_key("nin"@)
        ||| k == name_key("max_len"@)
        ||| k == name_key("min_len"@)
        ||| k == name_key("query"@)
        ||| k == name_key("size"@)
    }

    /// That the fields `m` can be read as a string validator: every field is of its kind.
    pub open spec fn readable(m: Map<Seq<u8>, ValueView>) -> bool {
        &&& text_of(m, name_key("comment"@)) is Some
        &&& items_of(m, name_key("in"@)) is Some && all_texts(items_of(m, name_key("in"@))->0)
        &&& items_of(m, name_key("nin"@)) is Some && all_texts(items_of(m, name_key("nin"@))->0)
        &&& number_of(m, name_key("max_len"@), u32::MAX as int, 0, u32::MAX as int) is Some
        &&& number_of(m, name_key("min_len"@), 0, 0, u32::MAX as int) is Some
        &&& flag_of(m, name_key("query"@)) is Some
        &&& flag_of(m, name_key("size"@)) is Some
    }

    /// That this validator is what the fields `m` say: each field is what stands under its
    /// name, or has its default where nothing does.
    pub open spec fn is_read_from(self, m: Map<Seq<u8>, ValueView>) -> bool {
        &&& Some(encode_utf8(self.comment@)) == text_of(m, name_key("comment"@))
        &&& Some(texts_view(self.in_list@)) == items_of(m, name_key("in"@))
        &&& Some(texts_view(self.nin_list@)) == items_of(m, name_key("nin"@))
        &&& Some(self.max_len as int) == number_of(m, name_key("max_len"@), u32::MAX as int, 0, u32::MAX as int)
        &&& Some(self.min_len as int) == number_of(m, name_key("min_len"@), 0, 0, u32::MAX as int)
        &&& Some(self.query) == flag_of(m, name_key("query"@))
        &&& Some(self.size) == flag_of(m, name_key("size"@))
    }

    /// The validator as a value: an object of the fields that do not have their defaults,
    /// in the order of their names.
    pub fn to_value(&self) -> (v: Value)
        ensures
            v is Obj,
            names_ascending(v->Obj_0@),
            field_map(v->Obj_0@) == self.fields(),
    {
        let mut e: Vec<(String, Value)> = Vec::new();
        proof {
            reveal(name_key);
            lemma_field_map_empty();
        }
        put_text(&mut e, "comment", &self.comment);
        put_items(&mut e, "in", texts_values(&self.in_list));
        put_items(&mut e, "nin", texts_values(&self.nin_list));
        put_number(&mut e, "max_len", Integer::from_u64(self.max_len as u64), Integer::from_u64(0xffff_ffff));
        put_number(&mut e, "min_len", Integer::from_u64(self.min_len as u64), Integer::from_u64(0));
        put_flag(&mut e, "query", self.query);
        put_flag(&mut e, "size", self.size);
        Value::Obj(e)
    }

    /// Whether `key` is the name of a field of a string validator.
    fn knows(key: &str) -> (r: bool)
        ensures
            r == StrValidator::is_field(key.spec_bytes()),
    {
        proof {
            reveal(name_key);
        }
        is_name(key, "comment") || is_name(key, "in") || is_name(key, "nin") || is_name(key, "max_len") || is_name(key, "min_len") || is_name(key, "query") || is_name(key, "size")
    }

    /// Reads a validator from a value: an object of fields of a string validator, each of its
    /// kind. A field that is not there has its default; a name that is no field of
    /// a string validator is refused.
    pub fn from_value(v: &Value) -> (r: Result<StrValidator, Error>)
        ensures
            r is Ok <==> v is Obj && (forall|i: int|
                0 <= i < v->Obj_0@.len() ==> StrValidator::is_field(encode_utf8((#[trigger] v->Obj_0@[i]).0@)))
                && StrValidator::readable(field_map(v->Obj_0@)),
            r matches Ok(x) ==> x.is_read_from(field_map(v->Obj_0@)),
            r matches Err(e) ==> e == Error::BadValidator,
    {
        proof {
            reveal(name_key);
        }
        let e = match v {
            Value::Obj(e) => e,
            _ => {
                return Err(Error::BadValidator);
            },
        };
        let mut i: usize = 0;
        while i < e.len()
            invariant
                0 <= i <= e.len(),
                v is Obj,
                v->Obj_0 == *e,
                forall|j: int| 0 <= j < i ==> StrValidator::is_field(encode_utf8((#[trigger] e@[j]).0@)),
            decreases e.len() - i,
        {
            if !StrValidator::knows(e[i].0.as_str()) {
                return Err(Error::BadValidator);
            }
            i += 1;
        }
        let comment = read_text(e, "comment")?;
        let in_list = read_texts(e, "in")?;
        let nin_list = read_texts(e, "nin")?;
        let max_len = read_u32(e, "max_len", u32::MAX)?;
        let min_len = read_u32(e, "min_len", 0)?;
        let query = read_flag(e, "query")?;
        let size = read_flag(e, "size")?;
        Ok(StrValidator { comment, in_list, nin_list, max_len, min_len, query, size })
    }
}

/// The names of the fields of a string validator are all different.
proof fn lemma_str_names()
    ensures
        name_key("comment"@) != name_key("in"@),
        name_key("comment"@) != name_key("nin"@),
        name_key("comment"@) != name_key("max_len"@),
        name_key("comment"@) != name_key("min_len"@),
        name_key("comment"@) != name_key("query"@),
        name_key("comment"@) != name_key("size"@),
        name_key("in"@) != name_key("nin"@),
        name_key("in"@) != name_key("max_len"@),
        name_key("in"@) != name_key("min_len"@),
        name_key("in"@) != name_key("query"@),
        name_key("in"@) != name_key("size"@),
        name_key("nin"@) != name_key("max_len"@),
        name_key("nin"@) != name_key("min_len"@),
        name_key("nin"@) != name_key("query"@),
        name_key("nin"@) != name_key("size"@),
        name_key("max_len"@) != name_key("min_len"@),
        name_key("max_len"@) != name_key("query"@),
        name_key("max_len"@) != name_key("size"@),
        name_key("min_len"@) != name_key("query"@),
        name_key("min_len"@) != name_key("size"@),
        name_key("query"@) != name_key("size"@),
{
    reveal_strlit("comment");
    reveal_strlit("in");
    reveal_strlit("nin");
    reveal_strlit("max_len");
    reveal_strlit("min_len");
    reveal_strlit("query");
    reveal_strlit("size");
    lemma_names_differ("comment"@, "in"@, 0);
    lemma_names_differ("comment"@, "nin"@, 0);
    lemma_names_differ("comment"@, "max_len"@, 0);
    lemma_names_differ("comment"@, "min_len"@, 0);
    lemma_names_differ("comment"@, "query"@, 0);
    lemma_names_differ("comment"@, "size"@, 0);
    lemma_names_differ("in"@, "nin"@, 0);
    lemma_names_differ("in"@, "max_len"@, 0);
    lemma_names_differ("in"@, "min_len"@, 0);
    lemma_names_differ("in"@, "query"@, 0);
    lemma_names_differ("in"@, "size"@, 0);
    lemma_names_differ("nin"@, "max_len"@, 0);
    lemma_names_differ("nin"@, "min_len"@, 0);
    lemma_names_differ("nin"@, "query"@, 0);
    lemma_names_differ("nin"@, "size"@, 0);
    lemma_names_differ("max_len"@, "min_len"@, 1);
    lemma_names_differ("max_len"@, "query"@, 0);
    lemma_names_differ("max_len"@, "size"@, 0);
    lemma_names_differ("min_len"@, "query"@, 0);
    lemma_names_differ("min_len"@, "size"@, 0);
    lemma_names_differ("query"@, "size"@, 0);
}

/// Written and read back, a string validator is what it was: the fields it is written as can
/// be read, and say what each of its fields is.
pub proof fn lemma_str_validator_round_trip(x: StrValidator)
    ensures
        StrValidator::readable(x.fields()),
        x.is_read_from(x.fields()),
        forall|k: Seq<u8>| x.fields().contains_key(k) ==> StrValidator::is_field(k),
{
    lemma_str_names();
    assert(encode_utf8(Seq::<char>::empty()) =~= Seq::<u8>::empty()) by {
        reveal_with_fuel(encode_utf8, 1);
    }
    if x.comment@.len() == 0 {
        assert(x.comment@ =~= Seq::<char>::empty());
    }
    if x.in_list@.len() == 0 {
        assert(texts_view(x.in_list@) =~= Seq::<ValueView>::empty());
    }
    if x.nin_list@.len() == 0 {
        assert(texts_view(x.nin_list@) =~= Seq::<ValueView>::empty());
    }
}

impl HashValidator {
    /// The fields that a hash validator is written as: every field that does not have its default,
    /// under its name.
    pub open spec fn fields(self) -> Map<Seq<u8>, ValueView> {
        let m = Map::<Seq<u8>, ValueView>::empty();
        let m = with_text(m, name_key("comment"@), self.comment@);
        let m = with_items(m, name_key("schema"@), hashes_values(self.schema@));
        with_flag(m, name_key("schema_ok"@), self.schema_ok)
    }

    /// Whether `k` is the name of a field of a hash validator.
    pub open spec fn is_field(k: Seq<u8>) -> bool {
        ||| k == name_key("comment"@)
        ||| k == name_key("schema"@)
        ||| k == name_key("schema_ok"@)
    }

    /// That the fields `m` can be read as a hash validator: every field is of its kind.
    pub open spec fn readable(m: Map<Seq<u8>, ValueView>) -> bool {
        &&& text_of(m, name_key("comment"@)) is Some
        &&& items_of(m, name_key("schema"@)) is Some && all_hashes(items_of(m, name_key("schema"@))->0)
        &&& flag_of(m, name_key("schema_ok"@)) is Some
    }

    /// That this validator is what the fields `m` say: each field is what stands under its
    /// name, or has its default where nothing does.
    pub open spec fn is_read_from(self, m: Map<Seq<u8>, ValueView>) -> bool {
        &&& Some(encode_utf8(self.comment@)) == text_of(m, name_key("comment"@))
        &&& Some(hashes_values(self.schema@)) == items_of(m, name_key("schema"@))
        &&& Some(self.schema_ok) == flag_of(m, name_key("schema_ok"@))
    }

    /// The validator as a value: an object of the fields that do not have their defaults,
    /// in the order of their names.
    pub fn to_value(&self) -> (v: Value)
        ensures
            v is Obj,
            names_ascending(v->Obj_0@),
            field_map(v->Obj_0@) == self.fields(),
    {
        let mut e: Vec<(String, Value)> = Vec::new();
        proof {
            reveal(name_key);
            lemma_field_map_empty();
        }
        put_text(&mut e, "comment", &self.comment);
        put_items(&mut e, "schema", hashes_to_values(&self.schema));
        put_flag(&mut e, "schema_ok", self.schema_ok);
        Value::Obj(e)
    }

    /// Whether `key` is the name of a field of a hash validator.
    fn knows(key: &str) -> (r: bool)
        ensures
            r == HashValidator::is_field(key.spec_bytes()),
    {
        proof {
            reveal(name_key);
        }
        is_name(key, "comment") || is_name(key, "schema") || is_name(key, "schema_ok")
    }

    /// Reads a validator from a value: an object of fields of a hash validator, each of its
    /// kind. A field that is not there has its default; a name that is no field of
    /// a hash validator is refused.
    pub fn from_value(v: &Value) -> (r: Result<HashValidator, Error>)
        ensures
            r is Ok <==> v is Obj && (forall|i: int|
                0 <= i < v->Obj_0@.len() ==> HashValidator::is_field(encode_utf8((#[trigger] v->Obj_0@[i]).0@)))
                && HashValidator::readable(field_map(v->Obj_0@)),
            r matches Ok(x) ==> x.is_read_from(field_map(v->Obj_0@)),
            r matches Err(e) ==> e == Error::BadValidator,
    {
        proof {
            reveal(name_key);
        }
        let e = match v {
            Value::Obj(e) => e,
            _ => {
                return Err(Error::BadValidator);
            },
        };
        let mut i: usize = 0;
        while i < e.len()
            invariant
                0 <= i <= e.len(),
                v is Obj,
                v->Obj_0 == *e,
                forall|j: int| 0 <= j < i ==> HashValidator::is_field(encode_utf8((#[trigger] e@[j]).0@)),
            decreases e.len() - i,
        {
            if !HashValidator::knows(e[i].0.as_str()) {
                return Err(Error::BadValidator);
            }
            i += 1;
        }
        let comment = read_text(e, "comment")?;
        let schema = read_hashes(e, "schema")?;
        let schema_ok = read_flag(e, "schema_ok")?;
        Ok(HashValidator { comment, schema, schema_ok })
    }
}

/// The names of the fields of a hash validator are all different.
proof fn lemma_hash_names()
    ensures
        name_key("comment"@) != name_key("schema"@),
        name_key("comment"@) != name_key("schema_ok"@),
        name_key("schema"@) != name_key("schema_ok"@),
{
    reveal_strlit("comment");
    reveal_strlit("schema");
    reveal_strlit("schema_ok");
    lemma_names_differ("comment"@, "schema"@, 0);
    lemma_names_differ("comment"@, "schema_ok"@, 0);
    lemma_names_differ("schema"@, "schema_ok"@, 0);
}

/// Written and read back, a hash validator is what it was: the fields it is written as can
/// be read, and say what each of its fields is.
pub proof fn lemma_hash_validator_round_trip(x: HashValidator)
    ensures
        HashValidator::readable(x.fields()),
        x.is_read_from(x.fields()),
        forall|k: Seq<u8>| x.fields().contains_key(k) ==> HashValidator::is_field(k),
{
    lemma_hash_names();
    assert(encode_utf8(Seq::<char>::empty()) =~= Seq::<u8>::empty()) by {
        reveal_with_fuel(encode_utf8, 1);
    }
    if x.comment@.len() == 0 {
        assert(x.comment@ =~= Seq::<char>::empty());
    }
    if x.schema@.len() == 0 {
        assert(hashes_values(x.schema@) =~= Seq::<ValueView>::empty());
    }
}

} // verus!
