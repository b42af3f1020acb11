//! The value tree and the model that contracts speak of.

use vstd::prelude::*;
use vstd::utf8::{encode_utf8, encode_utf8_decode_utf8, encode_utf8_valid_utf8};
use crate::assoc::{assoc_insert, held, lemma_held_after_push, names_ascending};
use crate::bytes::{bytes_eq, bytes_lt, lex_lt};
use crate::crypto::hash;
use crate::crypto::hash::HashView;
use crate::crypto::key::{Identity, IdentityView};
use crate::crypto::lock::Lockbox;
use crate::format::{element_wf, len_limit, ElementView};
use crate::integer::Integer;
use crate::timestamp::{Timestamp, TimestampView};

verus! {

/// A value as contracts see it. A string is its UTF-8 bytes; a float is its bit pattern; an
/// object is its key-value pairs in the order they are written.
pub enum ValueView {
    Null,
    Bool(bool),
    Int(int),
    F32(u32),
    F64(u64),
    Str(Seq<u8>),
    Bin(Seq<u8>),
    Array(Seq<ValueView>),
    Obj(Seq<(Seq<u8>, ValueView)>),
    Hash(HashView),
    Identity(IdentityView),
    Lockbox(Seq<u8>),
    Timestamp(TimestampView),
}

/// That the keys come in strictly ascending byte order, so that none occurs twice.
pub open spec fn keys_ascending(entries: Seq<(Seq<u8>, ValueView)>) -> bool {
    forall|i: int| 0 <= i < entries.len() - 1 ==> lex_lt(#[trigger] entries[i].0, entries[i + 1].0)
}

impl ValueView {
    /// The element a value starts with: itself, or for an array or object its header.
    pub open spec fn head(self) -> ElementView {
        match self {
            ValueView::Null => ElementView::Null,
            ValueView::Bool(b) => ElementView::Bool(b),
            ValueView::Int(i) => ElementView::Int(i),
            ValueView::F32(x) => ElementView::F32(x),
            ValueView::F64(x) => ElementView::F64(x),
            ValueView::Str(s) => ElementView::Str(s),
            ValueView::Bin(b) => ElementView::Bin(b),
            ValueView::Array(items) => ElementView::Array(items.len()),
            ValueView::Obj(entries) => ElementView::Obj(entries.len()),
            ValueView::Hash(h) => ElementView::Hash(h),
            ValueView::Identity(id) => ElementView::Identity(id),
            ValueView::Lockbox(b) => ElementView::Lockbox(b),
            ValueView::Timestamp(t) => ElementView::Timestamp(t),
        }
    }

    /// The values that can be written: every element in them can, and the keys of every
    /// object are strings in strictly ascending order.
    pub open spec fn wf(self) -> bool
        decreases self,
    {
        &&& element_wf(self.head())
        &&& match self {
            ValueView::Array(items) => forall|i: int| 0 <= i < items.len() ==> (#[trigger] items[i]).wf(),
            ValueView::Obj(entries) => {
                &&& forall|i: int|
                    0 <= i < entries.len() ==> element_wf(ElementView::Str((#[trigger] entries[i]).0))
                        && entries[i].1.wf()
                &&& keys_ascending(entries)
            },
            _ => true,
        }
    }

    /// That arrays and objects nest at most `depth` deep.
    pub open spec fn fits(self, depth: nat) -> bool
        decreases self,
    {
        match self {
            ValueView::Array(items) => depth > 0 && forall|i: int|
                0 <= i < items.len() ==> (#[trigger] items[i]).fits((depth - 1) as nat),
            ValueView::Obj(entries) => depth > 0 && forall|i: int|
                0 <= i < entries.len() ==> (#[trigger] entries[i]).1.fits((depth - 1) as nat),
            _ => true,
        }
    }
}

/// A value of the format.
#[derive(Debug, PartialEq)]
pub enum Value {
    Null,
    Bool(bool),
    Int(Integer),
    /// A 32-bit float, held as its bit pattern.
    F32(u32),
    /// A 64-bit float, held as its bit pattern.
    F64(u64),
    Str(String),
    Bin(Vec<u8>),
    Array(Vec<Value>),
    /// Key-value pairs. A well-formed object holds them in strictly ascending order of the
    /// keys' bytes.
    Obj(Vec<(String, Value)>),
    Hash(hash::Hash),
    Identity(Identity),
    Lockbox(Lockbox),
    Timestamp(Timestamp),
}

/// What contracts see of a value.
pub open spec fn value_view(v: Value) -> ValueView
    decreases v,
{
    match v {
        Value::Null => ValueView::Null,
        Value::Bool(b) => ValueView::Bool(b),
        Value::Int(i) => ValueView::Int(i@),
        Value::F32(x) => ValueView::F32(x),
        Value::F64(x) => ValueView::F64(x),
        Value::Str(s) => ValueView::Str(encode_utf8(s@)),
        Value::Bin(b) => ValueView::Bin(b@),
        Value::Array(items) => ValueView::Array(
            Seq::new(
                items@.len(),
                |i: int| if 0 <= i < items@.len() { value_view(items@[i]) } else { ValueView::Null },
            ),
        ),
        Value::Obj(entries) => ValueView::Obj(
            Seq::new(
                entries@.len(),
                |i: int|
                    if 0 <= i < entries@.len() {
                        (encode_utf8(entries@[i].0@), value_view(entries@[i].1))
                    } else {
                        (Seq::empty(), ValueView::Null)
                    },
            ),
        ),
        Value::Hash(h) => ValueView::Hash(h@),
        Value::Identity(id) => ValueView::Identity(id@),
        Value::Lockbox(l) => ValueView::Lockbox(l@),
        Value::Timestamp(t) => ValueView::Timestamp(t@),
    }
}

impl View for Value {
    type V = ValueView;

    open spec fn view(&self) -> ValueView {
        value_view(*self)
    }
}

/// What contracts see of the items of an array.
pub open spec fn items_view(items: Seq<Value>) -> Seq<ValueView> {
    Seq::new(items.len(), |i: int| value_view(items[i]))
}

/// What contracts see of the key-value pairs of an object.
pub open spec fn entries_view(entries: Seq<(String, Value)>) -> Seq<(Seq<u8>, ValueView)> {
    Seq::new(entries.len(), |i: int| (encode_utf8(entries[i].0@), value_view(entries[i].1)))
}

/// An array is seen as its items are.
pub proof fn lemma_array_view(items: Vec<Value>)
    ensures
        Value::Array(items)@ == ValueView::Array(items_view(items@)),
{
    assert(Value::Array(items)@->Array_0 =~= items_view(items@));
}

/// An object is seen as its key-value pairs are.
pub proof fn lemma_obj_view(entries: Vec<(String, Value)>)
    ensures
        Value::Obj(entries)@ == ValueView::Obj(entries_view(entries@)),
{
    assert(Value::Obj(entries)@->Obj_0 =~= entries_view(entries@));
}

impl Clone for Value {
    /// A copy of the value, all the way down.
    fn clone(&self) -> (c: Value)
        ensures
            c@ == self@,
    {
        self.deep_clone()
    }
}

/// Two strings with the same bytes are the same string.
pub proof fn lemma_utf8_injective(a: Seq<char>, b: Seq<char>)
    requires
        encode_utf8(a) == encode_utf8(b),
    ensures
        a == b,
{
    encode_utf8_decode_utf8(a);
    encode_utf8_decode_utf8(b);
}

impl Value {
    /// The object of the given pairs, put in the order of their keys. Of two pairs with one
    /// key the one given first stays.
    pub fn obj(pairs: Vec<(String, Value)>) -> (v: Value)
        ensures
            v is Obj,
            names_ascending(v->Obj_0@),
            held(v->Obj_0@) == held(pairs@),
    {
        let ghost given = pairs@;
        let mut pairs = pairs;
        let mut out: Vec<(String, Value)> = Vec::new();
        assert(held(out@).union_prefer_right(held(pairs@)) =~= held(given));
        while pairs.len() > 0
            invariant
                names_ascending(out@),
                held(out@).union_prefer_right(held(pairs@)) == held(given),
            decreases pairs.len(),
        {
            let ghost before = pairs@;
            let ghost had = out@;
            match pairs.pop() {
                Some((key, value)) => {
                    assoc_insert(&mut out, key, value);
                    proof {
                        assert(before =~= pairs@.push((key, value)));
                        lemma_held_after_push(pairs@, (key, value));
                        assert(held(out@).union_prefer_right(held(pairs@)) =~= held(had).union_prefer_right(
                            held(before),
                        ));
                    }
                },
                None => {},
            }
        }
        assert(held(out@).union_prefer_right(held(pairs@)) =~= held(out@));
        Value::Obj(out)
    }

    /// Whether the two values are the same, all the way down.
    pub fn same(&self, other: &Value) -> (r: bool)
        ensures
            r == (self@ == other@),
        decreases self,
    {
        match (self, other) {
            (Value::Null, Value::Null) => true,
            (Value::Bool(a), Value::Bool(b)) => *a == *b,
            (Value::Int(a), Value::Int(b)) => a.same(b),
            (Value::F32(a), Value::F32(b)) => *a == *b,
            (Value::F64(a), Value::F64(b)) => *a == *b,
            (Value::Str(a), Value::Str(b)) => {
                proof {
                    if encode_utf8(a@) == encode_utf8(b@) {
                        lemma_utf8_injective(a@, b@);
                    }
                }
                *a == *b
            },
            (Value::Bin(a), Value::Bin(b)) => bytes_eq(a.as_slice(), b.as_slice()),
            (Value::Array(a), Value::Array(b)) => {
                if a.len() != b.len() {
                    assert(self@->Array_0.len() != other@->Array_0.len());
                    return false;
                }
                let mut i: usize = 0;
                while i < a.len()
                    invariant
                        0 <= i <= a.len(),
                        a.len() == b.len(),
                        *self == Value::Array(*a),
                        *other == Value::Array(*b),
                        forall|j: int| 0 <= j < i ==> a@[j]@ == b@[j]@,
                    decreases a.len() - i,
                {
                    if !a[i].same(&b[i]) {
                        assert(self@->Array_0[i as int] == a@[i as int]@);
                        assert(other@->Array_0[i as int] == b@[i as int]@);
                        return false;
                    }
                    i += 1;
                }
                assert(self@->Array_0 =~= other@->Array_0);
                true
            },
            (Value::Obj(a), Value::Obj(b)) => {
                if a.len() != b.len() {
                    assert(self@->Obj_0.len() != other@->Obj_0.len());
                    return false;
                }
                let mut i: usize = 0;
                while i < a.len()
                    invariant
                        0 <= i <= a.len(),
                        a.len() == b.len(),
                        *self == Value::Obj(*a),
                        *other == Value::Obj(*b),
                        forall|j: int|
                            0 <= j < i ==> a@[j].1@ == b@[j].1@ && encode_utf8(a@[j].0@) == encode_utf8(
                                b@[j].0@,
                            ),
                    decreases a.len() - i,
                {
                    proof {
                        if encode_utf8(a@[i as int].0@) == encode_utf8(b@[i as int].0@) {
                            lemma_utf8_injective(a@[i as int].0@, b@[i as int].0@);
                        }
                    }
                    if !(a[i].0 == b[i].0) || !a[i].1.same(&b[i].1) {
                        assert(self@->Obj_0[i as int] == (encode_utf8(a@[i as int].0@), a@[i as int].1@));
                        assert(other@->Obj_0[i as int] == (encode_utf8(b@[i as int].0@), b@[i as int].1@));
                        return false;
                    }
                    i += 1;
                }
                assert(self@->Obj_0 =~= other@->Obj_0);
                true
            },
            (Value::Hash(a), Value::Hash(b)) => a.same(b),
            (Value::Identity(a), Value::Identity(b)) => a.same(b),
            (Value::Lockbox(a), Value::Lockbox(b)) => bytes_eq(a.as_bytes(), b.as_bytes()),
            (Value::Timestamp(a), Value::Timestamp(b)) => a.same(b),
            _ => false,
        }
    }

    /// A copy of the value, all the way down.
    pub fn deep_clone(&self) -> (c: Value)
        ensures
            c@ == self@,
        decreases self,
    {
        match self {
            Value::Null => Value::Null,
            Value::Bool(b) => Value::Bool(*b),
            Value::Int(i) => Value::Int(*i),
            Value::F32(x) => Value::F32(*x),
            Value::F64(x) => Value::F64(*x),
            Value::Str(s) => Value::Str(s.clone()),
            Value::Bin(b) => {
                let c = b.clone();
                assert(c@ =~= b@);
                Value::Bin(c)
            },
            Value::Array(items) => {
                let mut out: Vec<Value> = Vec::new();
                let mut i: usize = 0;
                while i < items.len()
                    invariant
                        0 <= i <= items.len(),
                        *self == Value::Array(*items),
                        out@.len() == i,
                        forall|j: int| 0 <= j < i ==> out@[j]@ == items@[j]@,
                    decreases items.len() - i,
                {
                    assert(self->Array_0 == *items);
                    let item = items[i].deep_clone();
                    out.push(item);
                    i += 1;
                }
                let c = Value::Array(out);
                assert(c@->Array_0 =~= self@->Array_0);
                c
            },
            Value::Obj(entries) => {
                let mut out: Vec<(String, Value)> = Vec::new();
                let mut i: usize = 0;
                while i < entries.len()
                    invariant
                        0 <= i <= entries.len(),
                        *self == Value::Obj(*entries),
                        out@.len() == i,
                        forall|j: int|
                            0 <= j < i ==> out@[j].1@ == entries@[j].1@ && out@[j].0@ == entries@[j].0@,
                    decreases entries.len() - i,
                {
                    assert(self->Obj_0 == *entries);
                    let value = entries[i].1.deep_clone();
                    out.push((entries[i].0.clone(), value));
                    i += 1;
                }
                let c = Value::Obj(out);
                assert(c@->Obj_0 =~= self@->Obj_0);
                c
            },
            Value::Hash(h) => Value::Hash(h.clone()),
            Value::Identity(id) => Value::Identity(id.clone()),
            Value::Lockbox(l) => Value::Lockbox(l.clone()),
            Value::Timestamp(t) => Value::Timestamp(*t),
        }
    }

    /// Whether the value can be written and nests at most `depth` deep.
    pub fn is_well_formed(&self, depth: usize) -> (r: bool)
        ensures
            r == (self@.wf() && self@.fits(depth as nat)),
        decreases self,
    {
        proof {
            reveal(element_wf);
        }
        match self {
            Value::Null => true,
            Value::Bool(_) => true,
            Value::Int(i) => {
                let _ = i.get();
                true
            },
            Value::F32(_) => true,
            Value::F64(_) => true,
            Value::Str(s) => {
                proof {
                    encode_utf8_valid_utf8(s@);
                }
                s.as_str().as_bytes().len() <= 0xffff_ffff
            },
            Value::Bin(b) => b.len() <= 0xffff_ffff,
            Value::Array(items) => {
                if depth == 0 || items.len() > 0xffff_ffff {
                    return false;
                }
                let mut i: usize = 0;
                while i < items.len()
                    invariant
                        0 <= i <= items.len(),
                        depth > 0,
                        *self == Value::Array(*items),
                        forall|j: int| 0 <= j < i ==> items@[j]@.wf() && items@[j]@.fits((depth - 1) as nat),
                    decreases items.len() - i,
                {
                    if !items[i].is_well_formed(depth - 1) {
                        assert(self@->Array_0[i as int] == items@[i as int]@);
                        return false;
                    }
                    i += 1;
                }
                assert(forall|j: int| 0 <= j < items@.len() ==> self@->Array_0[j] == items@[j]@);
                true
            },
            Value::Obj(entries) => {
                if depth == 0 || entries.len() > 0xffff_ffff {
                    return false;
                }
                let mut i: usize = 0;
                while i < entries.len()
                    invariant
                        0 <= i <= entries.len(),
                        depth > 0,
                        *self == Value::Obj(*entries),
                        forall|j: int|
                            0 <= j < i ==> entries@[j].1@.wf() && entries@[j].1@.fits((depth - 1) as nat)
                                && encode_utf8(entries@[j].0@).len() < len_limit(),
                        forall|j: int|
                            0 <= j < i - 1 ==> lex_lt(
                                encode_utf8(#[trigger] entries@[j].0@),
                                encode_utf8(entries@[j + 1].0@),
                            ),
                    decreases entries.len() - i,
                {
                    let key = entries[i].0.as_str().as_bytes();
                    proof {
                        reveal(element_wf);
                        let model = self@->Obj_0;
                        assert(model[i as int] == (encode_utf8(entries@[i as int].0@), entries@[i as int].1@));
                        if i > 0 {
                            assert(model[i - 1] == (encode_utf8(entries@[i - 1].0@), entries@[i - 1].1@));
                        }
                    }
                    if key.len() > 0xffff_ffff {
                        assert(!element_wf(ElementView::Str(self@->Obj_0[i as int].0)));
                        return false;
                    }
                    if !entries[i].1.is_well_formed(depth - 1) {
                        assert(!self@->Obj_0[i as int].1.wf() || !self@->Obj_0[i as int].1.fits((depth - 1) as nat));
                        return false;
                    }
                    if i > 0 && !bytes_lt(entries[i - 1].0.as_str().as_bytes(), key) {
                        assert(!lex_lt(self@->Obj_0[i - 1].0, self@->Obj_0[i - 1 + 1].0));
                        assert(!keys_ascending(self@->Obj_0));
                        return false;
                    }
                    i += 1;
                }
                proof {
                    let model = self@->Obj_0;
                    assert forall|j: int| 0 <= j < model.len() implies element_wf(
                        ElementView::Str((#[trigger] model[j]).0),
                    ) && model[j].1.wf() && model[j].1.fits((depth - 1) as nat) by {
                        assert(model[j] == (encode_utf8(entries@[j].0@), entries@[j].1@));
                        encode_utf8_valid_utf8(entries@[j].0@);
                    }
                    assert forall|j: int| 0 <= j < model.len() - 1 implies lex_lt(
                        #[trigger] model[j].0,
                        model[j + 1].0,
                    ) by {
                        assert(model[j] == (encode_utf8(entries@[j].0@), entries@[j].1@));
                        assert(model[j + 1] == (encode_utf8(entries@[j + 1].0@), entries@[j + 1].1@));
                    }
                }
                true
            },
            Value::Hash(h) => {
                let _ = h.version();
                true
            },
            Value::Identity(id) => {
                let _ = id.version();
                true
            },
            Value::Lockbox(l) => l.len() <= 0xffff_ffff,
            Value::Timestamp(t) => {
                let _ = t.timestamp_utc();
                true
            },
        }
    }
}

} // verus!
