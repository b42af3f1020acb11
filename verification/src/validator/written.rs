//! The form in which validators are written into a schema.
//!
//! A validator without configuration is written as its name. Any other is written as an
//! object of one pair: its name, and an object of its fields, each under its own name. A
//! field that has its default is left out.

use vstd::prelude::*;
use vstd::utf8::encode_utf8;
use crate::assoc::{find_from, held, lemma_find_from, names_ascending};
use crate::fields::{find_pair, pairs_map};
use crate::validator::array::ArrayValidator;
use crate::validator::enum_set::EnumValidator;
use crate::validator::obj::ObjValidator;
use crate::validator::serial::{name_key, with_flag, with_items, with_number, with_text};
use crate::validator::Validator;
use crate::value::{items_view, keys_ascending, Value, ValueView};

verus! {

/// The arrays as values.
pub open spec fn arrays_view(list: Seq<Vec<Value>>) -> Seq<ValueView> {
    Seq::new(list.len(), |i: int| ValueView::Array(items_view(list[i]@)))
}

/// The positions as values.
pub open spec fn indices_view(list: Seq<usize>) -> Seq<ValueView> {
    Seq::new(list.len(), |i: int| ValueView::Int(list[i] as int))
}

/// The fields `m` with `value` under `k`, where `there` says that there is one.
pub open spec fn with_value(m: Map<Seq<u8>, ValueView>, k: Seq<u8>, there: bool, value: ValueView) -> Map<
    Seq<u8>,
    ValueView,
> {
    if there {
        m.insert(k, value)
    } else {
        m
    }
}

/// That `out` is an object of the fields `fields`, in the order of their names.
pub open spec fn is_record(out: ValueView, fields: Map<Seq<u8>, ValueView>) -> bool {
    out matches ValueView::Obj(pairs) && keys_ascending(pairs) && pairs_map(pairs) == fields
}

/// That `out` is the object of one pair, the name `name` and `inner`.
pub open spec fn is_wrapped(out: ValueView, name: Seq<char>, inner: ValueView) -> bool {
    out == ValueView::Obj(seq![(name_key(name), inner)])
}

impl ArrayValidator {
    /// Whether `k` is the name of a field of an array validator.
    pub open spec fn is_field(k: Seq<u8>) -> bool {
        ||| k == name_key("comment"@)
        ||| k == name_key("contains"@)
        ||| k == name_key("items"@)
        ||| k == name_key("prefix"@)
        ||| k == name_key("max_len"@)
        ||| k == name_key("min_len"@)
        ||| k == name_key("in"@)
        ||| k == name_key("nin"@)
        ||| k == name_key("same_len"@)
        ||| k == name_key("unique"@)
        ||| k == name_key("extend"@)
        ||| k == name_key("query"@)
        ||| k == name_key("array"@)
        ||| k == name_key("contains_ok"@)
        ||| k == name_key("unique_ok"@)
        ||| k == name_key("size"@)
        ||| k == name_key("same_len_ok"@)
    }

    /// The fields `m` with the lists and flags that say which arrays pass.
    pub open spec fn with_lists(self, m: Map<Seq<u8>, ValueView>) -> Map<Seq<u8>, ValueView> {
        let m = with_items(m, name_key("in"@), arrays_view(self.in_list@));
        let m = with_items(m, name_key("nin"@), arrays_view(self.nin_list@));
        let m = with_items(m, name_key("same_len"@), indices_view(self.same_len@));
        let m = with_flag(m, name_key("unique"@), self.unique);
        with_flag(m, name_key("extend"@), self.extend)
    }

    /// The fields `m` with the flags that say what queries may use.
    pub open spec fn with_permissions(self, m: Map<Seq<u8>, ValueView>) -> Map<Seq<u8>, ValueView> {
        let m = with_flag(m, name_key("query"@), self.query);
        let m = with_flag(m, name_key("array"@), self.array);
        let m = with_flag(m, name_key("contains_ok"@), self.contains_ok);
        let m = with_flag(m, name_key("unique_ok"@), self.unique_ok);
        let m = with_flag(m, name_key("size"@), self.size);
        with_flag(m, name_key("same_len_ok"@), self.same_len_ok)
    }

    /// The fields that an array validator is written as, where `contains`, `items` and
    /// `prefix` are what its validators are written as.
    pub open spec fn fields(self, contains: Seq<ValueView>, items: ValueView, prefix: Seq<ValueView>) -> Map<
        Seq<u8>,
        ValueView,
    > {
        let m = Map::<Seq<u8>, ValueView>::empty();
        let m = with_text(m, name_key("comment"@), self.comment@);
        let m = with_items(m, name_key("contains"@), contains);
        let m = with_value(m, name_key("items"@), !(*self.items is Any), items);
        let m = with_items(m, name_key("prefix"@), prefix);
        let m = with_number(m, name_key("max_len"@), self.max_len as int, u32::MAX as int);
        let m = with_number(m, name_key("min_len"@), self.min_len as int, 0);
        self.with_permissions(self.with_lists(m))
    }
}

impl ObjValidator {
    /// Whether `k` is the name of a field of an object validator.
    pub open spec fn is_field(k: Seq<u8>) -> bool {
        ||| k == name_key("comment"@)
        ||| k == name_key("req"@)
        ||| k == name_key("opt"@)
        ||| k == name_key("keys"@)
        ||| k == name_key("values"@)
        ||| k == name_key("unknown_ok"@)
        ||| k == name_key("max_len"@)
        ||| k == name_key("min_len"@)
        ||| k == name_key("size"@)
        ||| k == name_key("map_ok"@)
    }

    /// The fields that an object validator is written as, where `req`, `opt`, `keys` and
    /// `values` are what its validators are written as.
    pub open spec fn fields(self, req: ValueView, opt: ValueView, keys: ValueView, values: ValueView) -> Map<
        Seq<u8>,
        ValueView,
    > {
        let m = Map::<Seq<u8>, ValueView>::empty();
        let m = with_text(m, name_key("comment"@), self.comment@);
        let m = with_value(m, name_key("req"@), self.req@.len() > 0, req);
        let m = with_value(m, name_key("opt"@), self.opt@.len() > 0, opt);
        let m = with_value(m, name_key("keys"@), self.keys is Some, keys);
        let m = with_value(m, name_key("values"@), self.values is Some, values);
        let m = with_flag(m, name_key("unknown_ok"@), self.unknown_ok);
        let m = with_number(m, name_key("max_len"@), self.max_len as int, u32::MAX as int);
        let m = with_number(m, name_key("min_len"@), self.min_len as int, 0);
        let m = with_flag(m, name_key("size"@), self.size);
        with_flag(m, name_key("map_ok"@), self.obj_ok)
    }
}

impl EnumValidator {
    /// Whether `k` is the name of a field of an enum validator.
    pub open spec fn is_field(k: Seq<u8>) -> bool {
        ||| k == name_key("comment"@)
        ||| k == name_key("extend"@)
        ||| k == name_key("var"@)
    }

    /// The fields that an enum validator is written as, where `var` is what its variants
    /// are written as.
    pub open spec fn fields(self, var: ValueView) -> Map<Seq<u8>, ValueView> {
        let m = Map::<Seq<u8>, ValueView>::empty();
        let m = with_text(m, name_key("comment"@), self.spec_comment());
        let m = with_flag(m, name_key("extend"@), self.spec_extend());
        with_value(m, name_key("var"@), self.spec_var().len() > 0, var)
    }
}

/// The name under which a validator is written.
pub open spec fn wire_name(v: Validator) -> Seq<char> {
    match v {
        Validator::Null => "Null"@,
        Validator::Bool(_) => "Bool"@,
        Validator::Int(_) => "Int"@,
        Validator::F32 => "F32"@,
        Validator::F64 => "F64"@,
        Validator::Str(_) => "Str"@,
        Validator::Bin(_) => "Bin"@,
        Validator::Array(_) => "Array"@,
        Validator::Obj(_) => "Map"@,
        Validator::Hash(_) => "Hash"@,
        Validator::Identity(_) => "Identity"@,
        Validator::Lockbox(_) => "Lockbox"@,
        Validator::Time(_) => "Time"@,
        Validator::Enum(_) => "Enum"@,
        Validator::Multi(_) => "Multi"@,
        Validator::Ref(_) => "Ref"@,
        Validator::Any => "Any"@,
    }
}

/// That `out` goes by the name `name`: it is that name, or an object of one pair whose key
/// is that name.
pub open spec fn is_named(out: ValueView, name: Seq<char>) -> bool {
    match out {
        ValueView::Str(s) => s == name_key(name),
        ValueView::Obj(pairs) => pairs.len() == 1 && pairs[0].0 == name_key(name),
        _ => false,
    }
}

/// What is written as a validator goes by the validator's name.
pub proof fn lemma_written_name(v: Validator, out: ValueView)
    requires
        written_as(v, out),
    ensures
        is_named(out, wire_name(v)),
{
}

/// That the validator `v` leads into other validators at most `depth` deep, so that it can
/// be written with that depth.
pub open spec fn nests_within(v: Validator, depth: nat) -> bool
    decreases depth, 1nat,
{
    match v {
        Validator::Array(x) => array_nests_within(*x, depth),
        Validator::Obj(x) => obj_nests_within(*x, depth),
        Validator::Enum(x) => enum_nests_within(x, depth),
        Validator::Multi(list) => depth > 0 && all_nest_within(list@, (depth - 1) as nat),
        _ => true,
    }
}

/// That every validator of `list` leads into others at most `depth` deep.
pub open spec fn all_nest_within(list: Seq<Validator>, depth: nat) -> bool
    decreases depth, 2nat,
{
    forall|i: int| 0 <= i < list.len() ==> nests_within(#[trigger] list[i], depth)
}

/// That every validator of `list` leads into others at most `depth` deep.
pub open spec fn named_nest_within(list: Seq<(String, Validator)>, depth: nat) -> bool
    decreases depth, 2nat,
{
    forall|i: int| 0 <= i < list.len() ==> nests_within((#[trigger] list[i]).1, depth)
}

/// That every validator that `m` holds leads into others at most `depth` deep.
pub open spec fn map_nest_within(m: Map<Seq<u8>, Validator>, depth: nat) -> bool {
    forall|k: Seq<u8>| #[trigger] m.contains_key(k) ==> nests_within(m[k], depth)
}

/// Of a list whose names ascend, every validator leads into others at most `depth` deep
/// exactly where every validator does that the list holds under a name.
pub proof fn lemma_named_nest(list: Seq<(String, Validator)>, depth: nat)
    requires
        names_ascending(list),
    ensures
        named_nest_within(list, depth) <==> map_nest_within(held(list), depth),
{
    if named_nest_within(list, depth) {
        assert forall|k: Seq<u8>| #[trigger] held(list).contains_key(k) implies nests_within(held(list)[k], depth) by {
            lemma_find_from(list, k, 0);
            let i = find_from(list, k, 0)->0;
            assert(nests_within(list[i].1, depth));
        }
    }
    if map_nest_within(held(list), depth) {
        assert forall|i: int| 0 <= i < list.len() implies nests_within((#[trigger] list[i]).1, depth) by {
            crate::assoc::lemma_ascending_found(list, i);
            assert(held(list).contains_key(encode_utf8(list[i].0@)));
        }
    }
}

/// That every validator of a variant of `list` leads into others at most `depth` deep.
pub open spec fn variants_nest_within(list: Seq<(String, Option<Validator>)>, depth: nat) -> bool
    decreases depth, 2nat,
{
    forall|i: int| 0 <= i < list.len() ==> ((#[trigger] list[i]).1 matches Some(v) ==> nests_within(v, depth))
}

/// That the array validator `x` can be written with the depth `depth`.
pub open spec fn array_nests_within(x: ArrayValidator, depth: nat) -> bool
    decreases depth, 0nat,
{
    &&& depth > 0
    &&& all_nest_within(x.contains@, (depth - 1) as nat)
    &&& nests_within(*x.items, (depth - 1) as nat)
    &&& all_nest_within(x.prefix@, (depth - 1) as nat)
}

/// That the object validator `x` can be written with the depth `depth`.
pub open spec fn obj_nests_within(x: ObjValidator, depth: nat) -> bool
    decreases depth, 0nat,
{
    &&& depth > 0
    &&& named_nest_within(x.req@, (depth - 1) as nat)
    &&& named_nest_within(x.opt@, (depth - 1) as nat)
    &&& x.values matches Some(v) ==> nests_within(*v, (depth - 1) as nat)
}

/// That the enum validator `x` can be written with the depth `depth`.
pub open spec fn enum_nests_within(x: EnumValidator, depth: nat) -> bool
    decreases depth, 0nat,
{
    depth > 0 && variants_nest_within(x.spec_var(), (depth - 1) as nat)
}

/// That `values` holds what the validators of `list` are written as, one for one.
pub open spec fn all_written(list: Seq<Validator>, values: Seq<ValueView>) -> bool
    decreases list, 0nat,
{
    values.len() == list.len() && forall|i: int|
        0 <= i < list.len() ==> written_as(#[trigger] list[i], values[i])
}

/// That `out` is the object that holds, under the names of `list` and in its order, what
/// the validators of `list` are written as.
pub open spec fn named_written(list: Seq<(String, Validator)>, out: ValueView) -> bool
    decreases list, 0nat,
{
    out matches ValueView::Obj(pairs) && pairs.len() == list.len() && forall|i: int|
        0 <= i < list.len() ==> pairs[i].0 == encode_utf8((#[trigger] list[i]).0@) && written_as(
            list[i].1,
            pairs[i].1,
        )
}

/// That `out` is the object that holds, under each name of `m` and in the order of the
/// names, what the validator under that name is written as.
pub open spec fn map_written(m: Map<Seq<u8>, Validator>, out: ValueView) -> bool {
    out matches ValueView::Obj(pairs) && keys_ascending(pairs) && forall|k: Seq<u8>|
        #![trigger m.contains_key(k)]
        #![trigger pairs_map(pairs).contains_key(k)]
        m.contains_key(k) == pairs_map(pairs).contains_key(k) && (m.contains_key(k) ==> written_as(
            m[k],
            pairs_map(pairs)[k],
        ))
}

/// The first position from `i` on at which the names of `list` hold `key` is the first at
/// which the keys of `pairs` do, where the two hold the same names at the same places.
proof fn lemma_find_named(list: Seq<(String, Validator)>, pairs: Seq<(Seq<u8>, ValueView)>, key: Seq<u8>, i: int)
    requires
        0 <= i,
        pairs.len() == list.len(),
        forall|j: int| 0 <= j < list.len() ==> pairs[j].0 == encode_utf8((#[trigger] list[j]).0@),
    ensures
        find_pair(pairs, key, i) == find_from(list, key, i),
    decreases list.len() - i,
{
    if i < list.len() {
        assert(pairs[i].0 == encode_utf8(list[i].0@));
        if pairs[i].0 != key {
            lemma_find_named(list, pairs, key, i + 1);
        }
    }
}

/// Validators that are written under their names, in an order in which the names ascend, are
/// written as the map of what the list holds under each name.
pub proof fn lemma_named_written(list: Seq<(String, Validator)>, out: ValueView)
    requires
        named_written(list, out),
        names_ascending(list),
    ensures
        map_written(held(list), out),
{
    let pairs = out->Obj_0;
    assert forall|j: int| 0 <= j < pairs.len() - 1 implies crate::bytes::lex_lt(
        (#[trigger] pairs[j]).0,
        pairs[j + 1].0,
    ) by {
        assert(crate::bytes::lex_lt(encode_utf8(list[j].0@), encode_utf8(list[j + 1].0@)));
        assert(pairs[j].0 == encode_utf8(list[j].0@));
        assert(pairs[j + 1].0 == encode_utf8(list[j + 1].0@));
    }
    assert forall|k: Seq<u8>|
        held(list).contains_key(k) == pairs_map(pairs).contains_key(k) && (held(list).contains_key(k)
            ==> written_as(held(list)[k], pairs_map(pairs)[k])) by {
        lemma_find_named(list, pairs, k, 0);
        lemma_find_from(list, k, 0);
    }
}

/// That `out` is the object that holds, under the names of the variants and in their order,
/// what their validators are written as, and null for a variant without one.
pub open spec fn variants_written(list: Seq<(String, Option<Validator>)>, out: ValueView) -> bool
    decreases list, 0nat,
{
    out matches ValueView::Obj(pairs) && pairs.len() == list.len() && forall|i: int|
        0 <= i < list.len() ==> pairs[i].0 == encode_utf8((#[trigger] list[i]).0@) && match list[i].1 {
            Some(v) => written_as(v, pairs[i].1),
            None => pairs[i].1 is Null,
        }
}

/// That `out` is what the array validator `x` is written as.
pub open spec fn array_written_as(x: ArrayValidator, out: ValueView) -> bool
    decreases x, 0nat,
{
    exists|contains: Seq<ValueView>, items: ValueView, prefix: Seq<ValueView>|
        {
            &&& is_record(out, #[trigger] x.fields(contains, items, prefix))
            &&& all_written(x.contains@, contains)
            &&& *x.items is Any || written_as(*x.items, items)
            &&& all_written(x.prefix@, prefix)
        }
}

/// That `out` is what the object validator `x` is written as.
pub open spec fn obj_written_as(x: ObjValidator, out: ValueView) -> bool
    decreases x, 0nat,
{
    exists|req: ValueView, opt: ValueView, keys: ValueView, values: ValueView|
        {
            &&& is_record(out, #[trigger] x.fields(req, opt, keys, values))
            &&& x.req@.len() > 0 ==> {
                proof {
                    x.req.lemma_decreases(0);
                }
                named_written(x.req@, req)
            }
            &&& x.opt@.len() > 0 ==> {
                proof {
                    x.opt.lemma_decreases(0);
                }
                named_written(x.opt@, opt)
            }
            &&& x.keys matches Some(k) ==> is_record(keys, k.fields())
            &&& x.values matches Some(v) ==> written_as(*v, values)
        }
}

/// That `out` is what the enum validator `x` is written as.
pub open spec fn enum_written_as(x: EnumValidator, out: ValueView) -> bool
    decreases x, 0nat,
{
    exists|var: ValueView|
        is_record(out, #[trigger] x.fields(var)) && (x.spec_var().len() > 0 ==> {
            proof {
                x.lemma_var_decreases(0);
            }
            variants_written(x.spec_var(), var)
        })
}

/// That `out` is what the validator `v` is written as.
pub open spec fn written_as(v: Validator, out: ValueView) -> bool
    decreases v, 1nat,
{
    match v {
        Validator::Null => out == ValueView::Str(name_key("Null"@)),
        Validator::F32 => out == ValueView::Str(name_key("F32"@)),
        Validator::F64 => out == ValueView::Str(name_key("F64"@)),
        Validator::Any => out == ValueView::Str(name_key("Any"@)),
        Validator::Bool(x) => exists|inner: ValueView|
            #[trigger] is_wrapped(out, "Bool"@, inner) && is_record(inner, x.fields()),
        Validator::Int(x) => exists|inner: ValueView|
            #[trigger] is_wrapped(out, "Int"@, inner) && is_record(inner, x.fields()),
        Validator::Str(x) => exists|inner: ValueView|
            #[trigger] is_wrapped(out, "Str"@, inner) && is_record(inner, x.fields()),
        Validator::Bin(x) => exists|inner: ValueView|
            #[trigger] is_wrapped(out, "Bin"@, inner) && is_record(inner, x.fields()),
        Validator::Hash(x) => exists|inner: ValueView|
            #[trigger] is_wrapped(out, "Hash"@, inner) && is_record(inner, x.fields()),
        Validator::Identity(x) => exists|inner: ValueView|
            #[trigger] is_wrapped(out, "Identity"@, inner) && is_record(inner, x.fields()),
        Validator::Lockbox(x) => exists|inner: ValueView|
            #[trigger] is_wrapped(out, "Lockbox"@, inner) && is_record(inner, x.fields()),
        Validator::Time(x) => exists|inner: ValueView|
            #[trigger] is_wrapped(out, "Time"@, inner) && is_record(inner, x.fields()),
        Validator::Array(x) => exists|inner: ValueView|
            #[trigger] is_wrapped(out, "Array"@, inner) && array_written_as(*x, inner),
        Validator::Obj(x) => exists|inner: ValueView|
            #[trigger] is_wrapped(out, "Map"@, inner) && obj_written_as(*x, inner),
        Validator::Enum(x) => exists|inner: ValueView|
            #[trigger] is_wrapped(out, "Enum"@, inner) && enum_written_as(x, inner),
        Validator::Multi(list) => exists|values: Seq<ValueView>|
            #[trigger] is_wrapped(out, "Multi"@, ValueView::Array(values)) && all_written(list@, values),
        Validator::Ref(name) => is_wrapped(out, "Ref"@, ValueView::Str(encode_utf8(name@))),
    }
}

} // verus!
