//! Which values a validator passes.

use vstd::prelude::*;
use vstd::utf8::encode_utf8;
use crate::assoc::find_key;
use crate::codec::{lemma_fits_deeper, parse_value};
use crate::error::Error;
use crate::parser::Parser;
use crate::crypto::hash::HashView;
use crate::validator::checklist::Checklist;
use crate::validator::deferred::checklist_with;
use crate::validator::array::{index_listed, ArrayValidator};
use crate::validator::enum_set::EnumValidator;
use crate::validator::obj::ObjValidator;
use crate::validator::Validator;
use crate::value::{items_view, Value, ValueView};

verus! {

/// Whether a type, given by its position in the table of types, has been entered already at
/// the value at hand.
pub open spec fn type_visited(visited: Seq<usize>, idx: int) -> bool {
    0 <= idx <= usize::MAX && index_listed(visited, idx as usize)
}

/// The values that the validator `v` passes, with the table `types` to look names up in.
///
/// `depth` bounds how deep validators may lead into one another, and with that how deep
/// arrays and objects may nest in the value. `visited` holds the types that have been
/// entered at this very value: a name that leads back to one of them asks nothing more.
pub open spec fn accepts(
    v: Validator,
    types: Seq<(String, Validator)>,
    x: ValueView,
    visited: Seq<usize>,
    depth: nat,
) -> bool
    decreases depth, 0nat,
{
    match v {
        Validator::Any => x.fits(depth),
        Validator::Null => x is Null,
        Validator::Bool(bv) => x is Bool && bv.accepts(x->Bool_0),
        Validator::F32 => x is F32,
        Validator::F64 => x is F64,
        Validator::Bin(bv) => x is Bin && bv.accepts(x->Bin_0),
        Validator::Identity(iv) => x is Identity && iv.accepts(x->Identity_0),
        Validator::Lockbox(lv) => x is Lockbox && lv.accepts(x->Lockbox_0),
        Validator::Hash(_) => x is Hash,
        Validator::Int(iv) => x is Int && iv.accepts(x->Int_0),
        Validator::Str(sv) => x is Str && sv.accepts(x->Str_0),
        Validator::Time(tv) => x is Timestamp && tv.accepts(x->Timestamp_0),
        Validator::Array(av) => if depth == 0 {
            false
        } else {
            x is Array && array_accepts(*av, types, x->Array_0, (depth - 1) as nat)
        },
        Validator::Obj(ov) => if depth == 0 {
            false
        } else {
            x is Obj && obj_accepts(*ov, types, x->Obj_0, (depth - 1) as nat)
        },
        Validator::Enum(ev) => if depth == 0 {
            false
        } else {
            enum_accepts(ev, types, x, (depth - 1) as nat)
        },
        Validator::Multi(list) => if depth == 0 {
            false
        } else {
            exists|i: int|
                0 <= i < list@.len() && accepts(#[trigger] list@[i], types, x, visited, (depth - 1) as nat)
        },
        Validator::Ref(name) => if depth == 0 {
            false
        } else {
            match find_key(types, encode_utf8(name@)) {
                None => false,
                Some(idx) => if type_visited(visited, idx) {
                    x.fits(depth)
                } else if 0 <= idx < types.len() {
                    accepts(types[idx].1, types, x, visited.push(idx as usize), (depth - 1) as nat)
                } else {
                    false
                },
            }
        },
    }
}

/// The validator for the item at position `i` of an array: the one at that position in
/// `prefix`, or `items` where `prefix` is too short.
pub open spec fn item_validator(av: ArrayValidator, i: int) -> Validator {
    if 0 <= i < av.prefix@.len() {
        av.prefix@[i]
    } else {
        *av.items
    }
}

/// Whether the array `items` is one of `list`.
pub open spec fn array_listed(list: Seq<Vec<Value>>, items: Seq<ValueView>) -> bool {
    exists|j: int| 0 <= j < list.len() && items_view((#[trigger] list[j])@) == items
}

/// Whether no item occurs twice.
pub open spec fn all_distinct(items: Seq<ValueView>) -> bool {
    forall|a: int, b: int| 0 <= a < b < items.len() ==> items[a] != items[b]
}

/// Whether the items at the positions in `list` are all null or absent.
pub open spec fn listed_all_null(list: Seq<usize>, items: Seq<ValueView>) -> bool {
    forall|k: int| 0 <= k < list.len() && (#[trigger] list[k]) < items.len() ==> items[list[k] as int] is Null
}

/// Whether the items at the positions in `list` are all there, and are all arrays of one
/// length.
pub open spec fn listed_all_arrays(list: Seq<usize>, items: Seq<ValueView>) -> bool {
    &&& forall|k: int|
        0 <= k < list.len() ==> (#[trigger] list[k]) < items.len() && items[list[k] as int] is Array
    &&& forall|k: int, l: int|
        0 <= k < list.len() && 0 <= l < list.len() ==> items[(#[trigger] list[k]) as int]->Array_0.len()
            == items[(#[trigger] list[l]) as int]->Array_0.len()
}

/// Whether at least one of the items passes the validator `v`.
pub open spec fn some_item_accepts(
    v: Validator,
    types: Seq<(String, Validator)>,
    items: Seq<ValueView>,
    depth: nat,
) -> bool
    decreases depth, 1nat,
{
    exists|i: int| 0 <= i < items.len() && accepts(v, types, #[trigger] items[i], Seq::empty(), depth)
}

/// The arrays that an array validator passes, given by their items. `depth` is the depth
/// left for the items.
pub open spec fn array_accepts(
    av: ArrayValidator,
    types: Seq<(String, Validator)>,
    items: Seq<ValueView>,
    depth: nat,
) -> bool
    decreases depth, 2nat,
{
    &&& av.min_len <= items.len() <= av.max_len
    &&& av.in_list@.len() > 0 ==> array_listed(av.in_list@, items)
    &&& !array_listed(av.nin_list@, items)
    &&& av.unique ==> all_distinct(items)
    &&& forall|i: int|
        0 <= i < items.len() ==> accepts(item_validator(av, i), types, #[trigger] items[i], Seq::empty(), depth)
    &&& forall|c: int|
        0 <= c < av.contains@.len() ==> some_item_accepts(#[trigger] av.contains@[c], types, items, depth)
    &&& listed_all_null(av.same_len@, items) || listed_all_arrays(av.same_len@, items)
}

/// Whether the object has the key with the bytes `key`.
pub open spec fn has_key(entries: Seq<(Seq<u8>, ValueView)>, key: Seq<u8>) -> bool {
    exists|i: int| 0 <= i < entries.len() && (#[trigger] entries[i]).0 == key
}

/// Whether the value `x` under the key `key` passes what the key leads to: the validator
/// under that key in `req`, else in `opt`, else `values`; and where it leads to nothing,
/// whether unknown keys are let through.
pub open spec fn entry_accepts(
    ov: ObjValidator,
    types: Seq<(String, Validator)>,
    key: Seq<u8>,
    x: ValueView,
    depth: nat,
) -> bool
    decreases depth, 1nat,
{
    &&& ov.keys is Some ==> ov.keys->0.accepts(key)
    &&& match ov.route(key) {
        Some(v) => accepts(v, types, x, Seq::empty(), depth),
        None => ov.unknown_ok && x.fits(depth),
    }
}

/// The objects that an object validator passes, given by their key-value pairs. `depth` is
/// the depth left for the values.
pub open spec fn obj_accepts(
    ov: ObjValidator,
    types: Seq<(String, Validator)>,
    entries: Seq<(Seq<u8>, ValueView)>,
    depth: nat,
) -> bool
    decreases depth, 2nat,
{
    &&& ov.min_len <= entries.len() <= ov.max_len
    &&& forall|j: int| 0 <= j < ov.req@.len() ==> has_key(entries, encode_utf8((#[trigger] ov.req@[j]).0@))
    &&& forall|i: int|
        0 <= i < entries.len() ==> entry_accepts(ov, types, (#[trigger] entries[i]).0, entries[i].1, depth)
}

/// The values that an enum validator passes: the name of a variant that is listed without
/// validator, or an object of one pair whose key names a variant that is listed with one and
/// whose value passes it. `depth` is the depth left for that value.
pub open spec fn enum_accepts(ev: EnumValidator, types: Seq<(String, Validator)>, x: ValueView, depth: nat) -> bool
    decreases depth, 1nat,
{
    match x {
        ValueView::Str(name) => match find_key(ev.spec_var(), name) {
            Some(k) => 0 <= k < ev.spec_var().len() && ev.spec_var()[k].1 is None,
            None => false,
        },
        ValueView::Obj(entries) => entries.len() == 1 && match find_key(ev.spec_var(), entries[0].0) {
            Some(k) => 0 <= k < ev.spec_var().len() && ev.spec_var()[k].1 is Some && accepts(
                ev.spec_var()[k].1->0,
                types,
                entries[0].1,
                Seq::empty(),
                depth,
            ),
            None => false,
        },
        _ => false,
    }
}

/// What passes a validator fits the depth that the validator was given.
pub proof fn lemma_accepts_fits(
    v: Validator,
    types: Seq<(String, Validator)>,
    x: ValueView,
    visited: Seq<usize>,
    depth: nat,
)
    requires
        accepts(v, types, x, visited, depth),
    ensures
        x.fits(depth),
    decreases depth, 0nat,
{
    reveal_with_fuel(accepts, 2);
    reveal_with_fuel(array_accepts, 2);
    reveal_with_fuel(obj_accepts, 2);
    reveal_with_fuel(enum_accepts, 2);
    match v {
        Validator::Array(av) => {
            let items = x->Array_0;
            let d = (depth - 1) as nat;
            assert forall|i: int| 0 <= i < items.len() implies (#[trigger] items[i]).fits(d) by {
                assert(accepts(item_validator(*av, i), types, items[i], Seq::empty(), d));
                lemma_accepts_fits(item_validator(*av, i), types, items[i], Seq::empty(), d);
            }
        },
        Validator::Obj(ov) => {
            let entries = x->Obj_0;
            let d = (depth - 1) as nat;
            assert forall|i: int| 0 <= i < entries.len() implies (#[trigger] entries[i]).1.fits(d) by {
                assert(entry_accepts(*ov, types, entries[i].0, entries[i].1, d));
                lemma_entry_accepts_fits(*ov, types, entries[i].0, entries[i].1, d);
            }
        },
        Validator::Enum(ev) => {
            let d = (depth - 1) as nat;
            match x {
                ValueView::Obj(entries) => {
                    let k = find_key(ev.spec_var(), entries[0].0)->0;
                    lemma_accepts_fits(ev.spec_var()[k].1->0, types, entries[0].1, Seq::empty(), d);
                    assert forall|i: int| 0 <= i < entries.len() implies (#[trigger] entries[i]).1.fits(
                        d,
                    ) by {
                        assert(i == 0);
                    }
                },
                _ => {},
            }
        },
        Validator::Multi(list) => {
            let d = (depth - 1) as nat;
            let i = choose|i: int| 0 <= i < list@.len() && accepts(#[trigger] list@[i], types, x, visited, d);
            lemma_accepts_fits(list@[i], types, x, visited, d);
            lemma_fits_deeper(x, d, depth);
        },
        Validator::Ref(name) => {
            let d = (depth - 1) as nat;
            let idx = find_key(types, encode_utf8(name@))->0;
            if !type_visited(visited, idx) {
                lemma_accepts_fits(types[idx].1, types, x, visited.push(idx as usize), d);
                lemma_fits_deeper(x, d, depth);
            }
        },
        _ => {},
    }
}

/// What passes under its key fits the depth given.
pub proof fn lemma_entry_accepts_fits(
    ov: ObjValidator,
    types: Seq<(String, Validator)>,
    key: Seq<u8>,
    x: ValueView,
    depth: nat,
)
    requires
        entry_accepts(ov, types, key, x, depth),
    ensures
        x.fits(depth),
    decreases depth, 1nat,
{
    reveal_with_fuel(entry_accepts, 2);
    match ov.route(key) {
        Some(v) => {
            lemma_accepts_fits(v, types, x, Seq::empty(), depth);
        },
        None => {},
    }
}

/// Whether the bytes `b` start with a value that the validator `v` passes.
pub open spec fn passes(
    v: Validator,
    types: Seq<(String, Validator)>,
    b: Seq<u8>,
    visited: Seq<usize>,
    depth: nat,
) -> bool {
    parse_value(b, depth) is Ok && accepts(v, types, parse_value(b, depth)->Ok_0.0, visited, depth)
}

/// That `depth` is enough to hold the value `x` against the validator `v`: the value nests
/// no deeper than `depth`, and neither do the validators that it meets on its way, those
/// that a name stands for counted in.
pub open spec fn depth_suffices(
    v: Validator,
    types: Seq<(String, Validator)>,
    x: ValueView,
    visited: Seq<usize>,
    depth: nat,
) -> bool
    decreases depth, 0nat,
{
    &&& x.fits(depth)
    &&& match v {
        Validator::Array(av) => depth > 0 && (x is Array ==> array_depth_suffices(
            *av,
            types,
            x->Array_0,
            (depth - 1) as nat,
        )),
        Validator::Obj(ov) => depth > 0 && (x is Obj ==> obj_depth_suffices(*ov, types, x->Obj_0, (depth - 1) as nat)),
        Validator::Enum(ev) => depth > 0 && enum_depth_suffices(ev, types, x, (depth - 1) as nat),
        Validator::Multi(_) => depth > 0,
        Validator::Ref(name) => depth > 0 && match find_key(types, encode_utf8(name@)) {
            Some(idx) => type_visited(visited, idx) || !(0 <= idx < types.len()) || depth_suffices(
                types[idx].1,
                types,
                x,
                visited.push(idx as usize),
                (depth - 1) as nat,
            ),
            None => true,
        },
        _ => true,
    }
}

/// That `depth` is enough for the items of an array against the validators for their
/// positions.
pub open spec fn array_depth_suffices(
    av: ArrayValidator,
    types: Seq<(String, Validator)>,
    items: Seq<ValueView>,
    depth: nat,
) -> bool
    decreases depth, 1nat,
{
    forall|i: int|
        0 <= i < items.len() ==> depth_suffices(item_validator(av, i), types, #[trigger] items[i], Seq::empty(), depth)
}

/// That `depth` is enough for the values of an object against the validators that their
/// keys lead to.
pub open spec fn obj_depth_suffices(
    ov: ObjValidator,
    types: Seq<(String, Validator)>,
    entries: Seq<(Seq<u8>, ValueView)>,
    depth: nat,
) -> bool
    decreases depth, 1nat,
{
    forall|i: int|
        0 <= i < entries.len() ==> match ov.route((#[trigger] entries[i]).0) {
            Some(v) => depth_suffices(v, types, entries[i].1, Seq::empty(), depth),
            None => true,
        }
}

/// That `depth` is enough for the data of a variant against the validator listed for it.
pub open spec fn enum_depth_suffices(ev: EnumValidator, types: Seq<(String, Validator)>, x: ValueView, depth: nat) -> bool
    decreases depth, 1nat,
{
    match x {
        ValueView::Obj(entries) => entries.len() == 1 ==> match find_key(ev.spec_var(), entries[0].0) {
            Some(k) => 0 <= k < ev.spec_var().len() && ev.spec_var()[k].1 is Some ==> depth_suffices(
                ev.spec_var()[k].1->0,
                types,
                entries[0].1,
                Seq::empty(),
                depth,
            ),
            None => true,
        },
        _ => true,
    }
}

/// Whether `e` is what a validation of the bytes `b` may fail with: that the value does not
/// pass, that validators lead into one another too deep, or what is wrong with the bytes
/// themselves.
pub open spec fn is_fault(e: Error, b: Seq<u8>, depth: nat) -> bool {
    e is FailValidate || e == Error::DepthExceeded || parse_value(b, depth) == Err::<(ValueView, int), Error>(e)
}

/// What a validation that started at the bytes `b` with the list `checklist` owes: it
/// succeeds exactly where `ok` holds, and then it stands right after the value that `b`
/// starts with and hands back the list with `more` put behind it. Where it fails, it says
/// that the value does not pass, unless the bytes hold no value, and then it says why not,
/// or the depth is not enough, which `enough` says.
pub open spec fn validated(
    r: Result<(Parser<'_>, Option<Checklist>), Error>,
    ok: bool,
    b: Seq<u8>,
    depth: nat,
    checklist: Option<Checklist>,
    more: Seq<(HashView, Seq<HashView>)>,
    enough: bool,
) -> bool {
    &&& r is Ok <==> ok
    &&& r matches Ok((p, c)) ==> p@ == b.skip(parse_value(b, depth)->Ok_0.1) && checklist_with(checklist, c, more)
    &&& r matches Err(e) ==> is_fault(e, b, depth)
    &&& r matches Err(e) ==> parse_value(b, depth) is Ok && enough ==> e is FailValidate
}

} // verus!
