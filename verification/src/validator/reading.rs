//! What a value is read as, where it holds a validator.
//!
//! Reading is more lenient than writing: a field may stand there with its default, and the
//! fields of a record may come in any order. The objects that hold validators under names
//! must hold the names in ascending order.

use vstd::prelude::*;
use vstd::utf8::encode_utf8;
use crate::fields::{field_map, lemma_field_map_view, pairs_map};
use crate::validator::array::{index_listed, ArrayValidator};
use crate::validator::binary::BinValidator;
use crate::validator::boolean::BoolValidator;
use crate::validator::enum_set::EnumValidator;
use crate::validator::hash::HashValidator;
use crate::validator::identity::IdentityValidator;
use crate::validator::integer::IntValidator;
use crate::validator::lockbox::LockboxValidator;
use crate::validator::obj::ObjValidator;
use crate::validator::serial::{flag_of, items_of, name_key, number_of, opt_field, text_of};
use crate::validator::string::StrValidator;
use crate::validator::time::TimeValidator;
use crate::validator::written::arrays_view;
use crate::validator::Validator;
use crate::value::{entries_view, keys_ascending, lemma_obj_view, Value, ValueView};

verus! {

/// That `x` is the object of one pair whose key is the name `name`.
pub open spec fn is_under(x: ValueView, name: Seq<char>) -> bool {
    x matches ValueView::Obj(pairs) && pairs.len() == 1 && pairs[0].0 == name_key(name)
}

/// An object is seen as the pairs that its pairs are seen as, with the same names at the
/// same places, holding under each name what they hold.
pub proof fn lemma_record_view(v: Value)
    requires
        v is Obj,
    ensures
        v@ == ValueView::Obj(entries_view(v->Obj_0@)),
        pairs_map(entries_view(v->Obj_0@)) == field_map(v->Obj_0@),
        entries_view(v->Obj_0@).len() == v->Obj_0@.len(),
        forall|i: int|
            0 <= i < v->Obj_0@.len() ==> (#[trigger] entries_view(v->Obj_0@)[i]).0 == encode_utf8(v->Obj_0@[i].0@)
                && entries_view(v->Obj_0@)[i].1 == v->Obj_0@[i].1@,
{
    lemma_obj_view(v->Obj_0);
    lemma_field_map_view(v->Obj_0@);
}

impl IntValidator {
    /// That `inner` can be read as a validator of this kind: an object of fields of the
    /// kind, each of its kind.
    pub open spec fn is_form(inner: ValueView) -> bool {
        inner matches ValueView::Obj(p) && (forall|i: int|
            0 <= i < p.len() ==> IntValidator::is_field((#[trigger] p[i]).0)) && IntValidator::readable(pairs_map(p))
    }

    /// That this validator is what `inner` says.
    pub open spec fn is_form_of(self, inner: ValueView) -> bool {
        inner matches ValueView::Obj(p) && self.is_read_from(pairs_map(p))
    }

    /// What holds of a value holds of what it is seen as.
    pub proof fn lemma_form(v: Value)
        ensures
            IntValidator::is_form(v@) <==> v is Obj && (forall|i: int|
                0 <= i < v->Obj_0@.len() ==> IntValidator::is_field(encode_utf8((#[trigger] v->Obj_0@[i]).0@)))
                && IntValidator::readable(field_map(v->Obj_0@)),
            v is Obj ==> v@ is Obj && pairs_map(v@->Obj_0) == field_map(v->Obj_0@),
    {
        match v {
            Value::Obj(e) => {
                lemma_record_view(v);
                let p = entries_view(e@);
                if forall|i: int| 0 <= i < e@.len() ==> IntValidator::is_field(encode_utf8((#[trigger] e@[i]).0@)) {
                    assert forall|i: int| 0 <= i < p.len() implies IntValidator::is_field((#[trigger] p[i]).0) by {
                        assert(IntValidator::is_field(encode_utf8(e@[i].0@)));
                    }
                }
                if forall|i: int| 0 <= i < p.len() ==> IntValidator::is_field((#[trigger] p[i]).0) {
                    assert forall|i: int| 0 <= i < e@.len() implies IntValidator::is_field(
                        encode_utf8((#[trigger] e@[i]).0@),
                    ) by {
                        assert(IntValidator::is_field(p[i].0));
                    }
                }
            },
            _ => {},
        }
    }
}

impl StrValidator {
    /// That `inner` can be read as a validator of this kind: an object of fields of the
    /// kind, each of its kind.
    pub open spec fn is_form(inner: ValueView) -> bool {
        inner matches ValueView::Obj(p) && (forall|i: int|
            0 <= i < p.len() ==> StrValidator::is_field((#[trigger] p[i]).0)) && StrValidator::readable(pairs_map(p))
    }

    /// That this validator is what `inner` says.
    pub open spec fn is_form_of(self, inner: ValueView) -> bool {
        inner matches ValueView::Obj(p) && self.is_read_from(pairs_map(p))
    }

    /// What holds of a value holds of what it is seen as.
    pub proof fn lemma_form(v: Value)
        ensures
            StrValidator::is_form(v@) <==> v is Obj && (forall|i: int|
                0 <= i < v->Obj_0@.len() ==> StrValidator::is_field(encode_utf8((#[trigger] v->Obj_0@[i]).0@)))
                && StrValidator::readable(field_map(v->Obj_0@)),
            v is Obj ==> v@ is Obj && pairs_map(v@->Obj_0) == field_map(v->Obj_0@),
    {
        match v {
            Value::Obj(e) => {
                lemma_record_view(v);
                let p = entries_view(e@);
                if forall|i: int| 0 <= i < e@.len() ==> StrValidator::is_field(encode_utf8((#[trigger] e@[i]).0@)) {
                    assert forall|i: int| 0 <= i < p.len() implies StrValidator::is_field((#[trigger] p[i]).0) by {
                        assert(StrValidator::is_field(encode_utf8(e@[i].0@)));
                    }
                }
                if forall|i: int| 0 <= i < p.len() ==> StrValidator::is_field((#[trigger] p[i]).0) {
                    assert forall|i: int| 0 <= i < e@.len() implies StrValidator::is_field(
                        encode_utf8((#[trigger] e@[i]).0@),
                    ) by {
                        assert(StrValidator::is_field(p[i].0));
                    }
                }
            },
            _ => {},
        }
    }
}

impl TimeValidator {
    /// That `inner` can be read as a validator of this kind: an object of fields of the
    /// kind, each of its kind.
    pub open spec fn is_form(inner: ValueView) -> bool {
        inner matches ValueView::Obj(p) && (forall|i: int|
            0 <= i < p.len() ==> TimeValidator::is_field((#[trigger] p[i]).0)) && TimeValidator::readable(pairs_map(p))
    }

    /// That this validator is what `inner` says.
    pub open spec fn is_form_of(self, inner: ValueView) -> bool {
        inner matches ValueView::Obj(p) && self.is_read_from(pairs_map(p))
    }

    /// What holds of a value holds of what it is seen as.
    pub proof fn lemma_form(v: Value)
        ensures
            TimeValidator::is_form(v@) <==> v is Obj && (forall|i: int|
                0 <= i < v->Obj_0@.len() ==> TimeValidator::is_field(encode_utf8((#[trigger] v->Obj_0@[i]).0@)))
                && TimeValidator::readable(field_map(v->Obj_0@)),
            v is Obj ==> v@ is Obj && pairs_map(v@->Obj_0) == field_map(v->Obj_0@),
    {
        match v {
            Value::Obj(e) => {
                lemma_record_view(v);
                let p = entries_view(e@);
                if forall|i: int| 0 <= i < e@.len() ==> TimeValidator::is_field(encode_utf8((#[trigger] e@[i]).0@)) {
                    assert forall|i: int| 0 <= i < p.len() implies TimeValidator::is_field((#[trigger] p[i]).0) by {
                        assert(TimeValidator::is_field(encode_utf8(e@[i].0@)));
                    }
                }
                if forall|i: int| 0 <= i < p.len() ==> TimeValidator::is_field((#[trigger] p[i]).0) {
                    assert forall|i: int| 0 <= i < e@.len() implies TimeValidator::is_field(
                        encode_utf8((#[trigger] e@[i]).0@),
                    ) by {
                        assert(TimeValidator::is_field(p[i].0));
                    }
                }
            },
            _ => {},
        }
    }
}

impl HashValidator {
    /// That `inner` can be read as a validator of this kind: an object of fields of the
    /// kind, each of its kind.
    pub open spec fn is_form(inner: ValueView) -> bool {
        inner matches ValueView::Obj(p) && (forall|i: int|
            0 <= i < p.len() ==> HashValidator::is_field((#[trigger] p[i]).0)) && HashValidator::readable(pairs_map(p))
    }

    /// That this validator is what `inner` says.
    pub open spec fn is_form_of(self, inner: ValueView) -> bool {
        inner matches ValueView::Obj(p) && self.is_read_from(pairs_map(p))
    }

    /// What holds of a value holds of what it is seen as.
    pub proof fn lemma_form(v: Value)
        ensures
            HashValidator::is_form(v@) <==> v is Obj && (forall|i: int|
                0 <= i < v->Obj_0@.len() ==> HashValidator::is_field(encode_utf8((#[trigger] v->Obj_0@[i]).0@)))
                && HashValidator::readable(field_map(v->Obj_0@)),
            v is Obj ==> v@ is Obj && pairs_map(v@->Obj_0) == field_map(v->Obj_0@),
    {
        match v {
            Value::Obj(e) => {
                lemma_record_view(v);
                let p = entries_view(e@);
                if forall|i: int| 0 <= i < e@.len() ==> HashValidator::is_field(encode_utf8((#[trigger] e@[i]).0@)) {
                    assert forall|i: int| 0 <= i < p.len() implies HashValidator::is_field((#[trigger] p[i]).0) by {
                        assert(HashValidator::is_field(encode_utf8(e@[i].0@)));
                    }
                }
                if forall|i: int| 0 <= i < p.len() ==> HashValidator::is_field((#[trigger] p[i]).0) {
                    assert forall|i: int| 0 <= i < e@.len() implies HashValidator::is_field(
                        encode_utf8((#[trigger] e@[i]).0@),
                    ) by {
                        assert(HashValidator::is_field(p[i].0));
                    }
                }
            },
            _ => {},
        }
    }
}

impl BoolValidator {
    /// That `inner` can be read as a validator of this kind: an object of fields of the
    /// kind, each of its kind.
    pub open spec fn is_form(inner: ValueView) -> bool {
        inner matches ValueView::Obj(p) && (forall|i: int|
            0 <= i < p.len() ==> BoolValidator::is_field((#[trigger] p[i]).0)) && BoolValidator::readable(pairs_map(p))
    }

    /// That this validator is what `inner` says.
    pub open spec fn is_form_of(self, inner: ValueView) -> bool {
        inner matches ValueView::Obj(p) && self.is_read_from(pairs_map(p))
    }

    /// What holds of a value holds of what it is seen as.
    pub proof fn lemma_form(v: Value)
        ensures
            BoolValidator::is_form(v@) <==> v is Obj && (forall|i: int|
                0 <= i < v->Obj_0@.len() ==> BoolValidator::is_field(encode_utf8((#[trigger] v->Obj_0@[i]).0@)))
                && BoolValidator::readable(field_map(v->Obj_0@)),
            v is Obj ==> v@ is Obj && pairs_map(v@->Obj_0) == field_map(v->Obj_0@),
    {
        match v {
            Value::Obj(e) => {
                lemma_record_view(v);
                let p = entries_view(e@);
                if forall|i: int| 0 <= i < e@.len() ==> BoolValidator::is_field(encode_utf8((#[trigger] e@[i]).0@)) {
                    assert forall|i: int| 0 <= i < p.len() implies BoolValidator::is_field((#[trigger] p[i]).0) by {
                        assert(BoolValidator::is_field(encode_utf8(e@[i].0@)));
                    }
                }
                if forall|i: int| 0 <= i < p.len() ==> BoolValidator::is_field((#[trigger] p[i]).0) {
                    assert forall|i: int| 0 <= i < e@.len() implies BoolValidator::is_field(
                        encode_utf8((#[trigger] e@[i]).0@),
                    ) by {
                        assert(BoolValidator::is_field(p[i].0));
                    }
                }
            },
            _ => {},
        }
    }
}

impl BinValidator {
    /// That `inner` can be read as a validator of this kind: an object of fields of the
    /// kind, each of its kind.
    pub open spec fn is_form(inner: ValueView) -> bool {
        inner matches ValueView::Obj(p) && (forall|i: int|
            0 <= i < p.len() ==> BinValidator::is_field((#[trigger] p[i]).0)) && BinValidator::readable(pairs_map(p))
    }

    /// That this validator is what `inner` says.
    pub open spec fn is_form_of(self, inner: ValueView) -> bool {
        inner matches ValueView::Obj(p) && self.is_read_from(pairs_map(p))
    }

    /// What holds of a value holds of what it is seen as.
    pub proof fn lemma_form(v: Value)
        ensures
            BinValidator::is_form(v@) <==> v is Obj && (forall|i: int|
                0 <= i < v->Obj_0@.len() ==> BinValidator::is_field(encode_utf8((#[trigger] v->Obj_0@[i]).0@)))
                && BinValidator::readable(field_map(v->Obj_0@)),
            v is Obj ==> v@ is Obj && pairs_map(v@->Obj_0) == field_map(v->Obj_0@),
    {
        match v {
            Value::Obj(e) => {
                lemma_record_view(v);
                let p = entries_view(e@);
                if forall|i: int| 0 <= i < e@.len() ==> BinValidator::is_field(encode_utf8((#[trigger] e@[i]).0@)) {
                    assert forall|i: int| 0 <= i < p.len() implies BinValidator::is_field((#[trigger] p[i]).0) by {
                        assert(BinValidator::is_field(encode_utf8(e@[i].0@)));
                    }
                }
                if forall|i: int| 0 <= i < p.len() ==> BinValidator::is_field((#[trigger] p[i]).0) {
                    assert forall|i: int| 0 <= i < e@.len() implies BinValidator::is_field(
                        encode_utf8((#[trigger] e@[i]).0@),
                    ) by {
                        assert(BinValidator::is_field(p[i].0));
                    }
                }
            },
            _ => {},
        }
    }
}

impl IdentityValidator {
    /// That `inner` can be read as a validator of this kind: an object of fields of the
    /// kind, each of its kind.
    pub open spec fn is_form(inner: ValueView) -> bool {
        inner matches ValueView::Obj(p) && (forall|i: int|
            0 <= i < p.len() ==> IdentityValidator::is_field((#[trigger] p[i]).0)) && IdentityValidator::readable(pairs_map(p))
    }

    /// That this validator is what `inner` says.
    pub open spec fn is_form_of(self, inner: ValueView) -> bool {
        inner matches ValueView::Obj(p) && self.is_read_from(pairs_map(p))
    }

    /// What holds of a value holds of what it is seen as.
    pub proof fn lemma_form(v: Value)
        ensures
            IdentityValidator::is_form(v@) <==> v is Obj && (forall|i: int|
                0 <= i < v->Obj_0@.len() ==> IdentityValidator::is_field(encode_utf8((#[trigger] v->Obj_0@[i]).0@)))
                && IdentityValidator::readable(field_map(v->Obj_0@)),
            v is Obj ==> v@ is Obj && pairs_map(v@->Obj_0) == field_map(v->Obj_0@),
    {
        match v {
            Value::Obj(e) => {
                lemma_record_view(v);
                let p = entries_view(e@);
                if forall|i: int| 0 <= i < e@.len() ==> IdentityValidator::is_field(encode_utf8((#[trigger] e@[i]).0@)) {
                    assert forall|i: int| 0 <= i < p.len() implies IdentityValidator::is_field((#[trigger] p[i]).0) by {
                        assert(IdentityValidator::is_field(encode_utf8(e@[i].0@)));
                    }
                }
                if forall|i: int| 0 <= i < p.len() ==> IdentityValidator::is_field((#[trigger] p[i]).0) {
                    assert forall|i: int| 0 <= i < e@.len() implies IdentityValidator::is_field(
                        encode_utf8((#[trigger] e@[i]).0@),
                    ) by {
                        assert(IdentityValidator::is_field(p[i].0));
                    }
                }
            },
            _ => {},
        }
    }
}

impl LockboxValidator {
    /// That `inner` can be read as a validator of this kind: an object of fields of the
    /// kind, each of its kind.
    pub open spec fn is_form(inner: ValueView) -> bool {
        inner matches ValueView::Obj(p) && (forall|i: int|
            0 <= i < p.len() ==> LockboxValidator::is_field((#[trigger] p[i]).0)) && LockboxValidator::readable(pairs_map(p))
    }

    /// That this validator is what `inner` says.
    pub open spec fn is_form_of(self, inner: ValueView) -> bool {
        inner matches ValueView::Obj(p) && self.is_read_from(pairs_map(p))
    }

    /// What holds of a value holds of what it is seen as.
    pub proof fn lemma_form(v: Value)
        ensures
            LockboxValidator::is_form(v@) <==> v is Obj && (forall|i: int|
                0 <= i < v->Obj_0@.len() ==> LockboxValidator::is_field(encode_utf8((#[trigger] v->Obj_0@[i]).0@)))
                && LockboxValidator::readable(field_map(v->Obj_0@)),
            v is Obj ==> v@ is Obj && pairs_map(v@->Obj_0) == field_map(v->Obj_0@),
    {
        match v {
            Value::Obj(e) => {
                lemma_record_view(v);
                let p = entries_view(e@);
                if forall|i: int| 0 <= i < e@.len() ==> LockboxValidator::is_field(encode_utf8((#[trigger] e@[i]).0@)) {
                    assert forall|i: int| 0 <= i < p.len() implies LockboxValidator::is_field((#[trigger] p[i]).0) by {
                        assert(LockboxValidator::is_field(encode_utf8(e@[i].0@)));
                    }
                }
                if forall|i: int| 0 <= i < p.len() ==> LockboxValidator::is_field((#[trigger] p[i]).0) {
                    assert forall|i: int| 0 <= i < e@.len() implies LockboxValidator::is_field(
                        encode_utf8((#[trigger] e@[i]).0@),
                    ) by {
                        assert(LockboxValidator::is_field(p[i].0));
                    }
                }
            },
            _ => {},
        }
    }
}

impl ArrayValidator {
    /// That every key of `p` is the name of a field of the kind.
    pub open spec fn keys_known(p: Seq<(Seq<u8>, ValueView)>) -> bool {
        forall|i: int| 0 <= i < p.len() ==> ArrayValidator::is_field((#[trigger] p[i]).0)
    }
}

impl ObjValidator {
    /// That every key of `p` is the name of a field of the kind.
    pub open spec fn keys_known(p: Seq<(Seq<u8>, ValueView)>) -> bool {
        forall|i: int| 0 <= i < p.len() ==> ObjValidator::is_field((#[trigger] p[i]).0)
    }
}

impl EnumValidator {
    /// That every key of `p` is the name of a field of the kind.
    pub open spec fn keys_known(p: Seq<(Seq<u8>, ValueView)>) -> bool {
        forall|i: int| 0 <= i < p.len() ==> EnumValidator::is_field((#[trigger] p[i]).0)
    }
}

/// The positions that the first `n` of `items` are read as: each number once, in the order
/// in which the numbers first come.
pub open spec fn indices_read(items: Seq<ValueView>, n: nat) -> Seq<usize>
    decreases n,
{
    if n == 0 || n > items.len() {
        Seq::empty()
    } else {
        let before = indices_read(items, (n - 1) as nat);
        let at = items[n - 1]->Int_0 as usize;
        if index_listed(before, at) {
            before
        } else {
            before.push(at)
        }
    }
}

/// That every item is a position: an integer that an array can have as an index.
pub open spec fn all_indices(items: Seq<ValueView>) -> bool {
    forall|i: int| 0 <= i < items.len() ==> (#[trigger] items[i]) is Int && 0 <= items[i]->Int_0 <= 0xffff_ffff
}

/// That every item is an array.
pub open spec fn all_arrays(items: Seq<ValueView>) -> bool {
    forall|i: int| 0 <= i < items.len() ==> (#[trigger] items[i]) is Array
}

/// That every item can be read as a validator.
pub open spec fn all_readable(items: Seq<ValueView>, depth: nat) -> bool
    decreases depth, 2nat,
{
    forall|i: int| 0 <= i < items.len() ==> readable(#[trigger] items[i], depth)
}

/// That the validators of `list` are what the items say, one for one.
pub open spec fn all_read_as(items: Seq<ValueView>, list: Seq<Validator>, depth: nat) -> bool
    decreases depth, 2nat,
{
    items.len() == list.len() && forall|i: int| 0 <= i < items.len() ==> reads_as(#[trigger] items[i], list[i], depth)
}

/// That `val`, if there is one, can be read as validators under names: an object whose
/// keys ascend and whose values can be read as validators.
pub open spec fn named_readable(val: Option<ValueView>, depth: nat) -> bool
    decreases depth, 2nat,
{
    match val {
        None => true,
        Some(ValueView::Obj(q)) => keys_ascending(q) && forall|i: int|
            0 <= i < q.len() ==> readable((#[trigger] q[i]).1, depth),
        Some(_) => false,
    }
}

/// That `list` holds, under the same names and in the same order, the validators that
/// `val` says; none where there is no `val`.
pub open spec fn named_read_as(val: Option<ValueView>, list: Seq<(String, Validator)>, depth: nat) -> bool
    decreases depth, 2nat,
{
    match val {
        None => list.len() == 0,
        Some(ValueView::Obj(q)) => q.len() == list.len() && forall|i: int|
            0 <= i < q.len() ==> (#[trigger] q[i]).0 == encode_utf8(list[i].0@) && reads_as(q[i].1, list[i].1, depth),
        Some(_) => false,
    }
}

/// That `val`, if there is one, can be read as variants: an object whose keys ascend and
/// whose values are null or can be read as validators.
pub open spec fn variants_readable(val: Option<ValueView>, depth: nat) -> bool
    decreases depth, 2nat,
{
    match val {
        None => true,
        Some(ValueView::Obj(q)) => keys_ascending(q) && forall|i: int|
            0 <= i < q.len() ==> (#[trigger] q[i]).1 is Null || readable(q[i].1, depth),
        Some(_) => false,
    }
}

/// That `list` holds, under the same names and in the same order, the variants that `val`
/// says, null standing for a variant without data; none where there is no `val`.
pub open spec fn variants_read_as(val: Option<ValueView>, list: Seq<(String, Option<Validator>)>, depth: nat) -> bool
    decreases depth, 2nat,
{
    match val {
        None => list.len() == 0,
        Some(ValueView::Obj(q)) => q.len() == list.len() && forall|i: int|
            0 <= i < q.len() ==> (#[trigger] q[i]).0 == encode_utf8(list[i].0@) && match list[i].1 {
                None => q[i].1 is Null,
                Some(v) => !(q[i].1 is Null) && reads_as(q[i].1, v, depth),
            },
        Some(_) => false,
    }
}

/// That `inner` can be read as an array validator, with the depth `depth`.
pub open spec fn array_readable(inner: ValueView, depth: nat) -> bool
    decreases depth, 0nat,
{
    depth > 0 && (inner matches ValueView::Obj(p) && ArrayValidator::keys_known(p) && {
        let m = pairs_map(p);
        let d = (depth - 1) as nat;
        &&& text_of(m, name_key("comment"@)) is Some
        &&& items_of(m, name_key("contains"@)) matches Some(items) && all_readable(items, d)
        &&& opt_field(m, name_key("items"@)) matches Some(val) ==> readable(val, d)
        &&& items_of(m, name_key("prefix"@)) matches Some(items) && all_readable(items, d)
        &&& number_of(m, name_key("max_len"@), u32::MAX as int, 0, u32::MAX as int) is Some
        &&& number_of(m, name_key("min_len"@), 0, 0, u32::MAX as int) is Some
        &&& items_of(m, name_key("in"@)) matches Some(items) && all_arrays(items)
        &&& items_of(m, name_key("nin"@)) matches Some(items) && all_arrays(items)
        &&& items_of(m, name_key("same_len"@)) matches Some(items) && all_indices(items)
        &&& flag_of(m, name_key("unique"@)) is Some
        &&& flag_of(m, name_key("extend"@)) is Some
        &&& flag_of(m, name_key("query"@)) is Some
        &&& flag_of(m, name_key("array"@)) is Some
        &&& flag_of(m, name_key("contains_ok"@)) is Some
        &&& flag_of(m, name_key("unique_ok"@)) is Some
        &&& flag_of(m, name_key("size"@)) is Some
        &&& flag_of(m, name_key("same_len_ok"@)) is Some
    })
}

/// That the array validator `x` is what `inner` says: each of its fields is what stands
/// under its name, or has its default where nothing does.
pub open spec fn array_reads_as(inner: ValueView, x: ArrayValidator, depth: nat) -> bool
    decreases depth, 0nat,
{
    depth > 0 && (inner matches ValueView::Obj(p) && {
        let m = pairs_map(p);
        let d = (depth - 1) as nat;
        &&& Some(encode_utf8(x.comment@)) == text_of(m, name_key("comment"@))
        &&& items_of(m, name_key("contains"@)) matches Some(items) && all_read_as(items, x.contains@, d)
        &&& match opt_field(m, name_key("items"@)) {
            Some(val) => reads_as(val, *x.items, d),
            None => *x.items is Any,
        }
        &&& items_of(m, name_key("prefix"@)) matches Some(items) && all_read_as(items, x.prefix@, d)
        &&& Some(x.max_len as int) == number_of(m, name_key("max_len"@), u32::MAX as int, 0, u32::MAX as int)
        &&& Some(x.min_len as int) == number_of(m, name_key("min_len"@), 0, 0, u32::MAX as int)
        &&& Some(arrays_view(x.in_list@)) == items_of(m, name_key("in"@))
        &&& Some(arrays_view(x.nin_list@)) == items_of(m, name_key("nin"@))
        &&& items_of(m, name_key("same_len"@)) matches Some(items) && x.same_len@ == indices_read(items, items.len())
        &&& Some(x.unique) == flag_of(m, name_key("unique"@))
        &&& Some(x.extend) == flag_of(m, name_key("extend"@))
        &&& Some(x.query) == flag_of(m, name_key("query"@))
        &&& Some(x.array) == flag_of(m, name_key("array"@))
        &&& Some(x.contains_ok) == flag_of(m, name_key("contains_ok"@))
        &&& Some(x.unique_ok) == flag_of(m, name_key("unique_ok"@))
        &&& Some(x.size) == flag_of(m, name_key("size"@))
        &&& Some(x.same_len_ok) == flag_of(m, name_key("same_len_ok"@))
    })
}

/// That `inner` can be read as an object validator, with the depth `depth`.
pub open spec fn obj_readable(inner: ValueView, depth: nat) -> bool
    decreases depth, 0nat,
{
    depth > 0 && (inner matches ValueView::Obj(p) && ObjValidator::keys_known(p) && {
        let m = pairs_map(p);
        let d = (depth - 1) as nat;
        &&& text_of(m, name_key("comment"@)) is Some
        &&& named_readable(opt_field(m, name_key("req"@)), d)
        &&& named_readable(opt_field(m, name_key("opt"@)), d)
        &&& opt_field(m, name_key("keys"@)) matches Some(val) ==> StrValidator::is_form(val)
        &&& opt_field(m, name_key("values"@)) matches Some(val) ==> readable(val, d)
        &&& flag_of(m, name_key("unknown_ok"@)) is Some
        &&& number_of(m, name_key("max_len"@), u32::MAX as int, 0, u32::MAX as int) is Some
        &&& number_of(m, name_key("min_len"@), 0, 0, u32::MAX as int) is Some
        &&& flag_of(m, name_key("size"@)) is Some
        &&& flag_of(m, name_key("map_ok"@)) is Some
    })
}

/// That the object validator `x` is what `inner` says.
pub open spec fn obj_reads_as(inner: ValueView, x: ObjValidator, depth: nat) -> bool
    decreases depth, 0nat,
{
    depth > 0 && (inner matches ValueView::Obj(p) && {
        let m = pairs_map(p);
        let d = (depth - 1) as nat;
        &&& Some(encode_utf8(x.comment@)) == text_of(m, name_key("comment"@))
        &&& named_read_as(opt_field(m, name_key("req"@)), x.req@, d)
        &&& named_read_as(opt_field(m, name_key("opt"@)), x.opt@, d)
        &&& match opt_field(m, name_key("keys"@)) {
            Some(val) => x.keys matches Some(k) && k.is_form_of(val),
            None => x.keys is None,
        }
        &&& match opt_field(m, name_key("values"@)) {
            Some(val) => x.values matches Some(v) && reads_as(val, *v, d),
            None => x.values is None,
        }
        &&& Some(x.unknown_ok) == flag_of(m, name_key("unknown_ok"@))
        &&& Some(x.max_len as int) == number_of(m, name_key("max_len"@), u32::MAX as int, 0, u32::MAX as int)
        &&& Some(x.min_len as int) == number_of(m, name_key("min_len"@), 0, 0, u32::MAX as int)
        &&& Some(x.size) == flag_of(m, name_key("size"@))
        &&& Some(x.obj_ok) == flag_of(m, name_key("map_ok"@))
    })
}

/// That `inner` can be read as an enum validator, with the depth `depth`.
pub open spec fn enum_readable(inner: ValueView, depth: nat) -> bool
    decreases depth, 0nat,
{
    depth > 0 && (inner matches ValueView::Obj(p) && EnumValidator::keys_known(p) && {
        let m = pairs_map(p);
        &&& text_of(m, name_key("comment"@)) is Some
        &&& flag_of(m, name_key("extend"@)) is Some
        &&& variants_readable(opt_field(m, name_key("var"@)), (depth - 1) as nat)
    })
}

/// That the enum validator `x` is what `inner` says.
pub open spec fn enum_reads_as(inner: ValueView, x: EnumValidator, depth: nat) -> bool
    decreases depth, 0nat,
{
    depth > 0 && (inner matches ValueView::Obj(p) && {
        let m = pairs_map(p);
        &&& Some(encode_utf8(x.spec_comment())) == text_of(m, name_key("comment"@))
        &&& Some(x.spec_extend()) == flag_of(m, name_key("extend"@))
        &&& variants_read_as(opt_field(m, name_key("var"@)), x.spec_var(), (depth - 1) as nat)
    })
}

/// That `x` can be read as a validator, validators leading into one another at most `depth`
/// deep: the name of a validator without configuration, or an object of one pair, the name
/// of a validator and what can be read as its configuration.
pub open spec fn readable(x: ValueView, depth: nat) -> bool
    decreases depth, 1nat,
{
    match x {
        ValueView::Str(s) => s == name_key("Null"@) || s == name_key("F32"@) || s == name_key("F64"@) || s
            == name_key("Any"@),
        ValueView::Obj(pairs) => pairs.len() == 1 && ({
            let name = pairs[0].0;
            let inner = pairs[0].1;

            if name == name_key("Int"@) {
                IntValidator::is_form(inner)
            } else if name == name_key("Str"@) {
                StrValidator::is_form(inner)
            } else if name == name_key("Time"@) {
                TimeValidator::is_form(inner)
            } else if name == name_key("Hash"@) {
                HashValidator::is_form(inner)
            } else if name == name_key("Bool"@) {
                BoolValidator::is_form(inner)
            } else if name == name_key("Bin"@) {
                BinValidator::is_form(inner)
            } else if name == name_key("Identity"@) {
                IdentityValidator::is_form(inner)
            } else if name == name_key("Lockbox"@) {
                LockboxValidator::is_form(inner)
            } else if name == name_key("Array"@) {
                array_readable(inner, depth)
            } else if name == name_key("Map"@) {
                obj_readable(inner, depth)
            } else if name == name_key("Enum"@) {
                enum_readable(inner, depth)
            } else if name == name_key("Multi"@) {
                depth > 0 && (inner matches ValueView::Array(items) && all_readable(items, (depth - 1) as nat))
            } else if name == name_key("Ref"@) {
                inner is Str
            } else {
                false
            }
        }),
        _ => false,
    }
}

/// That the validator `v` is what `x` says.
pub open spec fn reads_as(x: ValueView, v: Validator, depth: nat) -> bool
    decreases depth, 1nat,
{
    match v {
        Validator::Null => x == ValueView::Str(name_key("Null"@)),
        Validator::F32 => x == ValueView::Str(name_key("F32"@)),
        Validator::F64 => x == ValueView::Str(name_key("F64"@)),
        Validator::Any => x == ValueView::Str(name_key("Any"@)),

        Validator::Int(c) => is_under(x, "Int"@) && c.is_form_of(x->Obj_0[0].1),
        Validator::Str(c) => is_under(x, "Str"@) && c.is_form_of(x->Obj_0[0].1),
        Validator::Time(c) => is_under(x, "Time"@) && c.is_form_of(x->Obj_0[0].1),
        Validator::Hash(c) => is_under(x, "Hash"@) && c.is_form_of(x->Obj_0[0].1),
        Validator::Bool(c) => is_under(x, "Bool"@) && c.is_form_of(x->Obj_0[0].1),
        Validator::Bin(c) => is_under(x, "Bin"@) && c.is_form_of(x->Obj_0[0].1),
        Validator::Identity(c) => is_under(x, "Identity"@) && c.is_form_of(x->Obj_0[0].1),
        Validator::Lockbox(c) => is_under(x, "Lockbox"@) && c.is_form_of(x->Obj_0[0].1),
        Validator::Array(c) => is_under(x, "Array"@) && array_reads_as(x->Obj_0[0].1, *c, depth),
        Validator::Obj(c) => is_under(x, "Map"@) && obj_reads_as(x->Obj_0[0].1, *c, depth),
        Validator::Enum(c) => is_under(x, "Enum"@) && enum_reads_as(x->Obj_0[0].1, c, depth),
        Validator::Multi(list) => is_under(x, "Multi"@) && depth > 0 && (x->Obj_0[0].1 matches ValueView::Array(
            items,
        ) && all_read_as(items, list@, (depth - 1) as nat)),
        Validator::Ref(name) => is_under(x, "Ref"@) && x->Obj_0[0].1 == ValueView::Str(encode_utf8(name@)),
    }
}

} // verus!
