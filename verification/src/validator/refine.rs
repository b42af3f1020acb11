//! Refinements: validators that ask more than another, and therefore pass no more.

use vstd::prelude::*;
use vstd::utf8::encode_utf8;
use crate::assoc::{find_from, find_key, lemma_find_from};
use crate::validator::array::ArrayValidator;
use crate::validator::binary::{bin_listed, BinValidator};
use crate::validator::boolean::{bool_listed, BoolValidator};
use crate::validator::identity::{identity_listed, IdentityValidator};
use crate::validator::lockbox::LockboxValidator;
use crate::validator::enum_set::EnumValidator;
use crate::validator::obj::ObjValidator;
use crate::validator::integer::{int_listed, IntValidator};
use crate::validator::query::same_kind;
use crate::validator::rules::{
    accepts, array_accepts, array_listed, entry_accepts, enum_accepts, has_key, item_validator,
    lemma_accepts_fits, obj_accepts, some_item_accepts,
};
use crate::validator::string::{str_listed, StrValidator};
use crate::validator::time::{time_listed, TimeValidator};
use crate::validator::Validator;
use crate::value::{items_view, ValueView};

verus! {

impl TimeValidator {
    /// That this validator asks at least what `base` asks: its bounds lie within those of
    /// `base`, what it allows by list `base` allows by list, and what `base` forbids by
    /// list it forbids by list.
    pub open spec fn refines(self, base: TimeValidator) -> bool {
        &&& self.max@.le(base.max@)
        &&& self.max@ == base.max@ && base.ex_max ==> self.ex_max
        &&& base.min@.le(self.min@)
        &&& self.min@ == base.min@ && base.ex_min ==> self.ex_min
        &&& base.in_list@.len() > 0 ==> self.in_list@.len() > 0 && forall|i: int|
            0 <= i < self.in_list@.len() ==> time_listed(base.in_list@, (#[trigger] self.in_list@[i])@)
        &&& forall|i: int|
            0 <= i < base.nin_list@.len() ==> time_listed(self.nin_list@, (#[trigger] base.nin_list@[i])@)
    }
}

impl IntValidator {
    /// That this validator asks at least what `base` asks: its bounds lie within those of
    /// `base`, what it allows by list `base` allows by list, and what `base` forbids by
    /// list it forbids by list.
    pub open spec fn refines(self, base: IntValidator) -> bool {
        &&& self.max@ <= base.max@
        &&& self.max@ == base.max@ && base.ex_max ==> self.ex_max
        &&& base.min@ <= self.min@
        &&& self.min@ == base.min@ && base.ex_min ==> self.ex_min
        &&& base.in_list@.len() > 0 ==> self.in_list@.len() > 0 && forall|i: int|
            0 <= i < self.in_list@.len() ==> int_listed(base.in_list@, (#[trigger] self.in_list@[i])@)
        &&& forall|i: int|
            0 <= i < base.nin_list@.len() ==> int_listed(self.nin_list@, (#[trigger] base.nin_list@[i])@)
    }
}

impl StrValidator {
    /// That this validator asks at least what `base` asks: its lengths lie within those of
    /// `base`, what it allows by list `base` allows by list, and what `base` forbids by
    /// list it forbids by list.
    pub open spec fn refines(self, base: StrValidator) -> bool {
        &&& self.max_len <= base.max_len
        &&& base.min_len <= self.min_len
        &&& base.in_list@.len() > 0 ==> self.in_list@.len() > 0 && forall|i: int|
            0 <= i < self.in_list@.len() ==> str_listed(base.in_list@, encode_utf8((#[trigger] self.in_list@[i])@))
        &&& forall|i: int|
            0 <= i < base.nin_list@.len() ==> str_listed(
                self.nin_list@,
                encode_utf8((#[trigger] base.nin_list@[i])@),
            )
    }
}

impl BoolValidator {
    /// That this validator asks at least what `base` asks: what it allows by list `base` allows by list, and what `base` forbids by
    /// list it forbids by list.
    pub open spec fn refines(self, base: BoolValidator) -> bool {
        &&& base.in_list@.len() > 0 ==> self.in_list@.len() > 0 && forall|i: int|
            0 <= i < self.in_list@.len() ==> bool_listed(base.in_list@, #[trigger] self.in_list@[i])
        &&& forall|i: int|
            0 <= i < base.nin_list@.len() ==> bool_listed(self.nin_list@, #[trigger] base.nin_list@[i])
    }

    /// Every validator refines itself.
    pub proof fn lemma_refines_itself(self)
        ensures
            self.refines(self),
    {
        assert forall|i: int| 0 <= i < self.in_list@.len() implies bool_listed(self.in_list@, #[trigger] self.in_list@[i]) by {}
        assert forall|i: int| 0 <= i < self.nin_list@.len() implies bool_listed(self.nin_list@, #[trigger] self.nin_list@[i]) by {}
    }

    /// What a refinement passes, the validator it refines passes.
    pub proof fn lemma_refines(self, base: BoolValidator, t: bool)
        requires
            self.refines(base),
            self.accepts(t),
        ensures
            base.accepts(t),
    {
        if base.in_list@.len() > 0 {
            let i = choose|i: int| 0 <= i < self.in_list@.len() && #[trigger] self.in_list@[i] == t;
            assert(bool_listed(base.in_list@, self.in_list@[i]));
        }
        if bool_listed(base.nin_list@, t) {
            let i = choose|i: int| 0 <= i < base.nin_list@.len() && #[trigger] base.nin_list@[i] == t;
            assert(bool_listed(self.nin_list@, base.nin_list@[i]));
        }
    }
}

impl BinValidator {
    /// That this validator asks at least what `base` asks: its lengths lie within those of
    /// `base`, what it allows by list `base` allows by list, and what `base` forbids by
    /// list it forbids by list.
    pub open spec fn refines(self, base: BinValidator) -> bool {
        &&& self.max_len <= base.max_len
        &&& base.min_len <= self.min_len
        &&& base.in_list@.len() > 0 ==> self.in_list@.len() > 0 && forall|i: int|
            0 <= i < self.in_list@.len() ==> bin_listed(base.in_list@, (#[trigger] self.in_list@[i])@)
        &&& forall|i: int|
            0 <= i < base.nin_list@.len() ==> bin_listed(self.nin_list@, (#[trigger] base.nin_list@[i])@)
    }

    /// Every validator refines itself.
    pub proof fn lemma_refines_itself(self)
        ensures
            self.refines(self),
    {
        assert forall|i: int| 0 <= i < self.in_list@.len() implies bin_listed(self.in_list@, (#[trigger] self.in_list@[i])@) by {}
        assert forall|i: int| 0 <= i < self.nin_list@.len() implies bin_listed(self.nin_list@, (#[trigger] self.nin_list@[i])@) by {}
    }

    /// What a refinement passes, the validator it refines passes.
    pub proof fn lemma_refines(self, base: BinValidator, t: Seq<u8>)
        requires
            self.refines(base),
            self.accepts(t),
        ensures
            base.accepts(t),
    {
        if base.in_list@.len() > 0 {
            let i = choose|i: int| 0 <= i < self.in_list@.len() && (#[trigger] self.in_list@[i])@ == t;
            assert(bin_listed(base.in_list@, (self.in_list@[i])@));
        }
        if bin_listed(base.nin_list@, t) {
            let i = choose|i: int| 0 <= i < base.nin_list@.len() && (#[trigger] base.nin_list@[i])@ == t;
            assert(bin_listed(self.nin_list@, (base.nin_list@[i])@));
        }
    }
}

impl IdentityValidator {
    /// That this validator asks at least what `base` asks: what it allows by list `base` allows by list, and what `base` forbids by
    /// list it forbids by list.
    pub open spec fn refines(self, base: IdentityValidator) -> bool {
        &&& base.in_list@.len() > 0 ==> self.in_list@.len() > 0 && forall|i: int|
            0 <= i < self.in_list@.len() ==> identity_listed(base.in_list@, (#[trigger] self.in_list@[i])@)
        &&& forall|i: int|
            0 <= i < base.nin_list@.len() ==> identity_listed(self.nin_list@, (#[trigger] base.nin_list@[i])@)
    }

    /// Every validator refines itself.
    pub proof fn lemma_refines_itself(self)
        ensures
            self.refines(self),
    {
        assert forall|i: int| 0 <= i < self.in_list@.len() implies identity_listed(self.in_list@, (#[trigger] self.in_list@[i])@) by {}
        assert forall|i: int| 0 <= i < self.nin_list@.len() implies identity_listed(self.nin_list@, (#[trigger] self.nin_list@[i])@) by {}
    }

    /// What a refinement passes, the validator it refines passes.
    pub proof fn lemma_refines(self, base: IdentityValidator, t: crate::crypto::key::IdentityView)
        requires
            self.refines(base),
            self.accepts(t),
        ensures
            base.accepts(t),
    {
        if base.in_list@.len() > 0 {
            let i = choose|i: int| 0 <= i < self.in_list@.len() && (#[trigger] self.in_list@[i])@ == t;
            assert(identity_listed(base.in_list@, (self.in_list@[i])@));
        }
        if identity_listed(base.nin_list@, t) {
            let i = choose|i: int| 0 <= i < base.nin_list@.len() && (#[trigger] base.nin_list@[i])@ == t;
            assert(identity_listed(self.nin_list@, (base.nin_list@[i])@));
        }
    }
}

impl LockboxValidator {
    /// That this validator asks at least what `base` asks: its lengths lie within those of
    /// `base`.
    pub open spec fn refines(self, base: LockboxValidator) -> bool {
        &&& self.max_len <= base.max_len
        &&& base.min_len <= self.min_len
    }

    /// Every validator refines itself.
    pub proof fn lemma_refines_itself(self)
        ensures
            self.refines(self),
    {
    }

    /// What a refinement passes, the validator it refines passes.
    pub proof fn lemma_refines(self, base: LockboxValidator, t: Seq<u8>)
        requires
            self.refines(base),
            self.accepts(t),
        ensures
            base.accepts(t),
    {
    }
}

/// That two lists hold the same names at the same places.
pub open spec fn same_names<A, B>(a: Seq<(String, A)>, b: Seq<(String, B)>) -> bool {
    a.len() == b.len() && forall|i: int|
        0 <= i < a.len() ==> encode_utf8((#[trigger] a[i]).0@) == encode_utf8(b[i].0@)
}

/// Lists that hold the same names at the same places hold each name at the same place.
pub proof fn lemma_same_names_find<A, B>(a: Seq<(String, A)>, b: Seq<(String, B)>, key: Seq<u8>, i: int)
    requires
        same_names(a, b),
        0 <= i,
    ensures
        find_from(a, key, i) == find_from(b, key, i),
    decreases a.len() - i,
{
    if i < a.len() {
        assert(encode_utf8(a[i].0@) == encode_utf8(b[i].0@));
        if encode_utf8(a[i].0@) != key {
            lemma_same_names_find(a, b, key, i + 1);
        }
    }
}

/// Whether one of the validators in `list` refines `base`.
pub open spec fn some_refines(list: Seq<Validator>, base: Validator) -> bool
    decreases base, 2nat,
{
    exists|j: int| 0 <= j < list.len() && refines(#[trigger] list[j], base)
}

/// Whether `r` refines one of the branches of the choice `base`.
pub open spec fn refines_some(r: Validator, base: Validator) -> bool
    decreases base, 0nat,
{
    base matches Validator::Multi(list) && exists|j: int| 0 <= j < list@.len() && refines(r, #[trigger] list@[j])
}

/// That the array validator `x` asks at least what `base` asks: its lengths lie within
/// those of `base`, it asks for uniqueness where `base` does, what it allows by list `base`
/// allows by list, what `base` forbids by list it forbids by list, its validators for the
/// items refine those of `base` place by place, and every validator that `base` wants some
/// item to pass is refined by one that it wants some item to pass.
pub open spec fn array_refines(x: ArrayValidator, base: ArrayValidator) -> bool
    decreases base, 0nat,
{
    &&& x.same_len@ == base.same_len@
    &&& x.max_len <= base.max_len
    &&& base.min_len <= x.min_len
    &&& base.unique ==> x.unique
    &&& base.in_list@.len() > 0 ==> x.in_list@.len() > 0 && forall|i: int|
        0 <= i < x.in_list@.len() ==> array_listed(base.in_list@, items_view((#[trigger] x.in_list@[i])@))
    &&& forall|i: int|
        0 <= i < base.nin_list@.len() ==> array_listed(x.nin_list@, items_view((#[trigger] base.nin_list@[i])@))
    &&& refines(*x.items, *base.items)
    &&& x.prefix@.len() == base.prefix@.len()
    &&& forall|i: int| 0 <= i < base.prefix@.len() ==> refines(x.prefix@[i], #[trigger] base.prefix@[i])
    &&& forall|i: int| 0 <= i < base.contains@.len() ==> some_refines(x.contains@, #[trigger] base.contains@[i])
}

/// That the validators in `mine` refine those in `theirs` place by place, under the same
/// names.
pub open spec fn named_refine(mine: Seq<(String, Validator)>, theirs: Seq<(String, Validator)>) -> bool
    decreases theirs, 0nat,
{
    &&& same_names(mine, theirs)
    &&& forall|i: int| 0 <= i < theirs.len() ==> refines(mine[i].1, (#[trigger] theirs[i]).1)
}

/// That the object validator `x` asks at least what `base` asks: its lengths lie within
/// those of `base`, it lets unknown keys through only where `base` does, it asks of the
/// keys at least what `base` asks of them, and under the same keys, and for the other
/// values, its validators refine those of `base`.
pub open spec fn obj_refines(x: ObjValidator, base: ObjValidator) -> bool
    decreases base, 0nat,
{
    &&& x.max_len <= base.max_len
    &&& base.min_len <= x.min_len
    &&& x.unknown_ok ==> base.unknown_ok
    &&& base.keys is Some ==> x.keys is Some && x.keys->0.refines(base.keys->0)
    &&& {
        proof {
            base.req.lemma_decreases(0);
        }
        named_refine(x.req@, base.req@)
    }
    &&& {
        proof {
            base.opt.lemma_decreases(0);
        }
        named_refine(x.opt@, base.opt@)
    }
    &&& match base.values {
        Some(v) => x.values is Some && refines(*x.values->0, *v),
        None => x.values is None,
    }
}

/// That the enum validator `x` lists the variants that `base` lists, each without data
/// where `base` has it without, and else with a validator that refines that of `base`.
pub open spec fn enum_refines(x: EnumValidator, base: EnumValidator) -> bool
    decreases base, 0nat,
{
    &&& same_names(x.spec_var(), base.spec_var())
    &&& forall|i: int|
        0 <= i < base.spec_var().len() ==> match (#[trigger] base.spec_var()[i]).1 {
            Some(v) => {
                proof {
                    base.lemma_var_decreases(i);
                }
                x.spec_var()[i].1 is Some && refines(x.spec_var()[i].1->0, v)
            },
            None => x.spec_var()[i].1 is None,
        }
}

/// That the validator `r` is a refinement of the validator `base`: of the same kind, and
/// asking at least what `base` asks, all the way down. Any validator refines the one that
/// passes anything; a choice refines a choice where each of its branches refines one of the
/// other's.
pub open spec fn refines(r: Validator, base: Validator) -> bool
    decreases base, 1nat,
{
    match base {
        Validator::Any => true,
        Validator::Int(b) => r matches Validator::Int(x) && x.refines(*b),
        Validator::Str(b) => r matches Validator::Str(x) && x.refines(*b),
        Validator::Time(b) => r matches Validator::Time(x) && x.refines(*b),
        Validator::Bool(b) => r matches Validator::Bool(x) && x.refines(*b),
        Validator::Bin(b) => r matches Validator::Bin(x) && x.refines(*b),
        Validator::Identity(b) => r matches Validator::Identity(x) && x.refines(*b),
        Validator::Lockbox(b) => r matches Validator::Lockbox(x) && x.refines(*b),
        Validator::Array(b) => r matches Validator::Array(x) && array_refines(*x, *b),
        Validator::Obj(b) => r matches Validator::Obj(x) && obj_refines(*x, *b),
        Validator::Enum(b) => r matches Validator::Enum(x) && enum_refines(x, b),
        Validator::Multi(list) => r matches Validator::Multi(mine) && forall|i: int|
            0 <= i < mine@.len() ==> refines_some(#[trigger] mine@[i], base),
        Validator::Hash(_) => r is Hash,
        Validator::Ref(_) => r == base,
        _ => same_kind(base, r),
    }
}

impl TimeValidator {
    /// What a refinement passes, the validator it refines passes.
    pub proof fn lemma_refines(self, base: TimeValidator, t: crate::timestamp::TimestampView)
        requires
            self.refines(base),
            self.accepts(t),
        ensures
            base.accepts(t),
    {
        if base.in_list@.len() > 0 {
            let i = choose|i: int| 0 <= i < self.in_list@.len() && (#[trigger] self.in_list@[i])@ == t;
            assert(time_listed(base.in_list@, self.in_list@[i]@));
        }
        if time_listed(base.nin_list@, t) {
            let i = choose|i: int| 0 <= i < base.nin_list@.len() && (#[trigger] base.nin_list@[i])@ == t;
            assert(time_listed(self.nin_list@, base.nin_list@[i]@));
        }
    }
}

impl IntValidator {
    /// What a refinement passes, the validator it refines passes.
    pub proof fn lemma_refines(self, base: IntValidator, t: int)
        requires
            self.refines(base),
            self.accepts(t),
        ensures
            base.accepts(t),
    {
        if base.in_list@.len() > 0 {
            let i = choose|i: int| 0 <= i < self.in_list@.len() && (#[trigger] self.in_list@[i])@ == t;
            assert(int_listed(base.in_list@, self.in_list@[i]@));
        }
        if int_listed(base.nin_list@, t) {
            let i = choose|i: int| 0 <= i < base.nin_list@.len() && (#[trigger] base.nin_list@[i])@ == t;
            assert(int_listed(self.nin_list@, base.nin_list@[i]@));
        }
    }
}

impl StrValidator {
    /// Every validator refines itself.
    pub proof fn lemma_refines_itself(self)
        ensures
            self.refines(self),
    {
        assert forall|i: int| 0 <= i < self.in_list@.len() implies str_listed(
            self.in_list@,
            encode_utf8((#[trigger] self.in_list@[i])@),
        ) by {}
        assert forall|i: int| 0 <= i < self.nin_list@.len() implies str_listed(
            self.nin_list@,
            encode_utf8((#[trigger] self.nin_list@[i])@),
        ) by {}
    }

    /// What a refinement passes, the validator it refines passes.
    pub proof fn lemma_refines(self, base: StrValidator, t: Seq<u8>)
        requires
            self.refines(base),
            self.accepts(t),
        ensures
            base.accepts(t),
    {
        if base.in_list@.len() > 0 {
            let i = choose|i: int| 0 <= i < self.in_list@.len() && encode_utf8((#[trigger] self.in_list@[i])@) == t;
            assert(str_listed(base.in_list@, encode_utf8(self.in_list@[i]@)));
        }
        if str_listed(base.nin_list@, t) {
            let i = choose|i: int| 0 <= i < base.nin_list@.len() && encode_utf8((#[trigger] base.nin_list@[i])@) == t;
            assert(str_listed(self.nin_list@, encode_utf8(base.nin_list@[i]@)));
        }
    }
}

/// What a refinement passes, the validator it refines passes.
pub proof fn lemma_refinement_accepts(
    r: Validator,
    base: Validator,
    types: Seq<(String, Validator)>,
    x: ValueView,
    visited: Seq<usize>,
    depth: nat,
)
    requires
        refines(r, base),
        accepts(r, types, x, visited, depth),
    ensures
        accepts(base, types, x, visited, depth),
    decreases depth,
{
    reveal_with_fuel(refines, 2);
    lemma_accepts_fits(r, types, x, visited, depth);
    match base {
        Validator::Time(b) => {
            r->Time_0.lemma_refines(*b, x->Timestamp_0);
        },
        Validator::Int(b) => {
            r->Int_0.lemma_refines(*b, x->Int_0);
        },
        Validator::Str(b) => {
            r->Str_0.lemma_refines(*b, x->Str_0);
        },
        Validator::Bool(b) => {
            r->Bool_0.lemma_refines(*b, x->Bool_0);
        },
        Validator::Bin(b) => {
            r->Bin_0.lemma_refines(*b, x->Bin_0);
        },
        Validator::Identity(b) => {
            r->Identity_0.lemma_refines(*b, x->Identity_0);
        },
        Validator::Lockbox(b) => {
            r->Lockbox_0.lemma_refines(*b, x->Lockbox_0);
        },
        Validator::Array(b) => {
            reveal_with_fuel(accepts, 2);
            reveal_with_fuel(array_accepts, 2);
            let items = x->Array_0;
            let m = r->Array_0;
            let d = (depth - 1) as nat;
            assert(array_accepts(*m, types, items, d));
            assert(array_refines(*m, *b));
            if b.in_list@.len() > 0 {
                let i = choose|i: int| 0 <= i < m.in_list@.len() && items_view((#[trigger] m.in_list@[i])@) == items;
                assert(array_listed(b.in_list@, items_view(m.in_list@[i]@)));
            }
            if array_listed(b.nin_list@, items) {
                let i = choose|i: int| 0 <= i < b.nin_list@.len() && items_view((#[trigger] b.nin_list@[i])@) == items;
                assert(array_listed(m.nin_list@, items_view(b.nin_list@[i]@)));
            }
            assert forall|i: int| 0 <= i < items.len() implies accepts(
                item_validator(*b, i),
                types,
                #[trigger] items[i],
                Seq::empty(),
                d,
            ) by {
                assert(accepts(item_validator(*m, i), types, items[i], Seq::empty(), d));
                if i < b.prefix@.len() {
                    assert(refines(m.prefix@[i], b.prefix@[i]));
                }
                lemma_refinement_accepts(item_validator(*m, i), item_validator(*b, i), types, items[i], Seq::empty(), d);
            }
            assert forall|c: int| 0 <= c < b.contains@.len() implies some_item_accepts(
                #[trigger] b.contains@[c],
                types,
                items,
                d,
            ) by {
                assert(some_refines(m.contains@, b.contains@[c]));
                let j = choose|j: int|
                    0 <= j < m.contains@.len() && refines(#[trigger] m.contains@[j], b.contains@[c]);
                assert(some_item_accepts(m.contains@[j], types, items, d));
                let w = choose|w: int|
                    0 <= w < items.len() && accepts(m.contains@[j], types, #[trigger] items[w], Seq::empty(), d);
                lemma_refinement_accepts(m.contains@[j], b.contains@[c], types, items[w], Seq::empty(), d);
            }
            assert(array_accepts(*b, types, items, d));
        },
        Validator::Obj(b) => {
            reveal_with_fuel(accepts, 2);
            reveal_with_fuel(obj_accepts, 2);
            reveal_with_fuel(entry_accepts, 2);
            let entries = x->Obj_0;
            let m = r->Obj_0;
            let d = (depth - 1) as nat;
            assert(obj_accepts(*m, types, entries, d));
            assert(obj_refines(*m, *b));
            assert forall|j: int| 0 <= j < b.req@.len() implies has_key(
                entries,
                encode_utf8((#[trigger] b.req@[j]).0@),
            ) by {
                assert(has_key(entries, encode_utf8(m.req@[j].0@)));
            }
            assert forall|i: int| 0 <= i < entries.len() implies entry_accepts(
                *b,
                types,
                (#[trigger] entries[i]).0,
                entries[i].1,
                d,
            ) by {
                let key = entries[i].0;
                let val = entries[i].1;
                assert(entry_accepts(*m, types, key, val, d));
                if b.keys is Some {
                    m.keys->0.lemma_refines(b.keys->0, key);
                }
                lemma_same_names_find(m.req@, b.req@, key, 0);
                lemma_same_names_find(m.opt@, b.opt@, key, 0);
                lemma_find_from(b.req@, key, 0);
                lemma_find_from(b.opt@, key, 0);
                match (m.route(key), b.route(key)) {
                    (Some(mine), Some(theirs)) => {
                        assert(refines(mine, theirs));
                        lemma_refinement_accepts(mine, theirs, types, val, Seq::empty(), d);
                    },
                    _ => {},
                }
            }
            assert(obj_accepts(*b, types, entries, d));
        },
        Validator::Enum(b) => {
            reveal_with_fuel(accepts, 2);
            reveal_with_fuel(enum_accepts, 2);
            let m = r->Enum_0;
            let d = (depth - 1) as nat;
            assert(enum_accepts(m, types, x, d));
            assert(enum_refines(m, b));
            match x {
                ValueView::Str(name) => {
                    lemma_same_names_find(m.spec_var(), b.spec_var(), name, 0);
                    lemma_find_from(b.spec_var(), name, 0);
                },
                ValueView::Obj(entries) => {
                    let name = entries[0].0;
                    lemma_same_names_find(m.spec_var(), b.spec_var(), name, 0);
                    lemma_find_from(b.spec_var(), name, 0);
                    let k = find_key(b.spec_var(), name)->0;
                    assert(b.spec_var()[k].1 is Some);
                    lemma_refinement_accepts(m.spec_var()[k].1->0, b.spec_var()[k].1->0, types, entries[0].1, Seq::empty(), d);
                },
                _ => {},
            }
        },
        Validator::Multi(list) => {
            let mine = r->Multi_0;
            let d = (depth - 1) as nat;
            let i = choose|i: int| 0 <= i < mine@.len() && accepts(#[trigger] mine@[i], types, x, visited, d);
            assert(refines_some(mine@[i], base));
            let j = choose|j: int| 0 <= j < list@.len() && refines(mine@[i], #[trigger] list@[j]);
            lemma_refinement_accepts(mine@[i], list@[j], types, x, visited, d);
        },
        _ => {},
    }
}

/// Every validator refines itself.
pub proof fn lemma_refines_itself(v: Validator)
    ensures
        refines(v, v),
    decreases v,
{
    reveal_with_fuel(refines, 2);
    match v {
        Validator::Time(b) => {
            assert forall|i: int| 0 <= i < b.in_list@.len() implies time_listed(
                b.in_list@,
                (#[trigger] b.in_list@[i])@,
            ) by {}
            assert forall|i: int| 0 <= i < b.nin_list@.len() implies time_listed(
                b.nin_list@,
                (#[trigger] b.nin_list@[i])@,
            ) by {}
        },
        Validator::Int(b) => {
            assert forall|i: int| 0 <= i < b.in_list@.len() implies int_listed(
                b.in_list@,
                (#[trigger] b.in_list@[i])@,
            ) by {}
            assert forall|i: int| 0 <= i < b.nin_list@.len() implies int_listed(
                b.nin_list@,
                (#[trigger] b.nin_list@[i])@,
            ) by {}
        },
        Validator::Str(b) => {
            b.lemma_refines_itself();
        },
        Validator::Bool(b) => {
            b.lemma_refines_itself();
        },
        Validator::Bin(b) => {
            b.lemma_refines_itself();
        },
        Validator::Identity(b) => {
            b.lemma_refines_itself();
        },
        Validator::Lockbox(b) => {
            b.lemma_refines_itself();
        },
        Validator::Array(b) => {
            assert forall|i: int| 0 <= i < b.in_list@.len() implies array_listed(
                b.in_list@,
                items_view((#[trigger] b.in_list@[i])@),
            ) by {}
            assert forall|i: int| 0 <= i < b.nin_list@.len() implies array_listed(
                b.nin_list@,
                items_view((#[trigger] b.nin_list@[i])@),
            ) by {}
            lemma_refines_itself(*b.items);
            assert forall|i: int| 0 <= i < b.prefix@.len() implies refines(b.prefix@[i], #[trigger] b.prefix@[i]) by {
                lemma_refines_itself(b.prefix@[i]);
            }
            assert forall|i: int| 0 <= i < b.contains@.len() implies some_refines(
                b.contains@,
                #[trigger] b.contains@[i],
            ) by {
                lemma_refines_itself(b.contains@[i]);
            }
            assert(array_refines(*b, *b));
        },
        Validator::Obj(b) => {
            if b.keys is Some {
                b.keys->0.lemma_refines_itself();
            }
            assert forall|i: int| 0 <= i < b.req@.len() implies refines(b.req@[i].1, (#[trigger] b.req@[i]).1) by {
                b.req.lemma_decreases(i);
                lemma_refines_itself(b.req@[i].1);
            }
            assert forall|i: int| 0 <= i < b.opt@.len() implies refines(b.opt@[i].1, (#[trigger] b.opt@[i]).1) by {
                b.opt.lemma_decreases(i);
                lemma_refines_itself(b.opt@[i].1);
            }
            match b.values {
                Some(inner) => {
                    lemma_refines_itself(*inner);
                },
                None => {},
            }
            assert(named_refine(b.req@, b.req@));
            assert(named_refine(b.opt@, b.opt@));
            assert(obj_refines(*b, *b));
        },
        Validator::Enum(b) => {
            assert forall|i: int| 0 <= i < b.spec_var().len() implies match (#[trigger] b.spec_var()[i]).1 {
                Some(inner) => b.spec_var()[i].1 is Some && refines(b.spec_var()[i].1->0, inner),
                None => b.spec_var()[i].1 is None,
            } by {
                match b.spec_var()[i].1 {
                    Some(inner) => {
                        b.lemma_var_decreases(i);
                        lemma_refines_itself(inner);
                    },
                    None => {},
                }
            }
            assert(enum_refines(b, b));
        },
        Validator::Multi(list) => {
            assert forall|i: int| 0 <= i < list@.len() implies refines_some(#[trigger] list@[i], v) by {
                lemma_refines_itself(list@[i]);
            }
        },
        _ => {},
    }
}

/// Soundness of refinement: a value that a validator does not pass, no refinement of that
/// validator passes.
pub proof fn lemma_refinement_rejects(
    r: Validator,
    base: Validator,
    types: Seq<(String, Validator)>,
    x: ValueView,
    visited: Seq<usize>,
    depth: nat,
)
    requires
        refines(r, base),
        !accepts(base, types, x, visited, depth),
    ensures
        !accepts(r, types, x, visited, depth),
{
    if accepts(r, types, x, visited, depth) {
        lemma_refinement_accepts(r, base, types, x, visited, depth);
    }
}

} // verus!
