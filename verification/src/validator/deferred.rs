//! What validation leaves for later: the constraints on other documents that a value meets
//! on its way through a validator.

use vstd::prelude::*;
use vstd::utf8::encode_utf8;
use crate::assoc::find_key;
use crate::crypto::hash::HashView;
use crate::validator::array::ArrayValidator;
use crate::validator::checklist::{hashes_view, Checklist};
use crate::validator::enum_set::EnumValidator;
use crate::validator::obj::ObjValidator;
use crate::validator::rules::{accepts, item_validator, some_item_accepts, type_visited};
use crate::validator::Validator;
use crate::value::ValueView;

verus! {

/// The first position from `from` on at which `list` holds a validator that passes `x`, or
/// the length of the list where none does.
pub open spec fn first_accepting(
    list: Seq<Validator>,
    types: Seq<(String, Validator)>,
    x: ValueView,
    visited: Seq<usize>,
    depth: nat,
    from: int,
) -> int
    decreases list.len() - from,
{
    if from < 0 || from >= list.len() {
        list.len() as int
    } else if accepts(list[from], types, x, visited, depth) {
        from
    } else {
        first_accepting(list, types, x, visited, depth, from + 1)
    }
}

/// The first validator that passes is the one before which none does.
pub proof fn lemma_first_accepting(
    list: Seq<Validator>,
    types: Seq<(String, Validator)>,
    x: ValueView,
    visited: Seq<usize>,
    depth: nat,
    from: int,
    at: int,
)
    requires
        0 <= from <= at < list.len(),
        forall|j: int| from <= j < at ==> !accepts(#[trigger] list[j], types, x, visited, depth),
        accepts(list[at], types, x, visited, depth),
    ensures
        first_accepting(list, types, x, visited, depth, from) == at,
    decreases at - from,
{
    if from < at {
        assert(!accepts(list[from], types, x, visited, depth));
        lemma_first_accepting(list, types, x, visited, depth, from + 1, at);
    }
}

/// What the value `x`, which the validator `v` passes, leaves to settle, in the order in
/// which validation meets it.
///
/// A hash under a validator that asks for schemas leaves itself with those schemas. An
/// array leaves what its items leave, one after the other; an object, what its values
/// leave; a choice, what its first branch that passes leaves. A value of any other kind
/// leaves nothing.
pub open spec fn deferred(
    v: Validator,
    types: Seq<(String, Validator)>,
    x: ValueView,
    visited: Seq<usize>,
    depth: nat,
) -> Seq<(HashView, Seq<HashView>)>
    decreases depth, 0nat, 0nat,
{
    match v {
        Validator::Hash(hv) => if x is Hash && hv.schema@.len() > 0 {
            seq![(x->Hash_0, hashes_view(hv.schema@))]
        } else {
            Seq::empty()
        },
        Validator::Array(av) => if depth > 0 && x is Array {
            array_deferred(*av, types, x->Array_0, (depth - 1) as nat)
        } else {
            Seq::empty()
        },
        Validator::Obj(ov) => if depth > 0 && x is Obj {
            obj_deferred(*ov, types, x->Obj_0, (depth - 1) as nat)
        } else {
            Seq::empty()
        },
        Validator::Enum(ev) => if depth > 0 {
            enum_deferred(ev, types, x, (depth - 1) as nat)
        } else {
            Seq::empty()
        },
        Validator::Multi(list) => {
            let i = first_accepting(list@, types, x, visited, (depth - 1) as nat, 0);
            if depth > 0 && 0 <= i < list@.len() {
                deferred(list@[i], types, x, visited, (depth - 1) as nat)
            } else {
                Seq::empty()
            }
        },
        Validator::Ref(name) => match find_key(types, encode_utf8(name@)) {
            Some(idx) => if depth > 0 && !type_visited(visited, idx) && 0 <= idx < types.len() {
                deferred(types[idx].1, types, x, visited.push(idx as usize), (depth - 1) as nat)
            } else {
                Seq::empty()
            },
            None => Seq::empty(),
        },
        _ => Seq::empty(),
    }
}

/// What the item `x` of an array leaves to settle with the first `m` validators of
/// `contains`, where `before` holds the items that came before it: each of those validators
/// that none of the earlier items passed and that `x` passes adds what `x` leaves with it.
pub open spec fn contains_deferred(
    av: ArrayValidator,
    types: Seq<(String, Validator)>,
    before: Seq<ValueView>,
    x: ValueView,
    depth: nat,
    m: nat,
) -> Seq<(HashView, Seq<HashView>)>
    decreases depth, 1nat, m,
{
    if m == 0 || m > av.contains@.len() {
        Seq::empty()
    } else {
        let v = av.contains@[m - 1];
        contains_deferred(av, types, before, x, depth, (m - 1) as nat) + (if !some_item_accepts(
            v,
            types,
            before,
            depth,
        ) && accepts(v, types, x, Seq::empty(), depth) {
            deferred(v, types, x, Seq::empty(), depth)
        } else {
            Seq::empty()
        })
    }
}

/// What the items of an array leave to settle: item by item, first what the item leaves with
/// the validators of `contains` that no earlier item passed, then what it leaves with the
/// validator for its position.
pub open spec fn array_deferred(
    av: ArrayValidator,
    types: Seq<(String, Validator)>,
    items: Seq<ValueView>,
    depth: nat,
) -> Seq<(HashView, Seq<HashView>)>
    decreases depth, 2nat, items.len(),
{
    if items.len() == 0 {
        Seq::empty()
    } else {
        array_deferred(av, types, items.drop_last(), depth) + contains_deferred(
            av,
            types,
            items.drop_last(),
            items.last(),
            depth,
            av.contains@.len(),
        ) + deferred(item_validator(av, items.len() - 1), types, items.last(), Seq::empty(), depth)
    }
}

/// What the values of an object leave to settle: pair by pair, what the value leaves with
/// the validator that its key leads to.
pub open spec fn obj_deferred(
    ov: ObjValidator,
    types: Seq<(String, Validator)>,
    entries: Seq<(Seq<u8>, ValueView)>,
    depth: nat,
) -> Seq<(HashView, Seq<HashView>)>
    decreases depth, 2nat, entries.len(),
{
    if entries.len() == 0 {
        Seq::empty()
    } else {
        obj_deferred(ov, types, entries.drop_last(), depth) + (match ov.route(entries.last().0) {
            Some(v) => deferred(v, types, entries.last().1, Seq::empty(), depth),
            None => Seq::empty(),
        })
    }
}

/// What a variant leaves to settle: what its data leaves with the validator listed for it.
pub open spec fn enum_deferred(
    ev: EnumValidator,
    types: Seq<(String, Validator)>,
    x: ValueView,
    depth: nat,
) -> Seq<(HashView, Seq<HashView>)>
    decreases depth, 1nat, 0nat,
{
    match x {
        ValueView::Obj(entries) => if entries.len() == 1 {
            match find_key(ev.spec_var(), entries[0].0) {
                Some(k) => if 0 <= k < ev.spec_var().len() && ev.spec_var()[k].1 is Some {
                    deferred(ev.spec_var()[k].1->0, types, entries[0].1, Seq::empty(), depth)
                } else {
                    Seq::empty()
                },
                None => Seq::empty(),
            }
        } else {
            Seq::empty()
        },
        _ => Seq::empty(),
    }
}

/// That the list `after` is the list `before` with `more` put behind it; and that there is a
/// list after exactly where there was one before.
pub open spec fn checklist_with(
    before: Option<Checklist>,
    after: Option<Checklist>,
    more: Seq<(HashView, Seq<HashView>)>,
) -> bool {
    match before {
        None => after is None,
        Some(b) => after is Some && after->0@ == b@ + more,
    }
}

/// Nothing put behind a list leaves the list.
pub proof fn lemma_with_nothing(a: Option<Checklist>, copy: Option<Checklist>)
    requires
        match a {
            Some(x) => copy is Some && copy->0@ == x@,
            None => copy is None,
        },
    ensures
        checklist_with(a, copy, Seq::empty()),
{
    match a {
        Some(x) => {
            assert(x@ + Seq::<(HashView, Seq<HashView>)>::empty() =~= x@);
        },
        None => {},
    }
}

/// What is put behind a list in two goes is put behind it in one.
pub proof fn lemma_with_more(
    a: Option<Checklist>,
    b: Option<Checklist>,
    c: Option<Checklist>,
    first: Seq<(HashView, Seq<HashView>)>,
    second: Seq<(HashView, Seq<HashView>)>,
)
    requires
        checklist_with(a, b, first),
        checklist_with(b, c, second),
    ensures
        checklist_with(a, c, first + second),
{
    match a {
        Some(x) => {
            assert(x@ + (first + second) =~= (x@ + first) + second);
        },
        None => {},
    }
}

} // verus!
