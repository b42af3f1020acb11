//! The validator for arrays.

use vstd::prelude::*;
use crate::codec::{lemma_encode_parse_value, lemma_parse_head, lemma_parse_items_step, parse_items, parse_value};
use crate::element::Element;
use crate::error::{Error, Reason};
use crate::format::{lemma_encode_parse_element, parse_element, ElementView};
use crate::parser::Parser;
use crate::crypto::hash::HashView;
use crate::validator::checklist::{copy_checklist, Checklist};
use crate::validator::deferred::{
    array_deferred, checklist_with, contains_deferred, deferred, lemma_with_more, lemma_with_nothing,
};
use crate::validator::query::allows;
use crate::validator::rules::{
    accepts, all_distinct, array_accepts, array_depth_suffices, array_listed, item_validator,
    listed_all_arrays, listed_all_null, passes, some_item_accepts, validated,
};
use crate::validator::{Types, Validator};
use crate::value::{items_view, lemma_array_view, Value, ValueView};

verus! {

/// Whether the flag is off.
pub fn is_false(v: &bool) -> (r: bool)
    ensures
        r == !*v,
{
    !*v
}

/// Whether the validator passes any value.
pub fn validator_is_any(v: &Validator) -> (r: bool)
    ensures
        r == (*v is Any),
{
    match v {
        Validator::Any => true,
        _ => false,
    }
}

/// Whether the number is zero.
pub fn u32_is_zero(v: &u32) -> (r: bool)
    ensures
        r == (*v == 0),
{
    *v == 0
}

/// Whether the number is the largest there is.
pub fn u32_is_max(v: &u32) -> (r: bool)
    ensures
        r == (*v == u32::MAX),
{
    *v == u32::MAX
}

/// Validator for arrays.
///
/// An array passes if:
///
/// - it is on the `in` list, unless that list is empty, and not on the `nin` list;
/// - it has at least `min_len` and at most `max_len` items;
/// - no item occurs twice, where `unique` is set;
/// - for each validator in `contains`, at least one item passes it;
/// - each item passes the validator at its index in `prefix`, or `items` where `prefix` is
///   too short;
/// - the items at the indices in `same_len` are all null or absent, or are all arrays of
///   one length.
///
/// A query may use a field only where the schema's validator permits it: `in` and `nin`
/// under `query`, `prefix` and `items` under `array`, `contains` under `contains_ok`,
/// `unique` under `unique_ok`, the lengths under `size`, `same_len` under `same_len_ok`. The
/// validators inside the query must in turn be permitted by the schema's: each of `contains`
/// by `items` and by every validator of `prefix`, `items` by `items`, each of `prefix` by the
/// one at its index, `items` standing in on either side where a `prefix` is too short.
#[derive(Debug, PartialEq)]
pub struct ArrayValidator {
    /// An optional comment explaining the validator.
    pub comment: String,
    /// For each validator here, at least one item must pass it.
    pub contains: Vec<Validator>,
    /// The validator for every item that `prefix` does not reach.
    pub items: Box<Validator>,
    /// The validators for the first items, by index.
    pub prefix: Vec<Validator>,
    /// The largest number of items allowed.
    pub max_len: u32,
    /// The smallest number of items allowed.
    pub min_len: u32,
    /// The arrays allowed, where not empty.
    pub in_list: Vec<Vec<Value>>,
    /// The arrays not allowed.
    pub nin_list: Vec<Vec<Value>>,
    /// The indices whose items must all be null or absent, or all be arrays of one length.
    pub same_len: Indices,
    /// Whether no item may occur twice.
    pub unique: bool,
    /// Whether the array is meant to grow in later versions of the schema.
    pub extend: bool,
    /// Whether queries may use `in` and `nin`.
    pub query: bool,
    /// Whether queries may use `items` and `prefix`.
    pub array: bool,
    /// Whether queries may use `contains`.
    pub contains_ok: bool,
    /// Whether queries may use `unique`.
    pub unique_ok: bool,
    /// Whether queries may use `max_len` and `min_len`.
    pub size: bool,
    /// Whether queries may use `same_len`.
    pub same_len_ok: bool,
}

impl Default for ArrayValidator {
    fn default() -> (r: Self)
        ensures
            r.is_default(),
    {
        ArrayValidator {
            comment: String::new(),
            contains: Vec::new(),
            items: Box::new(Validator::Any),
            prefix: Vec::new(),
            max_len: u32::MAX,
            min_len: u32::MIN,
            in_list: Vec::new(),
            nin_list: Vec::new(),
            same_len: Indices::new(),
            extend: false,
            unique: false,
            query: false,
            array: false,
            contains_ok: false,
            unique_ok: false,
            size: false,
            same_len_ok: false,
        }
    }
}

/// That no position occurs twice.
pub open spec fn indices_distinct(list: Seq<usize>) -> bool {
    forall|a: int, b: int| 0 <= a < b < list.len() ==> list[a] != list[b]
}

/// Positions in an array, each once, in the order in which they were given.
#[derive(Debug, PartialEq)]
pub struct Indices {
    list: Vec<usize>,
}

impl View for Indices {
    type V = Seq<usize>;

    closed spec fn view(&self) -> Seq<usize> {
        self.list@
    }
}

impl Indices {
    #[verifier::type_invariant]
    spec fn inv(self) -> bool {
        indices_distinct(self.list@)
    }

    /// No position.
    pub fn new() -> (r: Indices)
        ensures
            r@.len() == 0,
    {
        Indices { list: Vec::new() }
    }

    /// The positions of `list`, none of which occurs twice.
    pub(crate) fn from_list(list: Vec<usize>) -> (r: Indices)
        requires
            indices_distinct(list@),
        ensures
            r@ == list@,
    {
        Indices { list }
    }

    /// The positions. None occurs twice.
    pub fn list(&self) -> (l: &Vec<usize>)
        ensures
            l@ == self@,
            indices_distinct(l@),
    {
        proof {
            use_type_invariant(self);
        }
        &self.list
    }

    /// How many positions there are.
    pub fn len(&self) -> (n: usize)
        ensures
            n == self@.len(),
    {
        self.list.len()
    }

    /// The positions with `x` behind them, unless it is among them already.
    pub fn with(self, x: usize) -> (r: Indices)
        ensures
            r@ == (if index_listed(self@, x) {
                self@
            } else {
                self@.push(x)
            }),
    {
        proof {
            use_type_invariant(&self);
        }
        let Indices { list } = self;
        let mut list = list;
        if !index_in_list(&list, x) {
            list.push(x);
        }
        Indices { list }
    }
}

/// Whether `x` is one of `list`.
pub open spec fn index_listed(list: Seq<usize>, x: usize) -> bool {
    exists|i: int| 0 <= i < list.len() && #[trigger] list[i] == x
}

/// Whether `x` is one of `list`.
pub fn index_in_list(list: &Vec<usize>, x: usize) -> (r: bool)
    ensures
        r == index_listed(list@, x),
{
    let mut i: usize = 0;
    while i < list.len()
        invariant
            0 <= i <= list.len(),
            forall|j: int| 0 <= j < i ==> #[trigger] list@[j] != x,
        decreases list.len() - i,
    {
        if list[i] == x {
            return true;
        }
        i += 1;
    }
    false
}

/// What an item is, as far as the rule of same lengths looks at it.
#[derive(Clone, Copy, Debug)]
pub enum ItemKind {
    /// Null.
    Null,
    /// An array of that many items.
    Array(usize),
    /// Anything else, or nothing that can be read.
    Other,
}

impl ItemKind {
    /// Whether this is what `x` is.
    pub open spec fn describes(self, x: ValueView) -> bool {
        match self {
            ItemKind::Null => x is Null,
            ItemKind::Array(n) => x is Array && x->Array_0.len() == n,
            ItemKind::Other => !(x is Null) && !(x is Array),
        }
    }
}

/// Whether the two arrays hold the same items.
pub fn same_items(a: &Vec<Value>, b: &Vec<Value>) -> (r: bool)
    ensures
        r == (items_view(a@) == items_view(b@)),
{
    if a.len() != b.len() {
        assert(items_view(a@).len() != items_view(b@).len());
        return false;
    }
    let mut i: usize = 0;
    while i < a.len()
        invariant
            0 <= i <= a.len(),
            a.len() == b.len(),
            forall|j: int| 0 <= j < i ==> a@[j]@ == b@[j]@,
        decreases a.len() - i,
    {
        if !a[i].same(&b[i]) {
            assert(items_view(a@)[i as int] != items_view(b@)[i as int]);
            return false;
        }
        i += 1;
    }
    assert(items_view(a@) =~= items_view(b@));
    true
}

/// Whether the array `items` is one of `list`.
pub fn arrays_listed(list: &Vec<Vec<Value>>, items: &Vec<Value>) -> (r: bool)
    ensures
        r == array_listed(list@, items_view(items@)),
{
    let mut i: usize = 0;
    while i < list.len()
        invariant
            0 <= i <= list.len(),
            forall|j: int| 0 <= j < i ==> items_view((#[trigger] list@[j])@) != items_view(items@),
        decreases list.len() - i,
    {
        if same_items(&list[i], items) {
            return true;
        }
        i += 1;
    }
    false
}

/// Whether no item occurs twice.
pub fn items_distinct(items: &Vec<Value>) -> (r: bool)
    ensures
        r == all_distinct(items_view(items@)),
{
    let ghost view = items_view(items@);
    let mut a: usize = 0;
    while a < items.len()
        invariant
            0 <= a <= items.len(),
            view == items_view(items@),
            forall|x: int, y: int| 0 <= x < y < view.len() && x < a ==> view[x] != view[y],
        decreases items.len() - a,
    {
        let mut b: usize = a + 1;
        while b < items.len()
            invariant
                a < b <= items.len(),
                view == items_view(items@),
                forall|y: int| a < y < b ==> view[a as int] != view[y],
            decreases items.len() - b,
        {
            if items[a].same(&items[b]) {
                assert(view[a as int] == view[b as int]);
                return false;
            }
            b += 1;
        }
        a += 1;
    }
    true
}

/// Whether the items at the positions in `list` are all null or absent, or are all there and
/// are all arrays of one length. `kinds` says what each item is.
fn same_len_check(list: &Vec<usize>, kinds: &Vec<ItemKind>, Ghost(items): Ghost<Seq<ValueView>>) -> (r: bool)
    requires
        kinds@.len() == items.len(),
        forall|j: int| 0 <= j < items.len() ==> (#[trigger] kinds@[j]).describes(items[j]),
    ensures
        r == (listed_all_null(list@, items) || listed_all_arrays(list@, items)),
{
    let mut all_null = true;
    let mut all_arrays = true;
    let mut common: Option<usize> = None;
    let mut k: usize = 0;
    while k < list.len()
        invariant
            0 <= k <= list.len(),
            kinds@.len() == items.len(),
            forall|j: int| 0 <= j < items.len() ==> (#[trigger] kinds@[j]).describes(items[j]),
            all_null == listed_all_null(list@.take(k as int), items),
            all_arrays == listed_all_arrays(list@.take(k as int), items),
            k == 0 ==> common is None,
            all_arrays && k > 0 ==> common is Some && list@[0] < items.len() && common->0 == items[list@[0] as int]->Array_0.len(),
        decreases list.len() - k,
    {
        let at = list[k];
        let ghost prev = list@.take(k as int);
        let ghost next = list@.take(k + 1);
        proof {
            assert(next =~= prev.push(at));
            assert(next[k as int] == at);
            assert forall|j: int| 0 <= j < k implies next[j] == #[trigger] prev[j] by {}
        }
        let kind = if at < kinds.len() {
            kinds[at]
        } else {
            ItemKind::Other
        };
        let here_null = at >= kinds.len() || match kind {
            ItemKind::Null => true,
            _ => false,
        };
        let here_array = at < kinds.len() && match kind {
            ItemKind::Array(n) => match common {
                Some(c) => c == n || !all_arrays,
                None => true,
            },
            _ => false,
        };
        proof {
            if all_null && here_null {
                assert forall|j: int| 0 <= j < next.len() && (#[trigger] next[j]) < items.len() implies items[next[j] as int] is Null by {
                    if j < k {
                        assert(next[j] == prev[j]);
                    }
                }
            }
            if !(all_null && here_null) {
                if all_null {
                    assert(next[k as int] < items.len() && !(items[next[k as int] as int] is Null));
                } else {
                    let w = choose|w: int| 0 <= w < prev.len() && (#[trigger] prev[w]) < items.len() && !(items[prev[w] as int] is Null);
                    assert(next[w] == prev[w]);
                }
            }
            if all_arrays && here_array {
                assert forall|j: int| 0 <= j < next.len() implies (#[trigger] next[j]) < items.len() && items[next[j] as int] is Array by {
                    if j < k {
                        assert(next[j] == prev[j]);
                    }
                }
                assert forall|j: int, l: int| 0 <= j < next.len() && 0 <= l < next.len() implies items[(#[trigger] next[j]) as int]->Array_0.len() == items[(#[trigger] next[l]) as int]->Array_0.len() by {
                    if k > 0 {
                        assert(next[0] == prev[0]);
                        if j < k {
                            assert(next[j] == prev[j]);
                            assert(items[prev[j] as int]->Array_0.len() == items[prev[0] as int]->Array_0.len());
                        }
                        if l < k {
                            assert(next[l] == prev[l]);
                            assert(items[prev[l] as int]->Array_0.len() == items[prev[0] as int]->Array_0.len());
                        }
                    }
                }
            }
            if !(all_arrays && here_array) {
                if all_arrays {
                    if k > 0 {
                        assert(next[0] == prev[0]);
                    }
                    assert(!listed_all_arrays(next, items)) by {
                        if listed_all_arrays(next, items) {
                            assert(next[k as int] < items.len() && items[next[k as int] as int] is Array);
                            if k > 0 {
                                assert(items[next[k as int] as int]->Array_0.len() == items[next[0] as int]->Array_0.len());
                            }
                        }
                    }
                } else {
                    assert(!listed_all_arrays(next, items)) by {
                        if listed_all_arrays(next, items) {
                            assert forall|j: int| 0 <= j < prev.len() implies (#[trigger] prev[j]) < items.len() && items[prev[j] as int] is Array by {
                                assert(next[j] == prev[j]);
                            }
                            assert forall|j: int, l: int| 0 <= j < prev.len() && 0 <= l < prev.len() implies items[(#[trigger] prev[j]) as int]->Array_0.len() == items[(#[trigger] prev[l]) as int]->Array_0.len() by {
                                assert(next[j] == prev[j]);
                                assert(next[l] == prev[l]);
                            }
                        }
                    }
                }
            }
        }
        if all_arrays && here_array && common.is_none() {
            match kind {
                ItemKind::Array(n) => {
                    common = Some(n);
                },
                _ => {},
            }
        }
        all_null = all_null && here_null;
        all_arrays = all_arrays && here_array;
        proof {
            if all_arrays {
                assert(next[0] == list@[0]);
            }
        }
        k += 1;
    }
    assert(list@.take(list@.len() as int) =~= list@);
    all_null || all_arrays
}

impl ArrayValidator {
    /// That every field has its default: no comment, any item and any length allowed, no
    /// list, no permission for queries.
    pub open spec fn is_default(self) -> bool {
        &&& self.comment@.len() == 0
        &&& self.contains@.len() == 0
        &&& *self.items is Any
        &&& self.prefix@.len() == 0
        &&& self.max_len == u32::MAX
        &&& self.min_len == 0
        &&& self.in_list@.len() == 0
        &&& self.nin_list@.len() == 0
        &&& self.same_len@.len() == 0
        &&& !self.extend
        &&& !self.unique
        &&& !self.query
        &&& !self.array
        &&& !self.contains_ok
        &&& !self.unique_ok
        &&& !self.size
        &&& !self.same_len_ok
    }

    /// Make a new validator with the default configuration.
    pub fn new() -> (r: Self)
        ensures
            r.is_default(),
    {
        Self::default()
    }

    /// Set a comment for the validator.
    pub fn comment(self, comment: &str) -> (r: Self)
        ensures
            r == (ArrayValidator { comment: r.comment, ..self }),
            r.comment@ == comment@,
    {
        let mut s = self;
        s.comment = comment.to_owned();
        s
    }

    /// Extend the `contains` list with another validator.
    pub fn contains_add(self, validator: Validator) -> (r: Self)
        ensures
            r == (ArrayValidator { contains: r.contains, ..self }),
            r.contains@ == self.contains@.push(validator),
    {
        let mut s = self;
        s.contains.push(validator);
        s
    }

    /// Set the `items` validator.
    pub fn items(self, items: Validator) -> (r: Self)
        ensures
            r == (ArrayValidator { items: Box::new(items), ..self }),
    {
        let mut s = self;
        s.items = Box::new(items);
        s
    }

    /// Extend the `prefix` list with another validator.
    pub fn prefix_add(self, prefix: Validator) -> (r: Self)
        ensures
            r == (ArrayValidator { prefix: r.prefix, ..self }),
            r.prefix@ == self.prefix@.push(prefix),
    {
        let mut s = self;
        s.prefix.push(prefix);
        s
    }

    /// Set the maximum number of allowed items.
    pub fn max_len(self, max_len: u32) -> (r: Self)
        ensures
            r == (ArrayValidator { max_len, ..self }),
    {
        let mut s = self;
        s.max_len = max_len;
        s
    }

    /// Set the minimum number of allowed items.
    pub fn min_len(self, min_len: u32) -> (r: Self)
        ensures
            r == (ArrayValidator { min_len, ..self }),
    {
        let mut s = self;
        s.min_len = min_len;
        s
    }

    /// Add an array to the `in` list.
    pub fn in_add(self, add: Vec<Value>) -> (r: Self)
        ensures
            r == (ArrayValidator { in_list: r.in_list, ..self }),
            r.in_list@ == self.in_list@.push(add),
    {
        let mut s = self;
        s.in_list.push(add);
        s
    }

    /// Add an array to the `nin` list.
    pub fn nin_add(self, add: Vec<Value>) -> (r: Self)
        ensures
            r == (ArrayValidator { nin_list: r.nin_list, ..self }),
            r.nin_list@ == self.nin_list@.push(add),
    {
        let mut s = self;
        s.nin_list.push(add);
        s
    }

    /// Add an index to the `same_len` list, unless it is there already.
    pub fn same_len_add(self, add: usize) -> (r: Self)
        ensures
            r == (ArrayValidator { same_len: r.same_len, ..self }),
            r.same_len@ == (if index_listed(self.same_len@, add) {
                self.same_len@
            } else {
                self.same_len@.push(add)
            }),
    {
        let ArrayValidator {
            comment,
            contains,
            items,
            prefix,
            max_len,
            min_len,
            in_list,
            nin_list,
            same_len,
            unique,
            extend,
            query,
            array,
            contains_ok,
            unique_ok,
            size,
            same_len_ok,
        } = self;
        ArrayValidator {
            comment,
            contains,
            items,
            prefix,
            max_len,
            min_len,
            in_list,
            nin_list,
            same_len: same_len.with(add),
            unique,
            extend,
            query,
            array,
            contains_ok,
            unique_ok,
            size,
            same_len_ok,
        }
    }

    /// Mark whether or not the array can be extended.
    pub fn extensible(self, extend: bool) -> (r: Self)
        ensures
            r == (ArrayValidator { extend, ..self }),
    {
        let mut s = self;
        s.extend = extend;
        s
    }

    /// Set whether the items in the array must be unique.
    pub fn unique(self, unique: bool) -> (r: Self)
        ensures
            r == (ArrayValidator { unique, ..self }),
    {
        let mut s = self;
        s.unique = unique;
        s
    }

    /// Set whether or not queries can use the `in` and `nin` lists.
    pub fn query(self, query: bool) -> (r: Self)
        ensures
            r == (ArrayValidator { query, ..self }),
    {
        let mut s = self;
        s.query = query;
        s
    }

    /// Set whether or not queries can use the `items` and `prefix` values.
    pub fn array(self, array: bool) -> (r: Self)
        ensures
            r == (ArrayValidator { array, ..self }),
    {
        let mut s = self;
        s.array = array;
        s
    }

    /// Set whether or not queries can use the `contains` value.
    pub fn contains_ok(self, contains_ok: bool) -> (r: Self)
        ensures
            r == (ArrayValidator { contains_ok, ..self }),
    {
        let mut s = self;
        s.contains_ok = contains_ok;
        s
    }

    /// Set whether or not queries can use the `unique` setting.
    pub fn unique_ok(self, unique_ok: bool) -> (r: Self)
        ensures
            r == (ArrayValidator { unique_ok, ..self }),
    {
        let mut s = self;
        s.unique_ok = unique_ok;
        s
    }

    /// Set whether or not queries can use the `max_len` and `min_len` values.
    pub fn size(self, size: bool) -> (r: Self)
        ensures
            r == (ArrayValidator { size, ..self }),
    {
        let mut s = self;
        s.size = size;
        s
    }

    /// Set whether or not queries can use the `same_len` value.
    pub fn same_len_ok(self, same_len_ok: bool) -> (r: Self)
        ensures
            r == (ArrayValidator { same_len_ok, ..self }),
    {
        let mut s = self;
        s.same_len_ok = same_len_ok;
        s
    }

    /// Build this into a `Validator` enum.
    pub fn build(self) -> (v: Validator)
        ensures
            v == Validator::Array(Box::new(self)),
    {
        Validator::Array(Box::new(self))
    }

    /// For each validator in `contains` that no item has passed yet, sees whether the value at
    /// the parser passes it. The parser stays where it is; what such a validator puts on the
    /// checklist stays on it. `seen` holds the items that came before.
    fn contains_step<'a>(
        &self,
        types: &Types,
        parser: Parser<'a>,
        checklist: Option<Checklist>,
        found: &mut Vec<bool>,
        depth: usize,
        Ghost(seen): Ghost<Seq<ValueView>>,
    ) -> (c: Option<Checklist>)
        requires
            old(found)@.len() == self.contains@.len(),
            forall|k: int|
                0 <= k < self.contains@.len() ==> (#[trigger] old(found)@[k]) == some_item_accepts(
                    self.contains@[k],
                    types@,
                    seen,
                    depth as nat,
                ),
        ensures
            final(found)@.len() == self.contains@.len(),
            forall|k: int|
                0 <= k < self.contains@.len() ==> (#[trigger] final(found)@[k]) == (old(found)@[k] || passes(
                    self.contains@[k],
                    types@,
                    parser@,
                    Seq::empty(),
                    depth as nat,
                )),
            checklist_with(
                checklist,
                c,
                if parse_value(parser@, depth as nat) is Ok {
                    contains_deferred(
                        *self,
                        types@,
                        seen,
                        parse_value(parser@, depth as nat)->Ok_0.0,
                        depth as nat,
                        self.contains@.len() as nat,
                    )
                } else {
                    Seq::empty()
                },
            ),
        decreases depth, 2nat,
    {
        let mut checklist = checklist;
        let ghost first = checklist;
        let ghost d = depth as nat;
        let ghost parsed = parse_value(parser@, d);
        proof {
            lemma_with_nothing(first, first);
        }
        let visited: Vec<usize> = Vec::new();
        assert(visited@ =~= Seq::empty());
        let mut k: usize = 0;
        while k < self.contains.len()
            invariant
                0 <= k <= self.contains@.len(),
                found@.len() == self.contains@.len(),
                visited@ == Seq::<usize>::empty(),
                d == depth as nat,
                parsed == parse_value(parser@, d),
                checklist_with(
                    first,
                    checklist,
                    if parsed is Ok {
                        contains_deferred(*self, types@, seen, parsed->Ok_0.0, d, k as nat)
                    } else {
                        Seq::empty()
                    },
                ),
                forall|j: int|
                    0 <= j < self.contains@.len() ==> (#[trigger] old(found)@[j]) == some_item_accepts(
                        self.contains@[j],
                        types@,
                        seen,
                        d,
                    ),
                forall|j: int|
                    0 <= j < k ==> (#[trigger] found@[j]) == (old(found)@[j] || passes(
                        self.contains@[j],
                        types@,
                        parser@,
                        Seq::empty(),
                        depth as nat,
                    )),
                forall|j: int| k <= j < self.contains@.len() ==> (#[trigger] found@[j]) == old(found)@[j],
            decreases self.contains@.len() - k,
        {
            let ghost mid = checklist;
            let ghost v = self.contains@[k as int];
            let ghost so_far = if parsed is Ok {
                contains_deferred(*self, types@, seen, parsed->Ok_0.0, d, k as nat)
            } else {
                Seq::empty()
            };
            let ghost mut added: Seq<(HashView, Seq<HashView>)> = Seq::empty();
            proof {
                assert(found@[k as int] == old(found)@[k as int]);
                assert(old(found)@[k as int] == some_item_accepts(v, types@, seen, d));
                lemma_with_nothing(mid, mid);
            }
            if !found[k] {
                let copy = copy_checklist(&checklist);
                let attempt = self.contains[k].validate_within(types, parser, copy, &visited, depth);
                match attempt {
                    Ok((_, c)) => {
                        proof {
                            added = deferred(v, types@, parsed->Ok_0.0, Seq::empty(), d);
                        }
                        found[k] = true;
                        checklist = c;
                    },
                    Err(_) => {},
                }
            }
            proof {
                assert(checklist_with(mid, checklist, added));
                lemma_with_more(first, mid, checklist, so_far, added);
                if parsed is Ok {
                    assert(contains_deferred(*self, types@, seen, parsed->Ok_0.0, d, (k + 1) as nat) == so_far + added);
                } else {
                    assert(so_far + added =~= Seq::empty());
                }
            }
            k += 1;
        }
        checklist
    }

    /// Checks the value at the parser's position: an array whose length, items and, where
    /// asked for, whole content are as this validator says.
    ///
    /// Succeeds exactly where the bytes at the parser hold an array that this validator
    /// passes, validators leading into one another at most `depth` deep.
    pub fn validate<'a>(&self, types: &Types, parser: Parser<'a>, checklist: Option<Checklist>, depth: usize) -> (r:
        Result<(Parser<'a>, Option<Checklist>), Error>)
        ensures
            validated(
                r,
                depth > 0 && parse_value(parser@, depth as nat) is Ok && parse_value(parser@, depth as nat)->Ok_0.0 is Array
                    && array_accepts(
                    *self,
                    types@,
                    parse_value(parser@, depth as nat)->Ok_0.0->Array_0,
                    (depth - 1) as nat,
                ),
                parser@,
                depth as nat,
                checklist,
                array_deferred(
                    *self,
                    types@,
                    parse_value(parser@, depth as nat)->Ok_0.0->Array_0,
                    (depth - 1) as nat,
                ),
                depth > 0 && (parse_value(parser@, depth as nat)->Ok_0.0 is Array ==> array_depth_suffices(
                    *self,
                    types@,
                    parse_value(parser@, depth as nat)->Ok_0.0->Array_0,
                    (depth - 1) as nat,
                )),
            ),
            depth > 0 ==> match parse_element(parser@) {
                Ok((ElementView::Array(n), _)) => {
                    &&& n > self.max_len ==> r is Err && r->Err_0 == Error::FailValidate(Reason::TooLong)
                    &&& self.max_len >= n && n < self.min_len ==> r is Err && r->Err_0 == Error::FailValidate(
                        Reason::TooShort,
                    )
                },
                Ok(_) => r is Err && r->Err_0 == Error::FailValidate(Reason::Kind),
                Err(e) => r is Err && r->Err_0 == e,
            },
        decreases depth, 0nat,
    {
        let ghost b = parser@;
        let ghost d = depth as nat;
        let ghost first = checklist;
        if depth == 0 {
            return Err(Error::DepthExceeded);
        }
        let ghost d1 = (depth - 1) as nat;
        proof {
            lemma_with_nothing(first, first);
            if parse_value(b, d) is Ok {
                lemma_parse_head(b, d);
                lemma_encode_parse_value(b, d);
            }
            if parse_element(b) is Ok {
                lemma_encode_parse_element(b);
            }
        }
        let val_parser = parser;
        let mut cur = parser;
        let elem = cur.next()?;
        let len = if let Element::Array(len) = elem {
            len
        } else {
            return Err(Error::FailValidate(Reason::Kind));
        };
        let ghost h = parse_element(b)->Ok_0.1;
        let ghost b1 = cur@;
        if len > self.max_len as usize {
            return Err(Error::FailValidate(Reason::TooLong));
        }
        if len < self.min_len as usize {
            return Err(Error::FailValidate(Reason::TooShort));
        }
        // Check all the requirements that require parsing the entire array
        if self.unique || self.in_list.len() > 0 || self.nin_list.len() > 0 {
            let mut whole = val_parser;
            let array = match whole.read_value(depth)? {
                Value::Array(items) => {
                    proof {
                        lemma_array_view(items);
                    }
                    items
                },
                _ => {
                    return Err(Error::FailValidate(Reason::Kind));
                },
            };
            if self.in_list.len() > 0 && !arrays_listed(&self.in_list, &array) {
                return Err(Error::FailValidate(Reason::NotListed));
            }
            if arrays_listed(&self.nin_list, &array) {
                return Err(Error::FailValidate(Reason::Forbidden));
            }
            if self.unique && !items_distinct(&array) {
                return Err(Error::FailValidate(Reason::NotUnique));
            }
        }
        // Loop through each item, verifying it with the appropriate validator
        let mut contains_result: Vec<bool> = vec![false; self.contains.len()];
        let mut kinds: Vec<ItemKind> = Vec::new();
        let mut todo = checklist;
        let visited: Vec<usize> = Vec::new();
        let ghost mut seen: Seq<ValueView> = Seq::empty();
        let ghost mut off: int = 0;
        let mut i: usize = 0;
        proof {
            assert(visited@ =~= Seq::empty());
            assert(b1.skip(0) =~= b1);
            match parse_items(b1, len as nat, d1) {
                Ok((rest, m)) => {
                    assert(seen + rest =~= rest);
                },
                Err(_) => {},
            }
        }
        while i < len
            invariant
                0 <= i <= len,
                depth > 0,
                d1 == (depth - 1) as nat,
                visited@ == Seq::<usize>::empty(),
                b == parser@,
                d == depth as nat,
                first == checklist,
                len < 0x1_0000_0000,
                parse_element(b) is Ok && parse_element(b)->Ok_0.0 == ElementView::Array(len as nat),
                self.min_len <= len <= self.max_len,
                parse_value(b, d) is Ok ==> parse_items(b1, len as nat, d1) is Ok && parse_value(b, d)->Ok_0.0
                    == ValueView::Array(parse_items(b1, len as nat, d1)->Ok_0.0),
                0 <= off <= b1.len(),
                cur@ == b1.skip(off),
                seen.len() == i,
                kinds@.len() == i,
                contains_result@.len() == self.contains@.len(),
                checklist_with(first, todo, array_deferred(*self, types@, seen, d1)),
                match parse_items(cur@, (len - i) as nat, d1) {
                    Ok((rest, m)) => parse_items(b1, len as nat, d1) == Ok::<(Seq<ValueView>, int), Error>(
                        (seen + rest, off + m),
                    ),
                    Err(e) => parse_items(b1, len as nat, d1) == Err::<(Seq<ValueView>, int), Error>(e),
                },
                parse_items(b1, len as nat, d1) matches Err(e) ==> parse_value(b, d) == Err::<(ValueView, int), Error>(
                    e,
                ),
                forall|j: int|
                    0 <= j < i ==> accepts(item_validator(*self, j), types@, #[trigger] seen[j], Seq::empty(), d1),
                forall|j: int| 0 <= j < i ==> (#[trigger] kinds@[j]).describes(seen[j]),
                forall|k: int|
                    0 <= k < self.contains@.len() ==> (#[trigger] contains_result@[k]) == some_item_accepts(
                        self.contains@[k],
                        types@,
                        seen,
                        d1,
                    ),
            decreases len - i,
        {
            let ghost at = cur@;
            proof {
                lemma_parse_items_step(at, (len - i) as nat, d1);
                if parse_value(at, d1) is Ok {
                    lemma_parse_head(at, d1);
                    lemma_encode_parse_value(at, d1);
                }
            }
            // If we have a "contains", check and see if this item in the array
            // gets any of the "contains" validators to pass.
            let ghost before = todo;
            let ghost found_before = contains_result@;
            todo = self.contains_step(types, cur, todo, &mut contains_result, depth - 1, Ghost(seen));
            // Note what the item is, for the check of same-length sub-arrays
            let kind = match cur.peek() {
                Ok(Element::Null) => ItemKind::Null,
                Ok(Element::Array(n)) => ItemKind::Array(n),
                _ => ItemKind::Other,
            };
            // Validate this item in the array against the next validator
            let validator = if i < self.prefix.len() {
                &self.prefix[i]
            } else {
                &*self.items
            };
            let ghost mid = todo;
            let (p, c) = match validator.validate_within(types, cur, todo, &visited, depth - 1) {
                Ok(x) => x,
                Err(e) => {
                    proof {
                        if parse_value(b, d) is Ok && parse_value(at, d1) is Ok {
                            let x = parse_value(at, d1)->Ok_0.0;
                            let rest = parse_items(at, (len - i) as nat, d1)->Ok_0.0;
                            assert(rest[0] == x);
                            let all = seen + rest;
                            assert(all[i as int] == x);
                            assert(!accepts(item_validator(*self, i as int), types@, all[i as int], Seq::empty(), d1));
                        }
                    }
                    return Err(e);
                },
            };
            proof {
                let (x, n) = parse_value(at, d1)->Ok_0;
                let next = seen.push(x);
                let held = contains_deferred(*self, types@, seen, x, d1, self.contains@.len() as nat);
                let own = deferred(item_validator(*self, i as int), types@, x, Seq::empty(), d1);
                lemma_with_more(first, before, mid, array_deferred(*self, types@, seen, d1), held);
                lemma_with_more(first, mid, c, array_deferred(*self, types@, seen, d1) + held, own);
                assert(next.drop_last() =~= seen);
                assert(next.last() == x);
                assert(array_deferred(*self, types@, next, d1) == array_deferred(*self, types@, seen, d1) + held
                    + own);
                assert(0 <= n <= at.len());
                assert(b1.skip(off).skip(n) =~= b1.skip(off + n));
                assert(at.skip(n) =~= b1.skip(off + n));
                match parse_items(at.skip(n), (len - i - 1) as nat, d1) {
                    Ok((rest, m)) => {
                        assert(next + rest =~= seen + (seq![x] + rest));
                    },
                    Err(_) => {},
                }
                assert forall|j: int| 0 <= j < i + 1 implies accepts(
                    item_validator(*self, j),
                    types@,
                    #[trigger] next[j],
                    Seq::empty(),
                    d1,
                ) by {
                    if j < i {
                        assert(next[j] == seen[j]);
                    }
                }
                assert forall|k: int| 0 <= k < self.contains@.len() implies (#[trigger] contains_result@[k])
                    == some_item_accepts(self.contains@[k], types@, next, d1) by {
                    let v = self.contains@[k];
                    assert(contains_result@[k] == (found_before[k] || passes(v, types@, at, Seq::empty(), d1)));
                    if some_item_accepts(v, types@, seen, d1) {
                        let w = choose|w: int|
                            0 <= w < seen.len() && accepts(v, types@, #[trigger] seen[w], Seq::empty(), d1);
                        assert(next[w] == seen[w]);
                    }
                    if accepts(v, types@, x, Seq::empty(), d1) {
                        assert(next[i as int] == x);
                    }
                    if some_item_accepts(v, types@, next, d1) {
                        let w = choose|w: int|
                            0 <= w < next.len() && accepts(v, types@, #[trigger] next[w], Seq::empty(), d1);
                        if w < i {
                            assert(next[w] == seen[w]);
                        }
                    }
                }
                assert forall|j: int| 0 <= j < i + 1 implies (#[trigger] kinds@.push(kind)[j]).describes(
                    next[j],
                ) by {
                    if j < i {
                        assert(kinds@.push(kind)[j] == kinds@[j]);
                        assert(next[j] == seen[j]);
                    }
                }
                seen = next;
                off = off + n;
            }
            kinds.push(kind);
            cur = p;
            todo = c;
            i += 1;
        }
        proof {
            assert(seen + Seq::<ValueView>::empty() =~= seen);
            assert(b1.skip(off) =~= b.skip(h + off));
        }
        if !same_len_check(self.same_len.list(), &kinds, Ghost(seen)) {
            return Err(Error::FailValidate(Reason::LengthsDiffer));
        }
        let mut k: usize = 0;
        while k < contains_result.len()
            invariant
                0 <= k <= contains_result@.len(),
                contains_result@.len() == self.contains@.len(),
                b == parser@,
                d == depth as nat,
                depth > 0,
                d1 == (depth - 1) as nat,
                parse_element(b) is Ok && parse_element(b)->Ok_0.0 == ElementView::Array(len as nat),
                self.min_len <= len <= self.max_len,
                parse_value(b, d) is Ok ==> parse_value(b, d)->Ok_0.0 == ValueView::Array(seen),
                forall|q: int|
                    0 <= q < self.contains@.len() ==> (#[trigger] contains_result@[q]) == some_item_accepts(
                        self.contains@[q],
                        types@,
                        seen,
                        d1,
                    ),
                forall|j: int| 0 <= j < k ==> #[trigger] contains_result@[j],
            decreases contains_result@.len() - k,
        {
            if !contains_result[k] {
                proof {
                    assert(!some_item_accepts(self.contains@[k as int], types@, seen, d1));
                }
                return Err(Error::FailValidate(Reason::NotContained));
            }
            k += 1;
        }
        proof {
            assert forall|c: int| 0 <= c < self.contains@.len() implies some_item_accepts(
                #[trigger] self.contains@[c],
                types@,
                seen,
                d1,
            ) by {
                assert(contains_result@[c]);
            }
        }
        Ok((cur, todo))
    }

    /// The queries that a schema with this validator permits, among array validators: those
    /// that use no more than the permissions allow, and whose own validators are permitted
    /// in turn, each by the validator that meets the same items.
    pub open spec fn query_allows(self, types: Seq<(String, Validator)>, other: ArrayValidator, depth: nat) -> bool
        decreases depth, 2nat,
    {
        &&& self.query || (other.in_list@.len() == 0 && other.nin_list@.len() == 0)
        &&& self.array || (other.prefix@.len() == 0 && *other.items is Any)
        &&& self.contains_ok || other.contains@.len() == 0
        &&& self.unique_ok || !other.unique
        &&& self.same_len_ok || other.same_len@.len() == 0
        &&& self.size || (other.max_len == u32::MAX && other.min_len == 0)
        &&& self.contains_ok ==> forall|c: int|
            0 <= c < other.contains@.len() ==> self.contains_allows(types, #[trigger] other.contains@[c], depth)
        &&& self.array ==> {
            &&& sub_allows(*self.items, types, *other.items, depth)
            &&& forall|i: int|
                0 <= i < self.prefix@.len() || 0 <= i < other.prefix@.len() ==> sub_allows(
                    #[trigger] item_validator(self, i),
                    types,
                    item_validator(other, i),
                    depth,
                )
        }
    }

    /// Whether this validator permits a query to ask that some item pass `theirs`: `items`
    /// and every validator of `prefix` must permit it.
    pub open spec fn contains_allows(self, types: Seq<(String, Validator)>, theirs: Validator, depth: nat) -> bool
        decreases depth, 1nat,
    {
        &&& sub_allows(*self.items, types, theirs, depth)
        &&& forall|p: int| 0 <= p < self.prefix@.len() ==> sub_allows(#[trigger] self.prefix@[p], types, theirs, depth)
    }

    /// The queries that a schema with this validator permits: any query that asks nothing,
    /// an array validator that it permits, and a choice each of whose branches it permits,
    /// with one level of depth less.
    pub open spec fn query_allows_validator(self, types: Seq<(String, Validator)>, other: Validator, depth: nat) -> bool
        decreases depth, 3nat,
    {
        match other {
            Validator::Array(o) => self.query_allows(types, *o, depth),
            Validator::Multi(list) => depth > 0 && forall|i: int|
                0 <= i < list@.len() ==> self.query_allows_validator(types, #[trigger] list@[i], (depth - 1) as nat),
            Validator::Any => true,
            _ => false,
        }
    }

    fn query_check_self(&self, types: &Types, other: &ArrayValidator, depth: usize) -> (r: bool)
        ensures
            r == self.query_allows(types@, *other, depth as nat),
        decreases depth, 2nat,
    {
        let initial_check = (self.query || (other.in_list.len() == 0 && other.nin_list.len() == 0)) && (self.array
            || (other.prefix.len() == 0 && validator_is_any(&other.items))) && (self.contains_ok
            || other.contains.len() == 0) && (self.unique_ok || !other.unique) && (self.same_len_ok
            || other.same_len.len() == 0) && (self.size || (u32_is_max(&other.max_len) && u32_is_zero(
            &other.min_len,
        )));
        if !initial_check {
            return false;
        }
        if self.contains_ok {
            let mut c: usize = 0;
            while c < other.contains.len()
                invariant
                    0 <= c <= other.contains@.len(),
                    forall|j: int|
                        0 <= j < c ==> self.contains_allows(types@, #[trigger] other.contains@[j], depth as nat),
                decreases other.contains@.len() - c,
            {
                let theirs = &other.contains[c];
                if depth == 0 || !self.items.query_check_within(types, theirs, depth - 1) {
                    assert(!self.contains_allows(types@, other.contains@[c as int], depth as nat));
                    return false;
                }
                let mut p: usize = 0;
                while p < self.prefix.len()
                    invariant
                        0 <= p <= self.prefix@.len(),
                        depth > 0,
                        c < other.contains@.len(),
                        *theirs == other.contains@[c as int],
                        forall|j: int|
                            0 <= j < p ==> sub_allows(#[trigger] self.prefix@[j], types@, *theirs, depth as nat),
                    decreases self.prefix@.len() - p,
                {
                    if !self.prefix[p].query_check_within(types, theirs, depth - 1) {
                        assert(!sub_allows(self.prefix@[p as int], types@, *theirs, depth as nat));
                        assert(!self.contains_allows(types@, other.contains@[c as int], depth as nat));
                        return false;
                    }
                    p += 1;
                }
                c += 1;
            }
        }
        if self.array {
            // Make sure item_type is OK, then check all items against their matching validator
            if depth == 0 || !self.items.query_check_within(types, &other.items, depth - 1) {
                return false;
            }
            let most = if self.prefix.len() > other.prefix.len() {
                self.prefix.len()
            } else {
                other.prefix.len()
            };
            let mut i: usize = 0;
            while i < most
                invariant
                    0 <= i <= most,
                    depth > 0,
                    self.array,
                    most == self.prefix@.len() || most == other.prefix@.len(),
                    most >= self.prefix@.len(),
                    most >= other.prefix@.len(),
                    forall|j: int|
                        0 <= j < i ==> sub_allows(
                            #[trigger] item_validator(*self, j),
                            types@,
                            item_validator(*other, j),
                            depth as nat,
                        ),
                decreases most - i,
            {
                let mine = if i < self.prefix.len() {
                    &self.prefix[i]
                } else {
                    &*self.items
                };
                let theirs = if i < other.prefix.len() {
                    &other.prefix[i]
                } else {
                    &*other.items
                };
                if !mine.query_check_within(types, theirs, depth - 1) {
                    assert(!sub_allows(item_validator(*self, i as int), types@, item_validator(*other, i as int), depth as nat));
                    return false;
                }
                i += 1;
            }
            true
        } else {
            true
        }
    }

    /// Whether a schema with this validator permits the query `other`.
    pub fn query_check(&self, types: &Types, other: &Validator, depth: usize) -> (r: bool)
        ensures
            r == self.query_allows_validator(types@, *other, depth as nat),
        decreases depth, 3nat,
    {
        match other {
            Validator::Array(other) => self.query_check_self(types, other, depth),
            Validator::Multi(list) => {
                if depth == 0 {
                    return false;
                }
                let mut i: usize = 0;
                while i < list.len()
                    invariant
                        0 <= i <= list.len(),
                        depth > 0,
                        other is Multi,
                        other->Multi_0 == *list,
                        forall|j: int|
                            0 <= j < i ==> self.query_allows_validator(
                                types@,
                                #[trigger] list@[j],
                                (depth - 1) as nat,
                            ),
                    decreases list.len() - i,
                {
                    if !self.query_check(types, &list[i], depth - 1) {
                        return false;
                    }
                    i += 1;
                }
                true
            },
            Validator::Any => true,
            _ => false,
        }
    }
}

/// Whether the validator `mine`, one step further in, permits the query `theirs`.
pub open spec fn sub_allows(mine: Validator, types: Seq<(String, Validator)>, theirs: Validator, depth: nat) -> bool
    decreases depth, 0nat,
{
    if depth == 0 {
        false
    } else {
        allows(mine, types, theirs, (depth - 1) as nat)
    }
}

} // verus!
