//! Lists of named things, looked up by name and kept in the order of the names' bytes.

use vstd::prelude::*;
use vstd::string::StringSliceAdditionalSpecFns;
use vstd::utf8::encode_utf8;
use crate::bytes::{bytes_eq, bytes_lt, lemma_lex_total, lex_lt};

verus! {

/// The first position from `i` on at which `list` holds the name with the bytes `key`.
pub open spec fn find_from<T>(list: Seq<(String, T)>, key: Seq<u8>, i: int) -> Option<int>
    decreases list.len() - i,
{
    if i < 0 || i >= list.len() {
        None
    } else if encode_utf8(list[i].0@) == key {
        Some(i)
    } else {
        find_from(list, key, i + 1)
    }
}

/// The first position at which `list` holds the name with the bytes `key`.
pub open spec fn find_key<T>(list: Seq<(String, T)>, key: Seq<u8>) -> Option<int> {
    find_from(list, key, 0)
}

/// That the names come in strictly ascending byte order, so that none occurs twice.
pub open spec fn names_ascending<T>(list: Seq<(String, T)>) -> bool {
    forall|i: int|
        0 <= i < list.len() - 1 ==> lex_lt(encode_utf8((#[trigger] list[i]).0@), encode_utf8(list[i + 1].0@))
}

/// What is found is in the list, under the name asked for, and nothing before it is.
pub proof fn lemma_find_from<T>(list: Seq<(String, T)>, key: Seq<u8>, i: int)
    requires
        0 <= i,
    ensures
        match find_from(list, key, i) {
            Some(k) => i <= k < list.len() && encode_utf8(list[k].0@) == key && forall|j: int|
                i <= j < k ==> encode_utf8((#[trigger] list[j]).0@) != key,
            None => forall|j: int| i <= j < list.len() ==> encode_utf8((#[trigger] list[j]).0@) != key,
        },
    decreases list.len() - i,
{
    if i < list.len() && encode_utf8(list[i].0@) != key {
        lemma_find_from(list, key, i + 1);
    }
}

/// In a list whose names ascend, a name comes before every name after it.
pub proof fn lemma_ascending_lt<T>(list: Seq<(String, T)>, j: int, i: int)
    requires
        names_ascending(list),
        0 <= j < i < list.len(),
    ensures
        lex_lt(encode_utf8(list[j].0@), encode_utf8(list[i].0@)),
    decreases i - j,
{
    assert(lex_lt(encode_utf8(list[j].0@), encode_utf8(list[j + 1].0@)));
    if j + 1 < i {
        lemma_ascending_lt(list, j + 1, i);
        crate::bytes::lemma_lex_transitive(
            encode_utf8(list[j].0@),
            encode_utf8(list[j + 1].0@),
            encode_utf8(list[i].0@),
        );
    }
}

proof fn lemma_ascending_found_from<T>(list: Seq<(String, T)>, i: int, j: int)
    requires
        names_ascending(list),
        0 <= j <= i < list.len(),
    ensures
        find_from(list, encode_utf8(list[i].0@), j) == Some(i),
    decreases i - j,
{
    if j < i {
        lemma_ascending_lt(list, j, i);
        crate::bytes::lemma_lex_irreflexive(encode_utf8(list[i].0@));
        lemma_ascending_found_from(list, i, j + 1);
    }
}

/// In a list whose names ascend no name occurs twice: each is found where it stands.
pub proof fn lemma_ascending_found<T>(list: Seq<(String, T)>, i: int)
    requires
        names_ascending(list),
        0 <= i < list.len(),
    ensures
        find_key(list, encode_utf8(list[i].0@)) == Some(i),
{
    lemma_ascending_found_from(list, i, 0);
}

/// Where `list` holds `key`, if it does.
pub fn assoc_find<T>(list: &Vec<(String, T)>, key: &str) -> (r: Option<usize>)
    ensures
        match r {
            Some(i) => find_key(list@, key.spec_bytes()) == Some(i as int) && i < list@.len(),
            None => find_key(list@, key.spec_bytes()) is None,
        },
{
    let mut i: usize = 0;
    while i < list.len()
        invariant
            0 <= i <= list.len(),
            find_key(list@, key.spec_bytes()) == find_from(list@, key.spec_bytes(), i as int),
        decreases list.len() - i,
    {
        if bytes_eq(list[i].0.as_str().as_bytes(), key.as_bytes()) {
            return Some(i);
        }
        i += 1;
    }
    None
}

/// Putting something else under a name keeps the names in order.
proof fn lemma_update_ascending<T>(before: Seq<(String, T)>, i: int, item: (String, T))
    requires
        names_ascending(before),
        0 <= i < before.len(),
        encode_utf8(item.0@) == encode_utf8(before[i].0@),
    ensures
        names_ascending(before.update(i, item)),
{
    let after = before.update(i, item);
    assert forall|j: int| 0 <= j < after.len() - 1 implies lex_lt(
        encode_utf8((#[trigger] after[j]).0@),
        encode_utf8(after[j + 1].0@),
    ) by {
        assert(encode_utf8(before[j].0@) == encode_utf8(after[j].0@));
        assert(encode_utf8(before[j + 1].0@) == encode_utf8(after[j + 1].0@));
        assert(lex_lt(encode_utf8(before[j].0@), encode_utf8(before[j + 1].0@)));
    }
}

/// Putting a new name between the names before it and the names after it keeps the names in
/// order.
proof fn lemma_insert_ascending<T>(before: Seq<(String, T)>, pos: int, item: (String, T))
    requires
        names_ascending(before),
        0 <= pos <= before.len(),
        pos > 0 ==> lex_lt(encode_utf8(before[pos - 1].0@), encode_utf8(item.0@)),
        pos < before.len() ==> lex_lt(encode_utf8(item.0@), encode_utf8(before[pos].0@)),
    ensures
        names_ascending(before.insert(pos, item)),
{
    let after = before.insert(pos, item);
    assert forall|j: int| 0 <= j < after.len() - 1 implies lex_lt(
        encode_utf8((#[trigger] after[j]).0@),
        encode_utf8(after[j + 1].0@),
    ) by {
        if j + 1 < pos {
            assert(after[j] == before[j]);
            assert(after[j + 1] == before[j + 1]);
            assert(lex_lt(encode_utf8(before[j].0@), encode_utf8(before[j + 1].0@)));
        } else if j + 1 == pos {
            assert(after[j] == before[j]);
            assert(after[j + 1] == item);
        } else if j == pos {
            assert(after[j] == item);
            assert(after[j + 1] == before[j]);
        } else {
            assert(after[j] == before[j - 1]);
            assert(after[j + 1] == before[j]);
            assert(lex_lt(encode_utf8(before[j - 1].0@), encode_utf8(before[j - 1 + 1].0@)));
        }
    }
}

/// Where to put the new name `key`: before the first name that does not come before it.
fn insert_position<T>(list: &Vec<(String, T)>, key: &str) -> (pos: usize)
    requires
        find_key(list@, key.spec_bytes()) is None,
    ensures
        pos <= list@.len(),
        pos > 0 ==> lex_lt(encode_utf8(list@[pos - 1].0@), key.spec_bytes()),
        pos < list@.len() ==> lex_lt(key.spec_bytes(), encode_utf8(list@[pos as int].0@)),
{
    let mut pos: usize = 0;
    while pos < list.len() && bytes_lt(list[pos].0.as_str().as_bytes(), key.as_bytes())
        invariant
            0 <= pos <= list.len(),
            pos > 0 ==> lex_lt(encode_utf8(list@[pos - 1].0@), key.spec_bytes()),
        decreases list.len() - pos,
    {
        pos += 1;
    }
    proof {
        if pos < list.len() {
            lemma_find_from(list@, key.spec_bytes(), 0);
            lemma_lex_total(encode_utf8(list@[pos as int].0@), key.spec_bytes());
        }
    }
    pos
}

/// Puts `item` in place of what the list holds at position `i`, under the same name.
fn assoc_replace<T>(list: &mut Vec<(String, T)>, i: usize, item: (String, T))
    requires
        i < old(list)@.len(),
        encode_utf8(item.0@) == encode_utf8(old(list)@[i as int].0@),
    ensures
        final(list)@ == old(list)@.update(i as int, item),
        names_ascending(old(list)@) ==> names_ascending(final(list)@),
{
    proof {
        if names_ascending(list@) {
            lemma_update_ascending(list@, i as int, item);
        }
    }
    list[i] = item;
}

/// Puts the new name of `item` where it belongs.
fn assoc_add<T>(list: &mut Vec<(String, T)>, item: (String, T))
    requires
        find_key(old(list)@, encode_utf8(item.0@)) is None,
    ensures
        exists|pos: int|
            0 <= pos <= old(list)@.len() && final(list)@ == #[trigger] old(list)@.insert(pos, item),
        names_ascending(old(list)@) ==> names_ascending(final(list)@),
{
    let pos = insert_position(list, item.0.as_str());
    proof {
        if names_ascending(list@) {
            lemma_insert_ascending(list@, pos as int, item);
        }
    }
    list.insert(pos, item);
}

/// Replacing what stands under a name leaves the other names as they were.
proof fn lemma_find_after_update<T>(before: Seq<(String, T)>, at: int, item: (String, T), k: Seq<u8>, i: int)
    requires
        0 <= at < before.len(),
        0 <= i,
        encode_utf8(item.0@) == encode_utf8(before[at].0@),
    ensures
        find_from(before.update(at, item), k, i) == find_from(before, k, i),
    decreases before.len() - i,
{
    let after = before.update(at, item);
    if i < before.len() {
        assert(encode_utf8(after[i].0@) == encode_utf8(before[i].0@));
        if encode_utf8(before[i].0@) != k {
            lemma_find_after_update(before, at, item, k, i + 1);
        }
    }
}

/// Putting in a new name leaves the other names where they were, one further on if they come
/// after it.
proof fn lemma_find_after_insert<T>(before: Seq<(String, T)>, pos: int, item: (String, T), k: Seq<u8>, i: int)
    requires
        0 <= pos <= before.len(),
        0 <= i <= before.len(),
        encode_utf8(item.0@) != k,
    ensures
        find_from(before.insert(pos, item), k, if i < pos { i } else { i + 1 }) == match find_from(before, k, i) {
            Some(j) => Some(if j < pos { j } else { j + 1 }),
            None => None,
        },
        i == pos ==> find_from(before.insert(pos, item), k, i) == find_from(before.insert(pos, item), k, i + 1),
    decreases before.len() - i,
{
    let after = before.insert(pos, item);
    if i == pos {
        assert(after[pos] == item);
    }
    if i < before.len() {
        if i < pos {
            assert(after[i] == before[i]);
            if encode_utf8(before[i].0@) != k {
                lemma_find_after_insert(before, pos, item, k, i + 1);
            }
        } else {
            assert(after[i + 1] == before[i]);
            if encode_utf8(before[i].0@) != k {
                lemma_find_after_insert(before, pos, item, k, i + 1);
            }
        }
    }
}

/// What the list holds under each name. Of two pairs with one name the first counts.
pub open spec fn held<T>(list: Seq<(String, T)>) -> Map<Seq<u8>, T> {
    Map::new(|k: Seq<u8>| find_key(list, k) is Some, |k: Seq<u8>| list[find_key(list, k)->0].1)
}

/// A list that took `item` in place of what it held under that name, or as a new name,
/// holds the item under its name and under the other names what it held.
pub proof fn lemma_held_after_insert<T>(before: Seq<(String, T)>, after: Seq<(String, T)>, item: (String, T))
    requires
        match find_key(before, encode_utf8(item.0@)) {
            Some(k) => after == before.update(k, item),
            None => exists|pos: int| 0 <= pos <= before.len() && after == #[trigger] before.insert(pos, item),
        },
    ensures
        held(after) == held(before).insert(encode_utf8(item.0@), item.1),
{
    let kb = encode_utf8(item.0@);
    lemma_find_from(before, kb, 0);
    assert forall|k: Seq<u8>| #[trigger]
        held(after).contains_key(k) == held(before).insert(kb, item.1).contains_key(k) && (held(after).contains_key(
            k,
        ) ==> held(after)[k] == held(before).insert(kb, item.1)[k]) by {
        match find_key(before, kb) {
            Some(at) => {
                lemma_find_after_update(before, at, item, k, 0);
                if k == kb {
                    assert(after[at] == item);
                } else {
                    lemma_find_from(before, k, 0);
                    if find_key(before, k) is Some {
                        let j = find_key(before, k)->0;
                        assert(j != at);
                        assert(after[j] == before[j]);
                    }
                }
            },
            None => {
                let pos = choose|pos: int| 0 <= pos <= before.len() && after == #[trigger] before.insert(pos, item);
                if k == kb {
                    lemma_find_from(after, kb, 0);
                    assert(after[pos] == item);
                    let j = find_key(after, kb)->0;
                    if j < pos {
                        assert(after[j] == before[j]);
                    } else if j > pos {
                        assert(after[j] == before[j - 1]);
                    }
                } else {
                    lemma_find_after_insert(before, pos, item, k, 0);
                    lemma_find_from(before, k, 0);
                    if find_key(before, k) is Some {
                        let j = find_key(before, k)->0;
                        if j < pos {
                            assert(after[j] == before[j]);
                        } else {
                            assert(after[j + 1] == before[j]);
                        }
                    }
                }
            },
        }
    }
    assert(held(after) =~= held(before).insert(kb, item.1));
}

/// A pair put behind a list is found where the list holds nothing under its name.
proof fn lemma_find_after_push<T>(list: Seq<(String, T)>, item: (String, T), k: Seq<u8>, i: int)
    requires
        0 <= i <= list.len(),
    ensures
        find_from(list.push(item), k, i) == match find_from(list, k, i) {
            Some(j) => Some(j),
            None => if encode_utf8(item.0@) == k {
                Some(list.len() as int)
            } else {
                None
            },
        },
    decreases list.len() - i,
{
    let after = list.push(item);
    if i < list.len() {
        assert(after[i] == list[i]);
        if encode_utf8(list[i].0@) != k {
            lemma_find_after_push(list, item, k, i + 1);
        }
    } else {
        assert(after[i] == item);
        assert(find_from(after, k, i + 1) is None);
        assert(find_from(list, k, i) is None);
    }
}

/// A list with a pair put behind it holds what it held, and the pair where it held nothing
/// under that name.
pub proof fn lemma_held_after_push<T>(list: Seq<(String, T)>, item: (String, T))
    ensures
        held(list.push(item)) == if held(list).contains_key(encode_utf8(item.0@)) {
            held(list)
        } else {
            held(list).insert(encode_utf8(item.0@), item.1)
        },
{
    let after = list.push(item);
    let kb = encode_utf8(item.0@);
    let want = if held(list).contains_key(kb) {
        held(list)
    } else {
        held(list).insert(kb, item.1)
    };
    assert forall|k: Seq<u8>| #[trigger]
        held(after).contains_key(k) == want.contains_key(k) && (held(after).contains_key(k) ==> held(after)[k]
            == want[k]) by {
        lemma_find_after_push(list, item, k, 0);
        lemma_find_from(list, k, 0);
        match find_key(list, k) {
            Some(j) => {
                assert(after[j] == list[j]);
            },
            None => {
                if kb == k {
                    assert(after[list.len() as int] == item);
                }
            },
        }
    }
    assert(held(after) =~= want);
}

/// Puts `value` under `key`: in place of what the list holds under that name, or, where it
/// holds nothing under it, before the first name that does not come before `key`. A list
/// whose names ascend stays one.
pub fn assoc_insert<T>(list: &mut Vec<(String, T)>, key: String, value: T)
    ensures
        match find_key(old(list)@, encode_utf8(key@)) {
            Some(k) => final(list)@ == old(list)@.update(k, (key, value)),
            None => exists|pos: int|
                0 <= pos <= old(list)@.len() && final(list)@ == #[trigger] old(list)@.insert(pos, (key, value)),
        },
        names_ascending(old(list)@) ==> names_ascending(final(list)@),
        held(final(list)@) == held(old(list)@).insert(encode_utf8(key@), value),
{
    let ghost before = list@;
    let ghost item = (key, value);
    let found = {
        let name = key.as_str();
        assert(name.spec_bytes() == encode_utf8(key@));
        assoc_find(list, name)
    };
    match found {
        Some(i) => {
            proof {
                lemma_find_from(list@, encode_utf8(key@), 0);
            }
            assoc_replace(list, i, (key, value));
        },
        None => {
            assoc_add(list, (key, value));
        },
    }
    proof {
        lemma_held_after_insert(before, list@, item);
    }
}

/// Things under names, in the ascending order of the names, so that no name occurs twice.
#[derive(Debug, PartialEq)]
pub struct Named<T> {
    list: Vec<(String, T)>,
}

impl<T> View for Named<T> {
    type V = Seq<(String, T)>;

    closed spec fn view(&self) -> Seq<(String, T)> {
        self.list@
    }
}

impl<T> Named<T> {
    #[verifier::type_invariant]
    spec fn inv(self) -> bool {
        names_ascending(self.list@)
    }

    /// Nothing under any name.
    pub fn new() -> (r: Named<T>)
        ensures
            r@.len() == 0,
    {
        Named { list: Vec::new() }
    }

    /// What `list` holds, whose names ascend.
    pub(crate) fn from_list(list: Vec<(String, T)>) -> (r: Named<T>)
        requires
            names_ascending(list@),
        ensures
            r@ == list@,
    {
        Named { list }
    }

    /// The names with what stands under them. The names ascend.
    pub fn list(&self) -> (l: &Vec<(String, T)>)
        ensures
            l@ == self@,
            names_ascending(l@),
    {
        proof {
            use_type_invariant(self);
        }
        &self.list
    }

    /// How many names there are.
    pub fn len(&self) -> (n: usize)
        ensures
            n == self@.len(),
    {
        self.list.len()
    }

    /// The same with `value` under `key`, in place of what stood under that name.
    pub fn with(self, key: String, value: T) -> (r: Named<T>)
        ensures
            held(r@) == held(self@).insert(encode_utf8(key@), value),
            names_ascending(r@),
    {
        proof {
            use_type_invariant(&self);
        }
        let Named { list } = self;
        let mut list = list;
        assoc_insert(&mut list, key, value);
        Named { list }
    }

    /// What stands under the names is part of the whole.
    pub proof fn lemma_decreases(self, i: int)
        ensures
            decreases_to!(self => self@),
            0 <= i < self@.len() ==> decreases_to!(self => self@[i].1),
    {
        assert(decreases_to!(self => self.list));
        assert(decreases_to!(self.list => self.list@));
        if 0 <= i < self.list@.len() {
            assert(decreases_to!(self.list@ => self.list@[i]));
            assert(decreases_to!(self.list@[i] => self.list@[i].1));
        }
    }
}

} // verus!
