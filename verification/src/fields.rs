//! Objects as records: fields put under their names and read back by name.

use vstd::prelude::*;
use vstd::string::StringSliceAdditionalSpecFns;
use vstd::utf8::encode_utf8;
use crate::assoc::{assoc_find, assoc_insert, find_from, find_key, held, lemma_find_from, names_ascending};
use crate::value::{entries_view, keys_ascending, value_view, Value, ValueView};

verus! {

/// What the key-value pairs hold under each name. Of two pairs with one name the first
/// counts.
pub open spec fn field_map(entries: Seq<(String, Value)>) -> Map<Seq<u8>, ValueView> {
    Map::new(
        |k: Seq<u8>| find_key(entries, k) is Some,
        |k: Seq<u8>| value_view(entries[find_key(entries, k)->0].1),
    )
}

/// The first position from `i` on at which `pairs` holds the key `key`.
pub open spec fn find_pair(pairs: Seq<(Seq<u8>, ValueView)>, key: Seq<u8>, i: int) -> Option<int>
    decreases pairs.len() - i,
{
    if i < 0 || i >= pairs.len() {
        None
    } else if pairs[i].0 == key {
        Some(i)
    } else {
        find_pair(pairs, key, i + 1)
    }
}

/// What the pairs of an object hold under each key. Of two pairs with one key the first
/// counts.
pub open spec fn pairs_map(pairs: Seq<(Seq<u8>, ValueView)>) -> Map<Seq<u8>, ValueView> {
    Map::new(|k: Seq<u8>| find_pair(pairs, k, 0) is Some, |k: Seq<u8>| pairs[find_pair(pairs, k, 0)->0].1)
}

/// A key is found among pairs where its name is found among the pairs they are seen as.
proof fn lemma_find_pair(entries: Seq<(String, Value)>, key: Seq<u8>, i: int)
    requires
        0 <= i,
    ensures
        find_pair(entries_view(entries), key, i) == find_from(entries, key, i),
    decreases entries.len() - i,
{
    if i < entries.len() {
        assert(entries_view(entries)[i].0 == encode_utf8(entries[i].0@));
        if encode_utf8(entries[i].0@) != key {
            lemma_find_pair(entries, key, i + 1);
        }
    }
}

/// Key-value pairs hold under each name what the pairs they are seen as hold under it, and
/// their names ascend where those keys do.
pub proof fn lemma_field_map_view(entries: Seq<(String, Value)>)
    ensures
        field_map(entries) == pairs_map(entries_view(entries)),
        names_ascending(entries) == keys_ascending(entries_view(entries)),
{
    let pairs = entries_view(entries);
    assert forall|k: Seq<u8>| #[trigger]
        field_map(entries).contains_key(k) == pairs_map(pairs).contains_key(k) && (field_map(entries).contains_key(k)
            ==> field_map(entries)[k] == pairs_map(pairs)[k]) by {
        lemma_find_pair(entries, k, 0);
        lemma_find_from(entries, k, 0);
    }
    assert(field_map(entries) =~= pairs_map(pairs));
    if names_ascending(entries) {
        assert forall|i: int| 0 <= i < pairs.len() - 1 implies crate::bytes::lex_lt(
            (#[trigger] pairs[i]).0,
            pairs[i + 1].0,
        ) by {
            assert(crate::bytes::lex_lt(encode_utf8(entries[i].0@), encode_utf8(entries[i + 1].0@)));
        }
    }
    if keys_ascending(pairs) {
        assert forall|i: int| 0 <= i < entries.len() - 1 implies crate::bytes::lex_lt(
            encode_utf8((#[trigger] entries[i]).0@),
            encode_utf8(entries[i + 1].0@),
        ) by {
            assert(crate::bytes::lex_lt(pairs[i].0, pairs[i + 1].0));
        }
    }
}

/// The value under `key`, if there is one.
pub fn get<'a>(entries: &'a Vec<(String, Value)>, key: &str) -> (r: Option<&'a Value>)
    ensures
        match r {
            Some(v) => field_map(entries@).contains_key(key.spec_bytes()) && field_map(entries@)[key.spec_bytes()]
                == v@,
            None => !field_map(entries@).contains_key(key.spec_bytes()),
        },
{
    match assoc_find(entries, key) {
        Some(i) => Some(&entries[i].1),
        None => None,
    }
}

/// Puts `value` under `key`, in place of what stood there. The other fields stay, and names
/// that ascended still do.
pub fn put(entries: &mut Vec<(String, Value)>, key: &str, value: Value)
    ensures
        field_map(final(entries)@) == field_map(old(entries)@).insert(key.spec_bytes(), value@),
        names_ascending(old(entries)@) ==> names_ascending(final(entries)@),
{
    let ghost before = entries@;
    let ghost kb = key.spec_bytes();
    let owned = key.to_owned();
    let ghost item = (owned, value);
    assoc_insert(entries, owned, value);
    proof {
        let after = entries@;
        assert forall|k: Seq<u8>| #[trigger]
            field_map(after).contains_key(k) == field_map(before).insert(kb, value@).contains_key(k) && (field_map(
                after,
            ).contains_key(k) ==> field_map(after)[k] == field_map(before).insert(kb, value@)[k]) by {
            assert(held(after).contains_key(k) == held(before).insert(kb, value).contains_key(k));
            if held(after).contains_key(k) {
                assert(held(after)[k] == held(before).insert(kb, value)[k]);
            }
        }
        assert(field_map(after) =~= field_map(before).insert(kb, value@));
    }
}

/// Nothing stands under any name of an empty list.
pub proof fn lemma_field_map_empty()
    ensures
        field_map(Seq::<(String, Value)>::empty()) == Map::<Seq<u8>, ValueView>::empty(),
{
    assert(field_map(Seq::<(String, Value)>::empty()) =~= Map::<Seq<u8>, ValueView>::empty());
}


/// A list under whose names nothing stands is empty.
pub proof fn lemma_fields_none(entries: Seq<(String, Value)>)
    requires
        field_map(entries) == Map::<Seq<u8>, ValueView>::empty(),
    ensures
        entries.len() == 0,
{
    if entries.len() > 0 {
        let k = encode_utf8(entries[0].0@);
        assert(find_key(entries, k) == Some(0int));
        assert(field_map(entries).contains_key(k));
    }
}

} // verus!
