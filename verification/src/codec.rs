//! What the bytes of a value are, what value given bytes hold, and that the two agree.

use vstd::prelude::*;
use crate::bytes::{lemma_lex_irreflexive, lex_lt};
use crate::error::Error;
use crate::format::{
    element_wf, encode_element, lemma_encode_parse_element, lemma_parse_encode_element,
    parse_element, ElementView,
};
use crate::value::{keys_ascending, ValueView};

verus! {

/// The bytes of a value: its first element and, for an array or object, the bytes of what it
/// holds, in order.
pub open spec fn encode_value(v: ValueView) -> Seq<u8>
    decreases v,
{
    match v {
        ValueView::Array(items) => encode_element(v.head()) + encode_items(items),
        ValueView::Obj(entries) => encode_element(v.head()) + encode_entries(entries),
        _ => encode_element(v.head()),
    }
}

/// The bytes of the items of an array, one after the other.
pub open spec fn encode_items(items: Seq<ValueView>) -> Seq<u8>
    decreases items,
{
    if items.len() == 0 {
        Seq::empty()
    } else {
        encode_value(items[0]) + encode_items(items.drop_first())
    }
}

/// The bytes of the key-value pairs of an object: each key as a string, then its value.
pub open spec fn encode_entries(entries: Seq<(Seq<u8>, ValueView)>) -> Seq<u8>
    decreases entries,
{
    if entries.len() == 0 {
        Seq::empty()
    } else {
        encode_element(ElementView::Str(entries[0].0)) + encode_value(entries[0].1) + encode_entries(
            entries.drop_first(),
        )
    }
}

/// The value that is a single element.
pub open spec fn leaf_value(e: ElementView) -> ValueView {
    match e {
        ElementView::Null => ValueView::Null,
        ElementView::Bool(b) => ValueView::Bool(b),
        ElementView::Int(i) => ValueView::Int(i),
        ElementView::F32(x) => ValueView::F32(x),
        ElementView::F64(x) => ValueView::F64(x),
        ElementView::Str(s) => ValueView::Str(s),
        ElementView::Bin(b) => ValueView::Bin(b),
        ElementView::Hash(h) => ValueView::Hash(h),
        ElementView::Identity(id) => ValueView::Identity(id),
        ElementView::Lockbox(b) => ValueView::Lockbox(b),
        ElementView::Timestamp(t) => ValueView::Timestamp(t),
        ElementView::Array(_) => ValueView::Array(Seq::empty()),
        ElementView::Obj(_) => ValueView::Obj(Seq::empty()),
    }
}

/// The value that `b` starts with and the number of bytes it takes, where arrays and objects
/// may nest `depth` deep; or the first thing that is wrong with the bytes.
pub open spec fn parse_value(b: Seq<u8>, depth: nat) -> Result<(ValueView, int), Error>
    decreases depth, 0nat,
{
    match parse_element(b) {
        Err(e) => Err(e),
        Ok((e, n)) => match e {
            ElementView::Array(count) => if depth == 0 {
                Err(Error::DepthExceeded)
            } else {
                match parse_items(b.skip(n), count, (depth - 1) as nat) {
                    Err(e) => Err(e),
                    Ok((items, used)) => Ok((ValueView::Array(items), n + used)),
                }
            },
            ElementView::Obj(count) => if depth == 0 {
                Err(Error::DepthExceeded)
            } else {
                match parse_entries(b.skip(n), count, (depth - 1) as nat, None) {
                    Err(e) => Err(e),
                    Ok((entries, used)) => Ok((ValueView::Obj(entries), n + used)),
                }
            },
            _ => Ok((leaf_value(e), n)),
        },
    }
}

/// The `count` values that `b` starts with, and the number of bytes they take together.
pub open spec fn parse_items(b: Seq<u8>, count: nat, depth: nat) -> Result<(Seq<ValueView>, int), Error>
    decreases depth, count + 1,
{
    if count == 0 {
        Ok((Seq::empty(), 0))
    } else {
        match parse_value(b, depth) {
            Err(e) => Err(e),
            Ok((v, n)) => match parse_items(b.skip(n), (count - 1) as nat, depth) {
                Err(e) => Err(e),
                Ok((rest, m)) => Ok((seq![v] + rest, n + m)),
            },
        }
    }
}

/// What is wrong with the key `key` coming right after the key `prev`, if anything.
pub open spec fn key_fault(prev: Option<Seq<u8>>, key: Seq<u8>) -> Option<Error> {
    match prev {
        None => None,
        Some(p) => if p == key {
            Some(Error::DuplicateKey)
        } else if !lex_lt(p, key) {
            Some(Error::KeyOrder)
        } else {
            None
        },
    }
}

/// The `count` key-value pairs that `b` starts with, and the number of bytes they take
/// together. Every key is a string that comes strictly after the key before it, the first
/// after `prev`.
pub open spec fn parse_entries(b: Seq<u8>, count: nat, depth: nat, prev: Option<Seq<u8>>) -> Result<
    (Seq<(Seq<u8>, ValueView)>, int),
    Error,
>
    decreases depth, count + 1,
{
    if count == 0 {
        Ok((Seq::empty(), 0))
    } else {
        match parse_element(b) {
            Err(e) => Err(e),
            Ok((ElementView::Str(k), n)) => match key_fault(prev, k) {
                Some(e) => Err(e),
                None => match parse_value(b.skip(n), depth) {
                    Err(e) => Err(e),
                    Ok((v, m)) => match parse_entries(b.skip(n + m), (count - 1) as nat, depth, Some(k)) {
                        Err(e) => Err(e),
                        Ok((rest, r)) => Ok((seq![(k, v)] + rest, n + m + r)),
                    },
                },
            },
            Ok(_) => Err(Error::KeyNotStr),
        }
    }
}

/// The bytes of a value begin with the bytes of its first element.
proof fn lemma_encode_value_unfold(v: ValueView)
    ensures
        encode_value(v) == encode_element(v.head()) + match v {
            ValueView::Array(items) => encode_items(items),
            ValueView::Obj(entries) => encode_entries(entries),
            _ => Seq::empty(),
        },
        !(v is Array) && !(v is Obj) ==> leaf_value(v.head()) == v,
{
    match v {
        ValueView::Array(_) => {},
        ValueView::Obj(_) => {},
        _ => {
            assert(encode_element(v.head()) + Seq::<u8>::empty() =~= encode_element(v.head()));
        },
    }
}

/// Round trip, from the value: the bytes of a well-formed value, whatever follows them, are
/// read back as that value and as no more bytes than were written.
pub proof fn lemma_parse_encode_value(v: ValueView, depth: nat, rest: Seq<u8>)
    requires
        v.wf(),
        v.fits(depth),
    ensures
        parse_value(encode_value(v) + rest, depth) == Ok::<(ValueView, int), Error>(
            (v, encode_value(v).len() as int),
        ),
    decreases v, 0nat,
{
    let head = encode_element(v.head());
    lemma_encode_value_unfold(v);
    match v {
        ValueView::Array(items) => {
            let body = encode_items(items);
            assert(encode_value(v) + rest =~= head + (body + rest));
            lemma_parse_encode_element(v.head(), body + rest);
            assert((head + (body + rest)).skip(head.len() as int) =~= body + rest);
            lemma_parse_encode_items(items, (depth - 1) as nat, rest);
        },
        ValueView::Obj(entries) => {
            let body = encode_entries(entries);
            assert(encode_value(v) + rest =~= head + (body + rest));
            lemma_parse_encode_element(v.head(), body + rest);
            assert((head + (body + rest)).skip(head.len() as int) =~= body + rest);
            lemma_parse_encode_entries(entries, (depth - 1) as nat, None, rest);
        },
        _ => {
            lemma_parse_encode_element(v.head(), rest);
        },
    }
}

proof fn lemma_parse_encode_items(items: Seq<ValueView>, depth: nat, rest: Seq<u8>)
    requires
        forall|i: int| 0 <= i < items.len() ==> (#[trigger] items[i]).wf() && items[i].fits(depth),
    ensures
        parse_items(encode_items(items) + rest, items.len(), depth) == Ok::<(Seq<ValueView>, int), Error>(
            (items, encode_items(items).len() as int),
        ),
    decreases items, 1nat,
{
    if items.len() == 0 {
        assert(items =~= Seq::empty());
    } else {
        let first = encode_value(items[0]);
        let tail = items.drop_first();
        let tail_bytes = encode_items(tail);
        assert(encode_items(items) + rest =~= first + (tail_bytes + rest));
        lemma_parse_encode_value(items[0], depth, tail_bytes + rest);
        assert((first + (tail_bytes + rest)).skip(first.len() as int) =~= tail_bytes + rest);
        assert forall|i: int| 0 <= i < tail.len() implies (#[trigger] tail[i]).wf() && tail[i].fits(depth) by {
            assert(tail[i] == items[i + 1]);
        }
        lemma_parse_encode_items(tail, depth, rest);
        assert(seq![items[0]] + tail =~= items);
    }
}

proof fn lemma_parse_encode_entries(
    entries: Seq<(Seq<u8>, ValueView)>,
    depth: nat,
    prev: Option<Seq<u8>>,
    rest: Seq<u8>,
)
    requires
        forall|i: int|
            0 <= i < entries.len() ==> element_wf(ElementView::Str((#[trigger] entries[i]).0))
                && entries[i].1.wf() && entries[i].1.fits(depth),
        keys_ascending(entries),
        prev is Some && entries.len() > 0 ==> lex_lt(prev->0, entries[0].0),
    ensures
        parse_entries(encode_entries(entries) + rest, entries.len(), depth, prev) == Ok::<
            (Seq<(Seq<u8>, ValueView)>, int),
            Error,
        >((entries, encode_entries(entries).len() as int)),
    decreases entries, 1nat,
{
    if entries.len() == 0 {
        assert(entries =~= Seq::empty());
    } else {
        let k = entries[0].0;
        let key = encode_element(ElementView::Str(k));
        let value = encode_value(entries[0].1);
        let tail = entries.drop_first();
        let tail_bytes = encode_entries(tail);
        let b = encode_entries(entries) + rest;
        assert(b =~= key + (value + (tail_bytes + rest)));
        lemma_parse_encode_element(ElementView::Str(k), value + (tail_bytes + rest));
        if prev is Some {
            lemma_lex_irreflexive(k);
        }
        assert(b.skip(key.len() as int) =~= value + (tail_bytes + rest));
        lemma_parse_encode_value(entries[0].1, depth, tail_bytes + rest);
        assert(b.skip((key.len() + value.len()) as int) =~= tail_bytes + rest);
        assert forall|i: int| 0 <= i < tail.len() implies element_wf(
            ElementView::Str((#[trigger] tail[i]).0),
        ) && tail[i].1.wf() && tail[i].1.fits(depth) by {
            assert(tail[i] == entries[i + 1]);
        }
        assert forall|i: int| 0 <= i < tail.len() - 1 implies lex_lt(
            #[trigger] tail[i].0,
            tail[i + 1].0,
        ) by {
            assert(tail[i] == entries[i + 1]);
            assert(tail[i + 1] == entries[i + 2]);
        }
        if tail.len() > 0 {
            assert(tail[0] == entries[1]);
            assert(lex_lt(entries[0].0, entries[1].0));
        }
        lemma_parse_encode_entries(tail, depth, Some(k), rest);
        assert(seq![(k, entries[0].1)] + tail =~= entries);
    }
}

/// Canonical form: bytes that are read as a value are, as far as they were read, exactly the
/// bytes of that value, which is well formed.
pub proof fn lemma_encode_parse_value(b: Seq<u8>, depth: nat)
    requires
        parse_value(b, depth) is Ok,
    ensures
        ({
            let (v, n) = parse_value(b, depth)->Ok_0;
            &&& v.wf()
            &&& v.fits(depth)
            &&& 0 < n <= b.len()
            &&& encode_value(v) == b.take(n)
        }),
    decreases depth, 0nat,
{
    let (v, n) = parse_value(b, depth)->Ok_0;
    let (e, h) = parse_element(b)->Ok_0;
    lemma_encode_parse_element(b);
    lemma_encode_value_unfold(v);
    match e {
        ElementView::Array(count) => {
            let tail = b.skip(h);
            lemma_encode_parse_items(tail, count, (depth - 1) as nat);
            let (items, used) = parse_items(tail, count, (depth - 1) as nat)->Ok_0;
            assert(b.take(h) + tail.take(used) =~= b.take(n));
        },
        ElementView::Obj(count) => {
            let tail = b.skip(h);
            lemma_encode_parse_entries(tail, count, (depth - 1) as nat, None);
            let (entries, used) = parse_entries(tail, count, (depth - 1) as nat, None)->Ok_0;
            assert(b.take(h) + tail.take(used) =~= b.take(n));
        },
        _ => {},
    }
}

proof fn lemma_encode_parse_items(b: Seq<u8>, count: nat, depth: nat)
    requires
        parse_items(b, count, depth) is Ok,
    ensures
        ({
            let (items, n) = parse_items(b, count, depth)->Ok_0;
            &&& items.len() == count
            &&& forall|i: int| 0 <= i < items.len() ==> (#[trigger] items[i]).wf() && items[i].fits(depth)
            &&& 0 <= n <= b.len()
            &&& count > 0 ==> n > 0
            &&& encode_items(items) == b.take(n)
        }),
    decreases depth, count + 1,
{
    let (items, n) = parse_items(b, count, depth)->Ok_0;
    if count == 0 {
        assert(b.take(0) =~= Seq::<u8>::empty());
    } else {
        lemma_encode_parse_value(b, depth);
        let (v, a) = parse_value(b, depth)->Ok_0;
        let tail = b.skip(a);
        lemma_encode_parse_items(tail, (count - 1) as nat, depth);
        let (rest, m) = parse_items(tail, (count - 1) as nat, depth)->Ok_0;
        assert(items == seq![v] + rest);
        assert(items.drop_first() =~= rest);
        assert(b.take(a) + tail.take(m) =~= b.take(n));
        assert forall|i: int| 0 <= i < items.len() implies (#[trigger] items[i]).wf() && items[i].fits(
            depth,
        ) by {
            if i > 0 {
                assert(items[i] == rest[i - 1]);
            }
        }
    }
}

proof fn lemma_encode_parse_entries(b: Seq<u8>, count: nat, depth: nat, prev: Option<Seq<u8>>)
    requires
        parse_entries(b, count, depth, prev) is Ok,
    ensures
        ({
            let (entries, n) = parse_entries(b, count, depth, prev)->Ok_0;
            &&& entries.len() == count
            &&& forall|i: int|
                0 <= i < entries.len() ==> element_wf(ElementView::Str((#[trigger] entries[i]).0))
                    && entries[i].1.wf() && entries[i].1.fits(depth)
            &&& keys_ascending(entries)
            &&& prev is Some && count > 0 ==> lex_lt(prev->0, entries[0].0)
            &&& 0 <= n <= b.len()
            &&& count > 0 ==> n > 0
            &&& encode_entries(entries) == b.take(n)
        }),
    decreases depth, count + 1,
{
    let (entries, n) = parse_entries(b, count, depth, prev)->Ok_0;
    if count == 0 {
        assert(b.take(0) =~= Seq::<u8>::empty());
    } else {
        lemma_encode_parse_element(b);
        let (e, a) = parse_element(b)->Ok_0;
        let k = e->Str_0;
        let after_key = b.skip(a);
        lemma_encode_parse_value(after_key, depth);
        let (v, m) = parse_value(after_key, depth)->Ok_0;
        let tail = b.skip(a + m);
        lemma_encode_parse_entries(tail, (count - 1) as nat, depth, Some(k));
        let (rest, r) = parse_entries(tail, (count - 1) as nat, depth, Some(k))->Ok_0;
        assert(entries == seq![(k, v)] + rest);
        assert(entries.drop_first() =~= rest);
        assert(b.take(a) + after_key.take(m) + tail.take(r) =~= b.take(n));
        assert forall|i: int| 0 <= i < entries.len() implies element_wf(
            ElementView::Str((#[trigger] entries[i]).0),
        ) && entries[i].1.wf() && entries[i].1.fits(depth) by {
            if i > 0 {
                assert(entries[i] == rest[i - 1]);
            }
        }
        assert forall|i: int| 0 <= i < entries.len() - 1 implies lex_lt(
            #[trigger] entries[i].0,
            entries[i + 1].0,
        ) by {
            assert(entries[i + 1] == rest[i]);
            if i > 0 {
                assert(entries[i] == rest[i - 1]);
            }
        }
    }
}

/// Whether `a` is what `b` starts with.
pub open spec fn is_prefix(a: Seq<u8>, b: Seq<u8>) -> bool {
    a.len() <= b.len() && b.take(a.len() as int) == a
}

/// No two well-formed values have bytes of which one begins with the other, unless they are
/// the same value: reading is decided by the bytes alone.
pub proof fn lemma_encoding_unique(v: ValueView, w: ValueView, depth: nat)
    requires
        v.wf(),
        w.wf(),
        v.fits(depth),
        w.fits(depth),
        is_prefix(encode_value(v), encode_value(w)),
    ensures
        v == w,
{
    let a = encode_value(v);
    let b = encode_value(w);
    let rest = b.skip(a.len() as int);
    assert(a + rest =~= b);
    lemma_parse_encode_value(v, depth, rest);
    lemma_parse_encode_value(w, depth, Seq::empty());
    assert(b + Seq::<u8>::empty() =~= b);
}


/// A value that nests at most `d` deep nests at most any greater depth deep.
pub proof fn lemma_fits_deeper(v: ValueView, d: nat, d2: nat)
    requires
        v.fits(d),
        d <= d2,
    ensures
        v.fits(d2),
    decreases v,
{
    match v {
        ValueView::Array(items) => {
            assert forall|i: int| 0 <= i < items.len() implies (#[trigger] items[i]).fits((d2 - 1) as nat) by {
                lemma_fits_deeper(items[i], (d - 1) as nat, (d2 - 1) as nat);
            }
        },
        ValueView::Obj(entries) => {
            assert forall|i: int| 0 <= i < entries.len() implies (#[trigger] entries[i]).1.fits(
                (d2 - 1) as nat,
            ) by {
                lemma_fits_deeper(entries[i].1, (d - 1) as nat, (d2 - 1) as nat);
            }
        },
        _ => {},
    }
}

/// What bytes are read as does not depend on the depth allowed, as long as the value fits
/// it.
pub proof fn lemma_parse_at_depth(b: Seq<u8>, d: nat, d2: nat)
    requires
        parse_value(b, d) is Ok,
        parse_value(b, d)->Ok_0.0.fits(d2),
    ensures
        parse_value(b, d2) == parse_value(b, d),
{
    let (v, n) = parse_value(b, d)->Ok_0;
    lemma_encode_parse_value(b, d);
    assert(b.take(n) + b.skip(n) =~= b);
    lemma_parse_encode_value(v, d2, b.skip(n));
}

/// What is read with less depth allowed is read the same with more.
pub proof fn lemma_parse_deeper(b: Seq<u8>, d: nat, d2: nat)
    requires
        parse_value(b, d) is Ok,
        d <= d2,
    ensures
        parse_value(b, d2) == parse_value(b, d),
{
    lemma_encode_parse_value(b, d);
    lemma_fits_deeper(parse_value(b, d)->Ok_0.0, d, d2);
    lemma_parse_at_depth(b, d, d2);
}


/// What is wrong with bytes, other than that they nest too deep, is wrong with them whatever
/// depth is allowed.
pub proof fn lemma_parse_fault_deeper(b: Seq<u8>, d: nat, d2: nat)
    requires
        d <= d2,
        parse_value(b, d) is Err,
        parse_value(b, d)->Err_0 != Error::DepthExceeded,
    ensures
        parse_value(b, d2) == parse_value(b, d),
    decreases d, 0nat,
{
    match parse_element(b) {
        Err(_) => {},
        Ok((e, n)) => match e {
            ElementView::Array(count) => {
                lemma_parse_items_fault_deeper(b.skip(n), count, (d - 1) as nat, (d2 - 1) as nat);
            },
            ElementView::Obj(count) => {
                lemma_parse_entries_fault_deeper(b.skip(n), count, (d - 1) as nat, (d2 - 1) as nat, None);
            },
            _ => {},
        },
    }
}

proof fn lemma_parse_items_fault_deeper(b: Seq<u8>, count: nat, d: nat, d2: nat)
    requires
        d <= d2,
        parse_items(b, count, d) is Err,
        parse_items(b, count, d)->Err_0 != Error::DepthExceeded,
    ensures
        parse_items(b, count, d2) == parse_items(b, count, d),
    decreases d, count + 1,
{
    if count > 0 {
        match parse_value(b, d) {
            Err(_) => {
                lemma_parse_fault_deeper(b, d, d2);
            },
            Ok((v, n)) => {
                lemma_parse_deeper(b, d, d2);
                lemma_parse_items_fault_deeper(b.skip(n), (count - 1) as nat, d, d2);
            },
        }
    }
}

proof fn lemma_parse_entries_fault_deeper(b: Seq<u8>, count: nat, d: nat, d2: nat, prev: Option<Seq<u8>>)
    requires
        d <= d2,
        parse_entries(b, count, d, prev) is Err,
        parse_entries(b, count, d, prev)->Err_0 != Error::DepthExceeded,
    ensures
        parse_entries(b, count, d2, prev) == parse_entries(b, count, d, prev),
    decreases d, count + 1,
{
    if count > 0 {
        match parse_element(b) {
            Ok((ElementView::Str(k), n)) => {
                if key_fault(prev, k) is None {
                    match parse_value(b.skip(n), d) {
                        Err(_) => {
                            lemma_parse_fault_deeper(b.skip(n), d, d2);
                        },
                        Ok((v, m)) => {
                            lemma_parse_deeper(b.skip(n), d, d2);
                            lemma_parse_entries_fault_deeper(b.skip(n + m), (count - 1) as nat, d, d2, Some(k));
                        },
                    }
                }
            },
            _ => {},
        }
    }
}

/// Bytes that hold a value start with the element that the value starts with. An array or
/// object holds as many items or pairs as its header says.
pub proof fn lemma_parse_head(b: Seq<u8>, depth: nat)
    requires
        parse_value(b, depth) is Ok,
    ensures
        parse_element(b) is Ok,
        parse_element(b)->Ok_0.0 == parse_value(b, depth)->Ok_0.0.head(),
        parse_value(b, depth)->Ok_0.0 is Array || parse_value(b, depth)->Ok_0.0 is Obj ==> depth > 0,
        parse_value(b, depth)->Ok_0.0 matches ValueView::Array(items) ==> parse_items(
            b.skip(parse_element(b)->Ok_0.1),
            items.len(),
            (depth - 1) as nat,
        ) == Ok::<(Seq<ValueView>, int), Error>((items, parse_value(b, depth)->Ok_0.1 - parse_element(b)->Ok_0.1)),
        parse_value(b, depth)->Ok_0.0 matches ValueView::Obj(entries) ==> parse_entries(
            b.skip(parse_element(b)->Ok_0.1),
            entries.len(),
            (depth - 1) as nat,
            None,
        ) == Ok::<(Seq<(Seq<u8>, ValueView)>, int), Error>(
            (entries, parse_value(b, depth)->Ok_0.1 - parse_element(b)->Ok_0.1),
        ),
        !(parse_value(b, depth)->Ok_0.0 is Array) && !(parse_value(b, depth)->Ok_0.0 is Obj)
            ==> parse_value(b, depth)->Ok_0.1 == parse_element(b)->Ok_0.1,
{
    let (e, h) = parse_element(b)->Ok_0;
    match e {
        ElementView::Array(count) => {
            lemma_encode_parse_items(b.skip(h), count, (depth - 1) as nat);
        },
        ElementView::Obj(count) => {
            lemma_encode_parse_entries(b.skip(h), count, (depth - 1) as nat, None);
        },
        _ => {},
    }
}

/// The items of an array are read one after the other: the first, then the rest.
pub proof fn lemma_parse_items_step(b: Seq<u8>, count: nat, depth: nat)
    requires
        count > 0,
    ensures
        parse_items(b, count, depth) == match parse_value(b, depth) {
            Err(e) => Err::<(Seq<ValueView>, int), Error>(e),
            Ok((v, n)) => match parse_items(b.skip(n), (count - 1) as nat, depth) {
                Err(e) => Err(e),
                Ok((rest, m)) => Ok((seq![v] + rest, n + m)),
            },
        },
        parse_items(b, 0, depth) == Ok::<(Seq<ValueView>, int), Error>((Seq::empty(), 0)),
{
}

} // verus!
