//! Reading values.

use vstd::prelude::*;
use vstd::string::StringSliceAdditionalSpecFns;
use vstd::slice::slice_subrange;
use vstd::utf8::encode_utf8;
use crate::bytes::{bytes_eq, bytes_lt};
use crate::codec::{encode_value, lemma_encode_parse_value, parse_entries, parse_items, parse_value};
use crate::crypto::lock::Lockbox;
use crate::element::{read_element, Element};
use crate::error::Error;
use crate::format::parse_element;
use crate::value::{entries_view, items_view, lemma_array_view, lemma_obj_view, Value, ValueView};
use crate::MAX_DEPTH;

verus! {

/// That `r` is what the format says of the bytes: the same value and length, or the same error.
pub open spec fn decodes_as(r: Result<(Value, usize), Error>, expected: Result<(ValueView, int), Error>) -> bool {
    match expected {
        Ok((v, n)) => r is Ok && r->Ok_0.0@ == v && r->Ok_0.1 == n,
        Err(e) => r is Err && r->Err_0 == e,
    }
}

/// That `r` is the length that the format says the first value of the bytes has, or the same
/// error.
pub open spec fn verifies_as<T>(r: Result<usize, Error>, expected: Result<(T, int), Error>) -> bool {
    match expected {
        Ok((_, n)) => r is Ok && r->Ok_0 == n,
        Err(e) => r is Err && r->Err_0 == e,
    }
}

/// A fresh byte vector with the bytes of `b`.
fn to_vec(b: &[u8]) -> (v: Vec<u8>)
    ensures
        v@ == b@,
{
    let mut v: Vec<u8> = Vec::new();
    v.extend_from_slice(b);
    v
}

/// The rest of `buf` from `pos` on.
fn tail(buf: &[u8], pos: usize) -> (t: &[u8])
    requires
        pos <= buf.len(),
    ensures
        t@ == buf@.skip(pos as int),
{
    let t = slice_subrange(buf, pos, buf.len());
    assert(t@ =~= buf@.skip(pos as int));
    t
}

fn read_items(buf: &[u8], count: usize, depth: usize) -> (r: Result<(Vec<Value>, usize), Error>)
    ensures
        match parse_items(buf@, count as nat, depth as nat) {
            Ok((items, n)) => r is Ok && items_view(r->Ok_0.0@) == items && r->Ok_0.1 == n && n <= buf.len(),
            Err(e) => r is Err && r->Err_0 == e,
        },
    decreases depth, 1nat,
{
    let mut out: Vec<Value> = Vec::new();
    let mut pos: usize = 0;
    let mut i: usize = 0;
    proof {
        assert(buf@.skip(0) =~= buf@);
        assert(items_view(out@) =~= Seq::empty());
        match parse_items(buf@, count as nat, depth as nat) {
            Ok((items, n)) => {
                assert(items_view(out@) + items =~= items);
            },
            Err(_) => {},
        }
    }
    while i < count
        invariant
            0 <= i <= count,
            pos <= buf.len(),
            match parse_items(buf@.skip(pos as int), (count - i) as nat, depth as nat) {
                Ok((rest, m)) => parse_items(buf@, count as nat, depth as nat) == Ok::<
                    (Seq<ValueView>, int),
                    Error,
                >((items_view(out@) + rest, pos + m)),
                Err(e) => parse_items(buf@, count as nat, depth as nat) == Err::<
                    (Seq<ValueView>, int),
                    Error,
                >(e),
            },
        decreases count - i,
    {
        let rest = tail(buf, pos);
        let ghost before = items_view(out@);
        match read_value_at(rest, depth) {
            Err(e) => {
                return Err(e);
            },
            Ok((v, n)) => {
                proof {
                    lemma_encode_parse_value(rest@, depth as nat);
                    assert(rest@.skip(n as int) =~= buf@.skip(pos + n));
                    match parse_items(rest@.skip(n as int), (count - i - 1) as nat, depth as nat) {
                        Ok((more, m)) => {
                            assert(items_view(out@.push(v)) + more =~= before + (seq![v@] + more));
                        },
                        Err(_) => {},
                    }
                }
                out.push(v);
                pos = pos + n;
                i += 1;
            },
        }
    }
    proof {
        assert(items_view(out@) + Seq::<ValueView>::empty() =~= items_view(out@));
    }
    Ok((out, pos))
}

fn read_entries(buf: &[u8], count: usize, depth: usize) -> (r: Result<(Vec<(String, Value)>, usize), Error>)
    ensures
        match parse_entries(buf@, count as nat, depth as nat, None) {
            Ok((entries, n)) => r is Ok && entries_view(r->Ok_0.0@) == entries && r->Ok_0.1 == n && n
                <= buf.len(),
            Err(e) => r is Err && r->Err_0 == e,
        },
    decreases depth, 1nat,
{
    let mut out: Vec<(String, Value)> = Vec::new();
    let mut pos: usize = 0;
    let mut i: usize = 0;
    let ghost mut prev: Option<Seq<u8>> = None;
    proof {
        assert(buf@.skip(0) =~= buf@);
        assert(entries_view(out@) =~= Seq::empty());
        match parse_entries(buf@, count as nat, depth as nat, None) {
            Ok((entries, n)) => {
                assert(entries_view(out@) + entries =~= entries);
            },
            Err(_) => {},
        }
    }
    while i < count
        invariant
            0 <= i <= count,
            pos <= buf.len(),
            out@.len() == i,
            i == 0 ==> prev is None,
            i > 0 ==> prev == Some(encode_utf8(out@[i - 1].0@)),
            match parse_entries(buf@.skip(pos as int), (count - i) as nat, depth as nat, prev) {
                Ok((rest, m)) => parse_entries(buf@, count as nat, depth as nat, None) == Ok::<
                    (Seq<(Seq<u8>, ValueView)>, int),
                    Error,
                >((entries_view(out@) + rest, pos + m)),
                Err(e) => parse_entries(buf@, count as nat, depth as nat, None) == Err::<
                    (Seq<(Seq<u8>, ValueView)>, int),
                    Error,
                >(e),
            },
        decreases count - i,
    {
        let rest = tail(buf, pos);
        let ghost before = entries_view(out@);
        let (key, used) = match read_element(rest) {
            Err(e) => {
                return Err(e);
            },
            Ok((Element::Str(key), used)) => (key, used),
            Ok(_) => {
                return Err(Error::KeyNotStr);
            },
        };
        proof {
            crate::format::lemma_encode_parse_element(rest@);
        }
        if i > 0 {
            let last = out[i - 1].0.as_str().as_bytes();
            if bytes_eq(last, key.as_bytes()) {
                return Err(Error::DuplicateKey);
            }
            if !bytes_lt(last, key.as_bytes()) {
                return Err(Error::KeyOrder);
            }
        }
        let after_key = tail(rest, used);
        match read_value_at(after_key, depth) {
            Err(e) => {
                return Err(e);
            },
            Ok((v, n)) => {
                let owned = key.to_owned();
                proof {
                    lemma_encode_parse_value(after_key@, depth as nat);
                    assert(rest@.skip(used + n) =~= buf@.skip(pos + used + n));
                    assert(after_key@ =~= rest@.skip(used as int));
                    let k = key.spec_bytes();
                    match parse_entries(rest@.skip(used + n), (count - i - 1) as nat, depth as nat, Some(k)) {
                        Ok((more, m)) => {
                            assert(entries_view(out@.push((owned, v))) + more =~= before + (seq![(k, v@)]
                                + more));
                        },
                        Err(_) => {},
                    }
                    prev = Some(k);
                }
                out.push((owned, v));
                pos = pos + used + n;
                i += 1;
            },
        }
    }
    proof {
        assert(entries_view(out@) + Seq::<(Seq<u8>, ValueView)>::empty() =~= entries_view(out@));
    }
    Ok((out, pos))
}

/// Reads the value that `buf` starts with, arrays and objects nesting at most `depth` deep.
fn read_value_at(buf: &[u8], depth: usize) -> (r: Result<(Value, usize), Error>)
    ensures
        decodes_as(r, parse_value(buf@, depth as nat)),
    decreases depth, 0nat,
{
    let (e, n) = match read_element(buf) {
        Err(e) => {
            return Err(e);
        },
        Ok(x) => x,
    };
    proof {
        crate::format::lemma_encode_parse_element(buf@);
        assert(parse_element(buf@) is Ok);
        assert(parse_element(buf@)->Ok_0.1 == n);
        assert(n <= buf.len());
    }
    match e {
        Element::Null => Ok((Value::Null, n)),
        Element::Bool(b) => Ok((Value::Bool(b), n)),
        Element::Int(i) => Ok((Value::Int(i), n)),
        Element::F32(x) => Ok((Value::F32(x), n)),
        Element::F64(x) => Ok((Value::F64(x), n)),
        Element::Str(s) => Ok((Value::Str(s.to_owned()), n)),
        Element::Bin(b) => Ok((Value::Bin(to_vec(b)), n)),
        Element::Hash(h) => Ok((Value::Hash(h), n)),
        Element::Identity(id) => Ok((Value::Identity(id), n)),
        Element::Lockbox(b) => Ok((Value::Lockbox(Lockbox::from_vec(to_vec(b))), n)),
        Element::Timestamp(t) => Ok((Value::Timestamp(t), n)),
        Element::Array(count) => {
            if depth == 0 {
                return Err(Error::DepthExceeded);
            }
            match read_items(tail(buf, n), count, depth - 1) {
                Err(e) => Err(e),
                Ok((items, used)) => {
                    proof {
                        lemma_array_view(items);
                    }
                    Ok((Value::Array(items), n + used))
                },
            }
        },
        Element::Obj(count) => {
            if depth == 0 {
                return Err(Error::DepthExceeded);
            }
            match read_entries(tail(buf, n), count, depth - 1) {
                Err(e) => Err(e),
                Ok((entries, used)) => {
                    proof {
                        lemma_obj_view(entries);
                    }
                    Ok((Value::Obj(entries), n + used))
                },
            }
        },
    }
}

/// Reads the value that `buf` starts with, arrays and objects nesting at most `depth` deep.
pub fn read_value_within(buf: &[u8], depth: usize) -> (r: Result<(Value, usize), Error>)
    ensures
        decodes_as(r, parse_value(buf@, depth as nat)),
{
    read_value_at(buf, depth)
}

/// The length of the value that `buf` starts with, arrays and objects nesting at most `depth`
/// deep.
pub fn verify_value_within(buf: &[u8], depth: usize) -> (r: Result<usize, Error>)
    ensures
        verifies_as(r, parse_value(buf@, depth as nat)),
{
    verify_value_at(buf, depth)
}

/// Reads the value that `buf` starts with. Gives the value and the number of bytes it takes.
///
/// Success means that those bytes are exactly what `write_value` writes for the value; any
/// other bytes give the first fault found in them.
pub fn read_value(buf: &[u8]) -> (r: Result<(Value, usize), Error>)
    ensures
        decodes_as(r, parse_value(buf@, MAX_DEPTH as nat)),
        r matches Ok((v, n)) ==> v@.wf() && v@.fits(MAX_DEPTH as nat) && 0 < n <= buf.len() && encode_value(v@)
            == buf@.take(n as int),
{
    let r = read_value_at(buf, MAX_DEPTH);
    proof {
        if r is Ok {
            lemma_encode_parse_value(buf@, MAX_DEPTH as nat);
        }
    }
    r
}

fn verify_items(buf: &[u8], count: usize, depth: usize) -> (r: Result<usize, Error>)
    ensures
        verifies_as(r, parse_items(buf@, count as nat, depth as nat)),
        r matches Ok(n) ==> n <= buf.len(),
    decreases depth, 1nat,
{
    let mut pos: usize = 0;
    let mut i: usize = 0;
    proof {
        assert(buf@.skip(0) =~= buf@);
    }
    while i < count
        invariant
            0 <= i <= count,
            pos <= buf.len(),
            match parse_items(buf@.skip(pos as int), (count - i) as nat, depth as nat) {
                Ok((rest, m)) => parse_items(buf@, count as nat, depth as nat) is Ok && parse_items(
                    buf@,
                    count as nat,
                    depth as nat,
                )->Ok_0.1 == pos + m,
                Err(e) => parse_items(buf@, count as nat, depth as nat) == Err::<
                    (Seq<ValueView>, int),
                    Error,
                >(e),
            },
        decreases count - i,
    {
        let rest = tail(buf, pos);
        match verify_value_at(rest, depth) {
            Err(e) => {
                return Err(e);
            },
            Ok(n) => {
                proof {
                    lemma_encode_parse_value(rest@, depth as nat);
                    assert(rest@.skip(n as int) =~= buf@.skip(pos + n));
                }
                pos = pos + n;
                i += 1;
            },
        }
    }
    Ok(pos)
}

fn verify_entries(buf: &[u8], count: usize, depth: usize) -> (r: Result<usize, Error>)
    ensures
        verifies_as(r, parse_entries(buf@, count as nat, depth as nat, None)),
        r matches Ok(n) ==> n <= buf.len(),
    decreases depth, 1nat,
{
    let mut pos: usize = 0;
    let mut i: usize = 0;
    let mut last: &[u8] = tail(buf, 0);
    let ghost mut prev: Option<Seq<u8>> = None;
    proof {
        assert(buf@.skip(0) =~= buf@);
    }
    while i < count
        invariant
            0 <= i <= count,
            pos <= buf.len(),
            i == 0 ==> prev is None,
            i > 0 ==> prev == Some(last@),
            match parse_entries(buf@.skip(pos as int), (count - i) as nat, depth as nat, prev) {
                Ok((rest, m)) => parse_entries(buf@, count as nat, depth as nat, None) is Ok
                    && parse_entries(buf@, count as nat, depth as nat, None)->Ok_0.1 == pos + m,
                Err(e) => parse_entries(buf@, count as nat, depth as nat, None) == Err::<
                    (Seq<(Seq<u8>, ValueView)>, int),
                    Error,
                >(e),
            },
        decreases count - i,
    {
        let rest = tail(buf, pos);
        let (key, used) = match read_element(rest) {
            Err(e) => {
                return Err(e);
            },
            Ok((Element::Str(key), used)) => (key, used),
            Ok(_) => {
                return Err(Error::KeyNotStr);
            },
        };
        proof {
            crate::format::lemma_encode_parse_element(rest@);
        }
        if i > 0 {
            if bytes_eq(last, key.as_bytes()) {
                return Err(Error::DuplicateKey);
            }
            if !bytes_lt(last, key.as_bytes()) {
                return Err(Error::KeyOrder);
            }
        }
        let after_key = tail(rest, used);
        match verify_value_at(after_key, depth) {
            Err(e) => {
                return Err(e);
            },
            Ok(n) => {
                proof {
                    lemma_encode_parse_value(after_key@, depth as nat);
                    assert(rest@.skip(used + n) =~= buf@.skip(pos + used + n));
                    assert(after_key@ =~= rest@.skip(used as int));
                    prev = Some(key.spec_bytes());
                }
                last = key.as_bytes();
                pos = pos + used + n;
                i += 1;
            },
        }
    }
    Ok(pos)
}

/// The length of the value that `buf` starts with, arrays and objects nesting at most `depth`
/// deep.
fn verify_value_at(buf: &[u8], depth: usize) -> (r: Result<usize, Error>)
    ensures
        verifies_as(r, parse_value(buf@, depth as nat)),
    decreases depth, 0nat,
{
    let (e, n) = match read_element(buf) {
        Err(e) => {
            return Err(e);
        },
        Ok(x) => x,
    };
    proof {
        crate::format::lemma_encode_parse_element(buf@);
        assert(parse_element(buf@) is Ok);
        assert(parse_element(buf@)->Ok_0.1 == n);
        assert(n <= buf.len());
    }
    match e {
        Element::Array(count) => {
            if depth == 0 {
                return Err(Error::DepthExceeded);
            }
            match verify_items(tail(buf, n), count, depth - 1) {
                Err(e) => Err(e),
                Ok(used) => Ok(n + used),
            }
        },
        Element::Obj(count) => {
            if depth == 0 {
                return Err(Error::DepthExceeded);
            }
            match verify_entries(tail(buf, n), count, depth - 1) {
                Err(e) => Err(e),
                Ok(used) => Ok(n + used),
            }
        },
        _ => Ok(n),
    }
}

/// Checks the value that `buf` starts with without building it, and gives the number of
/// bytes it takes. It succeeds on the same bytes as `read_value` and fails with the same
/// fault.
pub fn verify_value(buf: &[u8]) -> (r: Result<usize, Error>)
    ensures
        verifies_as(r, parse_value(buf@, MAX_DEPTH as nat)),
        r matches Ok(n) ==> 0 < n <= buf.len(),
{
    let r = verify_value_at(buf, MAX_DEPTH);
    proof {
        if r is Ok {
            lemma_encode_parse_value(buf@, MAX_DEPTH as nat);
        }
    }
    r
}


/// The value that `buf` is the bytes of: `buf` holds one value in canonical form and nothing
/// after it.
pub fn decode(buf: &[u8]) -> (r: Result<Value, Error>)
    ensures
        match parse_value(buf@, MAX_DEPTH as nat) {
            Ok((v, n)) => if n == buf@.len() {
                r is Ok && r->Ok_0@ == v && encode_value(v) == buf@ && v.wf()
            } else {
                r is Err && r->Err_0 == Error::NotCanonical
            },
            Err(e) => r is Err && r->Err_0 == e,
        },
{
    let (v, n) = read_value(buf)?;
    if n != buf.len() {
        return Err(Error::NotCanonical);
    }
    assert(buf@.take(n as int) =~= buf@);
    Ok(v)
}

} // verus!
