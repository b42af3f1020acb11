//! Writing values.

use vstd::prelude::*;
use vstd::utf8::encode_utf8;
use crate::codec::{encode_entries, encode_items, encode_value};
use crate::element::{
    write_array, write_bin, write_bool, write_f32, write_f64, write_hash, write_identity,
    write_integer, write_lockbox, write_null, write_obj, write_str, write_timestamp,
};
use crate::format::{element_wf, encode_element, ElementView};
use crate::error::Error;
use crate::value::{entries_view, items_view, lemma_array_view, lemma_obj_view, Value};
use crate::MAX_DEPTH;

verus! {

/// Appends the bytes of `v` to `buf`. The same value always gives the same bytes.
pub fn write_value(buf: &mut Vec<u8>, v: &Value)
    requires
        v@.wf(),
    ensures
        final(buf)@ == old(buf)@ + encode_value(v@),
    decreases v,
{
    proof {
        reveal(element_wf);
    }
    match v {
        Value::Null => write_null(buf),
        Value::Bool(b) => write_bool(buf, *b),
        Value::Int(i) => write_integer(buf, i),
        Value::F32(x) => write_f32(buf, *x),
        Value::F64(x) => write_f64(buf, *x),
        Value::Str(s) => write_str(buf, s.as_str()),
        Value::Bin(b) => write_bin(buf, b.as_slice()),
        Value::Array(items) => {
            proof {
                lemma_array_view(*items);
            }
            write_array(buf, items.len());
            let ghost start = buf@;
            let ghost all = items_view(items@);
            assert(all.skip(0) =~= all);
            let mut i: usize = 0;
            while i < items.len()
                invariant
                    0 <= i <= items.len(),
                    v->Array_0 == *items,
                    v is Array,
                    all == items_view(items@),
                    forall|j: int| 0 <= j < all.len() ==> (#[trigger] all[j]).wf(),
                    start + encode_items(all) == buf@ + encode_items(all.skip(i as int)),
                decreases items.len() - i,
            {
                let ghost before = buf@;
                write_value(buf, &items[i]);
                proof {
                    let tail = all.skip(i as int);
                    assert(tail[0] == items@[i as int]@);
                    assert(tail.drop_first() =~= all.skip(i + 1));
                    assert((before + encode_value(tail[0])) + encode_items(all.skip(i + 1)) =~= before + (
                        encode_value(tail[0]) + encode_items(all.skip(i + 1))));
                }
                i += 1;
            }
            proof {
                assert(all.skip(i as int) =~= Seq::empty());
                assert(buf@ + Seq::<u8>::empty() =~= buf@);
                assert(start + encode_items(all) =~= old(buf)@ + encode_value(v@));
            }
        },
        Value::Obj(entries) => {
            proof {
                lemma_obj_view(*entries);
            }
            write_obj(buf, entries.len());
            let ghost start = buf@;
            let ghost all = entries_view(entries@);
            assert(all.skip(0) =~= all);
            let mut i: usize = 0;
            while i < entries.len()
                invariant
                    0 <= i <= entries.len(),
                    v->Obj_0 == *entries,
                    v is Obj,
                    all == entries_view(entries@),
                    forall|j: int|
                        0 <= j < all.len() ==> element_wf(ElementView::Str((#[trigger] all[j]).0)) && all[j].1.wf(),
                    start + encode_entries(all) == buf@ + encode_entries(all.skip(i as int)),
                decreases entries.len() - i,
            {
                let ghost before = buf@;
                proof {
                    reveal(element_wf);
                    assert(all[i as int] == (encode_utf8(entries@[i as int].0@), entries@[i as int].1@));
                }
                write_str(buf, entries[i].0.as_str());
                write_value(buf, &entries[i].1);
                proof {
                    let tail = all.skip(i as int);
                    assert(tail[0] == all[i as int]);
                    assert(tail.drop_first() =~= all.skip(i + 1));
                    let k = encode_element(ElementView::Str(tail[0].0));
                    let x = encode_value(tail[0].1);
                    assert(((before + k) + x) + encode_entries(all.skip(i + 1)) =~= before + (k + x
                        + encode_entries(all.skip(i + 1))));
                }
                i += 1;
            }
            proof {
                assert(all.skip(i as int) =~= Seq::empty());
                assert(buf@ + Seq::<u8>::empty() =~= buf@);
                assert(start + encode_entries(all) =~= old(buf)@ + encode_value(v@));
            }
        },
        Value::Hash(h) => write_hash(buf, h),
        Value::Identity(id) => write_identity(buf, id),
        Value::Lockbox(l) => write_lockbox(buf, l.as_bytes()),
        Value::Timestamp(t) => write_timestamp(buf, t),
    }
}


/// The bytes of `v`, where `v` can be written: every string, array and object is short
/// enough for the format, the keys of every object ascend, and nothing nests deeper than
/// `MAX_DEPTH`.
pub fn encode(v: &Value) -> (r: Result<Vec<u8>, Error>)
    ensures
        match r {
            Ok(bytes) => v@.wf() && v@.fits(MAX_DEPTH as nat) && bytes@ == encode_value(v@),
            Err(e) => e == Error::Malformed && !(v@.wf() && v@.fits(MAX_DEPTH as nat)),
        },
{
    if !v.is_well_formed(MAX_DEPTH) {
        return Err(Error::Malformed);
    }
    let mut bytes: Vec<u8> = Vec::new();
    write_value(&mut bytes, v);
    assert(bytes@ =~= encode_value(v@));
    Ok(bytes)
}

} // verus!
