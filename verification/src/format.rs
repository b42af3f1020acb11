//! The byte format of a single element: a scalar with its payload, or the header of an array
//! or object. The format is MessagePack's, restricted to the shortest form of every length
//! and integer, with four extension types.

use vstd::prelude::*;
use vstd::utf8::valid_utf8;
use crate::bytes::{be16, be32, be64, val16, val32, val64};
use crate::bytes::{lemma_be16_val16, lemma_be32_val32, lemma_be64_val64};
use crate::bytes::{lemma_val16_be16, lemma_val32_be32, lemma_val64_be64};
use crate::crypto::hash::{lemma_hash_encoding_parse, lemma_hash_parse_encoding, HashView};
use crate::crypto::key::{lemma_identity_encoding_parse, lemma_identity_parse_encoding, IdentityView};
use crate::error::Error;
use crate::integer::{int_max, int_min};
use crate::timestamp::TimestampView;

verus! {

/// The extension tag of a timestamp.
pub const EXT_TIMESTAMP: u8 = 1;

/// The extension tag of a hash.
pub const EXT_HASH: u8 = 2;

/// The extension tag of an identity.
pub const EXT_IDENTITY: u8 = 3;

/// The extension tag of a lockbox.
pub const EXT_LOCKBOX: u8 = 4;

/// One element of the format. An array or object is only its header here: the number of items
/// or of key-value pairs that follow.
pub enum ElementView {
    Null,
    Bool(bool),
    Int(int),
    F32(u32),
    F64(u64),
    Str(Seq<u8>),
    Bin(Seq<u8>),
    Array(nat),
    Obj(nat),
    Hash(HashView),
    Identity(IdentityView),
    Lockbox(Seq<u8>),
    Timestamp(TimestampView),
}

/// The largest length the format can write, plus one.
pub open spec fn len_limit() -> int {
    0x1_0000_0000
}

/// The elements that the format can write.
#[verifier::opaque]
pub open spec fn element_wf(e: ElementView) -> bool {
    match e {
        ElementView::Null => true,
        ElementView::Bool(_) => true,
        ElementView::Int(i) => int_min() <= i <= int_max(),
        ElementView::F32(_) => true,
        ElementView::F64(_) => true,
        ElementView::Str(s) => s.len() < len_limit() && valid_utf8(s),
        ElementView::Bin(b) => b.len() < len_limit(),
        ElementView::Array(n) => n < len_limit(),
        ElementView::Obj(n) => n < len_limit(),
        ElementView::Hash(h) => h.wf(),
        ElementView::Identity(id) => id.wf(),
        ElementView::Lockbox(b) => b.len() < len_limit(),
        ElementView::Timestamp(t) => t.wf(),
    }
}

/// An integer in its shortest form.
pub open spec fn encode_int(i: int) -> Seq<u8> {
    if 0 <= i < 0x80 {
        seq![i as u8]
    } else if -32 <= i < 0 {
        seq![(i + 0x100) as u8]
    } else if 0x80 <= i < 0x100 {
        seq![0xccu8, i as u8]
    } else if 0x100 <= i < 0x1_0000 {
        seq![0xcdu8] + be16(i)
    } else if 0x1_0000 <= i < 0x1_0000_0000 {
        seq![0xceu8] + be32(i)
    } else if 0x1_0000_0000 <= i {
        seq![0xcfu8] + be64(i)
    } else if -0x80 <= i {
        seq![0xd0u8, (i + 0x100) as u8]
    } else if -0x8000 <= i {
        seq![0xd1u8] + be16(i + 0x1_0000)
    } else if -0x8000_0000 <= i {
        seq![0xd2u8] + be32(i + 0x1_0000_0000)
    } else {
        seq![0xd3u8] + be64(i + 0x1_0000_0000_0000_0000)
    }
}

/// The header of a string of `n` bytes.
pub open spec fn str_header(n: int) -> Seq<u8> {
    if n < 32 {
        seq![(0xa0 + n) as u8]
    } else if n < 0x100 {
        seq![0xd9u8, n as u8]
    } else if n < 0x1_0000 {
        seq![0xdau8] + be16(n)
    } else {
        seq![0xdbu8] + be32(n)
    }
}

/// The header of a byte string of `n` bytes.
pub open spec fn bin_header(n: int) -> Seq<u8> {
    if n < 0x100 {
        seq![0xc4u8, n as u8]
    } else if n < 0x1_0000 {
        seq![0xc5u8] + be16(n)
    } else {
        seq![0xc6u8] + be32(n)
    }
}

/// The header of an array of `n` items.
pub open spec fn array_header(n: int) -> Seq<u8> {
    if n < 16 {
        seq![(0x90 + n) as u8]
    } else if n < 0x1_0000 {
        seq![0xdcu8] + be16(n)
    } else {
        seq![0xddu8] + be32(n)
    }
}

/// The header of an object of `n` key-value pairs.
pub open spec fn obj_header(n: int) -> Seq<u8> {
    if n < 16 {
        seq![(0x80 + n) as u8]
    } else if n < 0x1_0000 {
        seq![0xdeu8] + be16(n)
    } else {
        seq![0xdfu8] + be32(n)
    }
}

/// The header of an extension with a payload of `n` bytes.
pub open spec fn ext_header(n: int, tag: u8) -> Seq<u8> {
    if n == 1 {
        seq![0xd4u8, tag]
    } else if n == 2 {
        seq![0xd5u8, tag]
    } else if n == 4 {
        seq![0xd6u8, tag]
    } else if n == 8 {
        seq![0xd7u8, tag]
    } else if n == 16 {
        seq![0xd8u8, tag]
    } else if n < 0x100 {
        seq![0xc7u8, n as u8, tag]
    } else if n < 0x1_0000 {
        seq![0xc8u8] + be16(n) + seq![tag]
    } else {
        seq![0xc9u8] + be32(n) + seq![tag]
    }
}

/// The twelve bytes of a timestamp: the seconds as a signed 64-bit number, then the
/// nanoseconds, both most significant byte first.
pub open spec fn timestamp_payload(t: TimestampView) -> Seq<u8> {
    be64(if t.sec < 0 { t.sec + 0x1_0000_0000_0000_0000 } else { t.sec as int }) + be32(t.nano as int)
}

/// The bytes of one element.
#[verifier::opaque]
pub open spec fn encode_element(e: ElementView) -> Seq<u8> {
    match e {
        ElementView::Null => seq![0xc0u8],
        ElementView::Bool(b) => if b { seq![0xc3u8] } else { seq![0xc2u8] },
        ElementView::Int(i) => encode_int(i),
        ElementView::F32(bits) => seq![0xcau8] + be32(bits as int),
        ElementView::F64(bits) => seq![0xcbu8] + be64(bits as int),
        ElementView::Str(s) => str_header(s.len() as int) + s,
        ElementView::Bin(b) => bin_header(b.len() as int) + b,
        ElementView::Array(n) => array_header(n as int),
        ElementView::Obj(n) => obj_header(n as int),
        ElementView::Hash(h) => ext_header(h.encoding().len() as int, EXT_HASH) + h.encoding(),
        ElementView::Identity(id) => ext_header(id.encoding().len() as int, EXT_IDENTITY) + id.encoding(),
        ElementView::Lockbox(b) => ext_header(b.len() as int, EXT_LOCKBOX) + b,
        ElementView::Timestamp(t) => ext_header(12, EXT_TIMESTAMP) + timestamp_payload(t),
    }
}

/// The number in the length field of `width` bytes that follows the marker byte of `b`.
pub open spec fn len_field(b: Seq<u8>, width: int) -> int {
    if width == 1 {
        b[1] as int
    } else if width == 2 {
        val16(b.skip(1))
    } else {
        val32(b.skip(1))
    }
}

/// The smallest length that a string, byte string or extension writes with a length field
/// of `width` bytes, where the forms without a field reach up to `fix` (exclusive).
pub open spec fn len_floor(width: int, fix: int) -> int {
    if width == 1 {
        fix
    } else if width == 2 {
        0x100
    } else {
        0x1_0000
    }
}

/// The string of `n` bytes that starts at `start`.
pub open spec fn parse_str(b: Seq<u8>, start: int, n: int) -> Result<(ElementView, int), Error> {
    if b.len() < start + n {
        Err(Error::Truncated)
    } else if !valid_utf8(b.subrange(start, start + n)) {
        Err(Error::InvalidUtf8)
    } else {
        Ok((ElementView::Str(b.subrange(start, start + n)), start + n))
    }
}

/// The byte string of `n` bytes that starts at `start`.
pub open spec fn parse_bin(b: Seq<u8>, start: int, n: int) -> Result<(ElementView, int), Error> {
    if b.len() < start + n {
        Err(Error::Truncated)
    } else {
        Ok((ElementView::Bin(b.subrange(start, start + n)), start + n))
    }
}

/// The extension with tag `tag` and a payload of `n` bytes that starts at `start`.
pub open spec fn parse_ext(b: Seq<u8>, start: int, n: int, tag: u8) -> Result<(ElementView, int), Error> {
    if b.len() < start + n {
        Err(Error::Truncated)
    } else {
        let p = b.subrange(start, start + n);
        if tag == EXT_TIMESTAMP {
            if n != 12 {
                Err(Error::BadExt)
            } else {
                let s = val64(p);
                let nano = val32(p.skip(8));
                if nano >= 1_000_000_000 {
                    Err(Error::BadExt)
                } else {
                    let sec = if s >= 0x8000_0000_0000_0000 { s - 0x1_0000_0000_0000_0000 } else { s };
                    Ok((ElementView::Timestamp(TimestampView { sec: sec as i64, nano: nano as u32 }), start + n))
                }
            }
        } else if tag == EXT_HASH {
            match HashView::parse(p) {
                Ok((h, used)) => if used == n {
                    Ok((ElementView::Hash(h), start + n))
                } else {
                    Err(Error::BadExt)
                },
                Err(_) => Err(Error::BadExt),
            }
        } else if tag == EXT_IDENTITY {
            match IdentityView::parse(p) {
                Ok((id, used)) => if used == n {
                    Ok((ElementView::Identity(id), start + n))
                } else {
                    Err(Error::BadExt)
                },
                Err(_) => Err(Error::BadExt),
            }
        } else if tag == EXT_LOCKBOX {
            Ok((ElementView::Lockbox(p), start + n))
        } else {
            Err(Error::UnknownTag)
        }
    }
}

/// Whether an extension payload of `n` bytes has a header form without a length field.
pub open spec fn is_fixext_len(n: int) -> bool {
    n == 1 || n == 2 || n == 4 || n == 8 || n == 16
}

/// The element whose marker says that a length field of `width` bytes follows.
pub open spec fn parse_sized(b: Seq<u8>, m: u8, width: int) -> Result<(ElementView, int), Error> {
    if b.len() < 1 + width {
        Err(Error::Truncated)
    } else {
        let n = len_field(b, width);
        if m == 0xc4 || m == 0xc5 || m == 0xc6 {
            if n < len_floor(width, 0) {
                Err(Error::NotCanonical)
            } else {
                parse_bin(b, 1 + width, n)
            }
        } else if m == 0xd9 || m == 0xda || m == 0xdb {
            if n < len_floor(width, 32) {
                Err(Error::NotCanonical)
            } else {
                parse_str(b, 1 + width, n)
            }
        } else if m == 0xdc || m == 0xdd {
            if n < (if width == 2 { 16int } else { 0x1_0000int }) {
                Err(Error::NotCanonical)
            } else {
                Ok((ElementView::Array(n as nat), 1 + width))
            }
        } else if m == 0xde || m == 0xdf {
            if n < (if width == 2 { 16int } else { 0x1_0000int }) {
                Err(Error::NotCanonical)
            } else {
                Ok((ElementView::Obj(n as nat), 1 + width))
            }
        } else {
            // 0xc7, 0xc8, 0xc9
            if b.len() < 2 + width {
                Err(Error::Truncated)
            } else if n < len_floor(width, 0) || (width == 1 && is_fixext_len(n)) {
                Err(Error::NotCanonical)
            } else {
                parse_ext(b, 2 + width, n, b[1 + width])
            }
        }
    }
}

/// The number whose marker says that `width` bytes of it follow.
pub open spec fn parse_number(b: Seq<u8>, m: u8, width: int) -> Result<(ElementView, int), Error> {
    if b.len() < 1 + width {
        Err(Error::Truncated)
    } else {
        let x = if width == 1 {
            b[1] as int
        } else if width == 2 {
            val16(b.skip(1))
        } else if width == 4 {
            val32(b.skip(1))
        } else {
            val64(b.skip(1))
        };
        if m == 0xca {
            Ok((ElementView::F32(x as u32), 5))
        } else if m == 0xcb {
            Ok((ElementView::F64(x as u64), 9))
        } else if m == 0xcc {
            if x < 0x80 { Err(Error::NotCanonical) } else { Ok((ElementView::Int(x), 2)) }
        } else if m == 0xcd {
            if x < 0x100 { Err(Error::NotCanonical) } else { Ok((ElementView::Int(x), 3)) }
        } else if m == 0xce {
            if x < 0x1_0000 { Err(Error::NotCanonical) } else { Ok((ElementView::Int(x), 5)) }
        } else if m == 0xcf {
            if x < 0x1_0000_0000 { Err(Error::NotCanonical) } else { Ok((ElementView::Int(x), 9)) }
        } else if m == 0xd0 {
            if x < 0x80 || x >= 0xe0 { Err(Error::NotCanonical) } else { Ok((ElementView::Int(x - 0x100), 2)) }
        } else if m == 0xd1 {
            if x < 0x8000 || x >= 0x1_0000 - 0x80 {
                Err(Error::NotCanonical)
            } else {
                Ok((ElementView::Int(x - 0x1_0000), 3))
            }
        } else if m == 0xd2 {
            if x < 0x8000_0000 || x >= 0x1_0000_0000 - 0x8000 {
                Err(Error::NotCanonical)
            } else {
                Ok((ElementView::Int(x - 0x1_0000_0000), 5))
            }
        } else {
            // 0xd3
            if x < 0x8000_0000_0000_0000 || x >= 0x1_0000_0000_0000_0000 - 0x8000_0000 {
                Err(Error::NotCanonical)
            } else {
                Ok((ElementView::Int(x - 0x1_0000_0000_0000_0000), 9))
            }
        }
    }
}

/// The extension whose marker fixes the payload at `n` bytes.
pub open spec fn parse_fixext(b: Seq<u8>, n: int) -> Result<(ElementView, int), Error> {
    if b.len() < 2 {
        Err(Error::Truncated)
    } else {
        parse_ext(b, 2, n, b[1])
    }
}

/// The element that `b` starts with and the number of bytes it takes, or why there is none.
#[verifier::opaque]
pub open spec fn parse_element(b: Seq<u8>) -> Result<(ElementView, int), Error> {
    if b.len() == 0 {
        Err(Error::Truncated)
    } else {
        let m = b[0];
        if m < 0x80 {
            Ok((ElementView::Int(m as int), 1))
        } else if m < 0x90 {
            Ok((ElementView::Obj((m - 0x80) as nat), 1))
        } else if m < 0xa0 {
            Ok((ElementView::Array((m - 0x90) as nat), 1))
        } else if m < 0xc0 {
            parse_str(b, 1, m - 0xa0)
        } else if m >= 0xe0 {
            Ok((ElementView::Int(m - 0x100), 1))
        } else if m == 0xc0 {
            Ok((ElementView::Null, 1))
        } else if m == 0xc1 {
            Err(Error::NotCanonical)
        } else if m == 0xc2 {
            Ok((ElementView::Bool(false), 1))
        } else if m == 0xc3 {
            Ok((ElementView::Bool(true), 1))
        } else if m == 0xc4 || m == 0xc7 || m == 0xd9 {
            parse_sized(b, m, 1)
        } else if m == 0xc5 || m == 0xc8 || m == 0xda || m == 0xdc || m == 0xde {
            parse_sized(b, m, 2)
        } else if m == 0xc6 || m == 0xc9 || m == 0xdb || m == 0xdd || m == 0xdf {
            parse_sized(b, m, 4)
        } else if m == 0xcc || m == 0xd0 {
            parse_number(b, m, 1)
        } else if m == 0xcd || m == 0xd1 {
            parse_number(b, m, 2)
        } else if m == 0xca || m == 0xce || m == 0xd2 {
            parse_number(b, m, 4)
        } else if m == 0xcb || m == 0xcf || m == 0xd3 {
            parse_number(b, m, 8)
        } else if m == 0xd4 {
            parse_fixext(b, 1)
        } else if m == 0xd5 {
            parse_fixext(b, 2)
        } else if m == 0xd6 {
            parse_fixext(b, 4)
        } else if m == 0xd7 {
            parse_fixext(b, 8)
        } else {
            parse_fixext(b, 16)
        }
    }
}


proof fn lemma_len_field(head: Seq<u8>, n: int, width: int, rest: Seq<u8>)
    requires
        head.len() == 1,
        width == 1 || width == 2 || width == 4,
        0 <= n,
        width == 1 ==> n < 0x100,
        width == 2 ==> n < 0x1_0000,
        width == 4 ==> n < 0x1_0000_0000,
    ensures
        ({
            let field = if width == 1 { seq![n as u8] } else if width == 2 { be16(n) } else { be32(n) };
            let b = head + field + rest;
            &&& len_field(b, width) == n
            &&& field.len() == width
            &&& b.len() == 1 + width + rest.len()
            &&& b[0] == head[0]
            &&& b.skip(1 + width) == rest
        }),
{
    reveal(parse_element);
    reveal(encode_element);
    reveal(element_wf);
    let field = if width == 1 { seq![n as u8] } else if width == 2 { be16(n) } else { be32(n) };
    let b = head + field + rest;
    assert(b.skip(1) =~= field + rest);
    if width == 2 {
        lemma_val16_be16(n, rest);
    } else if width == 4 {
        lemma_val32_be32(n, rest);
    }
    assert(b.skip(1 + width) =~= rest);
}

proof fn lemma_parse_encode_int(i: int, rest: Seq<u8>)
    requires
        int_min() <= i <= int_max(),
    ensures
        parse_element(encode_int(i) + rest) == Ok::<(ElementView, int), Error>(
            (ElementView::Int(i), encode_int(i).len() as int),
        ),
{
    reveal(parse_element);
    reveal(encode_element);
    reveal(element_wf);
    let b = encode_int(i) + rest;
    if 0 <= i < 0x80 {
    } else if -32 <= i < 0 {
    } else if 0x80 <= i < 0x100 {
    } else if 0x100 <= i < 0x1_0000 {
        assert(b.skip(1) =~= be16(i) + rest);
        lemma_val16_be16(i, rest);
    } else if 0x1_0000 <= i < 0x1_0000_0000 {
        assert(b.skip(1) =~= be32(i) + rest);
        lemma_val32_be32(i, rest);
    } else if 0x1_0000_0000 <= i {
        assert(b.skip(1) =~= be64(i) + rest);
        lemma_val64_be64(i, rest);
    } else if -0x80 <= i {
    } else if -0x8000 <= i {
        assert(b.skip(1) =~= be16(i + 0x1_0000) + rest);
        lemma_val16_be16(i + 0x1_0000, rest);
    } else if -0x8000_0000 <= i {
        assert(b.skip(1) =~= be32(i + 0x1_0000_0000) + rest);
        lemma_val32_be32(i + 0x1_0000_0000, rest);
    } else {
        assert(b.skip(1) =~= be64(i + 0x1_0000_0000_0000_0000) + rest);
        lemma_val64_be64(i + 0x1_0000_0000_0000_0000, rest);
    }
}

proof fn lemma_parse_encode_str(s: Seq<u8>, rest: Seq<u8>)
    requires
        s.len() < len_limit(),
        valid_utf8(s),
    ensures
        parse_element(str_header(s.len() as int) + s + rest) == Ok::<(ElementView, int), Error>(
            (ElementView::Str(s), (str_header(s.len() as int) + s).len() as int),
        ),
{
    reveal(parse_element);
    reveal(encode_element);
    reveal(element_wf);
    let n = s.len() as int;
    let h = str_header(n);
    let b = h + s + rest;
    if n < 32 {
        assert(b.subrange(1, 1 + n) =~= s);
    } else {
        let width: int = if n < 0x100 { 1 } else if n < 0x1_0000 { 2 } else { 4 };
        let m: u8 = if n < 0x100 { 0xd9u8 } else if n < 0x1_0000 { 0xdau8 } else { 0xdbu8 };
        let field = if width == 1 { seq![n as u8] } else if width == 2 { be16(n) } else { be32(n) };
        assert(h =~= seq![m] + field);
        assert(b =~= seq![m] + field + (s + rest));
        lemma_len_field(seq![m], n, width, s + rest);
        assert(b.subrange(1 + width, 1 + width + n) =~= s);
    }
}

proof fn lemma_parse_encode_bin(s: Seq<u8>, rest: Seq<u8>)
    requires
        s.len() < len_limit(),
    ensures
        parse_element(bin_header(s.len() as int) + s + rest) == Ok::<(ElementView, int), Error>(
            (ElementView::Bin(s), (bin_header(s.len() as int) + s).len() as int),
        ),
{
    reveal(parse_element);
    reveal(encode_element);
    reveal(element_wf);
    let n = s.len() as int;
    let h = bin_header(n);
    let b = h + s + rest;
    let width: int = if n < 0x100 { 1 } else if n < 0x1_0000 { 2 } else { 4 };
    let m: u8 = if n < 0x100 { 0xc4u8 } else if n < 0x1_0000 { 0xc5u8 } else { 0xc6u8 };
    let field = if width == 1 { seq![n as u8] } else if width == 2 { be16(n) } else { be32(n) };
    assert(h =~= seq![m] + field);
    assert(b =~= seq![m] + field + (s + rest));
    lemma_len_field(seq![m], n, width, s + rest);
    assert(b.subrange(1 + width, 1 + width + n) =~= s);
}

proof fn lemma_parse_encode_count(n: int, is_obj: bool, rest: Seq<u8>)
    requires
        0 <= n < len_limit(),
    ensures
        parse_element((if is_obj { obj_header(n) } else { array_header(n) }) + rest) == Ok::<(ElementView, int), Error>(
            (
                if is_obj { ElementView::Obj(n as nat) } else { ElementView::Array(n as nat) },
                (if is_obj { obj_header(n) } else { array_header(n) }).len() as int,
            ),
        ),
{
    reveal(parse_element);
    reveal(encode_element);
    reveal(element_wf);
    let h = if is_obj { obj_header(n) } else { array_header(n) };
    let b = h + rest;
    if n < 16 {
    } else {
        let width: int = if n < 0x1_0000 { 2 } else { 4 };
        let m: u8 = if is_obj {
            if n < 0x1_0000 { 0xdeu8 } else { 0xdfu8 }
        } else {
            if n < 0x1_0000 { 0xdcu8 } else { 0xddu8 }
        };
        let field = if width == 2 { be16(n) } else { be32(n) };
        assert(h =~= seq![m] + field);
        assert(b =~= seq![m] + field + rest);
        lemma_len_field(seq![m], n, width, rest);
    }
}

/// The start of an extension: its header is read back as the same length and tag, and the
/// payload begins right after it.
proof fn lemma_ext_header(n: int, tag: u8, tail: Seq<u8>)
    requires
        0 <= n < len_limit(),
    ensures
        ({
            let h = ext_header(n, tag);
            let b = h + tail;
            &&& 2 <= h.len() <= 6
            &&& parse_element(b) == parse_ext(b, h.len() as int, n, tag)
            &&& b.skip(h.len() as int) == tail
        }),
{
    reveal(parse_element);
    reveal(encode_element);
    reveal(element_wf);
    let h = ext_header(n, tag);
    let b = h + tail;
    if is_fixext_len(n) {
        assert(b.skip(2) =~= tail);
    } else {
        let width: int = if n < 0x100 { 1 } else if n < 0x1_0000 { 2 } else { 4 };
        let m: u8 = if n < 0x100 { 0xc7u8 } else if n < 0x1_0000 { 0xc8u8 } else { 0xc9u8 };
        let field = if width == 1 { seq![n as u8] } else if width == 2 { be16(n) } else { be32(n) };
        assert(h =~= seq![m] + field + seq![tag]);
        assert(b =~= seq![m] + field + (seq![tag] + tail));
        lemma_len_field(seq![m], n, width, seq![tag] + tail);
        assert(b.skip(2 + width) =~= tail);
        assert(b[1 + width] == tag);
    }
}

proof fn lemma_parse_encode_ext(e: ElementView, rest: Seq<u8>)
    requires
        element_wf(e),
        e is Hash || e is Identity || e is Lockbox || e is Timestamp,
    ensures
        parse_element(encode_element(e) + rest) == Ok::<(ElementView, int), Error>(
            (e, encode_element(e).len() as int),
        ),
{
    reveal(parse_element);
    reveal(encode_element);
    reveal(element_wf);
    let (n, tag, p): (int, u8, Seq<u8>) = match e {
        ElementView::Hash(h) => (h.encoding().len() as int, EXT_HASH, h.encoding()),
        ElementView::Identity(id) => (id.encoding().len() as int, EXT_IDENTITY, id.encoding()),
        ElementView::Lockbox(b) => (b.len() as int, EXT_LOCKBOX, b),
        ElementView::Timestamp(t) => (12, EXT_TIMESTAMP, timestamp_payload(t)),
        _ => (0, 0u8, Seq::empty()),
    };
    let h = ext_header(n, tag);
    let b = encode_element(e) + rest;
    assert(b =~= h + (p + rest));
    match e {
        ElementView::Timestamp(t) => {
            let s = if t.sec < 0 { t.sec + 0x1_0000_0000_0000_0000 } else { t.sec as int };
            lemma_val64_be64(s, be32(t.nano as int));
            lemma_val32_be32(t.nano as int, Seq::empty());
            assert(be32(t.nano as int) + Seq::<u8>::empty() =~= be32(t.nano as int));
            assert(p.len() == 12);
        },
        _ => {},
    }
    lemma_ext_header(n, tag, p + rest);
    let start = h.len() as int;
    assert(b.subrange(start, start + n) =~= p);
    match e {
        ElementView::Hash(hv) => {
            lemma_hash_parse_encoding(hv, Seq::empty());
            assert(hv.encoding() + Seq::<u8>::empty() =~= hv.encoding());
        },
        ElementView::Identity(id) => {
            lemma_identity_parse_encoding(id, Seq::empty());
            assert(id.encoding() + Seq::<u8>::empty() =~= id.encoding());
        },
        _ => {},
    }
}

proof fn lemma_parse_encode_float(e: ElementView, rest: Seq<u8>)
    requires
        e is F32 || e is F64,
    ensures
        parse_element(encode_element(e) + rest) == Ok::<(ElementView, int), Error>(
            (e, encode_element(e).len() as int),
        ),
{
    reveal(parse_element);
    reveal(encode_element);
    reveal(element_wf);
    let b = encode_element(e) + rest;
    match e {
        ElementView::F32(bits) => {
            lemma_val32_be32(bits as int, rest);
            assert(b.skip(1) =~= be32(bits as int) + rest);
        },
        ElementView::F64(bits) => {
            lemma_val64_be64(bits as int, rest);
            assert(b.skip(1) =~= be64(bits as int) + rest);
        },
        _ => {},
    }
}

proof fn lemma_parse_encode_simple(e: ElementView, rest: Seq<u8>)
    requires
        e is Null || e is Bool,
    ensures
        parse_element(encode_element(e) + rest) == Ok::<(ElementView, int), Error>(
            (e, encode_element(e).len() as int),
        ),
{
    reveal(parse_element);
    reveal(encode_element);
    reveal(element_wf);
}

/// Reading back what was written gives the element that was written, whatever follows it.
pub proof fn lemma_parse_encode_element(e: ElementView, rest: Seq<u8>)
    requires
        element_wf(e),
    ensures
        parse_element(encode_element(e) + rest) == Ok::<(ElementView, int), Error>(
            (e, encode_element(e).len() as int),
        ),
{
    reveal(parse_element);
    reveal(encode_element);
    reveal(element_wf);
    match e {
        ElementView::Null => {
            lemma_parse_encode_simple(e, rest);
        },
        ElementView::Bool(_) => {
            lemma_parse_encode_simple(e, rest);
        },
        ElementView::Int(i) => {
            lemma_parse_encode_int(i, rest);
        },
        ElementView::F32(bits) => {
            lemma_parse_encode_float(e, rest);
        },
        ElementView::F64(bits) => {
            lemma_parse_encode_float(e, rest);
        },
        ElementView::Str(s) => {
            lemma_parse_encode_str(s, rest);
        },
        ElementView::Bin(s) => {
            lemma_parse_encode_bin(s, rest);
        },
        ElementView::Array(n) => {
            lemma_parse_encode_count(n as int, false, rest);
        },
        ElementView::Obj(n) => {
            lemma_parse_encode_count(n as int, true, rest);
        },
        _ => {
            lemma_parse_encode_ext(e, rest);
        },
    }
}


/// What a length field of `width` bytes holds is written back as the same bytes.
proof fn lemma_field_back(b: Seq<u8>, width: int)
    requires
        width == 1 || width == 2 || width == 4,
        b.len() >= 1 + width,
    ensures
        ({
            let n = len_field(b, width);
            let field = if width == 1 { seq![n as u8] } else if width == 2 { be16(n) } else { be32(n) };
            &&& 0 <= n
            &&& width == 1 ==> n < 0x100
            &&& width == 2 ==> n < 0x1_0000
            &&& width == 4 ==> n < 0x1_0000_0000
            &&& seq![b[0]] + field == b.take(1 + width)
        }),
{
    reveal(parse_element);
    reveal(encode_element);
    reveal(element_wf);
    let n = len_field(b, width);
    if width == 1 {
        assert(seq![b[0]] + seq![n as u8] =~= b.take(2));
    } else if width == 2 {
        lemma_be16_val16(b.skip(1));
        assert(seq![b[0]] + b.skip(1).take(2) =~= b.take(3));
    } else {
        lemma_be32_val32(b.skip(1));
        assert(seq![b[0]] + b.skip(1).take(4) =~= b.take(5));
    }
}

proof fn lemma_encode_parse_ext(b: Seq<u8>, start: int, n: int, tag: u8)
    requires
        0 <= start,
        0 <= n,
        parse_ext(b, start, n, tag) is Ok,
    ensures
        ({
            let (e, used) = parse_ext(b, start, n, tag)->Ok_0;
            let p = b.subrange(start, start + n);
            &&& used == start + n
            &&& used <= b.len()
            &&& element_wf(e) || n >= len_limit()
            &&& match e {
                ElementView::Hash(h) => tag == EXT_HASH && h.encoding() == p,
                ElementView::Identity(id) => tag == EXT_IDENTITY && id.encoding() == p,
                ElementView::Lockbox(l) => tag == EXT_LOCKBOX && l == p,
                ElementView::Timestamp(t) => tag == EXT_TIMESTAMP && timestamp_payload(t) == p && n == 12,
                _ => false,
            }
        }),
{
    reveal(parse_element);
    reveal(encode_element);
    reveal(element_wf);
    let p = b.subrange(start, start + n);
    if tag == EXT_TIMESTAMP {
        lemma_be64_val64(p);
        lemma_be32_val32(p.skip(8));
        assert(p.take(8) + p.skip(8).take(4) =~= p);
    } else if tag == EXT_HASH {
        lemma_hash_encoding_parse(p);
        assert(p.take(n) =~= p);
    } else if tag == EXT_IDENTITY {
        lemma_identity_encoding_parse(p);
        assert(p.take(n) =~= p);
    }
}

proof fn lemma_encode_parse_fixext(b: Seq<u8>, n: int)
    requires
        is_fixext_len(n),
        b.len() > 0,
        b[0] == (if n == 1 { 0xd4u8 } else if n == 2 { 0xd5u8 } else if n == 4 { 0xd6u8 } else if n == 8 { 0xd7u8 } else { 0xd8u8 }),
        parse_fixext(b, n) is Ok,
    ensures
        ({
            let (e, used) = parse_fixext(b, n)->Ok_0;
            &&& element_wf(e)
            &&& 0 < used <= b.len()
            &&& encode_element(e) == b.take(used)
        }),
{
    reveal(parse_element);
    reveal(encode_element);
    reveal(element_wf);
    let (e, used) = parse_fixext(b, n)->Ok_0;
    let tag = b[1];
    lemma_encode_parse_ext(b, 2, n, tag);
    let p = b.subrange(2, 2 + n);
    assert(ext_header(n, tag) =~= b.take(2));
    assert(b.take(2) + p =~= b.take(used));
}

proof fn lemma_encode_parse_sized(b: Seq<u8>, m: u8, width: int)
    requires
        width == 1 || width == 2 || width == 4,
        b.len() > 0,
        b[0] == m,
        width == 1 ==> m == 0xc4 || m == 0xc7 || m == 0xd9,
        width == 2 ==> m == 0xc5 || m == 0xc8 || m == 0xda || m == 0xdc || m == 0xde,
        width == 4 ==> m == 0xc6 || m == 0xc9 || m == 0xdb || m == 0xdd || m == 0xdf,
        parse_sized(b, m, width) is Ok,
    ensures
        ({
            let (e, used) = parse_sized(b, m, width)->Ok_0;
            &&& element_wf(e)
            &&& 0 < used <= b.len()
            &&& encode_element(e) == b.take(used)
        }),
{
    reveal(parse_element);
    reveal(encode_element);
    reveal(element_wf);
    let (e, used) = parse_sized(b, m, width)->Ok_0;
    let n = len_field(b, width);
    lemma_field_back(b, width);
    let field = if width == 1 { seq![n as u8] } else if width == 2 { be16(n) } else { be32(n) };
    let h = seq![m] + field;
    if m == 0xc4 || m == 0xc5 || m == 0xc6 {
        let p = b.subrange(1 + width, 1 + width + n);
        assert(bin_header(n) =~= h);
        assert(b.take(1 + width) + p =~= b.take(used));
    } else if m == 0xd9 || m == 0xda || m == 0xdb {
        let p = b.subrange(1 + width, 1 + width + n);
        assert(str_header(n) =~= h);
        assert(b.take(1 + width) + p =~= b.take(used));
    } else if m == 0xdc || m == 0xdd {
        assert(array_header(n) =~= h);
    } else if m == 0xde || m == 0xdf {
        assert(obj_header(n) =~= h);
    } else {
        let tag = b[1 + width];
        lemma_encode_parse_ext(b, 2 + width, n, tag);
        let p = b.subrange(2 + width, 2 + width + n);
        assert(ext_header(n, tag) =~= h + seq![tag]);
        assert(b.take(1 + width) + seq![tag] =~= b.take(2 + width));
        assert(b.take(2 + width) + p =~= b.take(used));
    }
}

proof fn lemma_encode_parse_number(b: Seq<u8>, m: u8, width: int)
    requires
        b.len() > 0,
        b[0] == m,
        width == 1 ==> m == 0xcc || m == 0xd0,
        width == 2 ==> m == 0xcd || m == 0xd1,
        width == 4 ==> m == 0xca || m == 0xce || m == 0xd2,
        width == 8 ==> m == 0xcb || m == 0xcf || m == 0xd3,
        width == 1 || width == 2 || width == 4 || width == 8,
        parse_number(b, m, width) is Ok,
    ensures
        ({
            let (e, used) = parse_number(b, m, width)->Ok_0;
            &&& element_wf(e)
            &&& 0 < used <= b.len()
            &&& encode_element(e) == b.take(used)
        }),
{
    reveal(parse_element);
    reveal(encode_element);
    reveal(element_wf);
    let (e, used) = parse_number(b, m, width)->Ok_0;
    let t = b.skip(1);
    if width == 1 {
        assert(seq![m, b[1]] =~= b.take(2));
    } else if width == 2 {
        lemma_be16_val16(t);
        assert(seq![m] + t.take(2) =~= b.take(3));
    } else if width == 4 {
        lemma_be32_val32(t);
        assert(seq![m] + t.take(4) =~= b.take(5));
    } else {
        lemma_be64_val64(t);
        assert(seq![m] + t.take(8) =~= b.take(9));
    }
}

proof fn lemma_encode_parse_short(b: Seq<u8>)
    requires
        b.len() > 0,
        b[0] < 0xc4 || b[0] >= 0xe0,
        parse_element(b) is Ok,
    ensures
        ({
            let (e, used) = parse_element(b)->Ok_0;
            &&& element_wf(e)
            &&& 0 < used <= b.len()
            &&& encode_element(e) == b.take(used)
        }),
{
    reveal(parse_element);
    reveal(encode_element);
    reveal(element_wf);
    let (e, used) = parse_element(b)->Ok_0;
    let m = b[0];
    if m >= 0xa0 && m < 0xc0 {
        let n = m - 0xa0;
        let p = b.subrange(1, 1 + n);
        assert(str_header(n) =~= b.take(1));
        assert(b.take(1) + p =~= b.take(used));
    } else {
        assert(encode_element(e) =~= b.take(1));
    }
}

/// What was read, written again, is the bytes it was read from: every element has one form only.
pub proof fn lemma_encode_parse_element(b: Seq<u8>)
    requires
        parse_element(b) is Ok,
    ensures
        ({
            let (e, used) = parse_element(b)->Ok_0;
            &&& element_wf(e)
            &&& 0 < used <= b.len()
            &&& encode_element(e) == b.take(used)
        }),
{
    reveal(parse_element);
    reveal(encode_element);
    reveal(element_wf);
    let m = b[0];
    if m < 0xc4 || m >= 0xe0 {
        lemma_encode_parse_short(b);
    } else if m == 0xc4 || m == 0xc7 || m == 0xd9 {
        lemma_encode_parse_sized(b, m, 1);
    } else if m == 0xc5 || m == 0xc8 || m == 0xda || m == 0xdc || m == 0xde {
        lemma_encode_parse_sized(b, m, 2);
    } else if m == 0xc6 || m == 0xc9 || m == 0xdb || m == 0xdd || m == 0xdf {
        lemma_encode_parse_sized(b, m, 4);
    } else if m == 0xcc || m == 0xd0 {
        lemma_encode_parse_number(b, m, 1);
    } else if m == 0xcd || m == 0xd1 {
        lemma_encode_parse_number(b, m, 2);
    } else if m == 0xca || m == 0xce || m == 0xd2 {
        lemma_encode_parse_number(b, m, 4);
    } else if m == 0xcb || m == 0xcf || m == 0xd3 {
        lemma_encode_parse_number(b, m, 8);
    } else if m == 0xd4 {
        lemma_encode_parse_fixext(b, 1);
    } else if m == 0xd5 {
        lemma_encode_parse_fixext(b, 2);
    } else if m == 0xd6 {
        lemma_encode_parse_fixext(b, 4);
    } else if m == 0xd7 {
        lemma_encode_parse_fixext(b, 8);
    } else {
        lemma_encode_parse_fixext(b, 16);
    }
}

} // verus!
