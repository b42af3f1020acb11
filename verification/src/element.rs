//! Reading and writing single elements of the format.

use vstd::prelude::*;
use vstd::string::StringSliceAdditionalSpecFns;
use vstd::slice::slice_subrange;
use vstd::utf8::valid_utf8;
use crate::bytes::{push_be16, push_be32, push_be64, read_be16, read_be32, read_be64};
use crate::bytes::{lemma_be16_val16, lemma_be32_val32, lemma_be64_val64};
use crate::crypto::hash;
use crate::crypto::key::Identity;
use crate::error::Error;
use crate::format::{
    array_header, bin_header, element_wf, encode_element, encode_int, ext_header, len_field,
    len_limit, obj_header, parse_bin, parse_element, parse_ext, parse_fixext, parse_number,
    parse_sized, parse_str, str_header, ElementView, EXT_HASH, EXT_IDENTITY, EXT_LOCKBOX,
    EXT_TIMESTAMP,
};
use crate::integer::Integer;
use crate::timestamp::Timestamp;

verus! {

/// One element as it is read from bytes. Strings and byte strings borrow from the bytes they
/// were read from.
#[derive(Debug, PartialEq)]
pub enum Element<'a> {
    Null,
    Bool(bool),
    Int(Integer),
    F32(u32),
    F64(u64),
    Str(&'a str),
    Bin(&'a [u8]),
    /// The header of an array: the number of items that follow.
    Array(usize),
    /// The header of an object: the number of key-value pairs that follow.
    Obj(usize),
    Hash(hash::Hash),
    Identity(Identity),
    Lockbox(&'a [u8]),
    Timestamp(Timestamp),
}

impl<'a> View for Element<'a> {
    type V = ElementView;

    open spec fn view(&self) -> ElementView {
        match self {
            Element::Null => ElementView::Null,
            Element::Bool(b) => ElementView::Bool(*b),
            Element::Int(i) => ElementView::Int(i@),
            Element::F32(x) => ElementView::F32(*x),
            Element::F64(x) => ElementView::F64(*x),
            Element::Str(s) => ElementView::Str(s.spec_bytes()),
            Element::Bin(b) => ElementView::Bin(b@),
            Element::Array(n) => ElementView::Array(*n as nat),
            Element::Obj(n) => ElementView::Obj(*n as nat),
            Element::Hash(h) => ElementView::Hash(h@),
            Element::Identity(id) => ElementView::Identity(id@),
            Element::Lockbox(b) => ElementView::Lockbox(b@),
            Element::Timestamp(t) => ElementView::Timestamp(t@),
        }
    }
}

/// That `r` is what the format says of the bytes: the same element and length, or the same
/// error.
pub open spec fn reads_as(r: Result<(Element<'_>, usize), Error>, expected: Result<(ElementView, int), Error>) -> bool {
    match expected {
        Ok((e, n)) => r is Ok && r->Ok_0.0@ == e && r->Ok_0.1 == n,
        Err(err) => r is Err && r->Err_0 == err,
    }
}

/// `core::str::from_utf8`: the bytes as a string, where they are valid UTF-8, and nothing
/// where they are not.
#[verifier::external_body]
pub(crate) fn str_from_utf8(bytes: &[u8]) -> (r: Option<&str>)
    ensures
        r is Some <==> valid_utf8(bytes@),
        r matches Some(s) ==> s.spec_bytes() == bytes@,
{
    core::str::from_utf8(bytes).ok()
}

fn read_str(buf: &[u8], start: usize, n: usize) -> (r: Result<(Element<'_>, usize), Error>)
    requires
        start <= 6,
        n < len_limit(),
    ensures
        reads_as(r, parse_str(buf@, start as int, n as int)),
{
    if buf.len() < start || buf.len() - start < n {
        return Err(Error::Truncated);
    }
    let payload = slice_subrange(buf, start, start + n);
    match str_from_utf8(payload) {
        Some(s) => Ok((Element::Str(s), start + n)),
        None => Err(Error::InvalidUtf8),
    }
}

fn read_bin(buf: &[u8], start: usize, n: usize) -> (r: Result<(Element<'_>, usize), Error>)
    requires
        start <= 6,
        n < len_limit(),
    ensures
        reads_as(r, parse_bin(buf@, start as int, n as int)),
{
    if buf.len() < start || buf.len() - start < n {
        return Err(Error::Truncated);
    }
    Ok((Element::Bin(slice_subrange(buf, start, start + n)), start + n))
}

fn read_ext(buf: &[u8], start: usize, n: usize, tag: u8) -> (r: Result<(Element<'_>, usize), Error>)
    requires
        start <= 7,
        n < len_limit(),
    ensures
        reads_as(r, parse_ext(buf@, start as int, n as int, tag)),
{
    if buf.len() < start || buf.len() - start < n {
        return Err(Error::Truncated);
    }
    let p = slice_subrange(buf, start, start + n);
    if tag == EXT_TIMESTAMP {
        if n != 12 {
            return Err(Error::BadExt);
        }
        let s = read_be64(p, 0);
        let nano = read_be32(p, 8);
        proof {
            assert(p@.skip(0) =~= p@);
            lemma_be64_val64(p@);
            lemma_be32_val32(p@.skip(8));
        }
        if nano >= 1_000_000_000 {
            return Err(Error::BadExt);
        }
        let sec: i64 = if s >= 0x8000_0000_0000_0000 {
            ((s - 0x8000_0000_0000_0000) as i64) - 0x4000_0000_0000_0000 - 0x4000_0000_0000_0000
        } else {
            s as i64
        };
        match Timestamp::from_utc(sec, nano) {
            Some(t) => Ok((Element::Timestamp(t), start + n)),
            None => Err(Error::BadExt),
        }
    } else if tag == EXT_HASH {
        match hash::Hash::decode(p) {
            Ok((h, used)) => if used == n {
                Ok((Element::Hash(h), start + n))
            } else {
                Err(Error::BadExt)
            },
            Err(_) => Err(Error::BadExt),
        }
    } else if tag == EXT_IDENTITY {
        match Identity::decode(p) {
            Ok((id, used)) => if used == n {
                Ok((Element::Identity(id), start + n))
            } else {
                Err(Error::BadExt)
            },
            Err(_) => Err(Error::BadExt),
        }
    } else if tag == EXT_LOCKBOX {
        Ok((Element::Lockbox(p), start + n))
    } else {
        Err(Error::UnknownTag)
    }
}

fn read_len_field(buf: &[u8], width: usize) -> (n: usize)
    requires
        width == 1 || width == 2 || width == 4,
        buf.len() >= 1 + width,
    ensures
        n == len_field(buf@, width as int),
        n < len_limit(),
{
    if width == 1 {
        buf[1] as usize
    } else if width == 2 {
        proof {
            lemma_be16_val16(buf@.skip(1));
        }
        read_be16(buf, 1) as usize
    } else {
        proof {
            lemma_be32_val32(buf@.skip(1));
        }
        read_be32(buf, 1) as usize
    }
}

fn read_sized(buf: &[u8], m: u8, width: usize) -> (r: Result<(Element<'_>, usize), Error>)
    requires
        width == 1 || width == 2 || width == 4,
    ensures
        reads_as(r, parse_sized(buf@, m, width as int)),
{
    if buf.len() < 1 + width {
        return Err(Error::Truncated);
    }
    let n = read_len_field(buf, width);
    let floor: usize = if width == 1 { 0 } else if width == 2 { 0x100 } else { 0x1_0000 };
    if m == 0xc4 || m == 0xc5 || m == 0xc6 {
        if n < floor {
            Err(Error::NotCanonical)
        } else {
            read_bin(buf, 1 + width, n)
        }
    } else if m == 0xd9 || m == 0xda || m == 0xdb {
        if n < (if width == 1 { 32 } else { floor }) {
            Err(Error::NotCanonical)
        } else {
            read_str(buf, 1 + width, n)
        }
    } else if m == 0xdc || m == 0xdd {
        if n < (if width == 2 { 16 } else { 0x1_0000 }) {
            Err(Error::NotCanonical)
        } else {
            Ok((Element::Array(n), 1 + width))
        }
    } else if m == 0xde || m == 0xdf {
        if n < (if width == 2 { 16 } else { 0x1_0000 }) {
            Err(Error::NotCanonical)
        } else {
            Ok((Element::Obj(n), 1 + width))
        }
    } else {
        if buf.len() < 2 + width {
            Err(Error::Truncated)
        } else if n < floor || (width == 1 && (n == 1 || n == 2 || n == 4 || n == 8 || n == 16)) {
            Err(Error::NotCanonical)
        } else {
            read_ext(buf, 2 + width, n, buf[1 + width])
        }
    }
}

fn read_number(buf: &[u8], m: u8, width: usize) -> (r: Result<(Element<'_>, usize), Error>)
    requires
        width == 1 || width == 2 || width == 4 || width == 8,
        m == 0xca ==> width == 4,
        m == 0xcb ==> width == 8,
    ensures
        reads_as(r, parse_number(buf@, m, width as int)),
{
    if buf.len() < 1 + width {
        return Err(Error::Truncated);
    }
    let x: u64 = if width == 1 {
        buf[1] as u64
    } else if width == 2 {
        proof {
            lemma_be16_val16(buf@.skip(1));
        }
        read_be16(buf, 1) as u64
    } else if width == 4 {
        proof {
            lemma_be32_val32(buf@.skip(1));
        }
        read_be32(buf, 1) as u64
    } else {
        proof {
            lemma_be64_val64(buf@.skip(1));
        }
        read_be64(buf, 1)
    };
    if m == 0xca {
        Ok((Element::F32(x as u32), 5))
    } else if m == 0xcb {
        Ok((Element::F64(x), 9))
    } else if m == 0xcc {
        if x < 0x80 { Err(Error::NotCanonical) } else { Ok((Element::Int(Integer::from_u64(x)), 2)) }
    } else if m == 0xcd {
        if x < 0x100 { Err(Error::NotCanonical) } else { Ok((Element::Int(Integer::from_u64(x)), 3)) }
    } else if m == 0xce {
        if x < 0x1_0000 { Err(Error::NotCanonical) } else { Ok((Element::Int(Integer::from_u64(x)), 5)) }
    } else if m == 0xcf {
        if x < 0x1_0000_0000 { Err(Error::NotCanonical) } else { Ok((Element::Int(Integer::from_u64(x)), 9)) }
    } else if m == 0xd0 {
        if x < 0x80 || x >= 0xe0 {
            Err(Error::NotCanonical)
        } else {
            Ok((Element::Int(Integer::from_i64((x as i64) - 0x100)), 2))
        }
    } else if m == 0xd1 {
        if x < 0x8000 || x >= 0x1_0000 - 0x80 {
            Err(Error::NotCanonical)
        } else {
            Ok((Element::Int(Integer::from_i64((x as i64) - 0x1_0000)), 3))
        }
    } else if m == 0xd2 {
        if x < 0x8000_0000 || x >= 0x1_0000_0000 - 0x8000 {
            Err(Error::NotCanonical)
        } else {
            Ok((Element::Int(Integer::from_i64((x as i64) - 0x1_0000_0000)), 5))
        }
    } else {
        if x < 0x8000_0000_0000_0000 || x >= 0xffff_ffff_8000_0000 {
            Err(Error::NotCanonical)
        } else {
            let v: i64 = ((x - 0x8000_0000_0000_0000) as i64) - 0x4000_0000_0000_0000 - 0x4000_0000_0000_0000;
            Ok((Element::Int(Integer::from_i64(v)), 9))
        }
    }
}

fn read_fixext(buf: &[u8], n: usize) -> (r: Result<(Element<'_>, usize), Error>)
    requires
        n <= 16,
    ensures
        reads_as(r, parse_fixext(buf@, n as int)),
{
    if buf.len() < 2 {
        Err(Error::Truncated)
    } else {
        read_ext(buf, 2, n, buf[1])
    }
}

/// Reads the element that `buf` starts with. Gives the element and the number of bytes it
/// takes, an array or object counting as its header alone.
pub fn read_element(buf: &[u8]) -> (r: Result<(Element<'_>, usize), Error>)
    ensures
        reads_as(r, parse_element(buf@)),
{
    proof {
        reveal(parse_element);
    }
    if buf.len() == 0 {
        return Err(Error::Truncated);
    }
    let m = buf[0];
    if m < 0x80 {
        Ok((Element::Int(Integer::from_u64(m as u64)), 1))
    } else if m < 0x90 {
        Ok((Element::Obj((m - 0x80) as usize), 1))
    } else if m < 0xa0 {
        Ok((Element::Array((m - 0x90) as usize), 1))
    } else if m < 0xc0 {
        read_str(buf, 1, (m - 0xa0) as usize)
    } else if m >= 0xe0 {
        Ok((Element::Int(Integer::from_i64((m as i64) - 0x100)), 1))
    } else if m == 0xc0 {
        Ok((Element::Null, 1))
    } else if m == 0xc1 {
        Err(Error::NotCanonical)
    } else if m == 0xc2 {
        Ok((Element::Bool(false), 1))
    } else if m == 0xc3 {
        Ok((Element::Bool(true), 1))
    } else if m == 0xc4 || m == 0xc7 || m == 0xd9 {
        read_sized(buf, m, 1)
    } else if m == 0xc5 || m == 0xc8 || m == 0xda || m == 0xdc || m == 0xde {
        read_sized(buf, m, 2)
    } else if m == 0xc6 || m == 0xc9 || m == 0xdb || m == 0xdd || m == 0xdf {
        read_sized(buf, m, 4)
    } else if m == 0xcc || m == 0xd0 {
        read_number(buf, m, 1)
    } else if m == 0xcd || m == 0xd1 {
        read_number(buf, m, 2)
    } else if m == 0xca || m == 0xce || m == 0xd2 {
        read_number(buf, m, 4)
    } else if m == 0xcb || m == 0xcf || m == 0xd3 {
        read_number(buf, m, 8)
    } else if m == 0xd4 {
        read_fixext(buf, 1)
    } else if m == 0xd5 {
        read_fixext(buf, 2)
    } else if m == 0xd6 {
        read_fixext(buf, 4)
    } else if m == 0xd7 {
        read_fixext(buf, 8)
    } else {
        read_fixext(buf, 16)
    }
}

/// Appends an integer in its shortest form.
pub fn write_int(buf: &mut Vec<u8>, i: &Integer)
    ensures
        final(buf)@ == old(buf)@ + encode_int(i@),
{
    let n: i128 = i.get();
    if 0 <= n && n < 0x80 {
        buf.push(n as u8);
    } else if -32 <= n && n < 0 {
        buf.push((n + 0x100) as u8);
    } else if 0x80 <= n && n < 0x100 {
        buf.push(0xcc);
        buf.push(n as u8);
    } else if 0x100 <= n && n < 0x1_0000 {
        buf.push(0xcd);
        push_be16(buf, n as u16);
    } else if 0x1_0000 <= n && n < 0x1_0000_0000 {
        buf.push(0xce);
        push_be32(buf, n as u32);
    } else if 0x1_0000_0000 <= n {
        buf.push(0xcf);
        push_be64(buf, n as u64);
    } else if -0x80 <= n {
        buf.push(0xd0);
        buf.push((n + 0x100) as u8);
    } else if -0x8000 <= n {
        buf.push(0xd1);
        push_be16(buf, (n + 0x1_0000) as u16);
    } else if -0x8000_0000 <= n {
        buf.push(0xd2);
        push_be32(buf, (n + 0x1_0000_0000) as u32);
    } else {
        buf.push(0xd3);
        push_be64(buf, (n + 0x1_0000_0000_0000_0000) as u64);
    }
    assert(buf@ =~= old(buf)@ + encode_int(i@));
}

/// Appends the header of a string of `n` bytes.
pub fn write_str_header(buf: &mut Vec<u8>, n: usize)
    requires
        n < len_limit(),
    ensures
        final(buf)@ == old(buf)@ + str_header(n as int),
{
    if n < 32 {
        buf.push(0xa0 + n as u8);
    } else if n < 0x100 {
        buf.push(0xd9);
        buf.push(n as u8);
    } else if n < 0x1_0000 {
        buf.push(0xda);
        push_be16(buf, n as u16);
    } else {
        buf.push(0xdb);
        push_be32(buf, n as u32);
    }
    assert(buf@ =~= old(buf)@ + str_header(n as int));
}

/// Appends the header of a byte string of `n` bytes.
pub fn write_bin_header(buf: &mut Vec<u8>, n: usize)
    requires
        n < len_limit(),
    ensures
        final(buf)@ == old(buf)@ + bin_header(n as int),
{
    if n < 0x100 {
        buf.push(0xc4);
        buf.push(n as u8);
    } else if n < 0x1_0000 {
        buf.push(0xc5);
        push_be16(buf, n as u16);
    } else {
        buf.push(0xc6);
        push_be32(buf, n as u32);
    }
    assert(buf@ =~= old(buf)@ + bin_header(n as int));
}

/// Appends the header of an array of `n` items.
pub fn write_array_header(buf: &mut Vec<u8>, n: usize)
    requires
        n < len_limit(),
    ensures
        final(buf)@ == old(buf)@ + array_header(n as int),
{
    if n < 16 {
        buf.push(0x90 + n as u8);
    } else if n < 0x1_0000 {
        buf.push(0xdc);
        push_be16(buf, n as u16);
    } else {
        buf.push(0xdd);
        push_be32(buf, n as u32);
    }
    assert(buf@ =~= old(buf)@ + array_header(n as int));
}

/// Appends the header of an object of `n` key-value pairs.
pub fn write_obj_header(buf: &mut Vec<u8>, n: usize)
    requires
        n < len_limit(),
    ensures
        final(buf)@ == old(buf)@ + obj_header(n as int),
{
    if n < 16 {
        buf.push(0x80 + n as u8);
    } else if n < 0x1_0000 {
        buf.push(0xde);
        push_be16(buf, n as u16);
    } else {
        buf.push(0xdf);
        push_be32(buf, n as u32);
    }
    assert(buf@ =~= old(buf)@ + obj_header(n as int));
}

/// Appends the header of an extension with a payload of `n` bytes.
pub fn write_ext_header(buf: &mut Vec<u8>, n: usize, tag: u8)
    requires
        n < len_limit(),
    ensures
        final(buf)@ == old(buf)@ + ext_header(n as int, tag),
{
    if n == 1 {
        buf.push(0xd4);
    } else if n == 2 {
        buf.push(0xd5);
    } else if n == 4 {
        buf.push(0xd6);
    } else if n == 8 {
        buf.push(0xd7);
    } else if n == 16 {
        buf.push(0xd8);
    } else if n < 0x100 {
        buf.push(0xc7);
        buf.push(n as u8);
    } else if n < 0x1_0000 {
        buf.push(0xc8);
        push_be16(buf, n as u16);
    } else {
        buf.push(0xc9);
        push_be32(buf, n as u32);
    }
    buf.push(tag);
    assert(buf@ =~= old(buf)@ + ext_header(n as int, tag));
}

/// Appends a string: its header, then its bytes.
pub fn write_str(buf: &mut Vec<u8>, s: &str)
    requires
        s.spec_bytes().len() < len_limit(),
    ensures
        final(buf)@ == old(buf)@ + encode_element(ElementView::Str(s.spec_bytes())),
{
    proof {
        reveal(encode_element);
    }
    let bytes = s.as_bytes();
    write_str_header(buf, bytes.len());
    buf.extend_from_slice(bytes);
    assert(buf@ =~= old(buf)@ + encode_element(ElementView::Str(s.spec_bytes())));
}

/// Appends a byte string: its header, then its bytes.
pub fn write_bin(buf: &mut Vec<u8>, b: &[u8])
    requires
        b@.len() < len_limit(),
    ensures
        final(buf)@ == old(buf)@ + encode_element(ElementView::Bin(b@)),
{
    proof {
        reveal(encode_element);
    }
    write_bin_header(buf, b.len());
    buf.extend_from_slice(b);
    assert(buf@ =~= old(buf)@ + encode_element(ElementView::Bin(b@)));
}

/// Appends a hash as an extension.
pub fn write_hash(buf: &mut Vec<u8>, h: &hash::Hash)
    ensures
        final(buf)@ == old(buf)@ + encode_element(ElementView::Hash(h@)),
{
    proof {
        reveal(encode_element);
    }
    write_ext_header(buf, h.len(), EXT_HASH);
    h.encode(buf);
    assert(buf@ =~= old(buf)@ + encode_element(ElementView::Hash(h@)));
}

/// Appends an identity as an extension.
pub fn write_identity(buf: &mut Vec<u8>, id: &Identity)
    ensures
        final(buf)@ == old(buf)@ + encode_element(ElementView::Identity(id@)),
{
    proof {
        reveal(encode_element);
    }
    write_ext_header(buf, id.len(), EXT_IDENTITY);
    id.encode(buf);
    assert(buf@ =~= old(buf)@ + encode_element(ElementView::Identity(id@)));
}

/// Appends a lockbox as an extension.
pub fn write_lockbox(buf: &mut Vec<u8>, b: &[u8])
    requires
        b@.len() < len_limit(),
    ensures
        final(buf)@ == old(buf)@ + encode_element(ElementView::Lockbox(b@)),
{
    proof {
        reveal(encode_element);
    }
    write_ext_header(buf, b.len(), EXT_LOCKBOX);
    buf.extend_from_slice(b);
    assert(buf@ =~= old(buf)@ + encode_element(ElementView::Lockbox(b@)));
}

/// Appends a timestamp as an extension.
pub fn write_timestamp(buf: &mut Vec<u8>, t: &Timestamp)
    ensures
        final(buf)@ == old(buf)@ + encode_element(ElementView::Timestamp(t@)),
{
    proof {
        reveal(encode_element);
    }
    write_ext_header(buf, 12, EXT_TIMESTAMP);
    let sec = t.timestamp_utc();
    let s: u64 = if sec < 0 {
        ((sec + 0x4000_0000_0000_0000 + 0x4000_0000_0000_0000) as u64) + 0x8000_0000_0000_0000
    } else {
        sec as u64
    };
    push_be64(buf, s);
    push_be32(buf, t.timestamp_subsec_nanos());
    assert(buf@ =~= old(buf)@ + encode_element(ElementView::Timestamp(t@)));
}

/// Appends one element; of an array or object, the header.
pub fn write_element(buf: &mut Vec<u8>, e: &Element<'_>)
    requires
        element_wf(e@),
    ensures
        final(buf)@ == old(buf)@ + encode_element(e@),
{
    proof {
        reveal(encode_element);
        reveal(element_wf);
    }
    match e {
        Element::Null => {
            buf.push(0xc0);
            assert(buf@ =~= old(buf)@ + encode_element(e@));
        },
        Element::Bool(b) => {
            if *b {
                buf.push(0xc3);
            } else {
                buf.push(0xc2);
            }
            assert(buf@ =~= old(buf)@ + encode_element(e@));
        },
        Element::Int(i) => write_int(buf, i),
        Element::F32(x) => {
            buf.push(0xca);
            push_be32(buf, *x);
            assert(buf@ =~= old(buf)@ + encode_element(e@));
        },
        Element::F64(x) => {
            buf.push(0xcb);
            push_be64(buf, *x);
            assert(buf@ =~= old(buf)@ + encode_element(e@));
        },
        Element::Str(s) => write_str(buf, s),
        Element::Bin(b) => write_bin(buf, b),
        Element::Array(n) => write_array_header(buf, *n),
        Element::Obj(n) => write_obj_header(buf, *n),
        Element::Hash(h) => write_hash(buf, h),
        Element::Identity(id) => write_identity(buf, id),
        Element::Lockbox(b) => write_lockbox(buf, b),
        Element::Timestamp(t) => write_timestamp(buf, t),
    }
}


/// Appends a null.
pub fn write_null(buf: &mut Vec<u8>)
    ensures
        final(buf)@ == old(buf)@ + encode_element(ElementView::Null),
{
    proof {
        reveal(encode_element);
    }
    buf.push(0xc0);
    assert(buf@ =~= old(buf)@ + encode_element(ElementView::Null));
}

/// Appends a boolean.
pub fn write_bool(buf: &mut Vec<u8>, b: bool)
    ensures
        final(buf)@ == old(buf)@ + encode_element(ElementView::Bool(b)),
{
    proof {
        reveal(encode_element);
    }
    if b {
        buf.push(0xc3);
    } else {
        buf.push(0xc2);
    }
    assert(buf@ =~= old(buf)@ + encode_element(ElementView::Bool(b)));
}

/// Appends a 32-bit float, given as its bit pattern.
pub fn write_f32(buf: &mut Vec<u8>, bits: u32)
    ensures
        final(buf)@ == old(buf)@ + encode_element(ElementView::F32(bits)),
{
    proof {
        reveal(encode_element);
    }
    buf.push(0xca);
    push_be32(buf, bits);
    assert(buf@ =~= old(buf)@ + encode_element(ElementView::F32(bits)));
}

/// Appends a 64-bit float, given as its bit pattern.
pub fn write_f64(buf: &mut Vec<u8>, bits: u64)
    ensures
        final(buf)@ == old(buf)@ + encode_element(ElementView::F64(bits)),
{
    proof {
        reveal(encode_element);
    }
    buf.push(0xcb);
    push_be64(buf, bits);
    assert(buf@ =~= old(buf)@ + encode_element(ElementView::F64(bits)));
}

/// Appends an integer.
pub fn write_integer(buf: &mut Vec<u8>, i: &Integer)
    ensures
        final(buf)@ == old(buf)@ + encode_element(ElementView::Int(i@)),
{
    proof {
        reveal(encode_element);
    }
    write_int(buf, i);
}

/// Appends the header of an array of `n` items.
pub fn write_array(buf: &mut Vec<u8>, n: usize)
    requires
        n < len_limit(),
    ensures
        final(buf)@ == old(buf)@ + encode_element(ElementView::Array(n as nat)),
{
    proof {
        reveal(encode_element);
    }
    write_array_header(buf, n);
}

/// Appends the header of an object of `n` key-value pairs.
pub fn write_obj(buf: &mut Vec<u8>, n: usize)
    requires
        n < len_limit(),
    ensures
        final(buf)@ == old(buf)@ + encode_element(ElementView::Obj(n as nat)),
{
    proof {
        reveal(encode_element);
    }
    write_obj_header(buf, n);
}

} // verus!
