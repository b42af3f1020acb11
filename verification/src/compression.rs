//! Zstandard, each function a single call into `zstd_safe`.
//!
//! Nothing in this file is proved: every contract here is taken from the documentation of
//! `zstd_safe` and of the zstd library that it wraps.

use vstd::prelude::*;

verus! {

/// `zstd_safe::CCtx`, a compression context, carried as an opaque value.
#[verifier::external_type_specification]
#[verifier::external_body]
pub struct ExCCtx<'a>(zstd_safe::CCtx<'a>);

/// `zstd_safe::DCtx`, a decompression context, carried as an opaque value.
#[verifier::external_type_specification]
#[verifier::external_body]
pub struct ExDCtx<'a>(zstd_safe::DCtx<'a>);

/// The largest size that `n` bytes can compress to in one pass, as zstd gives it for input
/// that is not too large for it.
pub open spec fn zstd_bound(n: nat) -> nat {
    (n + n / 256 + if n < 131072 {
        (131072 - n) / 2048
    } else {
        0
    }) as nat
}

/// The frame that one-pass compression at `level` makes of `src` in a buffer of `capacity`
/// bytes, or nothing where it fails.
pub uninterp spec fn zstd_frame(src: Seq<u8>, level: int, capacity: nat) -> Option<Seq<u8>>;

/// The size of the content that the header of `frame` declares, where it declares one.
pub uninterp spec fn zstd_content_size(frame: Seq<u8>) -> Option<u64>;

/// What `frame` decompresses to in a buffer of `capacity` bytes, or nothing where it does
/// not decompress or does not fit.
pub uninterp spec fn zstd_inflated(frame: Seq<u8>, capacity: nat) -> Option<Seq<u8>>;

/// `zstd_safe::CCtx::try_create`: a fresh context, or nothing where none can be allocated.
#[verifier::external_body]
pub(crate) fn zstd_cctx() -> (r: Option<zstd_safe::CCtx<'static>>)
{
    zstd_safe::CCtx::try_create()
}

/// `zstd_safe::DCtx::try_create`: a fresh context, or nothing where none can be allocated.
#[verifier::external_body]
pub(crate) fn zstd_dctx() -> (r: Option<zstd_safe::DCtx<'static>>)
{
    zstd_safe::DCtx::try_create()
}

/// `zstd_safe::compress_bound`, for input below the size from which on zstd gives no bound.
#[verifier::external_body]
pub(crate) fn zstd_compress_bound(n: usize) -> (r: usize)
    requires
        n < 0xFF00_FF00,
    ensures
        r == zstd_bound(n as nat),
{
    zstd_safe::compress_bound(n)
}

/// `zstd_safe::CCtx::compress` into a buffer of `capacity` bytes. The context does not change
/// what comes out. A frame that was made in one pass declares the size of its content, and
/// decompresses to that content in a buffer of that size.
#[verifier::external_body]
pub(crate) fn zstd_compress(cctx: &mut zstd_safe::CCtx<'static>, src: &[u8], level: i32, capacity: usize) -> (r: Option<Vec<u8>>)
    ensures
        match r {
            Some(frame) => {
                &&& zstd_frame(src@, level as int, capacity as nat) == Some(frame@)
                &&& zstd_content_size(frame@) == Some(src@.len() as u64)
                &&& zstd_inflated(frame@, src@.len()) == Some(src@)
            },
            None => zstd_frame(src@, level as int, capacity as nat) is None,
        },
{
    let mut dst = vec![0u8; capacity];
    match cctx.compress(&mut dst[..], src, level) {
        Ok(written) => {
            dst.truncate(written);
            Some(dst)
        },
        Err(_) => None,
    }
}

/// `zstd_safe::get_frame_content_size`, an unknown size and a header that cannot be read both
/// counting as no size.
#[verifier::external_body]
pub(crate) fn zstd_frame_content_size(frame: &[u8]) -> (r: Option<u64>)
    ensures
        r == zstd_content_size(frame@),
{
    match zstd_safe::get_frame_content_size(frame) {
        Ok(size) => size,
        Err(_) => None,
    }
}

/// `zstd_safe::DCtx::decompress` into a buffer of `capacity` bytes. The context does not
/// change what comes out, and what comes out is never longer than the buffer.
#[verifier::external_body]
pub(crate) fn zstd_decompress(dctx: &mut zstd_safe::DCtx<'static>, frame: &[u8], capacity: usize) -> (r: Option<Vec<u8>>)
    ensures
        match r {
            Some(content) => zstd_inflated(frame@, capacity as nat) == Some(content@) && content@.len()
                <= capacity,
            None => zstd_inflated(frame@, capacity as nat) is None,
        },
{
    let mut dst = vec![0u8; capacity];
    match dctx.decompress(&mut dst[..], frame) {
        Ok(written) => {
            dst.truncate(written);
            Some(dst)
        },
        Err(_) => None,
    }
}

/// The frame that one-pass compression at `level` makes of `src` with the dictionary `dict`
/// in a buffer of `capacity` bytes, or nothing where it fails.
pub uninterp spec fn zstd_dict_frame(src: Seq<u8>, dict: Seq<u8>, level: int, capacity: nat) -> Option<Seq<u8>>;

/// What `frame` decompresses to with the dictionary `dict` in a buffer of `capacity` bytes,
/// or nothing where it does not decompress or does not fit.
pub uninterp spec fn zstd_dict_inflated(frame: Seq<u8>, dict: Seq<u8>, capacity: nat) -> Option<Seq<u8>>;

/// `zstd_safe::CCtx::compress_using_dict` into a buffer of `capacity` bytes. The context does
/// not change what comes out. A frame that was made in one pass declares the size of its
/// content, and decompresses to that content, with the same dictionary, in a buffer of that
/// size.
#[verifier::external_body]
pub(crate) fn zstd_compress_dict(cctx: &mut zstd_safe::CCtx<'static>, src: &[u8], dict: &[u8], level: i32, capacity: usize) -> (r: Option<Vec<u8>>)
    ensures
        match r {
            Some(frame) => {
                &&& zstd_dict_frame(src@, dict@, level as int, capacity as nat) == Some(frame@)
                &&& zstd_content_size(frame@) == Some(src@.len() as u64)
                &&& zstd_dict_inflated(frame@, dict@, src@.len()) == Some(src@)
            },
            None => zstd_dict_frame(src@, dict@, level as int, capacity as nat) is None,
        },
{
    let mut dst = vec![0u8; capacity];
    match cctx.compress_using_dict(&mut dst[..], src, dict, level) {
        Ok(written) => {
            dst.truncate(written);
            Some(dst)
        },
        Err(_) => None,
    }
}

/// `zstd_safe::DCtx::decompress_using_dict` into a buffer of `capacity` bytes. The context
/// does not change what comes out, and what comes out is never longer than the buffer.
#[verifier::external_body]
pub(crate) fn zstd_decompress_dict(dctx: &mut zstd_safe::DCtx<'static>, frame: &[u8], dict: &[u8], capacity: usize) -> (r: Option<Vec<u8>>)
    ensures
        match r {
            Some(content) => zstd_dict_inflated(frame@, dict@, capacity as nat) == Some(content@) && content@.len()
                <= capacity,
            None => zstd_dict_inflated(frame@, dict@, capacity as nat) is None,
        },
{
    let mut dst = vec![0u8; capacity];
    match dctx.decompress_using_dict(&mut dst[..], frame, dict) {
        Ok(written) => {
            dst.truncate(written);
            Some(dst)
        },
        Err(_) => None,
    }
}

} // verus!
