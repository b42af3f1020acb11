//! Big-endian integers, byte-wise ordering and small helpers on byte strings.

use vstd::prelude::*;

verus! {

/// The two bytes of `x`, most significant first.
#[verifier::opaque]
pub open spec fn be16(x: int) -> Seq<u8> {
    seq![((x / 0x100) % 0x100) as u8, (x % 0x100) as u8]
}

/// The four bytes of `x`, most significant first.
#[verifier::opaque]
pub open spec fn be32(x: int) -> Seq<u8> {
    be16((x / 0x1_0000) % 0x1_0000) + be16(x % 0x1_0000)
}

/// The eight bytes of `x`, most significant first.
#[verifier::opaque]
pub open spec fn be64(x: int) -> Seq<u8> {
    be32((x / 0x1_0000_0000) % 0x1_0000_0000) + be32(x % 0x1_0000_0000)
}

/// The number that the first two bytes of `b` spell, most significant first.
#[verifier::opaque]
pub open spec fn val16(b: Seq<u8>) -> int {
    b[0] as int * 0x100 + b[1] as int
}

/// The number that the first four bytes of `b` spell, most significant first.
#[verifier::opaque]
pub open spec fn val32(b: Seq<u8>) -> int {
    val16(b) * 0x1_0000 + val16(b.skip(2))
}

/// The number that the first eight bytes of `b` spell, most significant first.
#[verifier::opaque]
pub open spec fn val64(b: Seq<u8>) -> int {
    val32(b) * 0x1_0000_0000 + val32(b.skip(4))
}

pub proof fn lemma_val16_be16(x: int, rest: Seq<u8>)
    requires
        0 <= x < 0x1_0000,
    ensures
        val16(be16(x) + rest) == x,
        be16(x).len() == 2,
        (be16(x) + rest).skip(2) == rest,
{
    reveal(be16);
    reveal(val16);
    assert((be16(x) + rest).skip(2) =~= rest);
}

pub proof fn lemma_val32_be32(x: int, rest: Seq<u8>)
    requires
        0 <= x < 0x1_0000_0000,
    ensures
        val32(be32(x) + rest) == x,
        be32(x).len() == 4,
        (be32(x) + rest).skip(4) == rest,
{
    reveal(be32);
    reveal(val32);
    let hi = (x / 0x1_0000) % 0x1_0000;
    let lo = x % 0x1_0000;
    let tail = be16(lo) + rest;
    assert(be32(x) + rest =~= be16(hi) + tail);
    lemma_val16_be16(hi, tail);
    lemma_val16_be16(lo, rest);
    assert((be32(x) + rest).skip(4) =~= rest);
}

pub proof fn lemma_val64_be64(x: int, rest: Seq<u8>)
    requires
        0 <= x < 0x1_0000_0000_0000_0000,
    ensures
        val64(be64(x) + rest) == x,
        be64(x).len() == 8,
        (be64(x) + rest).skip(8) == rest,
{
    reveal(be64);
    reveal(val64);
    let hi = (x / 0x1_0000_0000) % 0x1_0000_0000;
    let lo = x % 0x1_0000_0000;
    let tail = be32(lo) + rest;
    assert(be64(x) + rest =~= be32(hi) + tail);
    lemma_val32_be32(hi, tail);
    lemma_val32_be32(lo, rest);
    assert((be64(x) + rest).skip(8) =~= rest);
}

pub proof fn lemma_be16_val16(b: Seq<u8>)
    requires
        b.len() >= 2,
    ensures
        be16(val16(b)) == b.take(2),
        0 <= val16(b) < 0x1_0000,
{
    reveal(be16);
    reveal(val16);
    assert(be16(val16(b)) =~= b.take(2));
}

proof fn lemma_split(hi: int, lo: int, m: int)
    by (nonlinear_arith)
    requires
        0 <= lo < m,
        0 <= hi < m,
    ensures
        ((hi * m + lo) / m) % m == hi,
        (hi * m + lo) % m == lo,
        0 <= hi * m + lo < m * m,
{
}

pub proof fn lemma_be32_val32(b: Seq<u8>)
    requires
        b.len() >= 4,
    ensures
        be32(val32(b)) == b.take(4),
        0 <= val32(b) < 0x1_0000_0000,
{
    reveal(be32);
    reveal(val32);
    let hi = val16(b);
    let lo = val16(b.skip(2));
    lemma_be16_val16(b);
    lemma_be16_val16(b.skip(2));
    lemma_split(hi, lo, 0x1_0000);
    assert(be32(val32(b)) == be16(hi) + be16(lo));
    assert(b.take(2) + b.skip(2).take(2) =~= b.take(4));
}

pub proof fn lemma_be64_val64(b: Seq<u8>)
    requires
        b.len() >= 8,
    ensures
        be64(val64(b)) == b.take(8),
        0 <= val64(b) < 0x1_0000_0000_0000_0000,
{
    reveal(be64);
    reveal(val64);
    let hi = val32(b);
    let lo = val32(b.skip(4));
    lemma_be32_val32(b);
    lemma_be32_val32(b.skip(4));
    lemma_split(hi, lo, 0x1_0000_0000);
    assert(be64(val64(b)) == be32(hi) + be32(lo));
    assert(b.take(4) + b.skip(4).take(4) =~= b.take(8));
}

/// Appends the two bytes of `x`, most significant first.
pub fn push_be16(buf: &mut Vec<u8>, x: u16)
    ensures
        final(buf)@ == old(buf)@ + be16(x as int),
{
    buf.push((x / 0x100) as u8);
    buf.push((x % 0x100) as u8);
    proof {
        reveal(be16);
        assert(buf@ =~= old(buf)@ + be16(x as int));
    }
}

/// Appends the four bytes of `x`, most significant first.
pub fn push_be32(buf: &mut Vec<u8>, x: u32)
    ensures
        final(buf)@ == old(buf)@ + be32(x as int),
{
    let hi: u16 = (x / 0x1_0000) as u16;
    let lo: u16 = (x % 0x1_0000) as u16;
    push_be16(buf, hi);
    push_be16(buf, lo);
    proof {
        reveal(be32);
        let a = be16(hi as int);
        let b = be16(lo as int);
        assert(((x as int) / 0x1_0000) % 0x1_0000 == hi as int);
        assert(be32(x as int) == a + b);
        assert((old(buf)@ + a) + b =~= old(buf)@ + (a + b));
    }
}

/// Appends the eight bytes of `x`, most significant first.
pub fn push_be64(buf: &mut Vec<u8>, x: u64)
    ensures
        final(buf)@ == old(buf)@ + be64(x as int),
{
    let hi: u32 = (x / 0x1_0000_0000) as u32;
    let lo: u32 = (x % 0x1_0000_0000) as u32;
    push_be32(buf, hi);
    push_be32(buf, lo);
    proof {
        reveal(be64);
        let a = be32(hi as int);
        let b = be32(lo as int);
        assert(((x as int) / 0x1_0000_0000) % 0x1_0000_0000 == hi as int);
        assert(be64(x as int) == a + b);
        assert((old(buf)@ + a) + b =~= old(buf)@ + (a + b));
    }
}

/// Reads the two bytes at `pos`, most significant first.
pub fn read_be16(b: &[u8], pos: usize) -> (x: u16)
    requires
        pos + 2 <= b.len(),
    ensures
        x == val16(b@.skip(pos as int)),
{
    let hi: u16 = b[pos] as u16;
    let lo: u16 = b[pos + 1] as u16;
    proof {
        reveal(val16);
    }
    hi * 0x100 + lo
}

/// Reads the four bytes at `pos`, most significant first.
pub fn read_be32(b: &[u8], pos: usize) -> (x: u32)
    requires
        pos + 4 <= b.len(),
    ensures
        x == val32(b@.skip(pos as int)),
{
    let hi: u32 = read_be16(b, pos) as u32;
    let lo: u32 = read_be16(b, pos + 2) as u32;
    proof {
        reveal(val32);
        assert(b@.skip(pos as int).skip(2) =~= b@.skip(pos + 2));
        lemma_be16_val16(b@.skip(pos as int));
        lemma_be16_val16(b@.skip(pos + 2));
    }
    hi * 0x1_0000 + lo
}

/// Reads the eight bytes at `pos`, most significant first.
pub fn read_be64(b: &[u8], pos: usize) -> (x: u64)
    requires
        pos + 8 <= b.len(),
    ensures
        x == val64(b@.skip(pos as int)),
{
    let hi: u64 = read_be32(b, pos) as u64;
    let lo: u64 = read_be32(b, pos + 4) as u64;
    proof {
        reveal(val64);
        assert(b@.skip(pos as int).skip(4) =~= b@.skip(pos + 4));
        lemma_be32_val32(b@.skip(pos as int));
        lemma_be32_val32(b@.skip(pos + 4));
    }
    hi * 0x1_0000_0000 + lo
}

/// Whether `a` comes before `b` when the two are compared byte by byte from
/// position `i` on, a proper prefix coming before what extends it.
pub open spec fn lex_lt_from(a: Seq<u8>, b: Seq<u8>, i: int) -> bool
    decreases a.len() - i,
{
    if i < 0 || i >= b.len() {
        false
    } else if i >= a.len() {
        true
    } else if a[i] != b[i] {
        a[i] < b[i]
    } else {
        lex_lt_from(a, b, i + 1)
    }
}

/// Strict lexicographic order on byte strings.
pub open spec fn lex_lt(a: Seq<u8>, b: Seq<u8>) -> bool {
    lex_lt_from(a, b, 0)
}

proof fn lemma_lex_irreflexive_from(a: Seq<u8>, i: int)
    requires
        0 <= i,
    ensures
        !lex_lt_from(a, a, i),
    decreases a.len() - i,
{
    if i < a.len() {
        lemma_lex_irreflexive_from(a, i + 1);
    }
}

/// No byte string comes before itself.
pub proof fn lemma_lex_irreflexive(a: Seq<u8>)
    ensures
        !lex_lt(a, a),
{
    lemma_lex_irreflexive_from(a, 0);
}

proof fn lemma_lex_total_from(a: Seq<u8>, b: Seq<u8>, i: int)
    requires
        0 <= i <= a.len(),
        i <= b.len(),
        a.take(i) == b.take(i),
        a != b,
    ensures
        lex_lt_from(a, b, i) || lex_lt_from(b, a, i),
    decreases a.len() - i,
{
    if i < a.len() && i < b.len() && a[i] == b[i] {
        assert(a.take(i + 1) =~= a.take(i).push(a[i]));
        assert(b.take(i + 1) =~= b.take(i).push(b[i]));
        lemma_lex_total_from(a, b, i + 1);
    } else if i == a.len() && i == b.len() {
        assert(a =~= a.take(i));
        assert(b =~= b.take(i));
    }
}

proof fn lemma_lex_transitive_from(a: Seq<u8>, b: Seq<u8>, c: Seq<u8>, i: int)
    requires
        0 <= i,
        lex_lt_from(a, b, i),
        lex_lt_from(b, c, i),
    ensures
        lex_lt_from(a, c, i),
    decreases a.len() - i,
{
    if i < a.len() && i < b.len() && i < c.len() && a[i] == b[i] && b[i] == c[i] {
        lemma_lex_transitive_from(a, b, c, i + 1);
    }
}

/// The order is transitive.
pub proof fn lemma_lex_transitive(a: Seq<u8>, b: Seq<u8>, c: Seq<u8>)
    requires
        lex_lt(a, b),
        lex_lt(b, c),
    ensures
        lex_lt(a, c),
{
    lemma_lex_transitive_from(a, b, c, 0);
}

/// Of two different byte strings one comes before the other.
pub proof fn lemma_lex_total(a: Seq<u8>, b: Seq<u8>)
    requires
        a != b,
    ensures
        lex_lt(a, b) || lex_lt(b, a),
{
    assert(a.take(0) =~= b.take(0));
    lemma_lex_total_from(a, b, 0);
}

/// Whether `a` comes strictly before `b` in lexicographic byte order.
pub fn bytes_lt(a: &[u8], b: &[u8]) -> (r: bool)
    ensures
        r == lex_lt(a@, b@),
{
    let mut i: usize = 0;
    while i < a.len() && i < b.len()
        invariant
            0 <= i <= a.len(),
            i <= b.len(),
            lex_lt(a@, b@) == lex_lt_from(a@, b@, i as int),
        decreases a.len() - i,
    {
        if a[i] != b[i] {
            return a[i] < b[i];
        }
        i += 1;
    }
    i < b.len()
}

/// Whether the two byte strings are the same.
pub fn bytes_eq(a: &[u8], b: &[u8]) -> (r: bool)
    ensures
        r == (a@ == b@),
{
    if a.len() != b.len() {
        return false;
    }
    let mut i: usize = 0;
    while i < a.len()
        invariant
            0 <= i <= a.len(),
            a.len() == b.len(),
            forall|j: int| 0 <= j < i ==> a@[j] == b@[j],
        decreases a.len() - i,
    {
        if a[i] != b[i] {
            return false;
        }
        i += 1;
    }
    assert(a@ =~= b@);
    true
}

/// The 32 bytes of `b` that start at `pos`.
pub fn array32_at(b: &[u8], pos: usize) -> (a: [u8; 32])
    requires
        pos + 32 <= b.len(),
    ensures
        a@ == b@.subrange(pos as int, pos + 32),
{
    let mut a: [u8; 32] = [0u8; 32];
    let mut i: usize = 0;
    while i < 32
        invariant
            0 <= i <= 32,
            pos + 32 <= b.len(),
            forall|j: int| 0 <= j < i ==> a@[j] == b@[pos + j],
        decreases 32 - i,
    {
        a[i] = b[pos + i];
        i += 1;
    }
    assert(a@ =~= b@.subrange(pos as int, pos + 32));
    a
}

/// The 64 bytes of `b` that start at `pos`.
pub fn array64_at(b: &[u8], pos: usize) -> (a: [u8; 64])
    requires
        pos + 64 <= b.len(),
    ensures
        a@ == b@.subrange(pos as int, pos + 64),
{
    let mut a: [u8; 64] = [0u8; 64];
    let mut i: usize = 0;
    while i < 64
        invariant
            0 <= i <= 64,
            pos + 64 <= b.len(),
            forall|j: int| 0 <= j < i ==> a@[j] == b@[pos + j],
        decreases 64 - i,
    {
        a[i] = b[pos + i];
        i += 1;
    }
    assert(a@ =~= b@.subrange(pos as int, pos + 64));
    a
}

/// The 16 bytes of `b` that start at `pos`.
pub fn array16_at(b: &[u8], pos: usize) -> (a: [u8; 16])
    requires
        pos + 16 <= b.len(),
    ensures
        a@ == b@.subrange(pos as int, pos + 16),
{
    let mut a: [u8; 16] = [0u8; 16];
    let mut i: usize = 0;
    while i < 16
        invariant
            0 <= i <= 16,
            pos + 16 <= b.len(),
            forall|j: int| 0 <= j < i ==> a@[j] == b@[pos + j],
        decreases 16 - i,
    {
        a[i] = b[pos + i];
        i += 1;
    }
    assert(a@ =~= b@.subrange(pos as int, pos + 16));
    a
}

/// The 24 bytes of `b` that start at `pos`.
pub fn array24_at(b: &[u8], pos: usize) -> (a: [u8; 24])
    requires
        pos + 24 <= b.len(),
    ensures
        a@ == b@.subrange(pos as int, pos + 24),
{
    let mut a: [u8; 24] = [0u8; 24];
    let mut i: usize = 0;
    while i < 24
        invariant
            0 <= i <= 24,
            pos + 24 <= b.len(),
            forall|j: int| 0 <= j < i ==> a@[j] == b@[pos + j],
        decreases 24 - i,
    {
        a[i] = b[pos + i];
        i += 1;
    }
    assert(a@ =~= b@.subrange(pos as int, pos + 24));
    a
}

/// A sequence of `n` zero bytes.
pub open spec fn zeros(n: nat) -> Seq<u8> {
    Seq::new(n, |i: int| 0u8)
}

} // verus!
