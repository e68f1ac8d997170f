//! Integer encodings used by the shared map layouts and map keys.
//!
//! The collectors write records in the host's byte order. This library reads
//! and writes them least significant byte first, which is the host order on
//! the little-endian machines it supports; the programs refuse to run on a
//! big-endian host.

use vstd::prelude::*;

verus! {

/// The value of the two bytes at `off`, least significant first.
pub open spec fn le_u16(s: Seq<u8>, off: int) -> int {
    s[off] + 256 * s[off + 1]
}

/// The value of the four bytes at `off`, least significant first.
pub open spec fn le_u32(s: Seq<u8>, off: int) -> int {
    le_u16(s, off) + 65536 * le_u16(s, off + 2)
}

/// The value of the eight bytes at `off`, least significant first.
pub open spec fn le_u64(s: Seq<u8>, off: int) -> int {
    le_u32(s, off) + 4294967296 * le_u32(s, off + 4)
}

/// The two's-complement value of the four bytes at `off`.
pub open spec fn le_i32(s: Seq<u8>, off: int) -> int {
    if le_u32(s, off) < 0x8000_0000 {
        le_u32(s, off)
    } else {
        le_u32(s, off) - 0x1_0000_0000
    }
}

/// Reads the unsigned 16-bit integer stored at `off`.
pub fn read_u16(b: &[u8], off: usize) -> (r: u16)
    requires
        off + 2 <= b@.len(),
    ensures
        r == le_u16(b@, off as int),
{
    let b0 = b[off];
    let b1 = b[off + 1];
    assert(((b0 as u16) | ((b1 as u16) << 8)) == b0 + 256 * b1) by (bit_vector);
    (b0 as u16) | ((b1 as u16) << 8)
}

/// Reads the unsigned 32-bit integer stored at `off`.
pub fn read_u32(b: &[u8], off: usize) -> (r: u32)
    requires
        off + 4 <= b@.len(),
    ensures
        r == le_u32(b@, off as int),
{
    let b0 = b[off];
    let b1 = b[off + 1];
    let b2 = b[off + 2];
    let b3 = b[off + 3];
    let v = (b0 as u32) | ((b1 as u32) << 8) | ((b2 as u32) << 16) | ((b3 as u32) << 24);
    assert(((b0 as u32) | ((b1 as u32) << 8) | ((b2 as u32) << 16) | ((b3 as u32) << 24)) == b0
        + 256 * b1 + 65536 * (b2 + 256 * b3)) by (bit_vector);
    v
}

/// Reads the unsigned 64-bit integer stored at `off`.
pub fn read_u64(b: &[u8], off: usize) -> (r: u64)
    requires
        off + 8 <= b@.len(),
    ensures
        r == le_u64(b@, off as int),
{
    let n = b.len();
    let lo = read_u32(b, off);
    let hi = read_u32(b, off + 4);
    let v = (lo as u64) | ((hi as u64) << 32);
    assert(((lo as u64) | ((hi as u64) << 32)) == lo + 4294967296 * hi) by (bit_vector);
    v
}

/// Reads the signed 32-bit integer stored at `off`.
pub fn read_i32(b: &[u8], off: usize) -> (r: i32)
    requires
        off + 4 <= b@.len(),
    ensures
        r == le_i32(b@, off as int),
{
    let u = read_u32(b, off);
    if u < 0x8000_0000 {
        u as i32
    } else {
        let d = (u - 0x8000_0000) as i32;
        d - 0x7fff_ffff - 1
    }
}

/// Copies the `N` bytes stored at `off`.
pub fn read_array<const N: usize>(b: &[u8], off: usize) -> (r: [u8; N])
    requires
        off + N <= b@.len(),
    ensures
        r@ == b@.subrange(off as int, off + N),
{
    let n = b.len();
    let mut r = [0u8; N];
    let mut i: usize = 0;
    while i < N
        invariant
            n == b@.len(),
            off + N <= b@.len(),
            i <= N,
            r@.len() == N,
            forall|j: int| 0 <= j < i ==> r@[j] == b@[off + j],
        decreases N - i,
    {
        r[i] = b[off + i];
        i = i + 1;
    }
    assert(r@ =~= b@.subrange(off as int, off + N));
    r
}

/// The four bytes of `v`, least significant first.
pub fn u32_le_bytes(v: u32) -> (r: [u8; 4])
    ensures
        le_u32(r@, 0) == v,
{
    let x0 = v & 0xff;
    let x1 = (v >> 8) & 0xff;
    let x2 = (v >> 16) & 0xff;
    let x3 = (v >> 24) & 0xff;
    assert(x0 < 256 && x1 < 256 && x2 < 256 && x3 < 256) by (bit_vector)
        requires
            x0 == v & 0xff,
            x1 == (v >> 8) & 0xff,
            x2 == (v >> 16) & 0xff,
            x3 == (v >> 24) & 0xff,
    ;
    assert(x0 + 256 * x1 + 65536 * (x2 + 256 * x3) == v) by (bit_vector)
        requires
            x0 == v & 0xff,
            x1 == (v >> 8) & 0xff,
            x2 == (v >> 16) & 0xff,
            x3 == (v >> 24) & 0xff,
    ;
    [x0 as u8, x1 as u8, x2 as u8, x3 as u8]
}

/// The eight bytes of `v`, least significant first.
pub fn u64_le_bytes(v: u64) -> (r: [u8; 8])
    ensures
        le_u64(r@, 0) == v,
{
    let lo64 = v & 0xffff_ffff;
    let hi64 = v >> 32;
    assert(lo64 < 0x1_0000_0000 && hi64 < 0x1_0000_0000 && lo64 + 4294967296 * hi64 == v)
        by (bit_vector)
        requires
            lo64 == v & 0xffff_ffff,
            hi64 == v >> 32,
    ;
    let a = u32_le_bytes(lo64 as u32);
    let b = u32_le_bytes(hi64 as u32);
    [a[0], a[1], a[2], a[3], b[0], b[1], b[2], b[3]]
}

/// The four bytes that store `v`, least significant first.
pub open spec fn u32_bytes(v: u32) -> Seq<u8> {
    seq![
        (v & 0xff) as u8,
        ((v >> 8) & 0xff) as u8,
        ((v >> 16) & 0xff) as u8,
        ((v >> 24) & 0xff) as u8,
    ]
}

/// The eight bytes that store `v`, least significant first.
pub open spec fn u64_bytes(v: u64) -> Seq<u8> {
    u32_bytes((v & 0xffff_ffff) as u32) + u32_bytes((v >> 32) as u32)
}

/// Bytes that store `v` read back as `v`.
pub proof fn lemma_read_u32_bytes(s: Seq<u8>, off: int, v: u32)
    requires
        0 <= off,
        off + 4 <= s.len(),
        forall|j: int| 0 <= j < 4 ==> s[off + j] == #[trigger] u32_bytes(v)[j],
    ensures
        le_u32(s, off) == v,
{
    let x0 = v & 0xff;
    let x1 = (v >> 8) & 0xff;
    let x2 = (v >> 16) & 0xff;
    let x3 = (v >> 24) & 0xff;
    assert(x0 < 256 && x1 < 256 && x2 < 256 && x3 < 256) by (bit_vector)
        requires
            x0 == v & 0xff,
            x1 == (v >> 8) & 0xff,
            x2 == (v >> 16) & 0xff,
            x3 == (v >> 24) & 0xff,
    ;
    assert(x0 + 256 * x1 + 65536 * (x2 + 256 * x3) == v) by (bit_vector)
        requires
            x0 == v & 0xff,
            x1 == (v >> 8) & 0xff,
            x2 == (v >> 16) & 0xff,
            x3 == (v >> 24) & 0xff,
    ;
    assert(s[off + 0] == u32_bytes(v)[0]);
    assert(s[off + 1] == u32_bytes(v)[1]);
    assert(s[off + 2] == u32_bytes(v)[2]);
    assert(s[off + 3] == u32_bytes(v)[3]);
}

/// Bytes that store `v` read back as `v`.
pub proof fn lemma_read_u64_bytes(s: Seq<u8>, off: int, v: u64)
    requires
        0 <= off,
        off + 8 <= s.len(),
        forall|j: int| 0 <= j < 8 ==> s[off + j] == #[trigger] u64_bytes(v)[j],
    ensures
        le_u64(s, off) == v,
{
    let lo = (v & 0xffff_ffff) as u32;
    let hi = (v >> 32) as u32;
    assert((v & 0xffff_ffff) < 0x1_0000_0000 && (v >> 32) < 0x1_0000_0000
        && (v & 0xffff_ffff) + 4294967296 * (v >> 32) == v) by (bit_vector);
    assert forall|j: int| 0 <= j < 4 implies s[off + j] == #[trigger] u32_bytes(lo)[j] by {
        assert(s[off + j] == u64_bytes(v)[j]);
    }
    assert forall|j: int| 0 <= j < 4 implies s[off + 4 + j] == #[trigger] u32_bytes(hi)[j] by {
        assert(s[off + (4 + j)] == u64_bytes(v)[4 + j]);
    }
    lemma_read_u32_bytes(s, off, lo);
    lemma_read_u32_bytes(s, off + 4, hi);
}

/// The two bytes that store `v`, least significant first.
pub open spec fn u16_bytes(v: u16) -> Seq<u8> {
    seq![(v & 0xff) as u8, ((v >> 8) & 0xff) as u8]
}

/// The four bytes that store `v` in two's complement, least significant first.
pub open spec fn i32_bytes(v: i32) -> Seq<u8> {
    u32_bytes(v as u32)
}

/// Bytes that store `v` read back as `v`.
pub proof fn lemma_read_u16_bytes(s: Seq<u8>, off: int, v: u16)
    requires
        0 <= off,
        off + 2 <= s.len(),
        forall|j: int| 0 <= j < 2 ==> s[off + j] == #[trigger] u16_bytes(v)[j],
    ensures
        le_u16(s, off) == v,
{
    let x0 = v & 0xff;
    let x1 = (v >> 8) & 0xff;
    assert(x0 < 256 && x1 < 256 && x0 + 256 * x1 == v) by (bit_vector)
        requires
            x0 == v & 0xff,
            x1 == (v >> 8) & 0xff,
    ;
    assert(s[off + 0] == u16_bytes(v)[0]);
    assert(s[off + 1] == u16_bytes(v)[1]);
}

/// Bytes that store `v` read back as `v`.
pub proof fn lemma_read_i32_bytes(s: Seq<u8>, off: int, v: i32)
    requires
        0 <= off,
        off + 4 <= s.len(),
        forall|j: int| 0 <= j < 4 ==> s[off + j] == #[trigger] i32_bytes(v)[j],
    ensures
        le_i32(s, off) == v,
{
    let u = v as u32;
    assert forall|j: int| 0 <= j < 4 implies s[off + j] == #[trigger] u32_bytes(u)[j] by {
        assert(s[off + j] == i32_bytes(v)[j]);
    }
    lemma_read_u32_bytes(s, off, u);
    assert(v >= 0 ==> (v as u32) < 0x8000_0000 && (v as u32) == v) by (bit_vector);
    assert(v < 0 ==> (v as u32) >= 0x8000_0000 && (v as u32) - 0x1_0000_0000 == v) by (bit_vector);
}

/// When the bytes `e` stand at `off` in `s` and hold the block `b` at
/// `start`, then `s` holds `b` at `off + start`.
pub proof fn lemma_block_in(s: Seq<u8>, off: int, e: Seq<u8>, start: int, b: Seq<u8>)
    requires
        0 <= off,
        off + e.len() <= s.len(),
        s.subrange(off, off + e.len()) == e,
        0 <= start,
        start + b.len() <= e.len(),
        e.subrange(start, start + b.len()) == b,
    ensures
        s.subrange(off + start, off + start + b.len()) == b,
        forall|j: int| 0 <= j < b.len() ==> s[off + start + j] == #[trigger] b[j],
{
    assert forall|j: int| 0 <= j < b.len() implies s[off + start + j] == #[trigger] b[j] by {
        assert(s.subrange(off, off + e.len())[start + j] == s[off + (start + j)]);
        assert(e.subrange(start, start + b.len())[j] == e[start + j]);
    }
    assert(s.subrange(off + start, off + start + b.len()) =~= b);
}

/// Blocks of one length laid end to end: block `i` starts `len * i` bytes in.
pub proof fn lemma_flatten_uniform(bs: Seq<Seq<u8>>, len: nat)
    requires
        forall|k: int| 0 <= k < bs.len() ==> (#[trigger] bs[k]).len() == len,
    ensures
        bs.flatten().len() == len * bs.len(),
        forall|i: int|
            0 <= i < bs.len() ==> bs.flatten().subrange(len * i, len * i + len) == #[trigger] bs[i],
    decreases bs.len(),
{
    if bs.len() > 0 {
        let rest = bs.drop_first();
        assert forall|k: int| 0 <= k < rest.len() implies (#[trigger] rest[k]).len() == len by {
            assert(rest[k] == bs[k + 1]);
        }
        lemma_flatten_uniform(rest, len);
        let flat = bs.flatten();
        assert(flat == bs[0] + rest.flatten());
        assert(len * bs.len() == len + len * rest.len()) by (nonlinear_arith)
            requires
                rest.len() == bs.len() - 1,
        ;
        assert forall|i: int| 0 <= i < bs.len() implies flat.subrange(len * i, len * i + len)
            == #[trigger] bs[i] by {
            if i == 0 {
                assert(len * i == 0) by (nonlinear_arith)
                    requires
                        i == 0,
                ;
                assert(flat.subrange(0, len as int) =~= bs[0]);
            } else {
                assert(len * i == len + len * (i - 1)) by (nonlinear_arith);
                assert(0 <= len * (i - 1)) by (nonlinear_arith)
                    requires
                        i >= 1,
                ;
                assert(len * (i - 1) + len <= len * rest.len()) by (nonlinear_arith)
                    requires
                        i - 1 < rest.len(),
                ;
                assert(rest[i - 1] == bs[i]);
                assert(flat.subrange(len * i, len * i + len) =~= rest.flatten().subrange(
                    len * (i - 1),
                    len * (i - 1) + len,
                ));
            }
        }
    } else {
        assert(bs.flatten() =~= Seq::<u8>::empty());
    }
}

/// When the bytes `e` stand at `off` in `s` and hold, from `start`, the
/// blocks `bs` of `len` bytes each laid end to end, then `s` holds block `i`
/// at `off + start + len * i`.
pub proof fn lemma_entry_in(
    s: Seq<u8>,
    off: int,
    e: Seq<u8>,
    start: int,
    bs: Seq<Seq<u8>>,
    len: nat,
    i: int,
)
    requires
        0 <= off,
        off + e.len() <= s.len(),
        s.subrange(off, off + e.len()) == e,
        0 <= start,
        start + len * bs.len() <= e.len(),
        forall|k: int| 0 <= k < bs.len() ==> (#[trigger] bs[k]).len() == len,
        e.subrange(start, start + len * bs.len()) == bs.flatten(),
        0 <= i < bs.len(),
    ensures
        s.subrange(off + start + len * i, off + start + len * i + len) == bs[i],
{
    lemma_flatten_uniform(bs, len);
    let flat = bs.flatten();
    assert(0 <= len * i && len * i + len <= len * bs.len()) by (nonlinear_arith)
        requires
            0 <= i < bs.len(),
    ;
    assert(e.subrange(start + len * i, start + len * i + len) =~= flat.subrange(
        len * i,
        len * i + len,
    ));
    lemma_block_in(s, off, e, start + len * i, bs[i]);
}

} // verus!
