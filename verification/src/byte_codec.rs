use vstd::prelude::*;

verus! {

/// Little-endian value of the two bytes at `off`.
pub open spec fn le_u16_at(b: Seq<u8>, off: int) -> int {
    b[off] as int + 256 * (b[off + 1] as int)
}

/// Little-endian value of the four bytes at `off`.
pub open spec fn le_u32_at(b: Seq<u8>, off: int) -> int {
    le_u16_at(b, off) + 65536 * le_u16_at(b, off + 2)
}

/// Little-endian value of the eight bytes at `off`.
pub open spec fn le_u64_at(b: Seq<u8>, off: int) -> int {
    le_u32_at(b, off) + 4294967296 * le_u32_at(b, off + 4)
}

/// The two little-endian bytes of `v`.
pub open spec fn le_u16_bytes(v: int) -> Seq<u8> {
    seq![(v % 256) as u8, ((v / 256) % 256) as u8]
}

/// The four little-endian bytes of `v`.
pub open spec fn le_u32_bytes(v: int) -> Seq<u8> {
    le_u16_bytes(v % 65536) + le_u16_bytes(v / 65536)
}

/// The eight little-endian bytes of `v`.
pub open spec fn le_u64_bytes(v: int) -> Seq<u8> {
    le_u32_bytes(v % 4294967296) + le_u32_bytes(v / 4294967296)
}

pub proof fn lemma_le_u16_roundtrip(v: int, b: Seq<u8>, off: int)
    requires
        0 <= v < 65536,
        0 <= off,
        off + 2 <= b.len(),
        b.subrange(off, off + 2) == le_u16_bytes(v),
    ensures
        le_u16_at(b, off) == v,
{
    assert(b[off] == b.subrange(off, off + 2)[0]);
    assert(b[off + 1] == b.subrange(off, off + 2)[1]);
}

pub proof fn lemma_le_u32_roundtrip(v: int, b: Seq<u8>, off: int)
    requires
        0 <= v < 4294967296,
        0 <= off,
        off + 4 <= b.len(),
        b.subrange(off, off + 4) == le_u32_bytes(v),
    ensures
        le_u32_at(b, off) == v,
{
    let lo = le_u16_bytes(v % 65536);
    let hi = le_u16_bytes(v / 65536);
    assert(b.subrange(off, off + 2) =~= (lo + hi).subrange(0, 2));
    assert(b.subrange(off + 2, off + 4) =~= (lo + hi).subrange(2, 4));
    assert((lo + hi).subrange(0, 2) =~= lo);
    assert((lo + hi).subrange(2, 4) =~= hi);
    lemma_le_u16_roundtrip(v % 65536, b, off);
    lemma_le_u16_roundtrip(v / 65536, b, off + 2);
}

pub proof fn lemma_le_u64_roundtrip(v: int, b: Seq<u8>, off: int)
    requires
        0 <= v < 18446744073709551616,
        0 <= off,
        off + 8 <= b.len(),
        b.subrange(off, off + 8) == le_u64_bytes(v),
    ensures
        le_u64_at(b, off) == v,
{
    let lo = le_u32_bytes(v % 4294967296);
    let hi = le_u32_bytes(v / 4294967296);
    assert(b.subrange(off, off + 4) =~= (lo + hi).subrange(0, 4));
    assert(b.subrange(off + 4, off + 8) =~= (lo + hi).subrange(4, 8));
    assert((lo + hi).subrange(0, 4) =~= lo);
    assert((lo + hi).subrange(4, 8) =~= hi);
    lemma_le_u32_roundtrip(v % 4294967296, b, off);
    lemma_le_u32_roundtrip(v / 4294967296, b, off + 4);
}

/// Reads the little-endian `u16` at `off` of a byte slice.
pub fn read_u16(b: &[u8], off: usize) -> (r: u16)
    requires
        off + 2 <= b@.len(),
    ensures
        r as int == le_u16_at(b@, off as int),
{
    b[off] as u16 + (b[off + 1] as u16) * 256
}

/// Reads the little-endian `u32` at `off` of a byte slice.
pub fn read_u32(b: &[u8], off: usize) -> (r: u32)
    requires
        off + 4 <= b@.len(),
    ensures
        r as int == le_u32_at(b@, off as int),
{
    assert(off + 4 <= b.len());
    read_u16(b, off) as u32 + (read_u16(b, off + 2) as u32) * 65536
}

/// Reads the little-endian `u64` at `off` of a byte slice.
pub fn read_u64(b: &[u8], off: usize) -> (r: u64)
    requires
        off + 8 <= b@.len(),
    ensures
        r as int == le_u64_at(b@, off as int),
{
    assert(off + 8 <= b.len());
    read_u32(b, off) as u64 + (read_u32(b, off + 4) as u64) * 4294967296
}

/// The two little-endian bytes of a `u16`.
pub fn u16_bytes(v: u16) -> (r: [u8; 2])
    ensures
        r@ == le_u16_bytes(v as int),
{
    let r = [(v % 256) as u8, (v / 256) as u8];
    assert(r@ =~= le_u16_bytes(v as int));
    r
}

/// The four little-endian bytes of a `u32`.
pub fn u32_bytes(v: u32) -> (r: [u8; 4])
    ensures
        r@ == le_u32_bytes(v as int),
{
    let lo = u16_bytes((v % 65536) as u16);
    let hi = u16_bytes((v / 65536) as u16);
    let r = [lo[0], lo[1], hi[0], hi[1]];
    assert(r@ =~= le_u32_bytes(v as int));
    r
}

/// The eight little-endian bytes of a `u64`.
pub fn u64_bytes(v: u64) -> (r: [u8; 8])
    ensures
        r@ == le_u64_bytes(v as int),
{
    let lo = u32_bytes((v % 4294967296) as u32);
    let hi = u32_bytes((v / 4294967296) as u32);
    let r = [lo[0], lo[1], lo[2], lo[3], hi[0], hi[1], hi[2], hi[3]];
    assert(r@ =~= le_u64_bytes(v as int));
    r
}

} // verus!
