use vstd::prelude::*;

verus! {

/// The little-endian 16-bit value stored at `off`.
pub open spec fn le16(b: Seq<u8>, off: int) -> int {
    b[off] + 256 * b[off + 1]
}

/// The little-endian 32-bit value stored at `off`.
pub open spec fn le32(b: Seq<u8>, off: int) -> int {
    le16(b, off) + 65536 * le16(b, off + 2)
}

/// The two little-endian bytes of a 16-bit value.
pub open spec fn u16_le_bytes(v: u16) -> Seq<u8> {
    seq![(v % 256) as u8, (v / 256) as u8]
}

/// The four little-endian bytes of a 32-bit value.
pub open spec fn u32_le_bytes(v: u32) -> Seq<u8> {
    seq![(v % 256) as u8, (v / 256 % 256) as u8, (v / 65536 % 256) as u8, (v / 16777216) as u8]
}

pub fn read_u16_le(b: &[u8], off: usize) -> (r: u16)
    requires
        off + 2 <= b@.len(),
    ensures
        r == le16(b@, off as int),
{
    b[off] as u16 + (b[off + 1] as u16) * 256
}

pub fn read_u32_le(b: &[u8], off: usize) -> (r: u32)
    requires
        off + 4 <= b@.len(),
    ensures
        r == le32(b@, off as int),
{
    let len = b.len();
    assert(off + 4 <= len);
    let lo = read_u16_le(b, off);
    let hi = read_u16_le(b, off + 2);
    lo as u32 + (hi as u32) * 65536
}

pub fn encode_u16_le(v: u16) -> (r: Vec<u8>)
    ensures
        r@ == u16_le_bytes(v),
{
    let mut r: Vec<u8> = Vec::new();
    r.push((v % 256) as u8);
    r.push((v / 256) as u8);
    assert(r@ =~= u16_le_bytes(v));
    r
}

pub fn encode_u32_le(v: u32) -> (r: Vec<u8>)
    ensures
        r@ == u32_le_bytes(v),
{
    let mut r: Vec<u8> = Vec::new();
    r.push((v % 256) as u8);
    r.push((v / 256 % 256) as u8);
    r.push((v / 65536 % 256) as u8);
    r.push((v / 16777216) as u8);
    assert(r@ =~= u32_le_bytes(v));
    r
}

/// Decoding a 16-bit field and encoding it again gives back its bytes.
pub proof fn lemma_u16_round_trip(b: Seq<u8>, off: int)
    requires
        0 <= off,
        off + 2 <= b.len(),
    ensures
        0 <= le16(b, off) <= u16::MAX,
        u16_le_bytes(le16(b, off) as u16) == b.subrange(off, off + 2),
{
    let b0 = b[off] as int;
    let b1 = b[off + 1] as int;
    assert((b0 + 256 * b1) % 256 == b0 && (b0 + 256 * b1) / 256 == b1) by (nonlinear_arith)
        requires
            0 <= b0 < 256,
            0 <= b1 < 256,
    ;
    assert(u16_le_bytes(le16(b, off) as u16) =~= b.subrange(off, off + 2));
}

/// Decoding a 32-bit field and encoding it again gives back its bytes.
pub proof fn lemma_u32_round_trip(b: Seq<u8>, off: int)
    requires
        0 <= off,
        off + 4 <= b.len(),
    ensures
        0 <= le32(b, off) <= u32::MAX,
        u32_le_bytes(le32(b, off) as u32) == b.subrange(off, off + 4),
{
    let b0 = b[off] as int;
    let b1 = b[off + 1] as int;
    let b2 = b[off + 2] as int;
    let b3 = b[off + 3] as int;
    let v = b0 + 256 * b1 + 65536 * (b2 + 256 * b3);
    assert(v == le32(b, off));
    assert(v % 256 == b0 && v / 256 % 256 == b1 && v / 65536 % 256 == b2 && v / 16777216 == b3
        && 0 <= v <= 0xffff_ffff) by (nonlinear_arith)
        requires
            0 <= b0 < 256,
            0 <= b1 < 256,
            0 <= b2 < 256,
            0 <= b3 < 256,
            v == b0 + 256 * b1 + 65536 * (b2 + 256 * b3),
    ;
    assert(u32_le_bytes(le32(b, off) as u32) =~= b.subrange(off, off + 4));
}

} // verus!
