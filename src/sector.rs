use vstd::prelude::*;

use crate::error::FatError;

verus! {

/// The bytes of `count` sectors from `lba` on, or `None` where that range
/// reaches past the end of the image.
pub open spec fn sector_bytes(d: Seq<u8>, bps: int, lba: int, count: int) -> Option<Seq<u8>> {
    if lba * bps + count * bps <= d.len() {
        Some(d.subrange(lba * bps, lba * bps + count * bps))
    } else {
        None
    }
}

/// A fresh vector holding `b[start..end]`.
pub fn copy_range(b: &[u8], start: usize, end: usize) -> (r: Vec<u8>)
    requires
        start <= end <= b@.len(),
    ensures
        r@ == b@.subrange(start as int, end as int),
{
    let mut r: Vec<u8> = Vec::new();
    let mut i: usize = start;
    while i < end
        invariant
            start <= i <= end <= b@.len(),
            r@ == b@.subrange(start as int, i as int),
        decreases end - i,
    {
        r.push(b[i]);
        i = i + 1;
        assert(r@ =~= b@.subrange(start as int, i as int));
    }
    r
}

/// Reads `count` sectors of `bytes_per_sector` bytes, starting at sector
/// `lba`, as raw bytes. Fails with `OutOfBounds` exactly when the range
/// `[lba * bps, lba * bps + count * bps)` is not inside the image.
pub fn read_sector(disk: &[u8], bytes_per_sector: u16, lba: u64, count: u64) -> (r: Result<
    Vec<u8>,
    FatError,
>)
    ensures
        match sector_bytes(disk@, bytes_per_sector as int, lba as int, count as int) {
            Some(s) => r == Ok::<Vec<u8>, FatError>(r->Ok_0) && r->Ok_0@ == s,
            None => r == Err::<Vec<u8>, FatError>(FatError::OutOfBounds),
        },
{
    let bps = bytes_per_sector as u64;
    let len = disk.len() as u64;
    let start = match lba.checked_mul(bps) {
        Some(v) => v,
        None => {
            assert(lba * bps + count * bps > disk@.len()) by (nonlinear_arith)
                requires
                    lba * bps > u64::MAX,
                    count * bps >= 0,
                    disk@.len() <= u64::MAX,
            ;
            return Err(FatError::OutOfBounds);
        },
    };
    let span = match count.checked_mul(bps) {
        Some(v) => v,
        None => {
            assert(lba * bps + count * bps > disk@.len()) by (nonlinear_arith)
                requires
                    count * bps > u64::MAX,
                    lba * bps >= 0,
                    disk@.len() <= u64::MAX,
            ;
            return Err(FatError::OutOfBounds);
        },
    };
    let end = match start.checked_add(span) {
        Some(v) => v,
        None => return Err(FatError::OutOfBounds),
    };
    if end > len {
        return Err(FatError::OutOfBounds);
    }
    Ok(copy_range(disk, start as usize, end as usize))
}

} // verus!
