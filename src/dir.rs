use vstd::prelude::*;

use crate::boot::{
    BootSector, boot_decoded, bps_of, fat_count_of, reserved_of, root_entries_of,
    sectors_per_fat_of,
};
use crate::error::FatError;
use crate::layout::{le16, le32, read_u16_le, read_u32_le};
use crate::sector::{copy_range, read_sector, sector_bytes};

verus! {

/// Size in bytes of one directory entry.
pub const ENTRY_SIZE: usize = 32;

/// Length of an 8.3 short name, space padded.
pub const NAME_LEN: usize = 11;

/// One 32-byte root directory record. The timestamps are not decoded.
#[derive(Debug)]
pub struct DirEntry {
    pub name: Vec<u8>,
    pub attributes: u8,
    pub first_cluster_high: u16,
    pub first_cluster_low: u16,
    pub size: u32,
}

/// `e` holds the fields of the record that starts at `off` in `b`.
pub open spec fn entry_at(e: DirEntry, b: Seq<u8>, off: int) -> bool {
    &&& e.name@ == b.subrange(off, off + 11)
    &&& e.attributes == b[off + 11]
    &&& e.first_cluster_high == le16(b, off + 20)
    &&& e.first_cluster_low == le16(b, off + 26)
    &&& e.size == le32(b, off + 28)
}

/// `v` holds one entry per whole 32-byte record of `b`, in order; a trailing
/// partial record has no entry.
pub open spec fn entries_decoded(v: Seq<DirEntry>, b: Seq<u8>) -> bool {
    &&& v.len() == b.len() / 32
    &&& forall|i: int| 0 <= i < v.len() ==> #[trigger] entry_at(v[i], b, 32 * i)
}

/// Decodes the directory record that starts at `off`.
pub fn decode_entry(b: &[u8], off: usize) -> (e: DirEntry)
    requires
        off + ENTRY_SIZE <= b@.len(),
    ensures
        entry_at(e, b@, off as int),
{
    let len = b.len();
    assert(off + ENTRY_SIZE <= len);
    DirEntry {
        name: copy_range(b, off, off + NAME_LEN),
        attributes: b[off + 11],
        first_cluster_high: read_u16_le(b, off + 20),
        first_cluster_low: read_u16_le(b, off + 26),
        size: read_u32_le(b, off + 28),
    }
}

/// Decodes every whole 32-byte record of `b`, ignoring a trailing partial
/// record: bytes after the last whole record are not an error.
pub fn decode_entries(b: &[u8]) -> (v: Vec<DirEntry>)
    ensures
        entries_decoded(v@, b@),
{
    let mut v: Vec<DirEntry> = Vec::new();
    let mut off: usize = 0;
    while b.len() - off >= ENTRY_SIZE
        invariant
            off <= b@.len(),
            off == 32 * v@.len(),
            forall|i: int| 0 <= i < v@.len() ==> #[trigger] entry_at(v@[i], b@, 32 * i),
        decreases b@.len() - off,
    {
        let e = decode_entry(b, off);
        v.push(e);
        off = off + ENTRY_SIZE;
    }
    v
}

pub open spec fn root_dir_lba(d: Seq<u8>) -> int {
    reserved_of(d) + sectors_per_fat_of(d) * fat_count_of(d)
}

/// Sectors taken by `entries` records: the byte size divided by the sector
/// size, rounded up.
pub open spec fn root_dir_sector_count(entries: int, bps: int) -> int {
    (32 * entries + bps - 1) / bps
}

/// The first sector after the root directory, where the data region starts.
pub open spec fn root_dir_end(d: Seq<u8>) -> int {
    root_dir_lba(d) + root_dir_sector_count(root_entries_of(d), bps_of(d))
}

pub open spec fn root_dir_bytes(d: Seq<u8>) -> Option<Seq<u8>> {
    sector_bytes(d, bps_of(d), root_dir_lba(d), root_dir_sector_count(root_entries_of(d), bps_of(d)))
}

/// Number of sectors that hold `entries` directory records. The division
/// rounds up, so the last, partly filled sector is counted.
pub fn root_dir_sectors(entries: u16, bytes_per_sector: u16) -> (r: u32)
    requires
        bytes_per_sector > 0,
    ensures
        r == root_dir_sector_count(entries as int, bytes_per_sector as int),
        r * bytes_per_sector >= 32 * entries,
        (r - 1) * bytes_per_sector < 32 * entries || r == 0,
{
    let size: u32 = 32 * entries as u32;
    let bps = bytes_per_sector as u32;
    let r = (size + bps - 1) / bps;
    assert(r * bps >= size && ((r - 1) * bps < size || r == 0)) by (nonlinear_arith)
        requires
            bps > 0,
            r == (size + bps - 1) / (bps as int),
    ;
    r
}

/// Locates and decodes the root directory. Returns its entries and the first
/// sector after it.
pub fn read_root_directory(disk: &[u8], header: &BootSector) -> (r: Result<
    (Vec<DirEntry>, u32),
    FatError,
>)
    requires
        boot_decoded(*header, disk@),
    ensures
        bps_of(disk@) == 0 ==> r == Err::<(Vec<DirEntry>, u32), FatError>(FatError::ZeroSectorSize),
        bps_of(disk@) > 0 ==> match root_dir_bytes(disk@) {
            None => r == Err::<(Vec<DirEntry>, u32), FatError>(FatError::OutOfBounds),
            Some(s) => r is Ok && entries_decoded(r->Ok_0.0@, s) && r->Ok_0.1 == root_dir_end(
                disk@,
            ),
        },
{
    if header.bytes_per_sector == 0 {
        return Err(FatError::ZeroSectorSize);
    }
    let spf = header.sectors_per_fat as u32;
    let fats = header.fat_count as u32;
    assert(spf * fats <= 65535 * 255) by (nonlinear_arith)
        requires
            spf <= 65535,
            fats <= 255,
    ;
    let lba: u32 = header.reserved_sectors as u32 + spf * fats;
    let sectors = root_dir_sectors(header.root_dir_entries, header.bytes_per_sector);
    assert(sectors <= 32 * 65535) by (nonlinear_arith)
        requires
            sectors == (32 * header.root_dir_entries + header.bytes_per_sector - 1)
                / (header.bytes_per_sector as int),
            header.bytes_per_sector >= 1,
    ;
    let end: u32 = lba + sectors;
    match read_sector(disk, header.bytes_per_sector, lba as u64, sectors as u64) {
        Ok(bytes) => Ok((decode_entries(bytes.as_slice()), end)),
        Err(e) => Err(e),
    }
}

/// `name` is the first name among the first `limit` entries of `v` to equal
/// `target`.
pub open spec fn first_match(v: Seq<DirEntry>, limit: int, target: Seq<u8>, i: int) -> bool {
    &&& 0 <= i < limit
    &&& i < v.len()
    &&& v[i].name@ == target
    &&& forall|j: int| 0 <= j < i ==> (#[trigger] v[j]).name@ != target
}

pub open spec fn no_match(v: Seq<DirEntry>, limit: int, target: Seq<u8>) -> bool {
    forall|j: int| 0 <= j < limit && j < v.len() ==> (#[trigger] v[j]).name@ != target
}

/// Byte-for-byte equality of two byte strings.
pub fn bytes_equal(a: &[u8], b: &[u8]) -> (r: bool)
    ensures
        r == (a@ == b@),
{
    if a.len() != b.len() {
        return false;
    }
    let mut i: usize = 0;
    while i < a.len()
        invariant
            a@.len() == b@.len(),
            i <= a@.len(),
            forall|j: int| 0 <= j < i ==> a@[j] == b@[j],
        decreases a@.len() - i,
    {
        if a[i] != b[i] {
            return false;
        }
        i = i + 1;
    }
    assert(a@ =~= b@);
    true
}

/// Linear search of the first `limit` entries for an exact 8.3 name. Returns
/// the position of the first match.
pub fn find_entry(entries: &[DirEntry], limit: u16, name: &[u8]) -> (r: Option<usize>)
    ensures
        match r {
            Some(i) => first_match(entries@, limit as int, name@, i as int),
            None => no_match(entries@, limit as int, name@),
        },
{
    let mut i: usize = 0;
    while i < limit as usize && i < entries.len()
        invariant
            forall|j: int| 0 <= j < i ==> (#[trigger] entries@[j]).name@ != name@,
            i <= entries@.len(),
        decreases entries@.len() - i,
    {
        if bytes_equal(entries[i].name.as_slice(), name) {
            return Some(i);
        }
        i = i + 1;
    }
    None
}

} // verus!
