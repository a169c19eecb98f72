use vstd::prelude::*;

use crate::error::FatError;
use crate::layout::{le16, le32, read_u16_le, read_u32_le, u16_le_bytes, u32_le_bytes,
    lemma_u16_round_trip, lemma_u32_round_trip};
use crate::sector::copy_range;

verus! {

/// Size in bytes of the boot parameter block at the start of an image.
pub const BOOT_SIZE: usize = 62;

/// Geometry and identification decoded from the boot parameter block.
#[derive(Debug)]
pub struct BootSector {
    pub oem: Vec<u8>,
    pub bytes_per_sector: u16,
    pub sectors_per_cluster: u8,
    pub reserved_sectors: u16,
    pub fat_count: u8,
    pub root_dir_entries: u16,
    pub total_sectors: u16,
    pub sectors_per_fat: u16,
    pub volume_serial: u32,
    pub volume_label: Vec<u8>,
}

pub open spec fn bps_of(d: Seq<u8>) -> int {
    le16(d, 11)
}

pub open spec fn spc_of(d: Seq<u8>) -> int {
    d[13] as int
}

pub open spec fn reserved_of(d: Seq<u8>) -> int {
    le16(d, 14)
}

pub open spec fn fat_count_of(d: Seq<u8>) -> int {
    d[16] as int
}

pub open spec fn root_entries_of(d: Seq<u8>) -> int {
    le16(d, 17)
}

pub open spec fn sectors_per_fat_of(d: Seq<u8>) -> int {
    le16(d, 22)
}

/// `b` holds the fields stored at their fixed offsets in `d`.
pub open spec fn boot_decoded(b: BootSector, d: Seq<u8>) -> bool {
    &&& d.len() >= BOOT_SIZE
    &&& b.oem@ == d.subrange(3, 11)
    &&& b.bytes_per_sector == bps_of(d)
    &&& b.sectors_per_cluster == spc_of(d)
    &&& b.reserved_sectors == reserved_of(d)
    &&& b.fat_count == fat_count_of(d)
    &&& b.root_dir_entries == root_entries_of(d)
    &&& b.total_sectors == le16(d, 19)
    &&& b.sectors_per_fat == sectors_per_fat_of(d)
    &&& b.volume_serial == le32(d, 39)
    &&& b.volume_label@ == d.subrange(43, 54)
}

/// Decodes the boot parameter block, field by field, in little-endian order.
/// Fails with `Truncated` exactly when the image is shorter than the block.
pub fn read_bootsector(data: &[u8]) -> (r: Result<BootSector, FatError>)
    ensures
        data@.len() < BOOT_SIZE <==> r == Err::<BootSector, FatError>(FatError::Truncated),
        data@.len() >= BOOT_SIZE ==> r is Ok && boot_decoded(r->Ok_0, data@),
{
    if data.len() < BOOT_SIZE {
        return Err(FatError::Truncated);
    }
    Ok(BootSector {
        oem: copy_range(data, 3, 11),
        bytes_per_sector: read_u16_le(data, 11),
        sectors_per_cluster: data[13],
        reserved_sectors: read_u16_le(data, 14),
        fat_count: data[16],
        root_dir_entries: read_u16_le(data, 17),
        total_sectors: read_u16_le(data, 19),
        sectors_per_fat: read_u16_le(data, 22),
        volume_serial: read_u32_le(data, 39),
        volume_label: copy_range(data, 43, 54),
    })
}

/// Every field decoded from a boot parameter block, encoded again in
/// little-endian order, gives back the bytes it was read from.
pub proof fn lemma_boot_fields_round_trip(b: BootSector, d: Seq<u8>)
    requires
        boot_decoded(b, d),
    ensures
        b.oem@ == d.subrange(3, 11),
        u16_le_bytes(b.bytes_per_sector) == d.subrange(11, 13),
        seq![b.sectors_per_cluster] == d.subrange(13, 14),
        u16_le_bytes(b.reserved_sectors) == d.subrange(14, 16),
        seq![b.fat_count] == d.subrange(16, 17),
        u16_le_bytes(b.root_dir_entries) == d.subrange(17, 19),
        u16_le_bytes(b.total_sectors) == d.subrange(19, 21),
        u16_le_bytes(b.sectors_per_fat) == d.subrange(22, 24),
        u32_le_bytes(b.volume_serial) == d.subrange(39, 43),
        b.volume_label@ == d.subrange(43, 54),
{
    lemma_u16_round_trip(d, 11);
    lemma_u16_round_trip(d, 14);
    lemma_u16_round_trip(d, 17);
    lemma_u16_round_trip(d, 19);
    lemma_u16_round_trip(d, 22);
    lemma_u32_round_trip(d, 39);
    assert(seq![b.sectors_per_cluster] =~= d.subrange(13, 14));
    assert(seq![b.fat_count] =~= d.subrange(16, 17));
}

} // verus!
