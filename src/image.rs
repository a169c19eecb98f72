use vstd::prelude::*;

use crate::boot::{
    BOOT_SIZE, BootSector, boot_decoded, bps_of, read_bootsector, reserved_of, sectors_per_fat_of,
    spc_of,
};
use crate::chain::{MAX_CHAIN, follow_chain, same_outcome, walk};
use crate::dir::{
    DirEntry, entries_decoded, find_entry, first_match, no_match, read_root_directory,
    root_dir_bytes, root_dir_end,
};
use crate::error::FatError;
use crate::sector::{read_sector, sector_bytes};

verus! {

/// The raw bytes of the first file allocation table.
pub open spec fn fat_table_bytes(d: Seq<u8>) -> Option<Seq<u8>> {
    sector_bytes(d, bps_of(d), reserved_of(d), sectors_per_fat_of(d))
}

/// The first failure met when opening image `d`, in the order: boot
/// parameter block, root directory, allocation table.
pub open spec fn open_error(d: Seq<u8>) -> Option<FatError> {
    if d.len() < BOOT_SIZE {
        Some(FatError::Truncated)
    } else if bps_of(d) == 0 {
        Some(FatError::ZeroSectorSize)
    } else if root_dir_bytes(d) is None {
        Some(FatError::OutOfBounds)
    } else if fat_table_bytes(d) is None {
        Some(FatError::OutOfBounds)
    } else {
        None
    }
}

/// The bytes of the chain that starts at `cluster` in image `d`, with the
/// allocation table `fat`.
pub open spec fn file_bytes(d: Seq<u8>, fat: Seq<u8>, cluster: int) -> Result<Seq<u8>, FatError> {
    walk(d, bps_of(d), spc_of(d), root_dir_end(d), fat, cluster, MAX_CHAIN as nat)
}

/// Reads the `sectors_per_fat` sectors of the first allocation table.
pub fn read_fat(header: &BootSector, disk: &[u8]) -> (r: Result<Vec<u8>, FatError>)
    requires
        boot_decoded(*header, disk@),
    ensures
        match fat_table_bytes(disk@) {
            Some(s) => r is Ok && r->Ok_0@ == s,
            None => r == Err::<Vec<u8>, FatError>(FatError::OutOfBounds),
        },
{
    read_sector(
        disk,
        header.bytes_per_sector,
        header.reserved_sectors as u64,
        header.sectors_per_fat as u64,
    )
}

/// An opened FAT12 image: the image bytes and everything decoded from them
/// once, when it was opened.
#[derive(Debug)]
pub struct FAT12 {
    pub disk: Vec<u8>,
    pub bootsector: BootSector,
    pub rootdir: Vec<DirEntry>,
    pub rootdir_end: u32,
    pub fat: Vec<u8>,
}

impl FAT12 {
    /// Every decoded part agrees with the image bytes.
    pub open spec fn wf(&self) -> bool {
        let d = self.disk@;
        &&& boot_decoded(self.bootsector, d)
        &&& bps_of(d) > 0
        &&& root_dir_bytes(d) is Some
        &&& entries_decoded(self.rootdir@, root_dir_bytes(d)->0)
        &&& self.rootdir_end == root_dir_end(d)
        &&& fat_table_bytes(d) == Some(self.fat@)
    }

    /// Opens an image held in memory: decodes the boot parameter block, then
    /// the root directory, then the allocation table; the first failure ends it.
    pub fn new(disk: Vec<u8>) -> (r: Result<FAT12, FatError>)
        ensures
            match open_error(disk@) {
                Some(e) => r == Err::<FAT12, FatError>(e),
                None => r is Ok && r->Ok_0.wf() && r->Ok_0.disk@ == disk@,
            },
    {
        let bootsector = match read_bootsector(disk.as_slice()) {
            Ok(b) => b,
            Err(e) => return Err(e),
        };
        let (rootdir, rootdir_end) = match read_root_directory(disk.as_slice(), &bootsector) {
            Ok(p) => p,
            Err(e) => return Err(e),
        };
        let fat = match read_fat(&bootsector, disk.as_slice()) {
            Ok(f) => f,
            Err(e) => return Err(e),
        };
        Ok(FAT12 { disk, bootsector, rootdir, rootdir_end, fat })
    }

    /// The position in the root directory of the first entry named exactly
    /// `name`, among the `root_dir_entries` entries.
    pub fn search_file(&self, name: &[u8]) -> (r: Option<usize>)
        ensures
            match r {
                Some(i) => first_match(
                    self.rootdir@,
                    self.bootsector.root_dir_entries as int,
                    name@,
                    i as int,
                ),
                None => no_match(self.rootdir@, self.bootsector.root_dir_entries as int, name@),
            },
    {
        find_entry(self.rootdir.as_slice(), self.bootsector.root_dir_entries, name)
    }

    /// The contents of the file that `entry` describes: the data of every
    /// cluster of its chain, in chain order.
    pub fn read_file(&self, entry: &DirEntry) -> (r: Result<Vec<u8>, FatError>)
        requires
            self.wf(),
        ensures
            same_outcome(r, file_bytes(self.disk@, self.fat@, entry.first_cluster_low as int)),
    {
        follow_chain(
            self.disk.as_slice(),
            self.bootsector.bytes_per_sector,
            self.bootsector.sectors_per_cluster,
            self.rootdir_end,
            self.fat.as_slice(),
            entry.first_cluster_low,
        )
    }

    /// Looks `file` up by its exact 8.3 name and reads it. Fails with
    /// `NotFound` where no entry carries that name.
    pub fn parse(&self, file: &[u8]) -> (r: Result<Vec<u8>, FatError>)
        requires
            self.wf(),
        ensures
            no_match(self.rootdir@, self.bootsector.root_dir_entries as int, file@) ==> r
                == Err::<Vec<u8>, FatError>(FatError::NotFound),
            forall|i: int|
                first_match(self.rootdir@, self.bootsector.root_dir_entries as int, file@, i)
                    ==> same_outcome(
                    r,
                    file_bytes(self.disk@, self.fat@, self.rootdir@[i].first_cluster_low as int),
                ),
    {
        match self.search_file(file) {
            Some(i) => {
                let r = self.read_file(&self.rootdir[i]);
                proof {
                    assert forall|j: int|
                        first_match(
                            self.rootdir@,
                            self.bootsector.root_dir_entries as int,
                            file@,
                            j,
                        ) implies j == i by {
                        if j < i {
                            assert(self.rootdir@[j].name@ != file@);
                        } else if j > i {
                            assert(self.rootdir@[i as int].name@ != file@);
                        }
                    }
                }
                r
            },
            None => Err(FatError::NotFound),
        }
    }
}

} // verus!
