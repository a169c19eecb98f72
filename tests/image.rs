use fat12::boot::{read_bootsector, BOOT_SIZE};
use fat12::chain::{fat_entry, follow_chain, MAX_CHAIN};
use fat12::dir::{decode_entries, find_entry, read_root_directory, root_dir_sectors};
use fat12::layout::{encode_u16_le, encode_u32_le, read_u16_le, read_u32_le};
use fat12::sector::read_sector;
use fat12::{FatError, FAT12};

const BPS: usize = 512;

fn put_u16(b: &mut [u8], off: usize, v: u16) {
    b[off] = (v & 0xFF) as u8;
    b[off + 1] = (v >> 8) as u8;
}

fn put_u32(b: &mut [u8], off: usize, v: u32) {
    for i in 0..4 {
        b[off + i] = (v >> (8 * i)) as u8;
    }
}

fn set_link(fat: &mut [u8], cluster: usize, v: u16) {
    let idx = cluster * 3 / 2;
    if cluster % 2 == 0 {
        fat[idx] = (v & 0xFF) as u8;
        fat[idx + 1] = (fat[idx + 1] & 0xF0) | ((v >> 8) as u8 & 0x0F);
    } else {
        fat[idx] = (fat[idx] & 0x0F) | (((v & 0x0F) as u8) << 4);
        fat[idx + 1] = (v >> 4) as u8;
    }
}

fn header(bps: u16, spc: u8, reserved: u16, fats: u8, root: u16, total: u16, spf: u16) -> Vec<u8> {
    let mut h = vec![0u8; BOOT_SIZE];
    h[0] = 0xEB;
    h[1] = 0x3C;
    h[2] = 0x90;
    h[3..11].copy_from_slice(b"MSWIN4.1");
    put_u16(&mut h, 11, bps);
    h[13] = spc;
    put_u16(&mut h, 14, reserved);
    h[16] = fats;
    put_u16(&mut h, 17, root);
    put_u16(&mut h, 19, total);
    h[21] = 0xF0;
    put_u16(&mut h, 22, spf);
    put_u32(&mut h, 39, 0x1234_ABCD);
    h[43..54].copy_from_slice(b"NO NAME    ");
    h[54..62].copy_from_slice(b"FAT12   ");
    h
}

fn entry(name: &[u8; 11], cluster: u16, size: u32) -> [u8; 32] {
    let mut e = [0u8; 32];
    e[..11].copy_from_slice(name);
    e[11] = 0x20;
    put_u16(&mut e, 26, cluster);
    put_u32(&mut e, 28, size);
    e
}

/// A 1.44 MB floppy: 512-byte sectors, one sector per cluster, one reserved
/// sector, two FATs of nine sectors, 224 root entries (14 sectors), so the
/// data region starts at sector 33.
fn floppy() -> Vec<u8> {
    let mut img = vec![0u8; 2880 * BPS];
    let h = header(512, 1, 1, 2, 224, 2880, 9);
    img[..BOOT_SIZE].copy_from_slice(&h);
    img[510] = 0x55;
    img[511] = 0xAA;
    set_link(&mut img[BPS..BPS * 10], 0, 0xFF0);
    set_link(&mut img[BPS..BPS * 10], 1, 0xFFF);
    img
}

fn root_entry_offset(i: usize) -> usize {
    19 * BPS + 32 * i
}

fn data_offset(cluster: usize) -> usize {
    (33 + cluster - 2) * BPS
}

fn floppy_with_test_file() -> Vec<u8> {
    let mut img = floppy();
    let off = root_entry_offset(0);
    img[off..off + 32].copy_from_slice(&entry(b"TEST    TXT", 2, 1024));
    set_link(&mut img[BPS..BPS * 10], 2, 3);
    set_link(&mut img[BPS..BPS * 10], 3, 0xFFF);
    for i in 0..BPS {
        img[data_offset(2) + i] = b'a' + (i % 26) as u8;
        img[data_offset(3) + i] = b'A' + (i % 26) as u8;
    }
    img
}

#[test]
fn boot_fields_round_trip() {
    let h = header(4096, 8, 32, 2, 512, 0xBEEF, 200);
    let b = read_bootsector(&h).unwrap();
    assert_eq!(b.oem, h[3..11].to_vec());
    assert_eq!(encode_u16_le(b.bytes_per_sector), h[11..13].to_vec());
    assert_eq!(vec![b.sectors_per_cluster], h[13..14].to_vec());
    assert_eq!(encode_u16_le(b.reserved_sectors), h[14..16].to_vec());
    assert_eq!(vec![b.fat_count], h[16..17].to_vec());
    assert_eq!(encode_u16_le(b.root_dir_entries), h[17..19].to_vec());
    assert_eq!(encode_u16_le(b.total_sectors), h[19..21].to_vec());
    assert_eq!(encode_u16_le(b.sectors_per_fat), h[22..24].to_vec());
    assert_eq!(encode_u32_le(b.volume_serial), h[39..43].to_vec());
    assert_eq!(b.volume_label, h[43..54].to_vec());
    assert_eq!(b.bytes_per_sector, 4096);
    assert_eq!(b.sectors_per_cluster, 8);
    assert_eq!(b.reserved_sectors, 32);
    assert_eq!(b.root_dir_entries, 512);
    assert_eq!(b.total_sectors, 0xBEEF);
    assert_eq!(b.sectors_per_fat, 200);
    assert_eq!(b.volume_serial, 0x1234_ABCD);
}

#[test]
fn boot_sector_too_short_is_truncated() {
    let h = header(512, 1, 1, 2, 224, 2880, 9);
    assert_eq!(read_bootsector(&h[..BOOT_SIZE - 1]).unwrap_err(), FatError::Truncated);
    assert!(read_bootsector(&h).is_ok());
    assert_eq!(FAT12::new(vec![0u8; 10]).unwrap_err(), FatError::Truncated);
}

#[test]
fn little_endian_codecs() {
    assert_eq!(read_u16_le(&[0x34, 0x12], 0), 0x1234);
    assert_eq!(read_u32_le(&[0, 0x78, 0x56, 0x34, 0x12], 1), 0x1234_5678);
    assert_eq!(encode_u16_le(0xABCD), vec![0xCD, 0xAB]);
    assert_eq!(encode_u32_le(0x0102_0304), vec![4, 3, 2, 1]);
}

#[test]
fn chain_terminates_at_every_end_marker() {
    for marker in 0xFF8u16..=0xFFF {
        let mut disk = vec![0u8; 16 * 4];
        for (i, b) in disk.iter_mut().enumerate() {
            *b = i as u8;
        }
        let mut fat = vec![0u8; 12];
        // chain 2 -> 5 -> 3 -> marker, 4-byte sectors, data region at sector 0
        set_link(&mut fat, 2, 5);
        set_link(&mut fat, 5, 3);
        set_link(&mut fat, 3, marker);
        let out = follow_chain(&disk, 4, 1, 0, &fat, 2).unwrap();
        assert_eq!(out.len(), 3 * 4);
        let mut want = disk[0..4].to_vec();
        want.extend_from_slice(&disk[12..16]);
        want.extend_from_slice(&disk[4..8]);
        assert_eq!(out, want);
    }
}

#[test]
fn single_cluster_chain() {
    let disk: Vec<u8> = (0u8..32).collect();
    let mut fat = vec![0u8; 6];
    set_link(&mut fat, 2, 0xFF8);
    let out = follow_chain(&disk, 8, 2, 1, &fat, 2).unwrap();
    assert_eq!(out, disk[8..24].to_vec());
}

#[test]
fn fat_entry_parity() {
    assert_eq!(fat_entry(&[0x34, 0x12], 0).unwrap(), 0x234);
    assert_eq!(fat_entry(&[0x00, 0x34, 0x12], 1).unwrap(), 0x123);
    assert_eq!(fat_entry(&[0x34], 0).unwrap_err(), FatError::OutOfBounds);
    assert_eq!(fat_entry(&[0x00, 0x34], 1).unwrap_err(), FatError::OutOfBounds);
}

#[test]
fn lookup_by_exact_name() {
    let mut img = floppy();
    let off = root_entry_offset(0);
    img[off..off + 32].copy_from_slice(&entry(b"TEST    TXT", 5, 0));
    let fs = FAT12::new(img).unwrap();
    let i = fs.search_file(b"TEST    TXT").unwrap();
    assert_eq!(i, 0);
    assert_eq!(fs.rootdir[i].name, b"TEST    TXT".to_vec());
    assert_eq!(fs.rootdir[i].first_cluster_low, 5);
    assert_eq!(fs.search_file(b"NOPE    TXT"), None);
    assert_eq!(fs.parse(b"NOPE    TXT").unwrap_err(), FatError::NotFound);
}

#[test]
fn lookup_returns_first_of_duplicates() {
    let mut img = floppy();
    for (i, c) in [(1usize, 7u16), (4, 9)] {
        let off = root_entry_offset(i);
        img[off..off + 32].copy_from_slice(&entry(b"DUP     BIN", c, 0));
    }
    let fs = FAT12::new(img).unwrap();
    let i = fs.search_file(b"DUP     BIN").unwrap();
    assert_eq!(i, 1);
    assert_eq!(fs.rootdir[i].first_cluster_low, 7);
    let names: Vec<Vec<u8>> = fs.rootdir.iter().map(|e| e.name.clone()).collect();
    assert_eq!(find_entry(&fs.rootdir, 1, b"DUP     BIN"), None);
    assert_eq!(names.len(), 224);
}

#[test]
fn sector_reader_rejects_out_of_range() {
    let disk = vec![7u8; 1024];
    for (lba, count) in [(0u64, 3u64), (2, 1), (1, 2), (3, 0), (u64::MAX, 1), (0, u64::MAX)] {
        assert_eq!(read_sector(&disk, 512, lba, count).unwrap_err(), FatError::OutOfBounds);
    }
    assert_eq!(read_sector(&disk, 512, 1, 1).unwrap(), vec![7u8; 512]);
    assert_eq!(read_sector(&disk, 512, 0, 2).unwrap().len(), 1024);
    assert_eq!(read_sector(&disk, 512, 2, 0).unwrap(), Vec::<u8>::new());
}

#[test]
fn root_dir_sector_count_rounds_up() {
    assert_eq!(root_dir_sectors(16, 512), 1);
    assert_eq!(root_dir_sectors(17, 512), 2);
    assert_eq!(root_dir_sectors(1, 512), 1);
    assert_eq!(root_dir_sectors(0, 512), 0);
    assert_eq!(root_dir_sectors(224, 512), 14);
    assert_eq!(root_dir_sectors(225, 512), 15);
}

#[test]
fn root_dir_last_partial_sector_is_kept() {
    // 17 entries of 32 bytes need two 512-byte sectors; entry 16 is in the second
    let mut img = vec![0u8; 64 * BPS];
    let h = header(512, 1, 1, 1, 17, 64, 1);
    img[..BOOT_SIZE].copy_from_slice(&h);
    let root = 2 * BPS;
    img[root + 32 * 16..root + 32 * 17].copy_from_slice(&entry(b"LAST    DAT", 2, 3));
    set_link(&mut img[BPS..2 * BPS], 2, 0xFFF);
    let data = 4 * BPS;
    img[data..data + 3].copy_from_slice(b"xyz");
    let (dir, end) = read_root_directory(&img, &read_bootsector(&img).unwrap()).unwrap();
    assert_eq!(end, 4);
    assert_eq!(dir.len(), 32);
    let fs = FAT12::new(img).unwrap();
    assert_eq!(fs.rootdir_end, 4);
    assert_eq!(fs.search_file(b"LAST    DAT"), Some(16));
    let out = fs.parse(b"LAST    DAT").unwrap();
    assert_eq!(out.len(), 512);
    assert_eq!(&out[..3], b"xyz");
}

#[test]
fn trailing_partial_record_is_ignored() {
    let mut b = vec![0u8; 32 * 2 + 31];
    b[..32].copy_from_slice(&entry(b"A       B  ", 9, 77));
    b[32..64].copy_from_slice(&entry(b"C       D  ", 10, 0x0102_0304));
    let v = decode_entries(&b);
    assert_eq!(v.len(), 2);
    assert_eq!(v[0].first_cluster_low, 9);
    assert_eq!(v[0].size, 77);
    assert_eq!(v[0].attributes, 0x20);
    assert_eq!(v[1].name, b"C       D  ".to_vec());
    assert_eq!(v[1].size, 0x0102_0304);
}

#[test]
fn end_to_end_two_cluster_file() {
    let img = floppy_with_test_file();
    let mut want = img[data_offset(2)..data_offset(2) + BPS].to_vec();
    want.extend_from_slice(&img[data_offset(3)..data_offset(3) + BPS]);
    let fs = FAT12::new(img).unwrap();
    assert_eq!(fs.rootdir_end, 33);
    assert_eq!(fs.fat.len(), 9 * BPS);
    assert_eq!(fs.bootsector.bytes_per_sector, 512);
    let out = fs.parse(b"TEST    TXT").unwrap();
    assert_eq!(out, want);
    assert_eq!(&out[..3], b"abc");
    assert_eq!(&out[BPS..BPS + 3], b"ABC");
    let i = fs.search_file(b"TEST    TXT").unwrap();
    assert_eq!(fs.read_file(&fs.rootdir[i]).unwrap(), want);
}

#[test]
fn bad_and_reserved_links_are_errors() {
    let disk = vec![1u8; 64];
    for (link, err) in [
        (0xFF7u16, FatError::BadCluster),
        (0xFF0, FatError::ReservedCluster),
        (0xFF6, FatError::ReservedCluster),
        (0, FatError::InvalidCluster),
        (1, FatError::InvalidCluster),
    ] {
        let mut fat = vec![0u8; 9];
        set_link(&mut fat, 2, link);
        assert_eq!(follow_chain(&disk, 4, 1, 0, &fat, 2).unwrap_err(), err);
    }
}

#[test]
fn invalid_start_and_out_of_range_chains() {
    let disk = vec![1u8; 64];
    let mut fat = vec![0u8; 9];
    set_link(&mut fat, 2, 0xFFF);
    assert_eq!(follow_chain(&disk, 4, 1, 0, &fat, 0).unwrap_err(), FatError::InvalidCluster);
    assert_eq!(follow_chain(&disk, 4, 1, 0, &fat, 0xFF0).unwrap_err(), FatError::InvalidCluster);
    // data of cluster 2 lies past the image
    assert_eq!(follow_chain(&disk, 4, 1, 16, &fat, 2).unwrap_err(), FatError::OutOfBounds);
    // entry of cluster 6 lies past the nine-byte table
    assert_eq!(follow_chain(&disk, 4, 1, 0, &fat, 6).unwrap_err(), FatError::OutOfBounds);
}

#[test]
fn cyclic_chain_is_rejected() {
    let disk = vec![1u8; 64];
    let mut fat = vec![0u8; 9];
    set_link(&mut fat, 2, 3);
    set_link(&mut fat, 3, 2);
    assert_eq!(follow_chain(&disk, 4, 1, 0, &fat, 2).unwrap_err(), FatError::ChainTooLong);
    assert_eq!(MAX_CHAIN, 0xFEE);
}

#[test]
fn open_errors() {
    let mut img = floppy();
    put_u16(&mut img, 11, 0);
    assert_eq!(FAT12::new(img).unwrap_err(), FatError::ZeroSectorSize);
    let short = floppy()[..20 * BPS].to_vec();
    assert_eq!(FAT12::new(short).unwrap_err(), FatError::OutOfBounds);
    let mut big_fat = floppy();
    put_u16(&mut big_fat, 22, 0);
    put_u16(&mut big_fat, 14, 3000);
    assert_eq!(FAT12::new(big_fat).unwrap_err(), FatError::OutOfBounds);
}
