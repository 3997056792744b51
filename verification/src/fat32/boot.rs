//! The FAT32 boot sector.
use vstd::prelude::*;
use crate::fat32::entry::{le16, le32};

verus! {

/// The first sector of a FAT32 volume, describing its layout.
#[derive(Debug, Clone, Copy)]
pub struct Fat32BootSector {
    pub jump_instruction: [u8; 3],
    pub oem_name: [u8; 8],
    pub bytes_per_sector: u16,
    pub sectors_per_cluster: u8,
    pub reserved_sectors: u16,
    pub fat_count: u8,
    pub root_dir_entries: u16,
    pub total_sectors_16: u16,
    pub media_descriptor: u8,
    pub sectors_per_fat_16: u16,
    pub sectors_per_track: u16,
    pub head_count: u16,
    pub hidden_sectors: u32,
    pub total_sectors_32: u32,
    pub sectors_per_fat_32: u32,
    pub ext_flags: u16,
    pub filesystem_version: u16,
    pub root_cluster: u32,
    pub filesystem_info: u16,
    pub backup_boot_sector: u16,
    pub reserved: [u8; 12],
    pub drive_number: u8,
    pub reserved1: u8,
    pub boot_signature: u8,
    pub volume_id: u32,
    pub volume_label: [u8; 11],
    pub filesystem_type: [u8; 8],
    pub boot_code: [u8; 420],
    pub bootable_partition_signature: u16,
}

/// `bs` is the boot sector stored in the 512 bytes `b`.
pub open spec fn boot_at(b: Seq<u8>, bs: Fat32BootSector) -> bool {
    &&& b.len() >= 512
    &&& bs.jump_instruction@ == b.subrange(0, 3)
    &&& bs.oem_name@ == b.subrange(3, 11)
    &&& bs.bytes_per_sector == le16(b, 11)
    &&& bs.sectors_per_cluster == b[13]
    &&& bs.reserved_sectors == le16(b, 14)
    &&& bs.fat_count == b[16]
    &&& bs.root_dir_entries == le16(b, 17)
    &&& bs.total_sectors_16 == le16(b, 19)
    &&& bs.media_descriptor == b[21]
    &&& bs.sectors_per_fat_16 == le16(b, 22)
    &&& bs.sectors_per_track == le16(b, 24)
    &&& bs.head_count == le16(b, 26)
    &&& bs.hidden_sectors == le32(b, 28)
    &&& bs.total_sectors_32 == le32(b, 32)
    &&& bs.sectors_per_fat_32 == le32(b, 36)
    &&& bs.ext_flags == le16(b, 40)
    &&& bs.filesystem_version == le16(b, 42)
    &&& bs.root_cluster == le32(b, 44)
    &&& bs.filesystem_info == le16(b, 48)
    &&& bs.backup_boot_sector == le16(b, 50)
    &&& bs.reserved@ == b.subrange(52, 64)
    &&& bs.drive_number == b[64]
    &&& bs.reserved1 == b[65]
    &&& bs.boot_signature == b[66]
    &&& bs.volume_id == le32(b, 67)
    &&& bs.volume_label@ == b.subrange(71, 82)
    &&& bs.filesystem_type@ == b.subrange(82, 90)
    &&& bs.boot_code@ == b.subrange(90, 510)
    &&& bs.bootable_partition_signature == le16(b, 510)
}

fn rd16(b: &[u8], off: usize) -> (r: u16)
    requires
        off + 2 <= b@.len(),
    ensures
        r == le16(b@, off as int),
{
    let lo = b[off] as u32;
    let hi = b[off + 1] as u32;
    (lo + 256 * hi) as u16
}

fn rd32(b: &[u8], off: usize) -> (r: u32)
    requires
        off + 4 <= b@.len(),
    ensures
        r == le32(b@, off as int),
{
    let b0 = b[off] as u64;
    let b1 = b[off + 1] as u64;
    let b2 = b[off + 2] as u64;
    let b3 = b[off + 3] as u64;
    (b0 + 256 * b1 + 65536 * b2 + 16777216 * b3) as u32
}

fn copy_bytes<const N: usize>(b: &[u8], off: usize) -> (a: [u8; N])
    requires
        off + N <= b@.len(),
    ensures
        a@ == b@.subrange(off as int, off + N),
{
    let _n = b.len();
    let mut a = [0u8; N];
    let mut i: usize = 0;
    while i < N
        invariant
            i <= N,
            off + N <= b@.len(),
            b@.len() <= usize::MAX,
            a@.len() == N,
            forall|j: int| 0 <= j < i ==> a@[j] == b@[off + j],
        decreases N - i,
    {
        a[i] = b[off + i];
        i = i + 1;
    }
    assert(a@ =~= b@.subrange(off as int, off + N));
    a
}

impl Fat32BootSector {
    /// Reads the boot sector from the bytes of sector 0.
    pub fn from_bytes(b: &[u8]) -> (bs: Self)
        requires
            b@.len() >= 512,
        ensures
            boot_at(b@, bs),
    {
        Fat32BootSector {
            jump_instruction: copy_bytes::<3>(b, 0),
            oem_name: copy_bytes::<8>(b, 3),
            bytes_per_sector: rd16(b, 11),
            sectors_per_cluster: b[13],
            reserved_sectors: rd16(b, 14),
            fat_count: b[16],
            root_dir_entries: rd16(b, 17),
            total_sectors_16: rd16(b, 19),
            media_descriptor: b[21],
            sectors_per_fat_16: rd16(b, 22),
            sectors_per_track: rd16(b, 24),
            head_count: rd16(b, 26),
            hidden_sectors: rd32(b, 28),
            total_sectors_32: rd32(b, 32),
            sectors_per_fat_32: rd32(b, 36),
            ext_flags: rd16(b, 40),
            filesystem_version: rd16(b, 42),
            root_cluster: rd32(b, 44),
            filesystem_info: rd16(b, 48),
            backup_boot_sector: rd16(b, 50),
            reserved: copy_bytes::<12>(b, 52),
            drive_number: b[64],
            reserved1: b[65],
            boot_signature: b[66],
            volume_id: rd32(b, 67),
            volume_label: copy_bytes::<11>(b, 71),
            filesystem_type: copy_bytes::<8>(b, 82),
            boot_code: copy_bytes::<420>(b, 90),
            bootable_partition_signature: rd16(b, 510),
        }
    }
}

/// What mounting makes of a boot sector: the first sector of the data
/// region, or the reason it cannot be mounted (no 0xAA55 signature, a
/// FAT12/16 volume, or a layout other than 512-byte sectors with clusters of
/// at least one sector and a data region inside the volume).
pub open spec fn boot_check(bs: Fat32BootSector) -> Result<u64, &'static str> {
    if bs.bootable_partition_signature != 0xAA55 {
        Err("Invalid boot sector signature")
    } else if bs.sectors_per_fat_16 != 0 || bs.sectors_per_fat_32 == 0 {
        Err("This is not a FAT32 filesystem (FAT16/12 detected)")
    } else {
        let data_start = bs.reserved_sectors + bs.fat_count * bs.sectors_per_fat_32;
        if bs.bytes_per_sector != 512 || bs.sectors_per_cluster == 0 || data_start > bs.total_sectors_32 {
            Err("Unsupported FAT32 layout")
        } else {
            Ok(data_start as u64)
        }
    }
}

/// Checks a boot sector (see `boot_check`).
pub fn check_boot_sector(bs: &Fat32BootSector) -> (r: Result<u64, &'static str>)
    ensures
        r == boot_check(*bs),
{
    if bs.bootable_partition_signature != 0xAA55 {
        return Err("Invalid boot sector signature");
    }
    if bs.sectors_per_fat_16 != 0 || bs.sectors_per_fat_32 == 0 {
        return Err("This is not a FAT32 filesystem (FAT16/12 detected)");
    }
    let fat_size = bs.sectors_per_fat_32 as u64;
    assert(bs.fat_count as u64 * fat_size <= 255 * 0xFFFF_FFFF) by (nonlinear_arith)
        requires
            bs.fat_count <= 255,
            fat_size <= 0xFFFF_FFFF,
    ;
    let data_start_sector = bs.reserved_sectors as u64 + (bs.fat_count as u64 * fat_size);
    if bs.bytes_per_sector != 512 || bs.sectors_per_cluster == 0 || data_start_sector > bs.total_sectors_32 as u64 {
        return Err("Unsupported FAT32 layout");
    }
    Ok(data_start_sector)
}

} // verus!
