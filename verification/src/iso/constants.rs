use vstd::prelude::*;

verus! {

/// Size of one ISO 9660 sector (logical block) in bytes.
pub const ISO_SECTOR_SIZE: u64 = 2048;

/// Size of one disk sector (used by GPT, MBR, FAT BPB) in bytes.
pub const DISK_SECTOR_SIZE: u64 = 512;

/// The starting LBA of the EFI System Partition in ISO 2048-byte sectors (2 MiB).
pub const ESP_START_LBA_ISO: u32 = 1024;

/// The starting LBA of the EFI System Partition in 512-byte sectors (2 MiB).
pub const ESP_START_LBA_512: u32 = 4096;

/// The first sector after the protective MBR, the GPT header and its
/// 32-sector entry array.
pub const ESP_START_LBA: u32 = 34;

/// 512-byte sectors reserved at the start of the disk for the protective MBR,
/// the GPT header and the 32-sector partition entry array.
pub const GPT_RESERVED_512_SECTORS: u32 = 34;

/// 512-byte sectors needed by the backup GPT: one header plus 32 entry sectors.
pub const BACKUP_GPT_RESERVED_512: u64 = 33;

/// Converts an ISO 2048-byte sector LBA to the equivalent 512-byte sector LBA.
pub fn iso_to_512(lba: u32) -> (r: u32)
    requires
        lba * 4 <= u32::MAX,
    ensures
        r == lba * 4,
{
    lba * 4
}

/// Converts a 512-byte disk sector LBA to the ISO 2048-byte sector LBA
/// that contains it (rounding down).
pub fn disk512_to_iso(lba: u32) -> (r: u32)
    ensures
        r == lba / 4,
{
    lba / 4
}

/// Converting to 512-byte sectors and back gives the ISO sector again, and
/// converting a disk sector to ISO sectors and back lands on the start of the
/// ISO sector that holds it.
pub proof fn lemma_sector_conversions(iso_lba: u32, disk_lba: u32)
    requires
        iso_lba * 4 <= u32::MAX,
    ensures
        (iso_lba * 4) / 4 == iso_lba,
        (disk_lba / 4) * 4 <= disk_lba < (disk_lba / 4) * 4 + 4,
{
}

} // verus!
