use isobemak::iso::constants::{ESP_START_LBA, ESP_START_LBA_512};
use isobemak::iso::gpt::header::GptHeader;
use isobemak::iso::gpt::main_gpt_functions::write_gpt_structures;
use isobemak::iso::gpt::partition_entry::{GptPartitionEntry, EFI_SYSTEM_PARTITION_GUID};

fn u32_at(b: &[u8], off: usize) -> u32 {
    u32::from_le_bytes(b[off..off + 4].try_into().unwrap())
}

fn u64_at(b: &[u8], off: usize) -> u64 {
    u64::from_le_bytes(b[off..off + 8].try_into().unwrap())
}

fn name_units(name: &str) -> [u16; 36] {
    let mut expected_name = [0u16; 36];
    for (i, c) in name.encode_utf16().enumerate() {
        expected_name[i] = c;
    }
    expected_name
}

fn written_disk(total_lbas: u64) -> Vec<u8> {
    let mut disk = vec![0u8; total_lbas as usize * 512];
    let partitions = vec![GptPartitionEntry::new(
        EFI_SYSTEM_PARTITION_GUID,
        &"A2A0D0D0-039B-42A0-BA42-A0D0D0D0D0A0".to_string(),
        2048,
        4095,
        "Test Partition",
        0,
    )];
    write_gpt_structures(&mut disk, total_lbas, &partitions);
    disk
}

#[test]
fn gpt_test_gpt_header_new() {
    let total_lbas = 2048;
    let header = GptHeader::new(total_lbas, 2, 128, 128);
    assert_eq!(&header.signature, b"EFI PART");
    assert_eq!({ header.revision }, 0x00010000);
    assert_eq!({ header.current_lba }, 1);
    assert_eq!({ header.backup_lba }, total_lbas - 1);
    assert_eq!({ header.first_usable_lba }, ESP_START_LBA as u64);
}

#[test]
fn gpt_test_gpt_partition_entry_new() {
    let p_guid = "C12A7328-F81F-11D2-BA4B-00A0C93EC93B";
    let u_guid = "A2A0D0D0-039B-42A0-BA42-A0D0D0D0D0A0";
    let name = "EFI System Partition";
    let entry = GptPartitionEntry::new(p_guid, u_guid, ESP_START_LBA as u64, 2048, name, 0);
    assert_eq!({ entry.starting_lba }, ESP_START_LBA as u64);
    assert_eq!({ entry.ending_lba }, 2048);
    assert_eq!({ entry.partition_name }, name_units(name));
}

#[test]
fn gpt_test_write_gpt_structures() {
    let total_lbas = 4096u64;
    let disk_bytes = written_disk(total_lbas);
    let primary = &disk_bytes[512..1024];
    assert_eq!(&primary[0..8], b"EFI PART");
    let mut header_bytes = primary.to_vec();
    header_bytes[16..20].copy_from_slice(&[0; 4]);
    let calculated_crc = crc32fast::hash(&header_bytes[0..92]);
    assert_eq!(u32_at(primary, 16), calculated_crc, "Primary header CRC32 mismatch");
    let partition_array_bytes = &disk_bytes[1024..1024 + 128 * 128];
    let calculated_array_crc = crc32fast::hash(partition_array_bytes);
    assert_eq!(u32_at(primary, 88), calculated_array_crc, "Partition array CRC32 mismatch");
    let backup = &disk_bytes[((total_lbas - 1) * 512) as usize..];
    assert_eq!(&backup[0..8], b"EFI PART");
    assert_eq!(u64_at(backup, 24), total_lbas - 1);
    assert_eq!(u64_at(backup, 32), 1);
}

#[test]
fn main_gpt_functions_test_gpt_header_new() {
    let total_lbas = 2048;
    let header = GptHeader::new(total_lbas, 2, 128, 128);
    assert_eq!(&header.signature, b"EFI PART");
    assert_eq!({ header.revision }, 0x00010000);
    assert_eq!({ header.current_lba }, 1);
    assert_eq!({ header.backup_lba }, total_lbas - 1);
    assert_eq!({ header.first_usable_lba }, 34);
}

#[test]
fn main_gpt_functions_test_gpt_partition_entry_new() {
    let p_guid = "C12A7328-F81F-11D2-BA4B-00A0C93EC93B";
    let u_guid = "A2A0D0D0-039B-42A0-BA42-A0D0D0D0D0A0";
    let name = "EFI System Partition";
    let entry = GptPartitionEntry::new(p_guid, u_guid, ESP_START_LBA_512 as u64, 2048, name, 0);
    assert_eq!({ entry.starting_lba }, ESP_START_LBA_512 as u64);
    assert_eq!({ entry.ending_lba }, 2048);
    assert_eq!({ entry.partition_name }, name_units(name));
}

#[test]
fn main_gpt_functions_test_write_gpt_structures() {
    let total_lbas = 4096u64;
    let num_partition_entries = 128usize;
    let partition_entry_size = 128usize;
    let disk_bytes = written_disk(total_lbas);
    let primary = &disk_bytes[512..1024];
    assert_eq!(&primary[0..8], b"EFI PART");
    let header_size = u32_at(primary, 12) as usize;
    assert_eq!(header_size, 92, "GPT header_size must be 92");
    let mut header_bytes = primary.to_vec();
    header_bytes[16..20].copy_from_slice(&[0; 4]);
    let calculated_crc = crc32fast::hash(&header_bytes[0..header_size]);
    assert_eq!(u32_at(primary, 16), calculated_crc, "Primary header CRC32 mismatch");
    let partition_array_sectors =
        ((num_partition_entries as u64) * (partition_entry_size as u64)).div_ceil(512);
    assert_eq!(partition_array_sectors, 32, "128*128/512 = 32 sectors");
    assert_eq!(u64_at(primary, 72), 2);
    let partition_array_bytes = &disk_bytes[1024..1024 + num_partition_entries * partition_entry_size];
    assert_eq!(u32_at(primary, 88), crc32fast::hash(partition_array_bytes), "Partition array CRC32 mismatch");
    let backup = &disk_bytes[((total_lbas - 1) * 512) as usize..];
    assert_eq!(&backup[0..8], b"EFI PART");
    assert_eq!(u64_at(backup, 24), total_lbas - 1);
    assert_eq!(u64_at(backup, 32), 1);
    let expected_backup_array_start_lba = total_lbas - 1 - partition_array_sectors;
    assert_eq!(
        u64_at(backup, 72),
        expected_backup_array_start_lba,
        "Backup partition_entry_lba must point to start of backup partition array"
    );
    let backup_entry = &disk_bytes[(expected_backup_array_start_lba * 512) as usize..];
    assert_eq!(u64_at(backup_entry, 32), 2048);
    assert_eq!(u64_at(backup_entry, 40), 4095);
}

#[test]
fn backup_header_checksum_and_shared_disk_guid() {
    let total_lbas = 4096u64;
    let disk = written_disk(total_lbas);
    let primary = &disk[512..1024];
    let backup = &disk[((total_lbas - 1) * 512) as usize..];
    let mut b = backup[..512].to_vec();
    b[16..20].copy_from_slice(&[0; 4]);
    assert_eq!(u32_at(backup, 16), crc32fast::hash(&b[0..92]));
    assert_eq!(&primary[56..72], &backup[56..72]);
    // A version 4, RFC 4122 GUID.
    assert_eq!(primary[56 + 6] >> 4, 4);
    assert_eq!(primary[56 + 8] >> 6, 2);
    // The array after the partition is zero, and both copies match.
    assert!(disk[1024 + 128..1024 + 16384].iter().all(|&x| x == 0));
    let backup_array = &disk[((total_lbas - 33) * 512) as usize..((total_lbas - 1) * 512) as usize];
    assert_eq!(&disk[1024..1024 + 16384], backup_array);
}

#[test]
fn invalid_guid_text_is_refused_by_try_new() {
    assert!(GptPartitionEntry::try_new("not a guid", EFI_SYSTEM_PARTITION_GUID, 1, 2, "x", 0).is_none());
    let e = GptPartitionEntry::try_new(EFI_SYSTEM_PARTITION_GUID, EFI_SYSTEM_PARTITION_GUID, 1, 2, "x", 0).unwrap();
    // The first field of the GUID is stored little-endian.
    assert_eq!(&e.partition_type_guid[0..4], &[0x28, 0x73, 0x2A, 0xC1]);
}

#[test]
fn partition_guids_are_stored_mixed_endian() {
    let e = GptPartitionEntry::new(
        "C12A7328-F81F-11D2-BA4B-00A0C93EC93B",
        "A2A0D0D0-039B-42A0-BA42-A0D0D0D0D0A0",
        2048,
        4095,
        "ESP",
        1,
    );
    assert_eq!(
        e.partition_type_guid,
        [0x28, 0x73, 0x2A, 0xC1, 0x1F, 0xF8, 0xD2, 0x11, 0xBA, 0x4B, 0x00, 0xA0, 0xC9, 0x3E, 0xC9, 0x3B]
    );
    assert_eq!(
        e.unique_partition_guid,
        [0xD0, 0xD0, 0xA0, 0xA2, 0x9B, 0x03, 0xA0, 0x42, 0xBA, 0x42, 0xA0, 0xD0, 0xD0, 0xD0, 0xD0, 0xA0]
    );
    let d = GptPartitionEntry::new("EBD0A0A2-B9E5-4433-87C0-68B6B72699C7", "A2A0D0D0-039B-42A0-BA42-A0D0D0D0D0A0", 34, 99, "ISO9660", 0);
    assert_eq!(
        d.partition_type_guid,
        [0xA2, 0xA0, 0xD0, 0xEB, 0xE5, 0xB9, 0x33, 0x44, 0x87, 0xC0, 0x68, 0xB6, 0xB7, 0x26, 0x99, 0xC7]
    );
}

#[test]
fn the_disk_grows_to_hold_the_gpt() {
    let mut disk = Vec::new();
    write_gpt_structures(&mut disk, 40, &[]);
    assert_eq!(disk.len(), 40 * 512);
    assert_eq!(&disk[512..520], b"EFI PART");
    assert_eq!(&disk[39 * 512..39 * 512 + 8], b"EFI PART");
    let mut small = Vec::new();
    write_gpt_structures(&mut small, 33, &[]);
    // The primary entry array ends past the last sector of so small a disk.
    assert_eq!(small.len(), 17408);
    assert_eq!(&small[32 * 512..32 * 512 + 8], b"EFI PART");
    assert_eq!(u64_at(&small[32 * 512..], 72), 0);
}
