use isobemak::iso::constants::{disk512_to_iso, iso_to_512};
use isobemak::iso::mbr::{create_mbr_for_gpt_hybrid, Mbr};

#[test]
fn test_new() {
    let mbr = Mbr::new();
    assert_eq!({ mbr.boot_signature }, 0xAA55);
    assert_eq!(mbr.boot_code, [0; 440]);
}

#[test]
fn test_isohybrid() {
    let mbr = create_mbr_for_gpt_hybrid(1000, true, Some(4096), Some(32768)).unwrap();
    let p0 = &mbr.partition_table[0];
    assert_eq!({ p0.partition_type }, 0xEE);
    assert_eq!({ p0.starting_lba }, 1);
    assert_eq!({ p0.size_in_lba }, 999);
    let p1 = &mbr.partition_table[1];
    assert_eq!({ p1.partition_type }, 0xEF);
    assert_eq!({ p1.starting_lba }, 4096);
    assert_eq!({ p1.size_in_lba }, 32768);
}

#[test]
fn test_no_isohybrid() {
    let mbr = create_mbr_for_gpt_hybrid(2000, false, None, None).unwrap();
    let p0 = &mbr.partition_table[0];
    assert_eq!({ p0.bootable }, 0x80);
    assert_eq!({ p0.partition_type }, 0xEF);
    assert_eq!({ p0.starting_lba }, 1);
    assert_eq!({ p0.size_in_lba }, 1999);
}

#[test]
fn test_write() {
    let mbr = Mbr::new();
    let mut b = Vec::new();
    mbr.write_to(&mut b);
    assert_eq!(b.len(), 512);
    assert_eq!(u16::from_le_bytes([b[510], b[511]]), 0xAA55);
}

#[test]
fn chs_addresses_of_the_partition_ends() {
    let mbr = create_mbr_for_gpt_hybrid(1000, true, Some(4096), Some(32768)).unwrap();
    let b = mbr.to_bytes();
    // Entry 0 starts at sector 1: head 0, sector 2, cylinder 0.
    assert_eq!(&b[447..450], &[0, 2, 0]);
    // It ends at sector 999: head 31, sector 8, cylinder 0.
    assert_eq!(&b[451..454], &[31, 8, 0]);
    // Entry 1 starts at 4096 = cylinder 2, head 0, sector 1.
    assert_eq!(&b[463..466], &[0, 1, 2]);
    // The empty entries stay zero.
    assert!(b[478..510].iter().all(|&x| x == 0));
}

#[test]
fn chs_beyond_cylinder_1023_is_all_ones() {
    let mbr = create_mbr_for_gpt_hybrid(4_000_000, false, None, None).unwrap();
    let b = mbr.to_bytes();
    assert_eq!(&b[451..454], &[0xFF, 0xFF, 0xFF]);
}

#[test]
fn zero_sized_esp_gets_no_partition() {
    let mbr = create_mbr_for_gpt_hybrid(1000, true, Some(4096), Some(0)).unwrap();
    assert_eq!({ mbr.partition_table[1].partition_type }, 0);
}

#[test]
fn sector_conversions() {
    assert_eq!(iso_to_512(1024), 4096);
    assert_eq!(disk512_to_iso(4096), 1024);
    assert_eq!(disk512_to_iso(4099), 1024);
}
