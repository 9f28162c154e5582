use isobemak::iso::iso_writer::write_boot_info_table;

const ISO_SECTOR_SIZE: usize = 2048;

fn read_sector(file: &[u8], lba: u32) -> &[u8] {
    &file[lba as usize * ISO_SECTOR_SIZE..(lba as usize + 1) * ISO_SECTOR_SIZE]
}

#[test]
fn test_boot_info_table_structure() {
    let boot_lba = 50u32;
    let boot_size: u64 = 2048;
    let boot_offset = boot_lba as usize * ISO_SECTOR_SIZE;
    let mut boot_data = vec![0u8; boot_size as usize];
    for i in 64..boot_size as usize {
        boot_data[i] = (i as u8).wrapping_mul(3).wrapping_add(0xAB);
    }
    let mut f = vec![0u8; boot_offset];
    f.extend_from_slice(&boot_data);
    write_boot_info_table(&mut f, boot_lba, boot_size).unwrap();
    let table = &f[boot_offset + 8..boot_offset + 64];
    assert_eq!(u32::from_le_bytes(table[0..4].try_into().unwrap()), 16, "PVD LBA should be 16");
    assert_eq!(u32::from_le_bytes(table[4..8].try_into().unwrap()), boot_lba, "boot image LBA mismatch");
    assert_eq!(
        u32::from_le_bytes(table[8..12].try_into().unwrap()),
        boot_size as u32,
        "boot image size mismatch"
    );
    assert_eq!(&table[16..56], &[0u8; 40], "reserved bytes not zero");
    let mut expected_csum = 0u32;
    for chunk in boot_data[64..].chunks_exact(4) {
        expected_csum = expected_csum.wrapping_add(u32::from_le_bytes(chunk.try_into().unwrap()));
    }
    let actual_csum = u32::from_le_bytes(table[12..16].try_into().unwrap());
    assert_eq!(actual_csum, expected_csum, "checksum mismatch");
}

#[test]
fn test_boot_info_table_exact_64_bytes() {
    let boot_lba = 10u32;
    let boot_size: u64 = 64;
    let boot_offset = boot_lba as usize * ISO_SECTOR_SIZE;
    let mut f = vec![0u8; boot_offset];
    f.extend_from_slice(&[0xFFu8; 2048]);
    write_boot_info_table(&mut f, boot_lba, boot_size).unwrap();
    let table = &f[boot_offset + 8..boot_offset + 64];
    assert_eq!(
        u32::from_le_bytes(table[12..16].try_into().unwrap()),
        0,
        "checksum should be 0 when file has no data beyond offset 64"
    );
}

#[test]
fn test_boot_info_table_does_not_overflow_sector() {
    let boot_lba = 99u32;
    let boot_offset = boot_lba as usize * ISO_SECTOR_SIZE;
    let mut f = vec![0u8; boot_offset];
    f.extend_from_slice(&[0xAAu8; ISO_SECTOR_SIZE]);
    write_boot_info_table(&mut f, boot_lba, 128).unwrap();
    let sector_read = read_sector(&f, boot_lba);
    assert_eq!(&sector_read[64..128], &[0xAAu8; 64], "boot-info-table wrote beyond offset 63");
}

#[test]
fn boot_info_table_needs_the_image_data() {
    let mut f = vec![0u8; 2048];
    assert!(write_boot_info_table(&mut f, 0, 4096).is_err());
}
