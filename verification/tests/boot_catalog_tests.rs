use isobemak::iso::boot_catalog::{
    write_boot_catalog, BootCatalogEntry, BootCatalogEntryType, BOOT_CATALOG_EFI_PLATFORM_ID,
};

fn verify_checksum(ve: &[u8]) {
    let s = (0..32)
        .step_by(2)
        .fold(0u16, |a, i| a.wrapping_add(u16::from_le_bytes([ve[i], ve[i + 1]])));
    assert_eq!(s, 0);
}

#[test]
fn test_single_efi() {
    let mut buf = Vec::new();
    write_boot_catalog(
        &mut buf,
        vec![BootCatalogEntry {
            platform_id: BOOT_CATALOG_EFI_PLATFORM_ID,
            boot_image_lba: 100,
            boot_image_sectors: 50,
            entry_type: BootCatalogEntryType::BootEntry { bootable: true },
        }],
    );
    assert_eq!(buf.len(), 2048);
    let ve = &buf[0..32];
    assert_eq!(ve[0], 1);
    assert_eq!(ve[1], 0x00);
    assert_eq!(&ve[30..32], &0xAA55u16.to_le_bytes());
    verify_checksum(ve);
    let be = &buf[32..64];
    assert_eq!(be[0], 0x88);
    assert_eq!(be[1], 0x00);
    assert_eq!(&be[6..8], &50u16.to_le_bytes());
    assert_eq!(&be[8..12], &100u32.to_le_bytes());
}

#[test]
fn test_non_bootable() {
    let mut buf = Vec::new();
    write_boot_catalog(
        &mut buf,
        vec![BootCatalogEntry {
            platform_id: 0,
            boot_image_lba: 200,
            boot_image_sectors: 20,
            entry_type: BootCatalogEntryType::BootEntry { bootable: false },
        }],
    );
    assert_eq!(buf[32], 0x00);
}

#[test]
fn section_header_counts_the_entries_of_its_section() {
    let boot = |lba| BootCatalogEntry {
        platform_id: 0xEF,
        boot_image_lba: lba,
        boot_image_sectors: 0,
        entry_type: BootCatalogEntryType::BootEntry { bootable: true },
    };
    let header = |more| BootCatalogEntry {
        platform_id: 0xEF,
        boot_image_lba: 0,
        boot_image_sectors: 0,
        entry_type: BootCatalogEntryType::SectionHeader { more_follow: more },
    };
    let mut buf = Vec::new();
    write_boot_catalog(&mut buf, vec![boot(1), header(true), boot(2), boot(3), header(false), boot(4)]);
    // First header at entry 1 (offset 64): two entries follow in its section.
    assert_eq!(buf[64], 0x90);
    assert_eq!(buf[65], 0xEF);
    assert_eq!(u16::from_le_bytes([buf[66], buf[67]]), 2);
    // Second header at entry 4 (offset 160): one entry.
    assert_eq!(buf[160], 0x91);
    assert_eq!(u16::from_le_bytes([buf[162], buf[163]]), 1);
    // Boot entries carry their platform at byte 4 and no count.
    assert_eq!(buf[36], 0xEF);
    assert_eq!(u16::from_le_bytes([buf[34], buf[35]]), 0);
    // Everything after the last entry is zero.
    assert!(buf[224..].iter().all(|&x| x == 0));
}
