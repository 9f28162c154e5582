use isobemak::iso::create_iso_from_img;

#[test]
fn fixed_layout_around_a_boot_image() {
    let img = vec![0xABu8; 3000];
    let iso = create_iso_from_img(&img);
    // 23 sectors, then two sectors of image.
    assert_eq!(iso.len(), 25 * 2048);
    assert!(iso[..16 * 2048].iter().all(|&b| b == 0));
    let pvd = &iso[16 * 2048..17 * 2048];
    assert_eq!(&pvd[1..6], b"CD001");
    assert_eq!(&pvd[40..72], b"ISOBEMAKI                       ");
    assert_eq!(u32::from_le_bytes(pvd[80..84].try_into().unwrap()), 25);
    assert_eq!(u32::from_be_bytes(pvd[84..88].try_into().unwrap()), 25);
    assert_eq!(pvd[156], 34);
    assert_eq!(u32::from_le_bytes(pvd[158..162].try_into().unwrap()), 20);
    assert_eq!(&iso[17 * 2048 + 7..17 * 2048 + 30], b"EL TORITO SPECIFICATION");
    assert_eq!(iso[18 * 2048], 255);
    let cat = &iso[19 * 2048..20 * 2048];
    assert_eq!(&cat[0..2], &[1, 0xEF]);
    assert_eq!(&cat[4..8], b"UEFI");
    assert_eq!(&cat[28..32], &[0x64, 0x82, 0x55, 0xAA]);
    assert_eq!(cat[32], 0x88);
    // (3000 + 511) / 512 = 6 sectors to load, from sector 23.
    assert_eq!(u16::from_le_bytes([cat[38], cat[39]]), 6);
    assert_eq!(u32::from_le_bytes(cat[40..44].try_into().unwrap()), 23);
    // The root lists ".", "..", EFI and BOOT.CATALOG.
    let root = &iso[20 * 2048..21 * 2048];
    assert_eq!(root[0], 35);
    assert_eq!(&root[70 + 33..70 + 36], b"EFI");
    let boot = &iso[22 * 2048..23 * 2048];
    let rec = &boot[70..];
    assert_eq!(u32::from_le_bytes(rec[2..6].try_into().unwrap()), 23);
    assert_eq!(u32::from_le_bytes(rec[10..14].try_into().unwrap()), 3000);
    assert_eq!(&rec[33..44], b"BOOTX64.EFI");
    assert!(iso[23 * 2048..23 * 2048 + 3000].iter().all(|&b| b == 0xAB));
    assert!(iso[23 * 2048 + 3000..].iter().all(|&b| b == 0));
}

#[test]
fn an_empty_boot_image_ends_the_volume_at_sector_23() {
    let iso = create_iso_from_img(&Vec::new());
    assert_eq!(iso.len(), 23 * 2048);
    assert_eq!(u16::from_le_bytes([iso[19 * 2048 + 38], iso[19 * 2048 + 39]]), 0);
}

#[test]
fn fat_image_and_kernel_layout() {
    let fat = vec![0x11u8; 5000];
    let kernel = vec![0x22u8; 100];
    let iso = isobemak::iso::iso::create_iso_from_img(&fat, &kernel).unwrap();
    // FAT image from sector 23 over 3 sectors, kernel at sector 26.
    assert_eq!(iso.len(), 27 * 2048);
    assert_eq!(u32::from_le_bytes(iso[16 * 2048 + 80..16 * 2048 + 84].try_into().unwrap()), 27);
    assert_eq!(u32::from_le_bytes(iso[16 * 2048 + 158..16 * 2048 + 162].try_into().unwrap()), 20);
    let root = &iso[20 * 2048..21 * 2048];
    assert_eq!(root[68 + 32], 3);
    assert_eq!(&root[68 + 33..68 + 36], b"EFI");
    let boot = &iso[22 * 2048..23 * 2048];
    let bootx64 = &boot[68..];
    assert_eq!(&bootx64[33..46], b"BOOTX64.EFI;1");
    assert_eq!(u32::from_le_bytes(bootx64[2..6].try_into().unwrap()), 23);
    assert_eq!(u32::from_le_bytes(bootx64[10..14].try_into().unwrap()), 5000);
    let kern = &bootx64[bootx64[0] as usize..];
    assert_eq!(&kern[33..45], b"KERNEL.EFI;1");
    assert_eq!(u32::from_le_bytes(kern[2..6].try_into().unwrap()), 26);
    assert_eq!(u32::from_le_bytes(kern[10..14].try_into().unwrap()), 100);
    assert!(iso[23 * 2048..23 * 2048 + 5000].iter().all(|&b| b == 0x11));
    assert!(iso[26 * 2048..26 * 2048 + 100].iter().all(|&b| b == 0x22));
    // No boot catalog is written: sector 19 stays zero.
    assert!(iso[19 * 2048..20 * 2048].iter().all(|&b| b == 0));
}
