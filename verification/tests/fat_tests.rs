use isobemak::fat::{calc_layout, lfn_checksum, make_lfn, pack_83, FatType};
use isobemak::fat_image::{build_args_check, build_image, build_image_with_serial, FatError, FatFile};
use std::io::{Cursor, Read};

fn file(name: &str, data: &[u8]) -> FatFile {
    FatFile { name: name.to_string(), data: data.to_vec() }
}

fn read_fat_file(img: Vec<u8>, path: &str) -> Vec<u8> {
    let fs = fatfs::FileSystem::new(Cursor::new(img), fatfs::FsOptions::new()).unwrap();
    let mut v = Vec::new();
    fs.root_dir().open_file(path).unwrap().read_to_end(&mut v).unwrap();
    v
}

#[test]
fn test_layout_fat32() {
    let (fat, data) = calc_layout(532480, 32, 8, 0, 32);
    assert!(data + 2 * fat + 32 <= 532480);
    assert!(fat > 0 && fat < 4096);
    assert!(data / 8 >= 65525);
}

#[test]
fn test_layout_fat16() {
    let (fat, data) = calc_layout(65536, 1, 8, 32, 16);
    assert!(data + 2 * fat + 1 + 32 <= 65536);
    assert!(fat > 0);
}

#[test]
fn test_layout_fat12() {
    let (fat, data) = calc_layout(2880, 1, 8, 14, 12);
    assert!(data + 2 * fat + 1 + 14 <= 2880);
}

#[test]
fn test_fat_type_selection() {
    assert_eq!(FatType::from_clusters(100), FatType::Fat12);
    assert_eq!(FatType::from_clusters(4084), FatType::Fat12);
    assert_eq!(FatType::from_clusters(4085), FatType::Fat16);
    assert_eq!(FatType::from_clusters(65524), FatType::Fat16);
    assert_eq!(FatType::from_clusters(65525), FatType::Fat32);
}

#[test]
fn test_create_inmem_fat12() {
    let files = vec![file("BOOTX64.EFI", b"UEFI loader"), file("KERNEL.EFI", b"ELF kernel")];
    let (img, sectors) = build_image(&files, 0).unwrap();
    assert!(sectors < 522240, "FAT image is {sectors} sectors — expected < 522240 (255 MiB)");
    assert_eq!(read_fat_file(img.clone(), "EFI/BOOT/BOOTX64.EFI"), b"UEFI loader");
    assert_eq!(read_fat_file(img, "EFI/BOOT/KERNEL.EFI"), b"ELF kernel");
}

#[test]
fn test_create_inmem_fat16() {
    let files = vec![
        FatFile { name: "BOOTX64.EFI".to_string(), data: vec![0u8; 16 * 1024 * 1024] },
        file("KERNEL.EFI", b"ELF kernel"),
    ];
    let (img, sectors) = build_image(&files, 0).unwrap();
    assert!(sectors < 65536, "FAT16 must be under 65536 sectors");
    assert_eq!(read_fat_file(img.clone(), "EFI/BOOT/BOOTX64.EFI").len(), 16 * 1024 * 1024);
    assert_eq!(read_fat_file(img, "EFI/BOOT/KERNEL.EFI"), b"ELF kernel");
}

#[test]
fn test_calc_layout_fat32_threshold() {
    let (fat, data) = calc_layout(2097152, 32, 8, 0, 32);
    assert!(data + 2 * fat + 32 <= 2097152);
    assert!(fat > 0);
    assert!(data / 8 > 65525, "should need > 65525 clusters (FAT32 territory)");
}

#[test]
fn test_hidden() {
    let files = vec![file("BOOTX64.EFI", b"BOOT")];
    let (bytes, _) = build_image(&files, 2048).unwrap();
    assert_eq!(u32::from_le_bytes(bytes[0x1C..0x20].try_into().unwrap()), 2048);
    assert_eq!(read_fat_file(bytes, "EFI/BOOT/BOOTX64.EFI"), b"BOOT");
}

#[test]
fn test_checksum() {
    assert_eq!(lfn_checksum(&pack_83(b"BOOTX64", b"EFI")), 0x1D);
}

#[test]
fn test_no_lfn() {
    assert!(make_lfn("EFI", &pack_83(b"EFI", b""), 0x10, 3, 0).is_none());
}

#[test]
fn test_lfn() {
    let r = make_lfn("BOOTX64.EFI", &pack_83(b"BOOTX64", b"EFI"), 0x20, 5, 1024).unwrap();
    assert_eq!(r.0.len(), 32);
    assert_eq!(r.1.len(), 32);
}

#[test]
fn test_lfn2() {
    let r = make_lfn("KERNEL.EFI", &pack_83(b"KERNEL", b"EFI"), 0x20, 0x15, 0x4000).unwrap();
    assert_eq!(r.0.len(), 32);
}

#[test]
fn test_fat12_bpb() {
    let files = vec![file("T.EFI", b"hello")];
    let (bytes, _) = build_image(&files, 0).unwrap();
    assert_eq!(u16::from_le_bytes([bytes[11], bytes[12]]), 512);
    assert_eq!(bytes[13], 8);
    assert_eq!(u16::from_le_bytes([bytes[14], bytes[15]]), 1);
    assert_eq!(bytes[16], 2);
    assert_eq!(bytes[21], 0xF8);
    assert_eq!(u16::from_le_bytes([bytes[510], bytes[511]]), 0xAA55);
    assert_eq!(read_fat_file(bytes, "EFI/BOOT/T.EFI"), b"hello");
}

#[test]
fn no_files_is_an_error() {
    assert_eq!(build_image(&Vec::new(), 0), Err(FatError::NoFiles));
}

#[test]
fn serial_is_recorded_in_the_boot_sector() {
    let files = vec![file("A.EFI", b"x")];
    let (bytes, total) = build_image_with_serial(&files, 0, 0x1234_5678).unwrap();
    assert_eq!(bytes.len(), total as usize * 512);
    // FAT12/16 boot sector: volume serial at 0x27.
    assert_eq!(u32::from_le_bytes(bytes[0x27..0x2B].try_into().unwrap()), 0x1234_5678);
}

#[test]
fn smallest_image_is_a_floppy_sized_fat12() {
    let files = vec![file("A.EFI", b"x")];
    let (bytes, total) = build_image_with_serial(&files, 0, 1).unwrap();
    // 2880 sectors estimated; FAT12 keeps whole clusters.
    assert!(total <= 2880);
    assert_eq!(&bytes[54..62], b"FAT12   ");
}

#[test]
fn each_file_is_one_cluster_chain() {
    // A 9000-byte file takes three clusters, linked one to the next.
    let files = vec![FatFile { name: "BIG.BIN".to_string(), data: vec![7u8; 9000] }];
    let (bytes, _) = build_image_with_serial(&files, 0, 1).unwrap();
    // FAT12 image: reserved 1 sector, the first FAT at byte 512.
    // Clusters: 2 = EFI, 3 = BOOT, 4..=6 = the file.
    let fat = &bytes[512..];
    let entry = |i: usize| -> u16 {
        let off = i + i / 2;
        let v = u16::from_le_bytes([fat[off], fat[off + 1]]);
        if i % 2 == 0 { v & 0x0FFF } else { v >> 4 }
    };
    assert_eq!(entry(4), 5);
    assert_eq!(entry(5), 6);
    assert_eq!(entry(6), 0x0FFF);
    assert_eq!(read_fat_file(bytes, "EFI/BOOT/BIG.BIN"), vec![7u8; 9000]);
}

#[test]
fn boot_directory_over_one_cluster_is_an_error() {
    let files: Vec<FatFile> = (0..60).map(|i| file(&format!("file_with_a_long_name_{i}.txt"), b"x")).collect();
    assert_eq!(build_image(&files, 0), Err(FatError::BootDirTooLarge));
}

#[test]
fn entry_sizes_in_bytes_and_bits() {
    assert_eq!(FatType::Fat16.entry_bytes(), 2);
    assert_eq!(FatType::Fat32.entry_bytes(), 4);
    assert_eq!(FatType::Fat12.entry_bytes(), 2);
    assert_eq!(FatType::Fat12.entry_bits(), 12);
    assert_eq!(FatType::Fat16.entry_bits(), 16);
    assert_eq!(FatType::Fat32.entry_bits(), 32);
}

fn bpb_clusters(b: &[u8]) -> (String, u64) {
    let reserved = u16::from_le_bytes([b[14], b[15]]) as u64;
    let root_entries = u16::from_le_bytes([b[17], b[18]]) as u64;
    let t16 = u16::from_le_bytes([b[19], b[20]]) as u64;
    let total = if t16 != 0 { t16 } else { u32::from_le_bytes(b[32..36].try_into().unwrap()) as u64 };
    let fs16 = u16::from_le_bytes([b[22], b[23]]) as u64;
    let fs = if fs16 != 0 { fs16 } else { u32::from_le_bytes(b[36..40].try_into().unwrap()) as u64 };
    let label = if fs16 != 0 { &b[54..62] } else { &b[82..90] };
    let data = total - reserved - 2 * fs - root_entries * 32 / 512;
    (String::from_utf8(label.to_vec()).unwrap(), data / b[13] as u64)
}

#[test]
fn fat16_never_has_fewer_than_4085_clusters() {
    // An estimate of 32720 sectors: FAT12 would need more than 4084
    // clusters, FAT16 alone would get fewer than 4085.
    let files = vec![FatFile { name: "BOOTX64.EFI".to_string(), data: vec![1u8; 16_601_088] }];
    let (img, _) = build_image(&files, 0).unwrap();
    let (label, clusters) = bpb_clusters(&img);
    assert_eq!(label, "FAT16   ");
    assert!((4085..=65524).contains(&clusters), "{clusters} clusters");
    assert_eq!(FatType::from_clusters(clusters as usize), FatType::Fat16);
    assert_eq!(read_fat_file(img, "EFI/BOOT/BOOTX64.EFI").len(), 16_601_088);
}

#[test]
fn fat32_never_has_fewer_than_65525_clusters() {
    // Too big for a FAT16 volume under 65536 sectors, too small for 65525
    // FAT32 clusters: the volume is grown.
    let files = vec![FatFile { name: "BOOTX64.EFI".to_string(), data: vec![2u8; 40 * 1024 * 1024] }];
    let (img, total) = build_image(&files, 0).unwrap();
    let (label, clusters) = bpb_clusters(&img);
    assert_eq!(label, "FAT32   ");
    assert!(clusters >= 65525, "{clusters} clusters");
    assert!(total <= 532480);
    assert_eq!(FatType::from_clusters(clusters as usize), FatType::Fat32);
    assert_eq!(read_fat_file(img, "EFI/BOOT/BOOTX64.EFI").len(), 40 * 1024 * 1024);
}

#[test]
fn sixteen_mib_stays_fat16_with_4124_clusters() {
    let files = vec![FatFile { name: "BOOTX64.EFI".to_string(), data: vec![0u8; 16 * 1024 * 1024] }];
    let (img, _) = build_image(&files, 0).unwrap();
    let (label, clusters) = bpb_clusters(&img);
    assert_eq!(label, "FAT16   ");
    assert_eq!(clusters, 4124);
}

#[test]
fn build_arguments_are_checked() {
    assert!(build_args_check(&vec![file("A.EFI", b"x")]));
    assert!(build_args_check(&Vec::new()));
    let long = "n".repeat(0x100_0001);
    assert!(!build_args_check(&vec![file(&long, b"x")]));
}
