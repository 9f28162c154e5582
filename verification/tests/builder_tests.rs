use isobemak::iso::boot_info::{BiosBootInfo, BootInfo, UefiBootInfo};
use isobemak::iso::builder::IsoBuilder;
use isobemak::iso::builder_utils::{
    calculate_lbas, ensure_directory_path, get_file_size_in_iso, get_lba_for_path, path_components,
};
use isobemak::iso::fs_node::{IsoDirectory, IsoFile, IsoFsNode};
use isobemak::iso::iso_writer::list_files;
use isobemak::iso::error::IsoError;
use std::path::PathBuf;

#[test]
fn test_add_file() {
    let mut builder = IsoBuilder::new();
    let tp = PathBuf::from("/tmp/source");
    builder.add_file("root.txt", tp.clone(), 0).unwrap();
    assert!(builder.root().contains_key("root.txt"));
    builder.add_file("dir1/nested.txt", tp, 0).unwrap();
    match builder.root().get("dir1") {
        Some(IsoFsNode::Directory(d)) => assert!(d.contains_key("nested.txt")),
        _ => panic!(),
    };
}

#[test]
fn test_calculate_lbas() {
    let mut root = IsoDirectory::new();
    let mut lba = 20;
    let mut subdir = IsoDirectory::new();
    subdir.insert("file2.txt".into(), IsoFsNode::File(IsoFile { path: PathBuf::new(), size: 3000, lba: 0 }));
    root.insert("file1.txt".into(), IsoFsNode::File(IsoFile { path: PathBuf::new(), size: 1000, lba: 0 }));
    root.insert("subdir".into(), IsoFsNode::Directory(subdir));
    calculate_lbas(&mut lba, &mut root).unwrap();
    assert_eq!(root.lba, 20);
    assert_eq!(
        root.get("file1.txt").and_then(|n| if let IsoFsNode::File(f) = n { Some(f.lba) } else { None }),
        Some(21)
    );
    let (sl, fl) = match root.get("subdir") {
        Some(IsoFsNode::Directory(d)) => (
            d.lba,
            d.get("file2.txt").and_then(|n| if let IsoFsNode::File(f) = n { Some(f.lba) } else { None }),
        ),
        _ => panic!(),
    };
    assert_eq!(sl, 22);
    assert_eq!(fl, Some(23));
    assert_eq!(lba, 25);
}

#[test]
fn test_get_path_helpers() {
    let mut builder = IsoBuilder::new();
    let tp = PathBuf::from("/tmp/source");
    builder.add_file("A/B/C.txt", tp, 9).unwrap();
    builder.assign_lbas(20).unwrap();
    assert_eq!(get_lba_for_path(builder.root(), "A/B/C.txt").unwrap(), 23);
    assert_eq!(get_file_size_in_iso(builder.root(), "A/B/C.txt").unwrap(), 9);
    assert!(get_lba_for_path(builder.root(), "A/D.txt").is_err());
}

#[test]
fn path_components_follow_std() {
    let cases = ["a/b/c", "a//b/./c/", "./a", "/x/y", "", ".", "a/..", "/"];
    for p in cases {
        let expected: Vec<String> = std::path::Path::new(p)
            .components()
            .map(|c| c.as_os_str().to_str().unwrap().to_string())
            .collect();
        assert_eq!(path_components(p), expected, "path {p:?}");
    }
}

#[test]
fn children_are_kept_in_name_order_and_replaced_by_name() {
    let mut d = IsoDirectory::new();
    for name in ["b", "a", "c", "B"] {
        d.insert(name.into(), IsoFsNode::File(IsoFile { path: PathBuf::new(), size: 1, lba: 0 }));
    }
    let names: Vec<&str> = d.children.iter().map(|(n, _)| n.as_str()).collect();
    assert_eq!(names, vec!["B", "a", "b", "c"]);
    d.insert("a".into(), IsoFsNode::File(IsoFile { path: PathBuf::new(), size: 7, lba: 0 }));
    assert_eq!(d.children.len(), 4);
    assert_eq!(d.get("a").map(|n| n.size()), Some(7));
}

#[test]
fn a_file_in_the_way_of_a_directory_is_an_error() {
    let mut b = IsoBuilder::new();
    b.add_file("a", PathBuf::new(), 1).unwrap();
    assert!(b.add_file("a/b", PathBuf::new(), 1).is_err());
    assert!(b.add_file("..", PathBuf::new(), 1).is_err());
    let mut root = IsoDirectory::new();
    root.insert("f".into(), IsoFsNode::File(IsoFile { path: PathBuf::new(), size: 1, lba: 0 }));
    assert!(ensure_directory_path(&mut root, "f/x/y").is_err());
    assert!(ensure_directory_path(&mut root, "d/x/y").is_ok());
    assert!(matches!(root.get("d"), Some(IsoFsNode::Directory(_))));
}

fn files_data(b: &IsoBuilder) -> Vec<Vec<u8>> {
    list_files(b.root()).iter().map(|f| vec![0x5Au8; f.size as usize]).collect()
}

#[test]
fn a_bios_and_uefi_image_end_to_end() {
    let mut b = IsoBuilder::new();
    b.add_file("isolinux/isolinux.cfg", PathBuf::from("cfg"), 1024).unwrap();
    b.add_file("kernel", PathBuf::from("kernel"), 16 * 1024).unwrap();
    b.add_file("EFI/BOOT/BOOTX64.EFI", PathBuf::from("efi"), 64 * 1024).unwrap();
    b.add_file("isolinux/isolinux.bin", PathBuf::from("bin"), 256 * 1024).unwrap();
    b.set_boot_info(BootInfo {
        bios_boot: Some(BiosBootInfo {
            boot_image: PathBuf::from("bin"),
            destination_in_iso: "isolinux/isolinux.bin".to_string(),
        }),
        uefi_boot: Some(UefiBootInfo {
            boot_image: PathBuf::from("efi"),
            kernel_image: PathBuf::from("kernel"),
            destination_in_iso: "EFI/BOOT/BOOTX64.EFI".to_string(),
            additional_efi_boot_files: Vec::new(),
            grub_cfg_content: None,
        }),
    });
    b.prepare_layout(None, None).unwrap();
    let data = files_data(&b);
    let mut iso = Vec::new();
    let total = b.write_image(&mut iso, None, &data).unwrap();
    assert_eq!(iso.len(), total as usize * 2048);
    // Descriptors.
    assert_eq!(&iso[16 * 2048 + 1..16 * 2048 + 6], b"CD001");
    assert_eq!(u32::from_le_bytes(iso[16 * 2048 + 80..16 * 2048 + 84].try_into().unwrap()), total);
    // Catalog: BIOS entry first, then the UEFI section.
    let cat = &iso[19 * 2048..20 * 2048];
    assert_eq!(cat[32], 0x88);
    assert_eq!(cat[36], 0);
    let bios_lba = u32::from_le_bytes(cat[40..44].try_into().unwrap());
    assert_eq!(bios_lba, get_lba_for_path(b.root(), "isolinux/isolinux.bin").unwrap());
    assert_eq!(u16::from_le_bytes([cat[38], cat[39]]), 512);
    assert_eq!(cat[64], 0x91);
    assert_eq!(cat[96], 0x88);
    assert_eq!(cat[100], 0xEF);
    // Boot information table of the BIOS image.
    let base = bios_lba as usize * 2048;
    assert_eq!(u32::from_le_bytes(iso[base + 8..base + 12].try_into().unwrap()), 16);
    assert_eq!(u32::from_le_bytes(iso[base + 12..base + 16].try_into().unwrap()), bios_lba);
    // The root directory sector lists ".", "..", then children by name.
    let root = &iso[20 * 2048..21 * 2048];
    assert_eq!(root[0], 34);
    assert_eq!(root[32], 1);
    assert_eq!(root[33], 0);
    assert_eq!(root[34 + 33], 1);
    assert_eq!(root[68 + 32], 3);
    assert_eq!(&root[68 + 33..68 + 36], b"EFI");
    assert_eq!(&root[68 + 2..68 + 6], &root[68 + 10 - 4..68 + 10].iter().rev().copied().collect::<Vec<u8>>()[..]);
}

#[test]
fn a_hybrid_image_gets_an_mbr_and_a_gpt() {
    let mut b = IsoBuilder::new();
    b.set_isohybrid(true);
    b.add_file("boot/efiboot.img", PathBuf::from("esp"), 4 * 2048).unwrap();
    b.add_file("kernel", PathBuf::from("kernel"), 100).unwrap();
    b.set_efi_boot_image_path("boot/efiboot.img".to_string());
    b.set_boot_info(BootInfo { bios_boot: None, uefi_boot: None });
    b.prepare_layout(None, None).unwrap();
    let data = files_data(&b);
    let mut iso = Vec::new();
    let total = b.write_image(&mut iso, None, &data).unwrap();
    assert_eq!(iso.len(), total as usize * 2048);
    // The volume size recorded in the primary descriptor counts the GPT too.
    assert_eq!(u32::from_le_bytes(iso[16 * 2048 + 80..16 * 2048 + 84].try_into().unwrap()), total);
    assert_eq!(u32::from_be_bytes(iso[16 * 2048 + 84..16 * 2048 + 88].try_into().unwrap()), total);
    assert_eq!(u16::from_le_bytes([iso[510], iso[511]]), 0xAA55);
    assert_eq!(iso[446 + 4], 0xEE);
    assert_eq!(iso[462 + 4], 0xEF);
    assert_eq!(&iso[512..520], b"EFI PART");
    // The catalog's UEFI-only default entry points at the ESP image.
    let esp_lba = get_lba_for_path(b.root(), "boot/efiboot.img").unwrap();
    let cat = &iso[19 * 2048..20 * 2048];
    assert_eq!(cat[32], 0x88);
    assert_eq!(cat[33], 0);
    assert_eq!(cat[36], 0xEF);
    assert_eq!(u16::from_le_bytes([cat[38], cat[39]]), 0);
    assert_eq!(u32::from_le_bytes(cat[40..44].try_into().unwrap()), esp_lba);
    // A single entry: nothing follows it.
    assert!(cat[64..].iter().all(|&b| b == 0));
    // The GPT stores the partition type GUIDs in mixed-endian order.
    let entries = &iso[1024..1024 + 256];
    assert_eq!(
        &entries[0..16],
        &[0xA2, 0xA0, 0xD0, 0xEB, 0xE5, 0xB9, 0x33, 0x44, 0x87, 0xC0, 0x68, 0xB6, 0xB7, 0x26, 0x99, 0xC7]
    );
    assert_eq!(
        &entries[128..144],
        &[0x28, 0x73, 0x2A, 0xC1, 0x1F, 0xF8, 0xD2, 0x11, 0xBA, 0x4B, 0x00, 0xA0, 0xC9, 0x3E, 0xC9, 0x3B]
    );
    assert_eq!(u32::from_le_bytes(iso[462 + 8..462 + 12].try_into().unwrap()), esp_lba * 4);
}

#[test]
fn builder_errors() {
    // A directory where a file is expected.
    let mut b = IsoBuilder::new();
    b.add_file("d/f", PathBuf::new(), 1).unwrap();
    assert_eq!(get_lba_for_path(b.root(), "d"), Err(IsoError::IsDirectory));
    // A tree past the last sector number.
    assert_eq!(b.assign_lbas(u32::MAX - 1), Err(IsoError::ImageTooLarge));
    // The ESP location without its size.
    let mut c = IsoBuilder::new();
    c.add_file("k", PathBuf::new(), 1).unwrap();
    c.prepare_layout(Some(5), None).unwrap();
    let data = files_data(&c);
    assert_eq!(c.write_image(&mut Vec::new(), None, &data), Err(IsoError::InvalidEspConfig));
}

#[test]
fn boot_image_too_large_for_the_catalog() {
    let mut b = IsoBuilder::new();
    b.add_file("isolinux.bin", PathBuf::new(), 40 * 1024 * 1024).unwrap();
    b.set_boot_info(BootInfo {
        bios_boot: Some(BiosBootInfo { boot_image: PathBuf::new(), destination_in_iso: "isolinux.bin".to_string() }),
        uefi_boot: None,
    });
    b.prepare_layout(None, None).unwrap();
    let data: Vec<Vec<u8>> = vec![Vec::new()];
    assert_eq!(b.write_image(&mut Vec::new(), None, &data), Err(IsoError::BootImageTooLarge));
}

#[test]
fn directory_record_limits() {
    // A file over 4 GiB cannot be recorded.
    let mut b = IsoBuilder::new();
    b.add_file("huge", PathBuf::new(), 5 * 1024 * 1024 * 1024).unwrap();
    b.prepare_layout(None, None).unwrap();
    assert_eq!(b.write_image(&mut Vec::new(), None, &vec![Vec::new()]), Err(IsoError::FileTooLarge));
    // A name too long for a record.
    let mut c = IsoBuilder::new();
    c.add_file(&"n".repeat(230), PathBuf::new(), 1).unwrap();
    c.prepare_layout(None, None).unwrap();
    assert_eq!(c.write_image(&mut Vec::new(), None, &vec![Vec::new()]), Err(IsoError::NameTooLong));
    // More records than one sector holds.
    let mut d = IsoBuilder::new();
    for i in 0..100 {
        d.add_file(&format!("file_number_{i:03}.txt"), PathBuf::new(), 1).unwrap();
    }
    d.prepare_layout(None, None).unwrap();
    let data = vec![Vec::new(); 100];
    assert_eq!(d.write_image(&mut Vec::new(), None, &data), Err(IsoError::DirectoryTooLarge));
}

fn shape(d: &IsoDirectory) -> String {
    let mut out = String::from("(");
    for (name, node) in &d.children {
        out.push_str(name);
        match node {
            IsoFsNode::Directory(sub) => out.push_str(&shape(sub)),
            IsoFsNode::File(_) => out.push_str(";f"),
        }
        out.push(',');
    }
    out.push(')');
    out
}

#[test]
fn ensuring_a_directory_path_twice_changes_nothing() {
    let mut root = IsoDirectory::new();
    ensure_directory_path(&mut root, "a/b/c/file").unwrap();
    let once = shape(&root);
    assert_eq!(once, "(a(b(c(),),),)");
    ensure_directory_path(&mut root, "a/b/c/file").unwrap();
    assert_eq!(shape(&root), once);
}
