use isobemak::iso::dir_record::IsoDirEntry;
use isobemak::iso::volume_descriptor::{
    update_total_sectors_in_pvd, write_primary_volume_descriptor, write_volume_descriptors,
};

const PVD_TOTAL_SEC: usize = 80;
const PVD_ROOT_DIR: usize = 156;

fn read_sector(file: &[u8], lba: u32) -> &[u8] {
    &file[lba as usize * 2048..(lba as usize + 1) * 2048]
}

fn root_entry() -> IsoDirEntry<'static> {
    IsoDirEntry { lba: 20, size: 2048, flags: 2, name: "." }
}

#[test]
fn test_pvd() {
    let mut f = Vec::new();
    let re = root_entry();
    write_primary_volume_descriptor(&mut f, None, 1000, &re);
    let s = read_sector(&f, 16);
    assert_eq!(s[0], 1);
    assert_eq!(&s[1..6], b"CD001");
    assert_eq!(&s[PVD_TOTAL_SEC..PVD_TOTAL_SEC + 4], &1000u32.to_le_bytes());
    let r = re.to_bytes();
    assert_eq!(&s[PVD_ROOT_DIR..PVD_ROOT_DIR + r.len()], &r[..]);
}

#[test]
fn test_update_pvd() {
    let mut f = Vec::new();
    let re = root_entry();
    write_primary_volume_descriptor(&mut f, None, 1000, &re);
    update_total_sectors_in_pvd(&mut f, 2500);
    let s = read_sector(&f, 16);
    assert_eq!(u32::from_le_bytes(s[PVD_TOTAL_SEC..PVD_TOTAL_SEC + 4].try_into().unwrap()), 2500);
    assert_eq!(u32::from_be_bytes(s[PVD_TOTAL_SEC + 4..PVD_TOTAL_SEC + 8].try_into().unwrap()), 2500);
}

#[test]
fn test_all_vds() {
    let mut f = Vec::new();
    let re = root_entry();
    write_volume_descriptors(&mut f, None, 1234, &re);
    assert_eq!(read_sector(&f, 16)[0], 1);
    assert_eq!(read_sector(&f, 17)[0], 0);
    assert_eq!(read_sector(&f, 18)[0], 255);
}

#[test]
fn volume_id_is_padded_or_cut_to_32_bytes() {
    let mut f = Vec::new();
    write_primary_volume_descriptor(&mut f, None, 1, &root_entry());
    assert_eq!(&f[16 * 2048 + 40..16 * 2048 + 72], b"ISOBEMAKI                       ");
    let long = "ABCDEFGHIJKLMNOPQRSTUVWXYZ0123456789";
    let mut g = Vec::new();
    write_primary_volume_descriptor(&mut g, Some(long), 1, &root_entry());
    assert_eq!(&g[16 * 2048 + 40..16 * 2048 + 72], &long.as_bytes()[..32]);
}

#[test]
fn boot_record_points_at_the_catalog() {
    let mut f = Vec::new();
    write_volume_descriptors(&mut f, None, 1, &root_entry());
    let s = read_sector(&f, 17);
    assert_eq!(&s[7..30], b"EL TORITO SPECIFICATION");
    assert_eq!(u32::from_le_bytes(s[71..75].try_into().unwrap()), 19);
    assert_eq!(f.len(), 19 * 2048);
}

#[test]
fn directory_records() {
    let file = IsoDirEntry { lba: 30, size: 5, flags: 0, name: "kernel" };
    let b = file.to_bytes();
    // 33 + "KERNEL;1" (8) = 41, padded to 42.
    assert_eq!(b.len(), 42);
    assert_eq!(b[0], 42);
    assert_eq!(&b[2..6], &30u32.to_le_bytes());
    assert_eq!(&b[6..10], &30u32.to_be_bytes());
    assert_eq!(&b[10..14], &5u32.to_le_bytes());
    assert_eq!(&b[14..18], &5u32.to_be_bytes());
    assert_eq!(b[25], 0);
    assert_eq!(&b[28..32], &[1, 0, 0, 1]);
    assert_eq!(b[32], 8);
    assert_eq!(&b[33..41], b"KERNEL;1");
    assert_eq!(b[41], 0);
    let dir = IsoDirEntry { lba: 31, size: 2048, flags: 2, name: "efi" };
    let d = dir.to_bytes();
    // 33 + "EFI" (3) = 36, even.
    assert_eq!(d.len(), 36);
    assert_eq!(d[25], 2);
    assert_eq!(d[32], 3);
    assert_eq!(&d[33..36], b"EFI");
    let dot = IsoDirEntry { lba: 20, size: 2048, flags: 2, name: "." }.to_bytes();
    assert_eq!(dot.len(), 34);
    assert_eq!(dot[0], 34);
    assert_eq!(&dot[2..6], &20u32.to_le_bytes());
    assert_eq!(&dot[6..10], &20u32.to_be_bytes());
    assert_eq!(&dot[10..14], &2048u32.to_le_bytes());
    assert_eq!(&dot[14..18], &2048u32.to_be_bytes());
    assert_eq!(dot[25], 2);
    assert_eq!(dot[32], 1);
    assert_eq!(dot[33], 0);
    let parent = IsoDirEntry { lba: 20, size: 2048, flags: 2, name: ".." };
    assert_eq!(parent.to_bytes()[33], 1);
    let long = "x".repeat(300);
    let too_long = IsoDirEntry { lba: 1, size: 1, flags: 2, name: &long };
    assert!(too_long.try_to_bytes().is_none());
    let longest = "y".repeat(221);
    assert_eq!(IsoDirEntry { lba: 1, size: 1, flags: 2, name: &longest }.to_bytes().len(), 254);
    let over = "y".repeat(222);
    assert!(IsoDirEntry { lba: 1, size: 1, flags: 2, name: &over }.try_to_bytes().is_none());
}
