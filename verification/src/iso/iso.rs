//! A fixed-layout UEFI ISO around a FAT boot image and a kernel: the
//! volume descriptors, the directories `/` (sector 20), `/EFI` (21) and
//! `/EFI/BOOT` (22), the FAT image as `BOOTX64.EFI` from sector 23 and the
//! kernel as `KERNEL.EFI` in the sectors after it.
use crate::bytes::{write_at, write_at_spec, zeros};
use crate::iso::dir_record::{file_id, record_bytes, IsoDirEntry};
use crate::iso::error::IsoError;
use crate::iso::iso_writer::{descriptors_image, finalize_iso, padded_image, padded_pos, with_total_sectors, write_descriptors};
use vstd::prelude::*;

verus! {

/// The record of the entry named `name`, where its identifier fits a
/// record.
pub open spec fn rec_of(lba: u32, size: u32, flags: u8, name: Seq<char>) -> Option<Seq<u8>> {
    let id = file_id(name, flags);
    if id.len() <= 221 { Some(record_bytes(lba, size, flags, id)) } else { None }
}

/// A directory sector holding the records `recs`, zero-padded.
pub open spec fn sector_of(recs: Seq<u8>) -> Seq<u8> {
    recs + zeros((2048 - recs.len()) as nat)
}

/// The sector after the FAT image of `fat_len` bytes, where the kernel
/// starts.
pub open spec fn kernel_lba(fat_len: int) -> int {
    23 + (fat_len + 2047) / 2048
}

/// The image of `create_iso_from_img` for the FAT image `fat` and the
/// kernel `kernel`, or why it cannot be built: too large for memory or
/// 32-bit sector numbers, or a name whose upper-case form does not fit a
/// record.
pub open spec fn img_iso_spec(fat: Seq<u8>, kernel: Seq<u8>) -> Result<Seq<u8>, IsoError> {
    let klba = kernel_lba(fat.len() as int);
    let end = klba * 2048 + kernel.len();
    if end > usize::MAX || padded_pos(end as u64) > usize::MAX || padded_pos(end as u64) / 2048 > u32::MAX {
        Err(IsoError::ImageTooLarge)
    } else {
        let efi = rec_of(21, 2048, 2, seq!['E', 'F', 'I']);
        let boot = rec_of(22, 2048, 2, seq!['B', 'O', 'O', 'T']);
        let bootx64 = rec_of(23, fat.len() as u32, 0, seq!['B', 'O', 'O', 'T', 'X', '6', '4', '.', 'E', 'F', 'I']);
        let kern = rec_of(klba as u32, kernel.len() as u32, 0, seq!['K', 'E', 'R', 'N', 'E', 'L', '.', 'E', 'F', 'I']);
        if efi is None || boot is None || bootx64 is None || kern is None {
            Err(IsoError::NameTooLong)
        } else {
            let img3 = layout_prefix(efi->0, boot->0, bootx64->0, kern->0);
            let img4 = write_at_spec(img3, 47104, fat);
            let img5 = write_at_spec(img4, klba * 2048, kernel);
            Ok(with_total_sectors(padded_image(img5, end as u64), (padded_pos(end as u64) / 2048) as u32))
        }
    }
}

/// The descriptors (root at sector 20, volume size 0 until the end) and
/// the three directory sectors, given the records of `EFI`, `BOOT`,
/// `BOOTX64.EFI` and `KERNEL.EFI`.
#[verifier::opaque]
pub open spec fn layout_prefix(efi: Seq<u8>, boot: Seq<u8>, bootx64: Seq<u8>, kern: Seq<u8>) -> Seq<u8> {
    let dot = |lba: u32| record_bytes(lba, 2048, 2, seq![0u8]);
    let dotdot = |lba: u32| record_bytes(lba, 2048, 2, seq![1u8]);
    let img0 = descriptors_image(Seq::empty(), None, 20, 0);
    let img1 = write_at_spec(img0, 40960, sector_of(dot(20) + dotdot(20) + efi));
    let img2 = write_at_spec(img1, 43008, sector_of(dot(21) + dotdot(20) + boot));
    write_at_spec(img2, 45056, sector_of(dot(22) + dotdot(21) + bootx64 + kern))
}

/// Writes the descriptors and the directory sectors of `layout_prefix`.
fn write_prefix(efi_r: Vec<u8>, boot_r: Vec<u8>, bootx64_r: Vec<u8>, kern_r: Vec<u8>) -> (r: Vec<u8>)
    requires
        efi_r@.len() <= 256,
        boot_r@.len() <= 256,
        bootx64_r@.len() <= 256,
        kern_r@.len() <= 256,
    ensures
        r@ == layout_prefix(efi_r@, boot_r@, bootx64_r@, kern_r@),
{
    reveal(layout_prefix);
    let ghost (e, b, x, k) = (efi_r@, boot_r@, bootx64_r@, kern_r@);
    let dot20 = IsoDirEntry { lba: 20, size: 2048, flags: 2, name: "." };
    let dot21 = IsoDirEntry { lba: 21, size: 2048, flags: 2, name: "." };
    let dot22 = IsoDirEntry { lba: 22, size: 2048, flags: 2, name: "." };
    let up20 = IsoDirEntry { lba: 20, size: 2048, flags: 2, name: ".." };
    let up21 = IsoDirEntry { lba: 21, size: 2048, flags: 2, name: ".." };
    proof {
        reveal_strlit(".");
        reveal_strlit("..");
        assert(dot20.name@ =~= seq!['.']);
        assert(up20.name@ =~= seq!['.', '.']);
    }
    let mut iso: Vec<u8> = Vec::new();
    write_descriptors(&mut iso, None, 20, 0);
    let mut root = dot20.to_bytes();
    append_bytes(&mut root, up20.to_bytes());
    append_bytes(&mut root, efi_r);
    let root_s = sector_from(root);
    write_at(&mut iso, 40960, root_s.as_slice());
    let mut efi = dot21.to_bytes();
    append_bytes(&mut efi, up20.to_bytes());
    append_bytes(&mut efi, boot_r);
    let efi_s = sector_from(efi);
    write_at(&mut iso, 43008, efi_s.as_slice());
    let mut boot = dot22.to_bytes();
    append_bytes(&mut boot, up21.to_bytes());
    append_bytes(&mut boot, bootx64_r);
    append_bytes(&mut boot, kern_r);
    let boot_s = sector_from(boot);
    write_at(&mut iso, 45056, boot_s.as_slice());
    iso
}

/// The record of `e`, or `NameTooLong` where its identifier does not fit.
fn record_of(e: &IsoDirEntry) -> (r: Result<Vec<u8>, IsoError>)
    ensures
        match rec_of(e.lba, e.size, e.flags, e.name@) {
            Some(b) => r is Ok && r->Ok_0@ == b,
            None => r == Err::<Vec<u8>, IsoError>(IsoError::NameTooLong),
        },
        r is Ok ==> r->Ok_0@.len() <= 256,
{
    match e.try_to_bytes() {
        Some(b) => Ok(b),
        None => Err(IsoError::NameTooLong),
    }
}

/// Appends the records `b` to `v`.
fn append_bytes(v: &mut Vec<u8>, b: Vec<u8>)
    ensures
        final(v)@ == old(v)@ + b@,
{
    let mut b = b;
    v.append(&mut b);
}

/// A directory sector of records (at most 2048 bytes), zero-padded.
fn sector_from(recs: Vec<u8>) -> (r: Vec<u8>)
    requires
        recs@.len() <= 2048,
    ensures
        r@ == sector_of(recs@),
{
    let mut s = recs;
    let n = 2048 - s.len();
    crate::bytes::push_zeros(&mut s, n);
    s
}

/// The ISO around the FAT boot image `fat_img` and the kernel `kernel`
/// (see `img_iso_spec`): the descriptors with the root at sector 20, the
/// three directory sectors, the FAT image from sector 23 as
/// `BOOTX64.EFI`, the kernel from the next free sector as `KERNEL.EFI`,
/// padded to a whole sector with that size recorded as the volume size.
pub fn create_iso_from_img(fat_img: &Vec<u8>, kernel: &Vec<u8>) -> (r: Result<Vec<u8>, IsoError>)
    requires
        fat_img@.len() <= u32::MAX,
        kernel@.len() <= u32::MAX,
    ensures
        match img_iso_spec(fat_img@, kernel@) {
            Ok(s) => r is Ok && r->Ok_0@ == s,
            Err(e) => r == Err::<Vec<u8>, IsoError>(e),
        },
{
    let fat_len = fat_img.len() as u64;
    let klba: u64 = 23 + fat_len / 2048 + if fat_len % 2048 != 0 {
        1
    } else {
        0
    };
    assert(klba == kernel_lba(fat_len as int)) by (nonlinear_arith)
        requires
            klba == 23 + fat_len / 2048 + if fat_len % 2048 != 0 { 1int } else { 0 },
    {
        let q = fat_len / 2048;
        let m = fat_len % 2048;
        assert(fat_len == q * 2048 + m && 0 <= m < 2048);
    }
    let end = klba * 2048 + kernel.len() as u64;
    if end > usize::MAX as u64 {
        return Err(IsoError::ImageTooLarge);
    }
    let padded = if end % 2048 == 0 {
        end
    } else {
        end + 2048 - end % 2048
    };
    if padded > usize::MAX as u64 || padded / 2048 > 0xFFFF_FFFF {
        return Err(IsoError::ImageTooLarge);
    }
    let efi_e = IsoDirEntry { lba: 21, size: 2048, flags: 2, name: "EFI" };
    let boot_e = IsoDirEntry { lba: 22, size: 2048, flags: 2, name: "BOOT" };
    let bootx64_e = IsoDirEntry { lba: 23, size: fat_len as u32, flags: 0, name: "BOOTX64.EFI" };
    let kern_e = IsoDirEntry { lba: klba as u32, size: kernel.len() as u32, flags: 0, name: "KERNEL.EFI" };
    proof {
        reveal_strlit("EFI");
        reveal_strlit("BOOT");
        reveal_strlit("BOOTX64.EFI");
        reveal_strlit("KERNEL.EFI");
        assert(efi_e.name@ =~= seq!['E', 'F', 'I']);
        assert(boot_e.name@ =~= seq!['B', 'O', 'O', 'T']);
        assert(bootx64_e.name@ =~= seq!['B', 'O', 'O', 'T', 'X', '6', '4', '.', 'E', 'F', 'I']);
        assert(kern_e.name@ =~= seq!['K', 'E', 'R', 'N', 'E', 'L', '.', 'E', 'F', 'I']);
    }
    let efi_r = match record_of(&efi_e) {
        Ok(b) => b,
        Err(e) => return Err(e),
    };
    let boot_r = match record_of(&boot_e) {
        Ok(b) => b,
        Err(e) => return Err(e),
    };
    let bootx64_r = match record_of(&bootx64_e) {
        Ok(b) => b,
        Err(e) => return Err(e),
    };
    let kern_r = match record_of(&kern_e) {
        Ok(b) => b,
        Err(e) => return Err(e),
    };
    let mut iso = write_prefix(efi_r, boot_r, bootx64_r, kern_r);
    write_at(&mut iso, 47104, fat_img.as_slice());
    write_at(&mut iso, (klba as usize) * 2048, kernel.as_slice());
    let mut pos: u64 = end;
    let mut total: u32 = 0;
    match finalize_iso(&mut iso, &mut pos, &mut total) {
        Ok(()) => {},
        Err(e) => return Err(e),
    }
    Ok(iso)
}

} // verus!
