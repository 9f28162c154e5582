//! A fixed-layout UEFI ISO around one boot image: the volume descriptors,
//! a one-entry El Torito catalog, the directories `/`, `/EFI` and
//! `/EFI/BOOT`, and the image itself as `/EFI/BOOT/BOOTX64.EFI` from
//! sector 23 on.
use crate::bytes::{be16, be32, le16, le32, push_be16, push_be32, push_le16, push_le32, push_slice, push_zeros, zeros};
use crate::iso::boot_catalog::{el_torito_id, push_el_torito_id};
use crate::iso::volume_descriptor::{brvd_image, cd001, terminator_image};
use vstd::prelude::*;

verus! {

/// The sector of the root directory.
pub const FIXED_ROOT_LBA: u32 = 20;
/// The sector of `/EFI`.
pub const FIXED_EFI_LBA: u32 = 21;
/// The sector of `/EFI/BOOT`.
pub const FIXED_BOOT_DIR_LBA: u32 = 22;
/// The first sector of the boot image.
pub const FIXED_BOOT_IMG_LBA: u32 = 23;

/// A directory record of this layout: its length (33 plus the identifier,
/// plus one where the identifier's length is odd), extent and data length
/// both-endian, a zero date, the flags, volume sequence number 1
/// both-endian, the identifier's length and the identifier.
pub open spec fn fixed_record(lba: u32, len: u32, flags: u8, id: Seq<u8>) -> Seq<u8> {
    let pad = id.len() % 2;
    seq![(33 + id.len() + pad) as u8, 0] + le32(lba) + be32(lba) + le32(len) + be32(len) + zeros(7) + seq![
        flags,
        0,
        0,
    ] + le16(1) + be16(1) + seq![id.len() as u8] + id + zeros(pad)
}

/// "EFI".
pub open spec fn efi_id() -> Seq<u8> {
    seq![0x45u8, 0x46, 0x49]
}

/// "BOOT".
pub open spec fn boot_id() -> Seq<u8> {
    seq![0x42u8, 0x4F, 0x4F, 0x54]
}

/// "BOOT.CATALOG".
pub open spec fn catalog_id() -> Seq<u8> {
    seq![0x42u8, 0x4F, 0x4F, 0x54, 0x2E, 0x43, 0x41, 0x54, 0x41, 0x4C, 0x4F, 0x47]
}

/// "BOOTX64.EFI".
pub open spec fn bootx64_id() -> Seq<u8> {
    seq![0x42u8, 0x4F, 0x4F, 0x54, 0x58, 0x36, 0x34, 0x2E, 0x45, 0x46, 0x49]
}

/// A directory sector: the records, then zeros to 2048 bytes.
pub open spec fn fixed_dir_sector(records: Seq<u8>) -> Seq<u8> {
    records + zeros((2048 - records.len()) as nat)
}

/// The root directory: ".", "..", `EFI` and the catalog file.
pub open spec fn fixed_root_dir() -> Seq<u8> {
    fixed_dir_sector(
        fixed_record(20, 2048, 2, seq![0u8]) + fixed_record(20, 2048, 2, seq![1u8]) + fixed_record(
            21,
            2048,
            2,
            efi_id(),
        ) + fixed_record(19, 2048, 0, catalog_id()),
    )
}

/// `/EFI`: ".", ".." and `BOOT`.
pub open spec fn fixed_efi_dir() -> Seq<u8> {
    fixed_dir_sector(
        fixed_record(21, 2048, 2, seq![0u8]) + fixed_record(20, 2048, 2, seq![1u8]) + fixed_record(
            22,
            2048,
            2,
            boot_id(),
        ),
    )
}

/// `/EFI/BOOT`: ".", ".." and the boot image of `len` bytes.
pub open spec fn fixed_boot_dir(len: u32) -> Seq<u8> {
    fixed_dir_sector(
        fixed_record(22, 2048, 2, seq![0u8]) + fixed_record(21, 2048, 2, seq![1u8]) + fixed_record(
            23,
            len,
            0,
            bootx64_id(),
        ),
    )
}

/// The root directory record of the primary descriptor: sector 20, one
/// sector long, a directory, identifier 0.
pub open spec fn fixed_root_record() -> Seq<u8> {
    seq![34u8, 0] + le32(20) + be32(20) + le32(2048) + be32(2048) + zeros(7) + seq![2u8] + zeros(6) + seq![1u8, 0]
}

/// The primary volume descriptor of a volume of `total` sectors, named
/// "ISOBEMAKI".
pub open spec fn fixed_pvd(total: u32) -> Seq<u8> {
    fixed_pvd_head() + le32(total) + be32(total) + fixed_pvd_fields() + fixed_root_record() + zeros(1858)
}

/// The validation entry of the catalog: header 1, platform 0xEF, ID
/// "UEFI", the checksum of its first 16 bytes and the 0x55AA signature.
pub open spec fn fixed_validation() -> Seq<u8> {
    seq![1u8, 0xEF, 0, 0, 0x55, 0x45, 0x46, 0x49] + zeros(20) + seq![0x64u8, 0x82, 0x55, 0xAA]
}

/// The catalog: the validation entry and one bootable no-emulation entry
/// loading `sectors` 512-byte sectors from sector 23.
pub open spec fn fixed_catalog(sectors: u16) -> Seq<u8> {
    fixed_validation() + seq![0x88u8, 0, 0, 0, 0, 0] + le16(sectors) + le32(23) + zeros(20) + zeros(1984)
}

/// The sectors the image of `len` bytes ends at: 23 plus its sectors.
pub open spec fn fixed_total(len: int) -> int {
    23 + (len + 2047) / 2048
}

/// The whole image around the boot image `img`: 16 zero sectors, the
/// descriptors (sectors 16 to 18), the catalog (19), the directories (20
/// to 22), the boot image from sector 23, and zeros to a whole sector.
pub open spec fn fixed_iso(img: Seq<u8>) -> Seq<u8> {
    let total = fixed_total(img.len() as int);
    zeros(32768) + fixed_pvd(total as u32) + brvd_image() + terminator_image() + fixed_catalog(
        ((img.len() + 511) / 512) as u16,
    ) + fixed_root_dir() + fixed_efi_dir() + fixed_boot_dir(img.len() as u32) + img + zeros(
        (total * 2048 - 47104 - img.len()) as nat,
    )
}

fn push_record(v: &mut Vec<u8>, lba: u32, len: u32, flags: u8, id: &[u8])
    requires
        id@.len() <= 200,
    ensures
        final(v)@ == old(v)@ + fixed_record(lba, len, flags, id@),
{
    let ghost start = v@;
    let pad = id.len() % 2;
    v.push((33 + id.len() + pad) as u8);
    v.push(0);
    push_le32(v, lba);
    push_be32(v, lba);
    push_le32(v, len);
    push_be32(v, len);
    push_zeros(v, 7);
    v.push(flags);
    v.push(0);
    v.push(0);
    push_le16(v, 1);
    push_be16(v, 1);
    v.push(id.len() as u8);
    push_slice(v, id);
    push_zeros(v, pad);
    assert(v@ =~= start + fixed_record(lba, len, flags, id@));
}

fn push_cd001(v: &mut Vec<u8>)
    ensures
        final(v)@ == old(v)@ + cd001(),
{
    let id: [u8; 5] = [0x43, 0x44, 0x30, 0x30, 0x31];
    assert(id@ =~= cd001());
    push_slice(v, &id);
}

fn push_root_record(v: &mut Vec<u8>)
    ensures
        final(v)@ == old(v)@ + fixed_root_record(),
{
    let ghost start = v@;
    v.push(34);
    v.push(0);
    push_le32(v, 20);
    push_be32(v, 20);
    push_le32(v, 2048);
    push_be32(v, 2048);
    push_zeros(v, 7);
    v.push(2);
    push_zeros(v, 6);
    v.push(1);
    v.push(0);
    assert(v@ =~= start + fixed_root_record());
}

/// The start of the primary descriptor, up to the volume size.
pub open spec fn fixed_pvd_head() -> Seq<u8> {
    seq![1u8] + cd001() + seq![1u8] + zeros(33) + seq![0x49u8, 0x53, 0x4F, 0x42, 0x45, 0x4D, 0x41, 0x4B, 0x49]
        + Seq::new(23, |i: int| 0x20u8) + zeros(8)
}

/// The fields of the primary descriptor after the volume size, up to the
/// root record.
pub open spec fn fixed_pvd_fields() -> Seq<u8> {
    zeros(32) + le16(1) + be16(1) + le16(1) + be16(1) + le16(2048) + be16(2048) + le32(0) + be32(0) + zeros(16)
}

fn push_pvd_head(v: &mut Vec<u8>)
    ensures
        final(v)@ == old(v)@ + fixed_pvd_head(),
{
    let ghost start = v@;
    v.push(1);
    push_cd001(v);
    v.push(1);
    push_zeros(v, 33);
    let name: [u8; 9] = [0x49, 0x53, 0x4F, 0x42, 0x45, 0x4D, 0x41, 0x4B, 0x49];
    push_slice(v, &name);
    let ghost before_spaces = v@;
    let mut k: usize = 0;
    while k < 23
        invariant
            k <= 23,
            v@ == before_spaces + Seq::new(k as nat, |i: int| 0x20u8),
        decreases 23 - k,
    {
        v.push(0x20);
        k = k + 1;
        assert(v@ =~= before_spaces + Seq::new(k as nat, |i: int| 0x20u8));
    }
    push_zeros(v, 8);
    assert(name@ =~= seq![0x49u8, 0x53, 0x4F, 0x42, 0x45, 0x4D, 0x41, 0x4B, 0x49]);
    assert(v@ =~= start + fixed_pvd_head());
}

fn push_pvd_fields(v: &mut Vec<u8>)
    ensures
        final(v)@ == old(v)@ + fixed_pvd_fields(),
{
    let ghost start = v@;
    push_zeros(v, 32);
    push_le16(v, 1);
    push_be16(v, 1);
    push_le16(v, 1);
    push_be16(v, 1);
    push_le16(v, 2048);
    push_be16(v, 2048);
    push_le32(v, 0);
    push_be32(v, 0);
    push_zeros(v, 16);
    assert(v@ =~= start + fixed_pvd_fields());
}

fn push_pvd(v: &mut Vec<u8>, total: u32)
    ensures
        final(v)@ == old(v)@ + fixed_pvd(total),
{
    let ghost start = v@;
    push_pvd_head(v);
    push_le32(v, total);
    push_be32(v, total);
    push_pvd_fields(v);
    push_root_record(v);
    push_zeros(v, 1858);
    assert(v@ =~= start + fixed_pvd(total));
}

fn push_brvd(v: &mut Vec<u8>)
    ensures
        final(v)@ == old(v)@ + brvd_image(),
{
    let ghost start = v@;
    v.push(0);
    push_cd001(v);
    v.push(1);
    push_el_torito_id(v);
    push_zeros(v, 41);
    push_le32(v, 19);
    push_zeros(v, 1973);
    assert(v@ =~= start + brvd_image());
}

fn push_terminator(v: &mut Vec<u8>)
    ensures
        final(v)@ == old(v)@ + terminator_image(),
{
    let ghost start = v@;
    v.push(255);
    push_cd001(v);
    v.push(1);
    push_zeros(v, 2041);
    assert(v@ =~= start + terminator_image());
}

fn push_catalog(v: &mut Vec<u8>, sectors: u16)
    ensures
        final(v)@ == old(v)@ + fixed_catalog(sectors),
{
    let ghost start = v@;
    let head: [u8; 8] = [1, 0xEF, 0, 0, 0x55, 0x45, 0x46, 0x49];
    push_slice(v, &head);
    push_zeros(v, 20);
    let tail: [u8; 4] = [0x64, 0x82, 0x55, 0xAA];
    push_slice(v, &tail);
    let entry: [u8; 6] = [0x88, 0, 0, 0, 0, 0];
    push_slice(v, &entry);
    push_le16(v, sectors);
    push_le32(v, 23);
    push_zeros(v, 20);
    push_zeros(v, 1984);
    assert(head@ =~= seq![1u8, 0xEF, 0, 0, 0x55, 0x45, 0x46, 0x49]);
    assert(tail@ =~= seq![0x64u8, 0x82, 0x55, 0xAA]);
    assert(entry@ =~= seq![0x88u8, 0, 0, 0, 0, 0]);
    assert(v@ =~= start + fixed_catalog(sectors));
}

/// Pads the records of a directory sector (fewer than 2048 bytes) to a
/// whole sector and appends it.
fn push_dir_sector(v: &mut Vec<u8>, records: &Vec<u8>)
    requires
        records@.len() <= 2048,
    ensures
        final(v)@ == old(v)@ + fixed_dir_sector(records@),
{
    push_slice(v, records.as_slice());
    push_zeros(v, 2048 - records.len());
}

/// The image around the boot image `boot_img`: see `fixed_iso`. The boot
/// catalog asks firmware to load the image's size in 512-byte sectors,
/// kept to 16 bits as the catalog field holds them.
pub fn create_iso_from_img(boot_img: &Vec<u8>) -> (r: Vec<u8>)
    requires
        boot_img@.len() + 511 <= u32::MAX,
        fixed_total(boot_img@.len() as int) * 2048 <= usize::MAX,
    ensures
        r@ == fixed_iso(boot_img@),
        r@.len() == fixed_total(boot_img@.len() as int) * 2048,
{
    let len = boot_img.len();
    let sectors = ((len as u32 + 511) / 512) as u16;
    let total: u32 = 23 + ((len as u32) / 2048 + if (len as u32) % 2048 != 0 {
        1
    } else {
        0
    });
    assert(total == fixed_total(len as int)) by (nonlinear_arith)
        requires
            total == 23 + (len / 2048 + if len % 2048 != 0 { 1int } else { 0 }),
            0 <= len,
    {
        let q = len / 2048;
        let r = len % 2048;
        assert(len == q * 2048 + r && 0 <= r < 2048);
    }
    let mut iso: Vec<u8> = Vec::new();
    push_zeros(&mut iso, 32768);
    push_pvd(&mut iso, total);
    push_brvd(&mut iso);
    push_terminator(&mut iso);
    push_catalog(&mut iso, sectors);
    let dot: [u8; 1] = [0];
    let dotdot: [u8; 1] = [1];
    let efi: [u8; 3] = [0x45, 0x46, 0x49];
    let boot: [u8; 4] = [0x42, 0x4F, 0x4F, 0x54];
    let cat: [u8; 12] = [0x42, 0x4F, 0x4F, 0x54, 0x2E, 0x43, 0x41, 0x54, 0x41, 0x4C, 0x4F, 0x47];
    let bootx64: [u8; 11] = [0x42, 0x4F, 0x4F, 0x54, 0x58, 0x36, 0x34, 0x2E, 0x45, 0x46, 0x49];
    assert(dot@ =~= seq![0u8]);
    assert(dotdot@ =~= seq![1u8]);
    assert(efi@ =~= efi_id());
    assert(boot@ =~= boot_id());
    assert(cat@ =~= catalog_id());
    assert(bootx64@ =~= bootx64_id());
    let mut root: Vec<u8> = Vec::new();
    push_record(&mut root, 20, 2048, 2, &dot);
    push_record(&mut root, 20, 2048, 2, &dotdot);
    push_record(&mut root, 21, 2048, 2, &efi);
    push_record(&mut root, 19, 2048, 0, &cat);
    assert(root@ =~= fixed_record(20, 2048, 2, seq![0u8]) + fixed_record(20, 2048, 2, seq![1u8]) + fixed_record(
        21,
        2048,
        2,
        efi_id(),
    ) + fixed_record(19, 2048, 0, catalog_id()));
    push_dir_sector(&mut iso, &root);
    let mut efi_dir: Vec<u8> = Vec::new();
    push_record(&mut efi_dir, 21, 2048, 2, &dot);
    push_record(&mut efi_dir, 20, 2048, 2, &dotdot);
    push_record(&mut efi_dir, 22, 2048, 2, &boot);
    assert(efi_dir@ =~= fixed_record(21, 2048, 2, seq![0u8]) + fixed_record(20, 2048, 2, seq![1u8]) + fixed_record(
        22,
        2048,
        2,
        boot_id(),
    ));
    push_dir_sector(&mut iso, &efi_dir);
    let mut boot_dir: Vec<u8> = Vec::new();
    push_record(&mut boot_dir, 22, 2048, 2, &dot);
    push_record(&mut boot_dir, 21, 2048, 2, &dotdot);
    push_record(&mut boot_dir, 23, len as u32, 0, &bootx64);
    assert(boot_dir@ =~= fixed_record(22, 2048, 2, seq![0u8]) + fixed_record(21, 2048, 2, seq![1u8])
        + fixed_record(23, len as u32, 0, bootx64_id()));
    push_dir_sector(&mut iso, &boot_dir);
    push_slice(&mut iso, boot_img.as_slice());
    let end = 47104 + len;
    let pad = (total as usize) * 2048 - end;
    push_zeros(&mut iso, pad);
    assert(iso@ =~= fixed_iso(boot_img@));
    iso
}

} // verus!
