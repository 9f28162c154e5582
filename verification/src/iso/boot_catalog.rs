//! The El Torito boot catalog.
use crate::bytes::{le16, le32, push_le16, push_le32, push_slice, push_zeros, zeros};
use vstd::prelude::*;

verus! {

/// The ISO sector that holds the boot catalog.
pub const LBA_BOOT_CATALOG: u32 = 19;
pub const BOOT_CATALOG_HEADER_SIGNATURE: u16 = 0xAA55;
pub const BOOT_CATALOG_VALIDATION_ENTRY_HEADER_ID: u8 = 1;
pub const BOOT_CATALOG_BOOT_ENTRY_HEADER_ID: u8 = 0x88;
pub const BOOT_CATALOG_SECTION_HEADER_MORE_ID: u8 = 0x90;
pub const BOOT_CATALOG_SECTION_HEADER_FINAL_ID: u8 = 0x91;
pub const BOOT_CATALOG_EFI_PLATFORM_ID: u8 = 0xEF;

/// The kind of a catalog entry after the validation entry.
#[derive(Debug, Clone, Copy, PartialEq, Eq, Structural)]
pub enum BootCatalogEntryType {
    BootEntry { bootable: bool },
    SectionHeader { more_follow: bool },
}

/// A catalog entry: a boot entry, or a section header that groups the
/// boot entries after it under a platform.
#[derive(Debug, Clone, Copy)]
pub struct BootCatalogEntry {
    pub platform_id: u8,
    pub boot_image_lba: u32,
    pub boot_image_sectors: u16,
    pub entry_type: BootCatalogEntryType,
}

/// "EL TORITO SPECIFICATION".
pub open spec fn el_torito_id() -> Seq<u8> {
    seq![
        0x45u8, 0x4C, 0x20, 0x54, 0x4F, 0x52, 0x49, 0x54, 0x4F, 0x20, 0x53, 0x50, 0x45, 0x43, 0x49, 0x46,
        0x49, 0x43, 0x41, 0x54, 0x49, 0x4F, 0x4E,
    ]
}

/// Appends "EL TORITO SPECIFICATION".
pub fn push_el_torito_id(v: &mut Vec<u8>)
    ensures
        final(v)@ == old(v)@ + el_torito_id(),
{
    let id: [u8; 23] = [
        0x45, 0x4C, 0x20, 0x54, 0x4F, 0x52, 0x49, 0x54, 0x4F, 0x20, 0x53, 0x50, 0x45, 0x43, 0x49, 0x46,
        0x49, 0x43, 0x41, 0x54, 0x49, 0x4F, 0x4E,
    ];
    assert(id@ =~= el_torito_id());
    push_slice(v, &id);
}

/// The sum of the first `n` little-endian 16-bit words of `s`.
pub open spec fn word_sum(s: Seq<u8>, n: int) -> int
    decreases n,
{
    if n <= 0 {
        0
    } else {
        word_sum(s, n - 1) + s[2 * (n - 1)] + 256 * s[2 * (n - 1) + 1]
    }
}

/// The validation entry before its checksum: header ID 1, platform 0, the
/// ID string, and the `55 AA` signature.
pub open spec fn validation_base() -> Seq<u8> {
    seq![1u8, 0, 0, 0] + el_torito_id() + zeros(3) + le16(0xAA55)
}

/// The checksum that makes the words of the validation entry sum to zero
/// (modulo 2^16).
pub open spec fn validation_checksum() -> u16 {
    ((0x1_0000 - word_sum(validation_base(), 16) % 0x1_0000) % 0x1_0000) as u16
}

/// The 32-byte validation entry.
pub open spec fn validation_entry() -> Seq<u8> {
    seq![1u8, 0, 0, 0] + el_torito_id() + zeros(1) + le16(validation_checksum()) + le16(0xAA55)
}

/// The number of entries after entry `i` up to the next section header.
pub open spec fn run_after(entries: Seq<BootCatalogEntry>, i: int) -> int
    decreases entries.len() - i,
{
    if i + 1 >= entries.len() || entries[i + 1].entry_type is SectionHeader {
        0
    } else {
        1 + run_after(entries, i + 1)
    }
}

/// The 32 bytes of a catalog entry; `count` is the number of entries of
/// its section when it is a section header.
pub open spec fn entry_bytes(e: BootCatalogEntry, count: u16) -> Seq<u8> {
    match e.entry_type {
        BootCatalogEntryType::BootEntry { bootable } => seq![if bootable { 0x88u8 } else { 0 }, 0] + le16(0)
            + seq![e.platform_id, 0] + le16(e.boot_image_sectors) + le32(e.boot_image_lba) + zeros(20),
        BootCatalogEntryType::SectionHeader { more_follow } => seq![
            if more_follow { 0x90u8 } else { 0x91 },
            e.platform_id,
        ] + le16(count) + seq![0u8, 0] + le16(e.boot_image_sectors) + le32(e.boot_image_lba) + zeros(20),
    }
}

/// The entries from the first up to `k`, as bytes.
pub open spec fn entries_image(entries: Seq<BootCatalogEntry>, k: int) -> Seq<u8>
    decreases k,
{
    if k <= 0 {
        Seq::empty()
    } else {
        entries_image(entries, k - 1) + entry_bytes(entries[k - 1], run_after(entries, k - 1) as u16)
    }
}

/// The 2048-byte catalog: the validation entry, the entries, then zeros.
pub open spec fn catalog_image(entries: Seq<BootCatalogEntry>) -> Seq<u8> {
    validation_entry() + entries_image(entries, entries.len() as int) + zeros(
        (2016 - 32 * entries.len()) as nat,
    )
}

/// The words of the validation entry sum to zero modulo 2^16, as firmware
/// checks.
pub proof fn lemma_validation_checksum()
    ensures
        validation_entry().len() == 32,
        word_sum(validation_entry(), 16) % 0x1_0000 == 0,
{
    reveal_with_fuel(word_sum, 17);
    let b = validation_base();
    let v = validation_entry();
    assert(b.len() == 32);
    assert(v.len() == 32);
    let c = validation_checksum();
    assert(v =~= b.update(28, le16(c)[0]).update(29, le16(c)[1]));
    assert(le16(c)[0] + 256 * le16(c)[1] == c) by (bit_vector);
    assert(b[28] == 0 && b[29] == 0);
    assert(word_sum(v, 16) == word_sum(b, 16) + c);
}

/// The validation entry, with its checksum computed over its words.
fn validation_entry_bytes() -> (v: Vec<u8>)
    ensures
        v@ == validation_entry(),
{
    let mut val: Vec<u8> = Vec::new();
    val.push(BOOT_CATALOG_VALIDATION_ENTRY_HEADER_ID);
    val.push(0);
    val.push(0);
    val.push(0);
    push_el_torito_id(&mut val);
    push_zeros(&mut val, 3);
    push_le16(&mut val, BOOT_CATALOG_HEADER_SIGNATURE);
    assert(val@ =~= validation_base());
    let mut sum: u32 = 0;
    let mut k: usize = 0;
    while k < 16
        invariant
            k <= 16,
            val@ == validation_base(),
            sum == word_sum(validation_base(), k as int) - (if k > 14 { val@[28] + 256 * val@[29] } else { 0 }),
            sum <= k * 0xFFFF,
        decreases 16 - k,
    {
        if 2 * k != 28 {
            sum = sum + val[2 * k] as u32 + 256 * (val[2 * k + 1] as u32);
        }
        k = k + 1;
    }
    assert(val@[28] == 0 && val@[29] == 0);
    let check = ((0x1_0000 - sum % 0x1_0000) % 0x1_0000) as u16;
    let mut v: Vec<u8> = Vec::new();
    v.push(BOOT_CATALOG_VALIDATION_ENTRY_HEADER_ID);
    v.push(0);
    v.push(0);
    v.push(0);
    push_el_torito_id(&mut v);
    v.push(0);
    push_le16(&mut v, check);
    push_le16(&mut v, BOOT_CATALOG_HEADER_SIGNATURE);
    assert(v@ =~= validation_entry());
    v
}

/// The number of entries after entry `i` up to the next section header.
fn count_after(entries: &Vec<BootCatalogEntry>, i: usize) -> (r: u16)
    requires
        i < entries@.len() <= 63,
    ensures
        r == run_after(entries@, i as int),
{
    let mut j: usize = entries.len();
    let mut n: u16 = 0;
    // Scan backwards so that the count at each step is that of a suffix.
    while j > i + 1
        invariant
            i + 1 <= j <= entries@.len() <= 63,
            n == run_after(entries@, j as int - 1),
            n <= 63,
        decreases j,
    {
        j = j - 1;
        n = match entries[j].entry_type {
            BootCatalogEntryType::SectionHeader { .. } => 0,
            BootCatalogEntryType::BootEntry { .. } => n + 1,
        };
        proof {
            lemma_run_after_bound(entries@, j as int - 1);
        }
    }
    n
}

proof fn lemma_run_after_bound(entries: Seq<BootCatalogEntry>, i: int)
    requires
        -1 <= i,
    ensures
        0 <= run_after(entries, i),
        i + 1 <= entries.len() ==> run_after(entries, i) <= entries.len() - i - 1,
        i + 1 > entries.len() ==> run_after(entries, i) == 0,
    decreases entries.len() - i,
{
    if !(i + 1 >= entries.len() || entries[i + 1].entry_type is SectionHeader) {
        lemma_run_after_bound(entries, i + 1);
    }
}

/// Appends the 32 bytes of entry `e`.
fn push_entry(out: &mut Vec<u8>, e: &BootCatalogEntry, count: u16)
    ensures
        final(out)@ == old(out)@ + entry_bytes(*e, count),
{
    let ghost start = out@;
    let (flag, media, f23, p4): (u8, u8, u16, u8) = match e.entry_type {
        BootCatalogEntryType::BootEntry { bootable } => (
            if bootable {
                BOOT_CATALOG_BOOT_ENTRY_HEADER_ID
            } else {
                0x00
            },
            0x00,
            0,
            e.platform_id,
        ),
        BootCatalogEntryType::SectionHeader { more_follow } => (
            if more_follow {
                BOOT_CATALOG_SECTION_HEADER_MORE_ID
            } else {
                BOOT_CATALOG_SECTION_HEADER_FINAL_ID
            },
            e.platform_id,
            count,
            0x00,
        ),
    };
    out.push(flag);
    out.push(media);
    push_le16(out, f23);
    out.push(p4);
    out.push(0);
    push_le16(out, e.boot_image_sectors);
    push_le32(out, e.boot_image_lba);
    push_zeros(out, 20);
    assert(out@ =~= start + entry_bytes(*e, count));
}

/// Appends the 2048-byte boot catalog of `entries` (at most 63, the
/// entries that fit in one sector after the validation entry).
pub fn write_boot_catalog(iso: &mut Vec<u8>, entries: Vec<BootCatalogEntry>)
    requires
        entries@.len() <= 63,
    ensures
        final(iso)@ == old(iso)@ + catalog_image(entries@),
{
    let ghost start = iso@;
    let mut catalog = validation_entry_bytes();
    let mut idx: usize = 0;
    while idx < entries.len()
        invariant
            idx <= entries@.len() <= 63,
            catalog@ == validation_entry() + entries_image(entries@, idx as int),
        decreases entries@.len() - idx,
    {
        let count: u16 = match entries[idx].entry_type {
            BootCatalogEntryType::SectionHeader { .. } => count_after(&entries, idx),
            BootCatalogEntryType::BootEntry { .. } => 0,
        };
        push_entry(&mut catalog, &entries[idx], count);
        idx = idx + 1;
    }
    push_zeros(&mut catalog, 2016 - 32 * entries.len());
    push_slice(iso, catalog.as_slice());
}

} // verus!

verus! {

proof fn lemma_entries_image_len(entries: Seq<BootCatalogEntry>, k: int)
    requires
        0 <= k,
    ensures
        entries_image(entries, k).len() == 32 * k,
    decreases k,
{
    if k > 0 {
        lemma_entries_image_len(entries, k - 1);
        let e = entries[k - 1];
        let c = run_after(entries, k - 1) as u16;
        assert(entry_bytes(e, c).len() == 32);
    }
}

/// A catalog is one sector.
pub proof fn lemma_catalog_len(entries: Seq<BootCatalogEntry>)
    requires
        entries.len() <= 63,
    ensures
        catalog_image(entries).len() == 2048,
{
    lemma_entries_image_len(entries, entries.len() as int);
}

} // verus!
