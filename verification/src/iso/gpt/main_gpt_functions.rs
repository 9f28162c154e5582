//! Writing the primary and backup GPT of a disk image.
use crate::bytes::{grown, le32, le64, overwrite, push_slice, push_zeros, splice, zeros};
use crate::iso::gpt::guid::{crc32, crc32_of, random_guid};
use crate::iso::gpt::header::{gpt_signature, sat_sub, GptHeader};
use crate::iso::gpt::partition_entry::GptPartitionEntry;
use vstd::prelude::*;

verus! {

/// The entries of the table, one after the other.
pub open spec fn entries_concat(parts: Seq<GptPartitionEntry>) -> Seq<u8>
    decreases parts.len(),
{
    if parts.len() == 0 {
        Seq::empty()
    } else {
        entries_concat(parts.drop_last()) + parts.last().spec_bytes()
    }
}

/// The partition entry array: the entries, then zeros up to 128 entries
/// of 128 bytes.
pub open spec fn entry_array(parts: Seq<GptPartitionEntry>) -> Seq<u8> {
    entries_concat(parts) + zeros((16384 - 128 * parts.len()) as nat)
}

/// The 512 bytes of a header of a disk of `total` sectors with 128 entries
/// of 128 bytes, for a header in sector `current` whose other copy is in
/// sector `backup` and whose entry array starts at `pe_lba`.
pub open spec fn header_image(
    total: u64,
    current: u64,
    backup: u64,
    pe_lba: u64,
    guid: Seq<u8>,
    array_crc: u32,
    header_crc: u32,
) -> Seq<u8> {
    gpt_signature() + le32(0x0001_0000) + le32(92) + le32(header_crc) + le32(0) + le64(current) + le64(
        backup,
    ) + le64(34) + le64(sat_sub(sat_sub(total as int, 2), 32) as u64) + guid + le64(pe_lba) + le32(128)
        + le32(128) + le32(array_crc) + zeros(420)
}

/// A header whose checksum covers its first 92 bytes, computed with the
/// checksum field zero.
pub open spec fn sealed_header(total: u64, current: u64, backup: u64, pe_lba: u64, guid: Seq<u8>, array_crc: u32) -> Seq<u8> {
    let open = header_image(total, current, backup, pe_lba, guid, array_crc, 0);
    header_image(total, current, backup, pe_lba, guid, array_crc, crc32_of(open.take(92)))
}

/// The primary header, in sector 1 with its entries from sector 2.
pub open spec fn primary_header(total: u64, guid: Seq<u8>, parts: Seq<GptPartitionEntry>) -> Seq<u8> {
    sealed_header(total, 1, (total - 1) as u64, 2, guid, crc32_of(entry_array(parts)))
}

/// The backup header, in the last sector with its entries just before it.
pub open spec fn backup_header(total: u64, guid: Seq<u8>, parts: Seq<GptPartitionEntry>) -> Seq<u8> {
    sealed_header(total, (total - 1) as u64, 1, (total - 33) as u64, guid, crc32_of(entry_array(parts)))
}

/// `disk` with the primary GPT (header in sector 1, entries from sector 2)
/// and the backup GPT (entries in the 32 sectors before the last, header in
/// the last sector) of a disk of `total` sectors.
pub open spec fn gpt_disk(disk: Seq<u8>, total: u64, guid: Seq<u8>, parts: Seq<GptPartitionEntry>) -> Seq<u8> {
    let a = entry_array(parts);
    let d1 = splice(disk, 512, primary_header(total, guid, parts));
    let d2 = splice(d1, 1024, a);
    let d3 = splice(d2, (total - 1) * 512, backup_header(total, guid, parts));
    splice(d3, (total - 33) * 512, a)
}

proof fn lemma_entries_concat_len(parts: Seq<GptPartitionEntry>)
    ensures
        entries_concat(parts).len() == 128 * parts.len(),
    decreases parts.len(),
{
    if parts.len() > 0 {
        lemma_entries_concat_len(parts.drop_last());
        let e = parts.last();
        assert(e.spec_bytes().len() == 128) by {
            crate::iso::gpt::partition_entry::lemma_entry_len(e);
        }
    }
}

/// Sets the header's checksum field to zero and returns the CRC-32 of its
/// first `header_size` bytes.
fn calculate_header_crc32(header: &mut GptHeader) -> (r: u32)
    requires
        old(header).header_size <= 512,
    ensures
        *final(header) == (GptHeader { header_crc32: 0, ..*old(header) }),
        r == crc32_of(final(header).spec_bytes().take(old(header).header_size as int)),
{
    header.header_crc32 = 0;
    let header_bytes = header.to_bytes();
    let size = header.header_size as usize;
    let data = vstd::slice::slice_subrange(&header_bytes, 0, size);
    assert(data@ =~= header.spec_bytes().take(size as int));
    crc32(data)
}

/// The entry array of `partitions` and its CRC-32.
fn partition_array(partitions: &[GptPartitionEntry]) -> (r: (Vec<u8>, u32))
    requires
        partitions@.len() <= 128,
    ensures
        r.0@ == entry_array(partitions@),
        r.0@.len() == 16384,
        r.1 == crc32_of(entry_array(partitions@)),
{
    let mut bytes: Vec<u8> = Vec::new();
    let mut i: usize = 0;
    while i < partitions.len()
        invariant
            i <= partitions@.len(),
            bytes@ == entries_concat(partitions@.take(i as int)),
        decreases partitions@.len() - i,
    {
        partitions[i].write_to(&mut bytes);
        i = i + 1;
        assert(partitions@.take(i as int).drop_last() =~= partitions@.take(i - 1));
    }
    assert(partitions@.take(partitions@.len() as int) =~= partitions@);
    proof {
        lemma_entries_concat_len(partitions@);
    }
    push_zeros(&mut bytes, 16384 - 128 * partitions.len());
    let c = crc32(bytes.as_slice());
    (bytes, c)
}

/// The bytes of a sealed header with these fields.
fn sealed_header_bytes(total: u64, current: u64, backup: u64, pe_lba: u64, guid: [u8; 16], array_crc: u32) -> (b: [u8; 512])
    requires
        total >= 1,
    ensures
        b@ == sealed_header(total, current, backup, pe_lba, guid@, array_crc),
{
    let mut h = GptHeader::with_disk_guid(total, 2, 128, 128, guid);
    h.current_lba = current;
    h.backup_lba = backup;
    h.partition_entry_lba = pe_lba;
    h.partition_array_crc32 = array_crc;
    let c = calculate_header_crc32(&mut h);
    assert(h.spec_bytes() =~= header_image(total, current, backup, pe_lba, guid@, array_crc, 0));
    h.header_crc32 = c;
    let b = h.to_bytes();
    assert(b@ =~= sealed_header(total, current, backup, pe_lba, guid@, array_crc));
    b
}

/// Writes the primary GPT header (sector 1) and its entry array (from
/// sector 2).
fn write_primary_gpt_structures(disk: &mut Vec<u8>, header: &[u8; 512], array: &Vec<u8>)
    requires
        array@.len() == 16384,
        old(disk)@.len() >= 17408,
    ensures
        final(disk)@ == splice(splice(old(disk)@, 512, header@), 1024, array@),
        final(disk)@.len() == old(disk)@.len(),
{
    overwrite(disk, 512, header);
    overwrite(disk, 1024, array.as_slice());
}

/// Writes the backup entry array (the 32 sectors before the last) and the
/// backup header (the last sector) of a disk of `total_lbas` sectors.
fn write_backup_gpt_structures(disk: &mut Vec<u8>, header: &[u8; 512], array: &Vec<u8>, total_lbas: u64)
    requires
        array@.len() == 16384,
        total_lbas >= 33,
        old(disk)@.len() >= total_lbas * 512,
    ensures
        final(disk)@ == splice(
            splice(old(disk)@, (total_lbas - 1) * 512, header@),
            (total_lbas - 33) * 512,
            array@,
        ),
        final(disk)@.len() == old(disk)@.len(),
{
    let n = disk.len();
    assert(total_lbas * 512 <= n);
    let last = ((total_lbas - 1) * 512) as usize;
    let arr = ((total_lbas - 33) * 512) as usize;
    overwrite(disk, last, header);
    overwrite(disk, arr, array.as_slice());
}

/// The bytes the GPT of a disk of `total` sectors reaches: the whole disk,
/// or the end of the primary entry array where that lies further.
pub open spec fn gpt_span(total: u64) -> int {
    if total * 512 < 17408 { 17408 } else { total * 512 }
}

/// Writes the primary and backup GPT of a disk of `total_lbas` sectors
/// with disk GUID `guid` and the given partitions (the rest of the 128
/// entries zero), first growing the disk with zeros to its full size.
pub fn write_gpt_structures_with_guid(
    disk: &mut Vec<u8>,
    total_lbas: u64,
    partitions: &[GptPartitionEntry],
    guid: [u8; 16],
)
    requires
        33 <= total_lbas,
        total_lbas * 512 <= usize::MAX,
        partitions@.len() <= 128,
    ensures
        final(disk)@ == gpt_disk(grown(old(disk)@, gpt_span(total_lbas)), total_lbas, guid@, partitions@),
        final(disk)@.len() == if old(disk)@.len() < gpt_span(total_lbas) { gpt_span(total_lbas) } else { old(disk)@.len() as int },
{
    let need: usize = if total_lbas < 34 { 17408 } else { (total_lbas as usize) * 512 };
    if disk.len() < need {
        let n = need - disk.len();
        push_zeros(disk, n);
    }
    let (array, array_crc) = partition_array(partitions);
    let primary = sealed_header_bytes(total_lbas, 1, total_lbas - 1, 2, guid, array_crc);
    let backup = sealed_header_bytes(total_lbas, total_lbas - 1, 1, total_lbas - 33, guid, array_crc);
    assert(primary@ == primary_header(total_lbas, guid@, partitions@));
    assert(backup@ == backup_header(total_lbas, guid@, partitions@));
    let ghost d0 = disk@;
    write_primary_gpt_structures(disk, &primary, &array);
    write_backup_gpt_structures(disk, &backup, &array, total_lbas);
}

/// Writes the primary and backup GPT of a disk of `total_lbas` sectors
/// with a random (version 4) disk GUID and the given partitions.
pub fn write_gpt_structures(disk: &mut Vec<u8>, total_lbas: u64, partitions: &[GptPartitionEntry])
    requires
        33 <= total_lbas,
        total_lbas * 512 <= usize::MAX,
        partitions@.len() <= 128,
    ensures
        exists|guid: Seq<u8>|
            guid.len() == 16 && guid[6] / 16 == 4 && guid[8] / 64 == 2 && final(disk)@ == gpt_disk(
                grown(old(disk)@, gpt_span(total_lbas)),
                total_lbas,
                guid,
                partitions@,
            ),
{
    let guid = random_guid();
    write_gpt_structures_with_guid(disk, total_lbas, partitions, guid);
}

} // verus!

verus! {

/// The checksum stored in a sealed header (bytes 16 to 20) is the CRC-32
/// of the header's first 92 bytes read with that field zero.
pub proof fn lemma_header_crc(total: u64, current: u64, backup: u64, pe_lba: u64, guid: Seq<u8>, array_crc: u32)
    requires
        guid.len() == 16,
    ensures
        ({
            let h = sealed_header(total, current, backup, pe_lba, guid, array_crc);
            &&& h.len() == 512
            &&& crate::bytes::get_le32(h, 16) == crc32_of(splice(h, 16, le32(0)).take(92))
        }),
{
    let open = header_image(total, current, backup, pe_lba, guid, array_crc, 0);
    let c = crc32_of(open.take(92));
    let h = header_image(total, current, backup, pe_lba, guid, array_crc, c);
    assert(h.len() == 512);
    assert(h.subrange(16, 20) =~= le32(c));
    crate::bytes::lemma_le32_roundtrip(c, h, 16);
    assert(splice(h, 16, le32(0)) =~= open);
}

} // verus!
