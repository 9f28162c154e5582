//! The GPT header.
use crate::bytes::{le32, le64, push_le32, push_le64, push_slice};
use crate::iso::gpt::guid::random_guid;
use vstd::prelude::*;

verus! {

/// A GPT header: 92 bytes of fields and 420 reserved bytes.
#[derive(Debug, Clone, Copy)]
pub struct GptHeader {
    pub signature: [u8; 8],
    pub revision: u32,
    pub header_size: u32,
    pub header_crc32: u32,
    pub _reserved0: u32,
    pub current_lba: u64,
    pub backup_lba: u64,
    pub first_usable_lba: u64,
    pub last_usable_lba: u64,
    pub disk_guid: [u8; 16],
    pub partition_entry_lba: u64,
    pub num_partition_entries: u32,
    pub partition_entry_size: u32,
    pub partition_array_crc32: u32,
    pub _reserved1: [u8; 420],
}

/// "EFI PART".
pub open spec fn gpt_signature() -> Seq<u8> {
    seq![0x45u8, 0x46, 0x49, 0x20, 0x50, 0x41, 0x52, 0x54]
}

/// 512-byte sectors that `num` entries of `size` bytes take.
pub open spec fn array_sectors(num: u32, size: u32) -> int {
    (num * size + 511) / 512
}

/// `a - b`, or 0 where that is negative.
pub open spec fn sat_sub(a: int, b: int) -> int {
    if a >= b { a - b } else { 0 }
}

impl GptHeader {
    /// The 512 bytes of the header on disk.
    pub open spec fn spec_bytes(&self) -> Seq<u8> {
        self.signature@ + le32(self.revision) + le32(self.header_size) + le32(self.header_crc32)
            + le32(self._reserved0) + le64(self.current_lba) + le64(self.backup_lba) + le64(
            self.first_usable_lba,
        ) + le64(self.last_usable_lba) + self.disk_guid@ + le64(self.partition_entry_lba) + le32(
            self.num_partition_entries,
        ) + le32(self.partition_entry_size) + le32(self.partition_array_crc32) + self._reserved1@
    }

    /// The fields of a fresh primary header of a disk of `total_lbas`
    /// sectors whose `num` entries of `size` bytes start at
    /// `partition_entry_lba`: revision 1.0, 92 header bytes, checksums not
    /// yet set, the backup header in the last sector, and the usable
    /// sectors between the entry array and the backup array.
    pub open spec fn fresh(&self, total_lbas: u64, partition_entry_lba: u64, num: u32, size: u32) -> bool {
        let sectors = array_sectors(num, size);
        &&& self.signature@ == gpt_signature()
        &&& self.revision == 0x0001_0000
        &&& self.header_size == 92
        &&& self.header_crc32 == 0
        &&& self._reserved0 == 0
        &&& self.current_lba == 1
        &&& self.backup_lba == total_lbas - 1
        &&& self.first_usable_lba == partition_entry_lba + sectors
        &&& self.last_usable_lba == sat_sub(sat_sub(total_lbas as int, 2), sectors)
        &&& self.partition_entry_lba == partition_entry_lba
        &&& self.num_partition_entries == num
        &&& self.partition_entry_size == size
        &&& self.partition_array_crc32 == 0
        &&& self._reserved1@ == Seq::new(420, |i: int| 0u8)
    }

    /// A fresh primary header with the disk GUID `disk_guid`.
    pub fn with_disk_guid(
        total_lbas: u64,
        partition_entry_lba: u64,
        num_partition_entries: u32,
        partition_entry_size: u32,
        disk_guid: [u8; 16],
    ) -> (h: Self)
        requires
            total_lbas >= 1,
            partition_entry_lba + array_sectors(num_partition_entries, partition_entry_size) <= u64::MAX,
        ensures
            h.fresh(total_lbas, partition_entry_lba, num_partition_entries, partition_entry_size),
            h.disk_guid == disk_guid,
    {
        assert((num_partition_entries as int) * (partition_entry_size as int) <= 0xFFFF_FFFF * 0xFFFF_FFFF)
            by (nonlinear_arith);
        let bytes = (num_partition_entries as u64) * (partition_entry_size as u64);
        let partition_array_sectors = (bytes + 511) / 512;
        let first_usable_lba = partition_entry_lba + partition_array_sectors;
        let last_usable_lba = total_lbas.saturating_sub(2).saturating_sub(partition_array_sectors);
        let h = GptHeader {
            signature: [0x45, 0x46, 0x49, 0x20, 0x50, 0x41, 0x52, 0x54],
            revision: 0x0001_0000,
            header_size: 92,
            header_crc32: 0,
            _reserved0: 0,
            current_lba: 1,
            backup_lba: total_lbas - 1,
            first_usable_lba,
            last_usable_lba,
            disk_guid,
            partition_entry_lba,
            num_partition_entries,
            partition_entry_size,
            partition_array_crc32: 0,
            _reserved1: [0; 420],
        };
        assert(h.signature@ =~= gpt_signature());
        assert(h._reserved1@ =~= Seq::new(420, |i: int| 0u8));
        h
    }

    /// A fresh primary header with a random (version 4) disk GUID.
    pub fn new(
        total_lbas: u64,
        partition_entry_lba: u64,
        num_partition_entries: u32,
        partition_entry_size: u32,
    ) -> (h: Self)
        requires
            total_lbas >= 1,
            partition_entry_lba + array_sectors(num_partition_entries, partition_entry_size) <= u64::MAX,
        ensures
            h.fresh(total_lbas, partition_entry_lba, num_partition_entries, partition_entry_size),
            h.disk_guid@[6] / 16 == 4,
            h.disk_guid@[8] / 64 == 2,
    {
        let guid = random_guid();
        Self::with_disk_guid(total_lbas, partition_entry_lba, num_partition_entries, partition_entry_size, guid)
    }

    /// The 512 bytes of the header on disk.
    pub fn to_bytes(&self) -> (b: [u8; 512])
        ensures
            b@ == self.spec_bytes(),
    {
        let mut v: Vec<u8> = Vec::new();
        push_slice(&mut v, &self.signature);
        push_le32(&mut v, self.revision);
        push_le32(&mut v, self.header_size);
        push_le32(&mut v, self.header_crc32);
        push_le32(&mut v, self._reserved0);
        push_le64(&mut v, self.current_lba);
        push_le64(&mut v, self.backup_lba);
        push_le64(&mut v, self.first_usable_lba);
        push_le64(&mut v, self.last_usable_lba);
        push_slice(&mut v, &self.disk_guid);
        push_le64(&mut v, self.partition_entry_lba);
        push_le32(&mut v, self.num_partition_entries);
        push_le32(&mut v, self.partition_entry_size);
        push_le32(&mut v, self.partition_array_crc32);
        push_slice(&mut v, &self._reserved1);
        assert(v@ =~= self.spec_bytes());
        crate::bytes::to_array_512(&v)
    }

    /// Appends the 512 bytes of the header to `out`.
    pub fn write_to(&self, out: &mut Vec<u8>)
        ensures
            final(out)@ == old(out)@ + self.spec_bytes(),
    {
        let b = self.to_bytes();
        push_slice(out, &b);
    }
}

} // verus!
