//! The protective / hybrid master boot record.
use crate::bytes::{le16, le32, push_le16, push_le32, push_slice};
use crate::iso::error::IsoError;
use vstd::prelude::*;

verus! {

/// Heads per cylinder and sectors per track of the CHS geometry.
const H: u32 = 64;
const SPT: u32 = 32;
const SPC: u32 = 2048;
const MAX_CYL: u32 = 1023;

/// The CHS address of `lba` in the 64-head, 32-sector geometry: head,
/// sector (1-based) with the cylinder's two high bits in its top bits, and
/// the cylinder's low byte; `FF FF FF` past cylinder 1023.
pub open spec fn spec_chs(lba: u64) -> Seq<u8> {
    let cyl = lba / 2048;
    if cyl > 1023 {
        seq![0xFFu8, 0xFF, 0xFF]
    } else {
        let rem = lba % 2048;
        let head = rem / 32;
        let sector = rem % 32 + 1;
        seq![head as u8, (sector + (cyl / 256) * 64) as u8, (cyl % 256) as u8]
    }
}

fn lba_to_chs(lba: u64) -> (r: [u8; 3])
    ensures
        r@ == spec_chs(lba),
{
    let cyl = lba / (SPC as u64);
    if cyl > MAX_CYL as u64 {
        return [0xFF; 3];
    }
    let cyl = cyl as u32;
    let rem = (lba % (SPC as u64)) as u32;
    let head = rem / SPT;
    let sector = (rem % SPT) + 1;
    let r = [head as u8, (sector + (cyl / 256) * 64) as u8, (cyl % 256) as u8];
    assert(r@ =~= spec_chs(lba));
    r
}

/// One entry of the MBR partition table.
#[derive(Debug, Clone, Copy)]
pub struct MbrPartitionEntry {
    pub bootable: u8,
    pub starting_chs: [u8; 3],
    pub partition_type: u8,
    pub ending_chs: [u8; 3],
    pub starting_lba: u32,
    pub size_in_lba: u32,
}

impl MbrPartitionEntry {
    /// The 16 bytes of the entry on disk.
    pub open spec fn spec_bytes(&self) -> Seq<u8> {
        seq![self.bootable] + self.starting_chs@ + seq![self.partition_type] + self.ending_chs@
            + le32(self.starting_lba) + le32(self.size_in_lba)
    }

    /// Whether every field is zero.
    pub open spec fn is_empty(&self) -> bool {
        &&& self.bootable == 0
        &&& self.starting_chs@ == seq![0u8, 0, 0]
        &&& self.partition_type == 0
        &&& self.ending_chs@ == seq![0u8, 0, 0]
        &&& self.starting_lba == 0
        &&& self.size_in_lba == 0
    }
}

impl Default for MbrPartitionEntry {
    fn default() -> (r: Self)
        ensures
            r.is_empty(),
    {
        let r = MbrPartitionEntry {
            bootable: 0,
            starting_chs: [0; 3],
            partition_type: 0,
            ending_chs: [0; 3],
            starting_lba: 0,
            size_in_lba: 0,
        };
        assert(r.starting_chs@ =~= seq![0u8, 0, 0]);
        assert(r.ending_chs@ =~= seq![0u8, 0, 0]);
        r
    }
}

/// A master boot record.
#[derive(Debug, Clone, Copy)]
pub struct Mbr {
    pub boot_code: [u8; 440],
    pub disk_signature: u32,
    pub reserved: u16,
    pub partition_table: [MbrPartitionEntry; 4],
    pub boot_signature: u16,
}

impl Mbr {
    /// The 512 bytes of the record on disk.
    pub open spec fn spec_bytes(&self) -> Seq<u8> {
        self.boot_code@ + le32(self.disk_signature) + le16(self.reserved)
            + self.partition_table@[0].spec_bytes() + self.partition_table@[1].spec_bytes()
            + self.partition_table@[2].spec_bytes() + self.partition_table@[3].spec_bytes()
            + le16(self.boot_signature)
    }

    /// An empty record: no boot code, no partitions, and the `55 AA`
    /// signature.
    pub fn new() -> (r: Self)
        ensures
            r.boot_code@ == Seq::new(440, |i: int| 0u8),
            r.disk_signature == 0,
            r.reserved == 0,
            forall|i: int| 0 <= i < 4 ==> (#[trigger] r.partition_table@[i]).is_empty(),
            r.boot_signature == 0xAA55,
    {
        let r = Mbr {
            boot_code: [0; 440],
            disk_signature: 0,
            reserved: 0,
            partition_table: [
                MbrPartitionEntry::default(),
                MbrPartitionEntry::default(),
                MbrPartitionEntry::default(),
                MbrPartitionEntry::default(),
            ],
            boot_signature: 0xAA55,
        };
        assert(r.boot_code@ =~= Seq::new(440, |i: int| 0u8));
        r
    }

    /// The 512 bytes of the record on disk.
    pub fn to_bytes(&self) -> (b: [u8; 512])
        ensures
            b@ == self.spec_bytes(),
    {
        let mut v: Vec<u8> = Vec::new();
        push_slice(&mut v, &self.boot_code);
        push_le32(&mut v, self.disk_signature);
        push_le16(&mut v, self.reserved);
        let mut k: usize = 0;
        while k < 4
            invariant
                k <= 4,
                v@ == self.boot_code@ + le32(self.disk_signature) + le16(self.reserved) + entries_bytes(
                    self.partition_table@,
                    k as int,
                ),
            decreases 4 - k,
        {
            let e = &self.partition_table[k];
            let ghost before = v@;
            v.push(e.bootable);
            push_slice(&mut v, &e.starting_chs);
            v.push(e.partition_type);
            push_slice(&mut v, &e.ending_chs);
            push_le32(&mut v, e.starting_lba);
            push_le32(&mut v, e.size_in_lba);
            assert(v@ =~= before + e.spec_bytes());
            k = k + 1;
        }
        push_le16(&mut v, self.boot_signature);
        proof {
            reveal_with_fuel(entries_bytes, 5);
        }
        assert(v@ =~= self.spec_bytes());
        crate::bytes::to_array_512(&v)
    }

    /// Appends the 512 bytes of the record to `out`.
    pub fn write_to(&self, out: &mut Vec<u8>)
        ensures
            final(out)@ == old(out)@ + self.spec_bytes(),
    {
        let b = self.to_bytes();
        push_slice(out, &b);
    }
}

/// The bytes of the first `k` partition table entries.
pub open spec fn entries_bytes(t: Seq<MbrPartitionEntry>, k: int) -> Seq<u8>
    decreases k,
{
    if k <= 0 {
        Seq::empty()
    } else {
        entries_bytes(t, k - 1) + t[k - 1].spec_bytes()
    }
}

/// Whether `e` describes a partition of `size_lba` sectors from
/// `start_lba`, with its CHS start and end.
pub open spec fn part_is(e: MbrPartitionEntry, bootable: u8, ptype: u8, start_lba: u32, size_lba: u32) -> bool {
    &&& e.bootable == bootable
    &&& e.partition_type == ptype
    &&& e.starting_lba == start_lba
    &&& e.size_in_lba == size_lba
    &&& e.starting_chs@ == spec_chs(start_lba as u64)
    &&& e.ending_chs@ == spec_chs((start_lba + size_lba - 1) as u64)
}

fn set_part(pe: &mut MbrPartitionEntry, bootable: u8, ptype: u8, start_lba: u32, size_lba: u32)
    requires
        start_lba + size_lba >= 1,
    ensures
        part_is(*final(pe), bootable, ptype, start_lba, size_lba),
{
    pe.bootable = bootable;
    pe.partition_type = ptype;
    pe.starting_lba = start_lba;
    pe.size_in_lba = size_lba;
    pe.starting_chs = lba_to_chs(start_lba as u64);
    pe.ending_chs = lba_to_chs(start_lba as u64 + size_lba as u64 - 1);
}

/// The sectors of the partition that covers the disk after the MBR.
pub open spec fn rest_of_disk(total_lbas: u32) -> u32 {
    if total_lbas >= 1 { (total_lbas - 1) as u32 } else { 0 }
}

/// The MBR of a hybrid image (see `create_mbr_for_gpt_hybrid`).
pub open spec fn hybrid_mbr(m: Mbr, total_lbas: u32, is_isohybrid: bool, esp_start: Option<u32>, esp_size: Option<u32>) -> bool {
    let t = m.partition_table@;
    let esp = is_isohybrid && esp_start is Some && esp_size is Some && esp_size->0 > 0;
    &&& m.boot_code@ == Seq::new(440, |i: int| 0u8)
    &&& m.disk_signature == 0
    &&& m.reserved == 0
    &&& m.boot_signature == 0xAA55
    &&& is_isohybrid ==> part_is(t[0], 0, 0xEE, 1, rest_of_disk(total_lbas))
    &&& !is_isohybrid ==> part_is(t[0], 0x80, 0xEF, 1, rest_of_disk(total_lbas))
    &&& esp ==> part_is(t[1], 0, 0xEF, esp_start->0, esp_size->0)
    &&& !esp ==> t[1].is_empty()
    &&& t[2].is_empty()
    &&& t[3].is_empty()
}

/// Builds the MBR of a hybrid image of `total_lbas` 512-byte sectors. An
/// isohybrid image gets a protective GPT partition (type `EE`) over the
/// disk after the MBR and, when an ESP of non-zero size is given, an EFI
/// partition (type `EF`) over it; otherwise the disk after the MBR is one
/// bootable EFI partition.
pub fn create_mbr_for_gpt_hybrid(
    total_lbas: u32,
    is_isohybrid: bool,
    esp_start: Option<u32>,
    esp_size: Option<u32>,
) -> (r: Result<Mbr, IsoError>)
    ensures
        r matches Ok(m) && hybrid_mbr(m, total_lbas, is_isohybrid, esp_start, esp_size),
{
    let mut mbr = Mbr::new();
    let rest = total_lbas.saturating_sub(1);
    if is_isohybrid {
        set_part(&mut mbr.partition_table[0], 0, 0xEE, 1, rest);
        match (esp_start, esp_size) {
            (Some(s), Some(sz)) => {
                if sz > 0 {
                    set_part(&mut mbr.partition_table[1], 0, 0xEF, s, sz);
                }
            },
            _ => {},
        }
    } else {
        set_part(&mut mbr.partition_table[0], 0x80, 0xEF, 1, rest);
    }
    Ok(mbr)
}

} // verus!
