//! FAT12/16/32 EFI system partition images, built in memory.
//!
//! The FAT type is chosen from the size of the content, so that a small EFI
//! system partition uses FAT12 or FAT16 rather than the 255 MiB that FAT32
//! needs at the least.
use crate::bytes::{le16, le32, zeros, push_le16, push_le32, push_zeros, push_slice, overwrite, splice};
use vstd::prelude::*;
use vstd::string::StringSliceAdditionalSpecFns;

verus! {

/// Bytes per sector.
pub const SECTOR: u64 = 512;

/// Bytes per cluster.
pub const CLUSTER: u64 = 4096;

/// Sectors per cluster.
pub const SEC_PER_CLUS: u64 = 8;

/// The three FAT variants.
#[derive(Debug, Clone, Copy, PartialEq, Eq, Structural)]
pub enum FatType {
    Fat12,
    Fat16,
    Fat32,
}

/// Reserved sectors before the first FAT.
pub open spec fn spec_reserved_sectors(ft: FatType) -> u64 {
    match ft {
        FatType::Fat12 | FatType::Fat16 => 1,
        FatType::Fat32 => 32,
    }
}

/// Entries of the fixed root directory (none for FAT32, whose root is a cluster chain).
pub open spec fn spec_root_dir_entries(ft: FatType) -> usize {
    match ft {
        FatType::Fat12 => 224,
        FatType::Fat16 => 512,
        FatType::Fat32 => 0,
    }
}

/// Sectors of the fixed root directory region: 32 bytes per entry, rounded up.
pub open spec fn spec_root_dir_sectors(ft: FatType) -> u64 {
    ((spec_root_dir_entries(ft) * 32 + 511) / 512) as u64
}

/// The value of the first (media) FAT entry.
pub open spec fn spec_eoc_marker(ft: FatType) -> u32 {
    match ft {
        FatType::Fat12 => 0x0FF8,
        FatType::Fat16 => 0xFFF8,
        FatType::Fat32 => 0x0FFF_FFF8,
    }
}

/// The end-of-chain value.
pub open spec fn spec_eoc_chain_end(ft: FatType) -> u32 {
    match ft {
        FatType::Fat12 => 0x0FFF,
        FatType::Fat16 => 0xFFFF,
        FatType::Fat32 => 0x0FFF_FFFF,
    }
}

/// Bits per FAT entry.
pub open spec fn spec_entry_bits(ft: FatType) -> u64 {
    match ft {
        FatType::Fat12 => 12,
        FatType::Fat16 => 16,
        FatType::Fat32 => 32,
    }
}

/// The eight-byte file system type label of the boot sector.
pub open spec fn spec_fstype(ft: FatType) -> Seq<u8> {
    match ft {
        FatType::Fat12 => seq![0x46u8, 0x41, 0x54, 0x31, 0x32, 0x20, 0x20, 0x20],
        FatType::Fat16 => seq![0x46u8, 0x41, 0x54, 0x31, 0x36, 0x20, 0x20, 0x20],
        FatType::Fat32 => seq![0x46u8, 0x41, 0x54, 0x33, 0x32, 0x20, 0x20, 0x20],
    }
}

/// The FAT type that a volume of `clusters` data clusters is read as:
/// FAT12 up to 4084 clusters, FAT16 up to 65524, FAT32 beyond.
pub open spec fn cluster_type(clusters: int) -> FatType {
    if clusters <= 4084 {
        FatType::Fat12
    } else if clusters <= 65524 {
        FatType::Fat16
    } else {
        FatType::Fat32
    }
}

impl FatType {
    /// The smallest FAT type that can address `clusters` data clusters.
    pub fn from_clusters(clusters: usize) -> (r: FatType)
        ensures
            r == cluster_type(clusters as int),
    {
        if clusters <= 4084 {
            FatType::Fat12
        } else if clusters <= 65524 {
            FatType::Fat16
        } else {
            FatType::Fat32
        }
    }

    /// Reserved sectors before the first FAT.
    pub fn reserved_sectors(self) -> (r: u64)
        ensures
            r == spec_reserved_sectors(self),
    {
        match self {
            FatType::Fat12 | FatType::Fat16 => 1,
            FatType::Fat32 => 32,
        }
    }

    /// Entries of the fixed root directory region.
    pub fn root_dir_entries(self) -> (r: usize)
        ensures
            r == spec_root_dir_entries(self),
    {
        match self {
            FatType::Fat12 => 224,
            FatType::Fat16 => 512,
            FatType::Fat32 => 0,
        }
    }

    /// Sectors of the fixed root directory region.
    pub fn root_dir_sectors(self) -> (r: u64)
        ensures
            r == spec_root_dir_sectors(self),
            self == FatType::Fat12 ==> r == 14,
            self == FatType::Fat16 ==> r == 32,
            self == FatType::Fat32 ==> r == 0,
    {
        let e = self.root_dir_entries() as u64;
        (e * 32 + 511) / 512
    }

    /// The value of the first (media) FAT entry.
    pub fn eoc_marker(self) -> (r: u32)
        ensures
            r == spec_eoc_marker(self),
    {
        match self {
            FatType::Fat12 => 0x0FF8,
            FatType::Fat16 => 0xFFF8,
            FatType::Fat32 => 0x0FFF_FFF8,
        }
    }

    /// The end-of-chain value.
    pub fn eoc_chain_end(self) -> (r: u32)
        ensures
            r == spec_eoc_chain_end(self),
    {
        match self {
            FatType::Fat12 => 0x0FFF,
            FatType::Fat16 => 0xFFFF,
            FatType::Fat32 => 0x0FFF_FFFF,
        }
    }

    /// The file system type label of the boot sector ("FAT12   " and so on).
    pub fn fstype_str(self) -> (r: [u8; 8])
        ensures
            r@ == spec_fstype(self),
    {
        let r = match self {
            FatType::Fat12 => [0x46u8, 0x41, 0x54, 0x31, 0x32, 0x20, 0x20, 0x20],
            FatType::Fat16 => [0x46u8, 0x41, 0x54, 0x31, 0x36, 0x20, 0x20, 0x20],
            FatType::Fat32 => [0x46u8, 0x41, 0x54, 0x33, 0x32, 0x20, 0x20, 0x20],
        };
        assert(r@ =~= spec_fstype(self));
        r
    }

    /// Number of bytes one FAT entry occupies on disk: 2 for FAT16, 4 for
    /// FAT32; a FAT12 entry takes a byte and a half, and spans 2 bytes.
    pub fn entry_bytes(self) -> (r: u64)
        ensures
            r == (if self == FatType::Fat32 { 4u64 } else { 2u64 }),
            self != FatType::Fat12 ==> r * 8 == spec_entry_bits(self),
    {
        match self {
            FatType::Fat12 => 2,
            FatType::Fat16 => 2,
            FatType::Fat32 => 4,
        }
    }

    /// Number of bits one FAT entry occupies on disk (12, 16 or 32), which
    /// the layout solver sizes the FATs by.
    pub fn entry_bits(self) -> (r: u64)
        ensures
            r == spec_entry_bits(self),
    {
        match self {
            FatType::Fat12 => 12,
            FatType::Fat16 => 16,
            FatType::Fat32 => 32,
        }
    }

    /// Whether the root directory lives in the cluster heap (FAT32 only).
    pub fn root_is_cluster(self) -> (r: bool)
        ensures
            r == (self == FatType::Fat32),
    {
        match self {
            FatType::Fat32 => true,
            _ => false,
        }
    }
}

} // verus!

verus! {

/// The 11-byte 8.3 name: up to 8 bytes of `name`, then up to 3 bytes of
/// `ext`, each padded with spaces.
pub open spec fn spec_pack_83(name: Seq<u8>, ext: Seq<u8>) -> Seq<u8> {
    Seq::new(
        11,
        |i: int|
            if i < 8 {
                if i < name.len() {
                    name[i]
                } else {
                    0x20u8
                }
            } else if i - 8 < ext.len() {
                ext[i - 8]
            } else {
                0x20u8
            },
    )
}

/// Packs a name and an extension into an 8.3 directory name.
pub fn pack_83(name: &[u8], ext: &[u8]) -> (out: [u8; 11])
    ensures
        out@ == spec_pack_83(name@, ext@),
{
    let mut out = [0x20u8; 11];
    let n = if name.len() < 8 {
        name.len()
    } else {
        8
    };
    let mut i: usize = 0;
    while i < n
        invariant
            n <= 8,
            n <= name@.len(),
            i <= n,
            forall|k: int| 0 <= k < i ==> out@[k] == name@[k],
            forall|k: int| i <= k < 11 ==> out@[k] == 0x20u8,
        decreases n - i,
    {
        out[i] = name[i];
        i = i + 1;
    }
    let e = if ext.len() < 3 {
        ext.len()
    } else {
        3
    };
    let mut j: usize = 0;
    while j < e
        invariant
            n <= 8,
            n == (if name@.len() < 8 { name@.len() } else { 8 }),
            e <= 3,
            e == (if ext@.len() < 3 { ext@.len() } else { 3 }),
            j <= e,
            forall|k: int| 0 <= k < n ==> out@[k] == name@[k],
            forall|k: int| n <= k < 8 ==> out@[k] == 0x20u8,
            forall|k: int| 8 <= k < 8 + j ==> out@[k] == ext@[k - 8],
            forall|k: int| 8 + j <= k < 11 ==> out@[k] == 0x20u8,
        decreases e - j,
    {
        out[8 + j] = ext[j];
        j = j + 1;
    }
    assert(out@ =~= spec_pack_83(name@, ext@));
    out
}

/// One step of the long-file-name checksum: rotate right by one, then add.
pub open spec fn lfn_step(sum: u8, b: u8) -> u8 {
    ((((sum >> 1u8) | (sum << 7u8)) as int + b as int) % 256) as u8
}

/// The long-file-name checksum of the first `n` bytes of `s`.
pub open spec fn spec_lfn_checksum(s: Seq<u8>, n: int) -> u8
    decreases n,
{
    if n <= 0 {
        0
    } else {
        lfn_step(spec_lfn_checksum(s, n - 1), s[n - 1])
    }
}

/// The checksum that binds long-file-name entries to their 8.3 entry.
pub fn lfn_checksum(short: &[u8; 11]) -> (r: u8)
    ensures
        r == spec_lfn_checksum(short@, 11),
{
    let mut sum: u8 = 0;
    let mut i: usize = 0;
    while i < 11
        invariant
            i <= 11,
            sum == spec_lfn_checksum(short@, i as int),
        decreases 11 - i,
    {
        let rot: u8 = (sum >> 1u8) | (sum << 7u8);
        sum = rot.wrapping_add(short[i]);
        i = i + 1;
    }
    sum
}

/// The 32-byte 8.3 directory entry: name, attribute byte, creation date and
/// last-access date 0x21, high and low halves of the first cluster, size.
pub open spec fn spec_entry_83(short: Seq<u8>, attr: u8, first_cluster: u32, file_size: u32) -> Seq<
    u8,
> {
    short + seq![attr] + zeros(4) + le16(0) + le16(0x21) + le16((first_cluster >> 16u32) as u16)
        + zeros(2) + le16(0x21) + le16(first_cluster as u16) + le32(file_size)
}

/// Builds an 8.3 directory entry.
pub fn entry_83(short: &[u8; 11], attr: u8, first_cluster: u32, file_size: u32) -> (e: Vec<u8>)
    ensures
        e@ == spec_entry_83(short@, attr, first_cluster, file_size),
        e@.len() == 32,
{
    let mut e: Vec<u8> = Vec::new();
    push_slice(&mut e, short);
    e.push(attr);
    push_zeros(&mut e, 4);
    push_le16(&mut e, 0);
    push_le16(&mut e, 0x21);
    push_le16(&mut e, (first_cluster >> 16u32) as u16);
    push_zeros(&mut e, 2);
    push_le16(&mut e, 0x21);
    push_le16(&mut e, first_cluster as u16);
    push_le32(&mut e, file_size);
    e
}

/// The names "." and ".." in 8.3 form.
pub open spec fn dot_name() -> Seq<u8> {
    seq![0x2Eu8] + Seq::new(10, |i: int| 0x20u8)
}

pub open spec fn dotdot_name() -> Seq<u8> {
    seq![0x2Eu8, 0x2E] + Seq::new(9, |i: int| 0x20u8)
}

/// The "." and ".." entries of a subdirectory.
pub fn dot_entries(curr: u32, parent: u32) -> (buf: Vec<u8>)
    ensures
        buf@ == spec_entry_83(dot_name(), 0x10, curr, 0) + spec_entry_83(dotdot_name(), 0x10, parent, 0),
        buf@.len() == 64,
{
    let mut n = [0x20u8; 11];
    n[0] = 0x2E;
    assert(n@ =~= dot_name());
    let mut buf = entry_83(&n, 0x10, curr, 0);
    let mut m = [0x20u8; 11];
    m[0] = 0x2E;
    m[1] = 0x2E;
    assert(m@ =~= dotdot_name());
    let mut second = entry_83(&m, 0x10, parent, 0);
    buf.append(&mut second);
    buf
}

/// The volume label entry: label, attribute 0x08, dates 0x21.
pub open spec fn spec_vol_entry(label: Seq<u8>) -> Seq<u8> {
    label + seq![0x08u8] + zeros(4) + le16(0x21) + le16(0x21) + zeros(12)
}

/// Builds the volume label directory entry.
pub fn vol_entry(label: &[u8; 11]) -> (e: Vec<u8>)
    ensures
        e@ == spec_vol_entry(label@),
        e@.len() == 32,
{
    let mut e: Vec<u8> = Vec::new();
    push_slice(&mut e, label);
    e.push(0x08);
    push_zeros(&mut e, 4);
    push_le16(&mut e, 0x21);
    push_le16(&mut e, 0x21);
    push_zeros(&mut e, 12);
    e
}

} // verus!

verus! {

/// `a / b` rounded up.
pub open spec fn cdiv(a: int, b: int) -> int {
    (a + b - 1) / b
}

/// Sectors one FAT needs to describe the clusters of `data` data sectors
/// (plus the two reserved entries), at `bits` bits per entry.
pub open spec fn spec_fat_sectors(data: int, spc: int, bits: int) -> int {
    cdiv(cdiv((cdiv(data, spc) + 2) * bits, 8), 512)
}

/// Data sectors left once the reserved sectors, two FATs of `fs` sectors
/// and the root directory are taken from `total` (at least one).
pub open spec fn spec_data_left(total: int, reserved: int, rds: int, fs: int) -> int {
    let used = reserved + 2 * fs + rds;
    if total - used >= 1 {
        total - used
    } else {
        1
    }
}

/// The layout solver: starting from `data` data sectors, size the FATs for
/// it and shrink the data area to what is left, until it no longer shrinks.
pub open spec fn spec_layout_from(total: int, reserved: int, spc: int, rds: int, bits: int, data: int) -> int
    decreases data,
{
    let new = spec_data_left(total, reserved, rds, spec_fat_sectors(data, spc, bits));
    if data <= 1 || new >= data {
        data
    } else {
        spec_layout_from(total, reserved, spc, rds, bits, new)
    }
}

/// Bounds under which the solver's arithmetic cannot overflow.
pub open spec fn layout_args_ok(total: u64, reserved: u64, spc: u64, rds: u64, bits: u64) -> bool {
    &&& total <= 0x400_0000_0000_0000
    &&& reserved + rds <= total
    &&& 1 <= spc
    &&& bits <= 32
}

proof fn lemma_fat_sectors_bounds(data: int, spc: int, bits: int)
    requires
        0 <= data <= 0x400_0000_0000_0000,
        1 <= spc,
        0 <= bits <= 32,
    ensures
        0 <= spec_fat_sectors(data, spc, bits) <= 0x400_0000_0000_0000,
        cdiv(data, spc) == data / spc + (if data % spc != 0 { 1int } else { 0 }),
        0 <= (cdiv(data, spc) + 2) * bits <= (data + 3) * 32,
{
    let c = cdiv(data, spc);
    assert(0 <= c <= data + 1) by (nonlinear_arith)
        requires
            c == (data + spc - 1) / spc,
            1 <= spc,
            0 <= data,
    ;
    assert(0 <= (c + 2) * bits <= (data + 3) * 32) by (nonlinear_arith)
        requires
            0 <= c <= data + 1,
            0 <= bits <= 32,
    ;
    let q = data / spc;
    let r = data % spc;
    assert(c == q + (if r != 0 { 1int } else { 0 })) by (nonlinear_arith)
        requires
            c == (data + spc - 1) / spc,
            q == data / spc,
            r == data % spc,
            1 <= spc,
            0 <= data,
    {
        assert(data == q * spc + r && 0 <= r < spc) by (nonlinear_arith)
            requires
                q == data / spc,
                r == data % spc,
                1 <= spc,
        ;
        if r == 0 {
            assert((q * spc + spc - 1) / spc == q) by (nonlinear_arith)
                requires
                    1 <= spc,
                    0 <= q,
            ;
        } else {
            assert((q * spc + r + spc - 1) / spc == q + 1) by (nonlinear_arith)
                requires
                    1 <= spc,
                    0 <= q,
                    1 <= r < spc,
            ;
        }
    }
}

/// Iteratively computes `(sectors_per_fat, data_sectors)` for a volume of
/// `total_sectors`, accounting for the space the FATs themselves occupy.
/// `entry_bits` is 12, 16 or 32 according to the FAT type.
pub fn calc_layout(total_sectors: u64, reserved: u64, spc: u64, root_dir_sectors: u64, entry_bits: u64) -> (r: (u64, u64))
    requires
        layout_args_ok(total_sectors, reserved, spc, root_dir_sectors, entry_bits),
    ensures
        r.1 == spec_layout_from(
            total_sectors as int,
            reserved as int,
            spc as int,
            root_dir_sectors as int,
            entry_bits as int,
            total_sectors - reserved - root_dir_sectors,
        ),
        r.0 == spec_fat_sectors(r.1 as int, spc as int, entry_bits as int),
        r.1 <= 1 || spec_data_left(total_sectors as int, reserved as int, root_dir_sectors as int, r.0 as int) >= r.1,
{
    let mut data: u64 = total_sectors - reserved - root_dir_sectors;
    let ghost start: int = data as int;
    loop
        invariant
            layout_args_ok(total_sectors, reserved, spc, root_dir_sectors, entry_bits),
            data <= total_sectors,
            spec_layout_from(total_sectors as int, reserved as int, spc as int, root_dir_sectors as int, entry_bits as int, data as int)
                == spec_layout_from(total_sectors as int, reserved as int, spc as int, root_dir_sectors as int, entry_bits as int, start),
        ensures
            data <= total_sectors,
            data == spec_layout_from(total_sectors as int, reserved as int, spc as int, root_dir_sectors as int, entry_bits as int, start),
        decreases data,
    {
        proof {
            lemma_fat_sectors_bounds(data as int, spc as int, entry_bits as int);
        }
        let entries = data / spc + if data % spc != 0 {
            1
        } else {
            0
        } + 2;
        let fat_bytes = (entries * entry_bits + 7) / 8;
        let fat_sectors = (fat_bytes + 511) / 512;
        assert(fat_sectors == spec_fat_sectors(data as int, spc as int, entry_bits as int));
        let used = reserved + 2 * fat_sectors + root_dir_sectors;
        let left = if total_sectors > used {
            total_sectors - used
        } else {
            0
        };
        let new = if left > 1 {
            left
        } else {
            1
        };
        assert(new == spec_data_left(total_sectors as int, reserved as int, root_dir_sectors as int, fat_sectors as int));
        if data <= 1 || new >= data {
            break;
        }
        data = new;
    }
    proof {
        lemma_fat_sectors_bounds(data as int, spc as int, entry_bits as int);
        lemma_layout_fixed_point(total_sectors as int, reserved as int, spc as int, root_dir_sectors as int, entry_bits as int, start);
    }
    let entries = data / spc + if data % spc != 0 {
        1
    } else {
        0
    } + 2;
    let fat_bytes = (entries * entry_bits + 7) / 8;
    let fat_sectors = (fat_bytes + 511) / 512;
    (fat_sectors, data)
}

/// What the layout solver returns fits: the data area, both FATs, the
/// reserved sectors and the root directory together take no more than the
/// volume, whenever more than one data sector is left.
pub proof fn lemma_layout_fits(total: u64, reserved: u64, spc: u64, rds: u64, bits: u64)
    requires
        layout_args_ok(total, reserved, spc, rds, bits),
    ensures
        ({
            let data = spec_layout_from(total as int, reserved as int, spc as int, rds as int, bits as int, total - reserved - rds);
            let fs = spec_fat_sectors(data, spc as int, bits as int);
            data <= 1 || data + 2 * fs + reserved + rds <= total
        }),
{
    lemma_layout_fixed_point(total as int, reserved as int, spc as int, rds as int, bits as int, total - reserved - rds);
}

proof fn lemma_layout_fixed_point(total: int, reserved: int, spc: int, rds: int, bits: int, data: int)
    ensures
        ({
            let d = spec_layout_from(total, reserved, spc, rds, bits, data);
            d <= 1 || spec_data_left(total, reserved, rds, spec_fat_sectors(d, spc, bits)) >= d
        }),
    decreases data,
{
    let new = spec_data_left(total, reserved, rds, spec_fat_sectors(data, spc, bits));
    if data <= 1 || new >= data {
    } else {
        lemma_layout_fixed_point(total, reserved, spc, rds, bits, new);
    }
}

} // verus!

verus! {

/// Whether FAT12 entry `i` is among the first `m` entries of `fat` and its
/// two bytes lie inside a table of `len` bytes.
pub open spec fn fat12_present(fat: Seq<u32>, len: int, m: int, i: int) -> bool {
    0 <= i < m && i < fat.len() && i + i / 2 + 1 < len
}

/// Byte `j` of a FAT12 table of `len` bytes holding the first `m` entries of
/// `fat`: entries 2k and 2k+1 share the three bytes 3k, 3k+1, 3k+2.
pub open spec fn fat12_byte(fat: Seq<u32>, len: int, m: int, j: int) -> u8 {
    let k = j / 3;
    let a = 2 * k;
    let b = 2 * k + 1;
    if j % 3 == 0 {
        if fat12_present(fat, len, m, a) {
            (fat[a] & 0xFF) as u8
        } else {
            0
        }
    } else if j % 3 == 1 {
        ((if fat12_present(fat, len, m, a) {
            ((fat[a] >> 8u32) & 0xF) as int
        } else {
            0
        }) + (if fat12_present(fat, len, m, b) {
            ((fat[b] & 0xF) << 4u32) as int
        } else {
            0
        })) as u8
    } else {
        if fat12_present(fat, len, m, b) {
            ((fat[b] >> 4u32) & 0xFF) as u8
        } else {
            0
        }
    }
}

/// A FAT12 table of `len` bytes holding `fat`.
pub open spec fn fat12_table(fat: Seq<u32>, len: int) -> Seq<u8> {
    Seq::new(len as nat, |j: int| fat12_byte(fat, len, fat.len() as int, j))
}

/// The little-endian 16-bit encodings of the entries of `fat`, truncated to 16 bits.
pub open spec fn fat16_bytes(fat: Seq<u32>) -> Seq<u8>
    decreases fat.len(),
{
    if fat.len() == 0 {
        Seq::empty()
    } else {
        fat16_bytes(fat.drop_last()) + le16(fat.last() as u16)
    }
}

/// A FAT16 table of `len` bytes: every entry whose two bytes fit, then zeros.
pub open spec fn fat16_table(fat: Seq<u32>, len: int) -> Seq<u8> {
    let m = if fat.len() < len / 2 { fat.len() as int } else { len / 2 };
    fat16_bytes(fat.take(m)) + zeros((len - 2 * m) as nat)
}

/// The little-endian 32-bit encodings of the entries of `fat`.
pub open spec fn fat32_bytes(fat: Seq<u32>) -> Seq<u8>
    decreases fat.len(),
{
    if fat.len() == 0 {
        Seq::empty()
    } else {
        fat32_bytes(fat.drop_last()) + le32(fat.last())
    }
}

/// The bytes written for a FAT32 table of `len` bytes: the encoded entries,
/// cut off at `len`.
pub open spec fn fat32_table(fat: Seq<u32>, len: int) -> Seq<u8> {
    let b = fat32_bytes(fat);
    if b.len() <= len { b } else { b.take(len) }
}

/// The table bytes for `fat` in the on-disk format of `ft`.
pub open spec fn fat_table(fat: Seq<u32>, ft: FatType, len: int) -> Seq<u8> {
    match ft {
        FatType::Fat12 => fat12_table(fat, len),
        FatType::Fat16 => fat16_table(fat, len),
        FatType::Fat32 => fat32_table(fat, len),
    }
}

proof fn lemma_fat16_bytes_len(fat: Seq<u32>)
    ensures
        fat16_bytes(fat).len() == 2 * fat.len(),
    decreases fat.len(),
{
    if fat.len() > 0 {
        lemma_fat16_bytes_len(fat.drop_last());
    }
}

proof fn lemma_fat32_bytes_len(fat: Seq<u32>)
    ensures
        fat32_bytes(fat).len() == 4 * fat.len(),
    decreases fat.len(),
{
    if fat.len() > 0 {
        lemma_fat32_bytes_len(fat.drop_last());
    }
}

proof fn lemma_fat12_even_step(v: u32)
    ensures
        (((v & 0x0FFF) as u16) as u8) == ((v & 0xFF) as u8),
        ((((v & 0x0FFF) as u16) >> 8u16) & 0x0F) as u8 == ((v >> 8u32) & 0xF) as u8,
        ((v >> 8u32) & 0xF) < 16,
{
    assert((((v & 0x0FFF) as u16) as u8) == ((v & 0xFF) as u8)) by (bit_vector);
    assert(((((v & 0x0FFF) as u16) >> 8u16) & 0x0F) as u8 == ((v >> 8u32) & 0xF) as u8)
        by (bit_vector);
    assert(((v >> 8u32) & 0xF) < 16) by (bit_vector);
}

proof fn lemma_fat12_odd_step(w: u32, v: u32)
    ensures
        ((((w >> 8u32) & 0xF) as u8) | ((((v & 0x0FFF) as u16) & 0x0F) as u8) << 4u8) == (((w
            >> 8u32) & 0xF) + ((v & 0xF) << 4u32)) as u8,
        ((w >> 8u32) & 0xF) + ((v & 0xF) << 4u32) < 256,
        (((v & 0x0FFF) as u16) >> 4u16) as u8 == ((v >> 4u32) & 0xFF) as u8,
{
    assert(((((w >> 8u32) & 0xF) as u8) | ((((v & 0x0FFF) as u16) & 0x0F) as u8) << 4u8) == (((w
        >> 8u32) & 0xF) + ((v & 0xF) << 4u32)) as u8) by (bit_vector);
    assert(((w >> 8u32) & 0xF) + ((v & 0xF) << 4u32) < 256) by (bit_vector);
    assert((((v & 0x0FFF) as u16) >> 4u16) as u8 == ((v >> 4u32) & 0xFF) as u8) by (bit_vector);
}

/// Packs 12-bit FAT entries: entries 2k and 2k+1 share three bytes.
fn fat12_pack(fat: &Vec<u32>, len: usize) -> (bytes: Vec<u8>)
    requires
        fat@.len() <= 0x4000_0000,
    ensures
        bytes@ == fat12_table(fat@, len as int),
{
    let mut bytes: Vec<u8> = Vec::new();
    push_zeros(&mut bytes, len);
    let mut i: usize = 0;
    assert forall|j: int| 0 <= j < len implies bytes@[j] == fat12_byte(fat@, len as int, 0, j) by {}
    while i < fat.len()
        invariant
            i <= fat@.len(),
            fat@.len() <= 0x4000_0000,
            bytes@.len() == len,
            forall|j: int| 0 <= j < len ==> bytes@[j] == fat12_byte(fat@, len as int, i as int, j),
        decreases fat@.len() - i,
    {
        let byte_off = i + i / 2;
        if byte_off + 1 >= len {
            assert forall|j: int| 0 <= j < len implies bytes@[j] == fat12_byte(
                fat@,
                len as int,
                fat@.len() as int,
                j,
            ) by {
                let k = j / 3;
                assert(2 * k >= i ==> 2 * k + (2 * k) / 2 + 1 >= len);
                assert(2 * k + 1 >= i ==> 2 * k + 1 + (2 * k + 1) / 2 + 1 >= len);
            }
            assert(bytes@ =~= fat12_table(fat@, len as int));
            return bytes;
        }
        let v = fat[i];
        let val: u16 = (v & 0x0FFF) as u16;
        let ghost before = bytes@;
        if i % 2 == 0 {
            let b1: u8 = ((val >> 8u16) & 0x0F) as u8;
            bytes.set(byte_off, val as u8);
            bytes.set(byte_off + 1, b1);
            proof {
                lemma_fat12_even_step(v);
            }
        } else {
            let old1 = bytes[byte_off];
            bytes.set(byte_off, old1 | (((val & 0x0F) as u8) << 4u8));
            bytes.set(byte_off + 1, (val >> 4u16) as u8);
            proof {
                lemma_fat12_odd_step(fat@[i - 1], v);
            }
        }
        i = i + 1;
        assert forall|j: int| 0 <= j < len implies bytes@[j] == fat12_byte(
            fat@,
            len as int,
            i as int,
            j,
        ) by {
            if j == byte_off || j == byte_off + 1 {
            } else {
                assert(bytes@[j] == before[j]);
            }
        }
    }
    assert(bytes@ =~= fat12_table(fat@, len as int));
    bytes
}

} // verus!

verus! {

/// FAT12 entry `i` as a FAT driver reads it from table bytes `t`.
pub open spec fn fat12_get(t: Seq<u8>, i: int) -> u32 {
    let off = i + i / 2;
    if i % 2 == 0 {
        ((t[off] as u32) | (((t[off + 1] & 0xF) as u32) << 8u32)) as u32
    } else {
        (((t[off] >> 4u8) as u32) | ((t[off + 1] as u32) << 4u32)) as u32
    }
}

/// Every FAT12 entry that the table holds reads back as the low twelve
/// bits of the entry that was packed.
pub proof fn lemma_fat12_read_back(fat: Seq<u32>, len: int, i: int)
    requires
        fat12_present(fat, len, fat.len() as int, i),
    ensures
        fat12_get(fat12_table(fat, len), i) == fat[i] & 0xFFF,
{
    let t = fat12_table(fat, len);
    let m = fat.len() as int;
    let off = i + i / 2;
    let x = fat[i];
    if i % 2 == 0 {
        assert(off % 3 == 0 && off / 3 == i / 2);
        assert((off + 1) % 3 == 1 && (off + 1) / 3 == i / 2);
        let b0 = t[off];
        let b1 = t[off + 1];
        assert(b0 == (x & 0xFF) as u8);
        if fat12_present(fat, len, m, i + 1) {
            let y = fat[i + 1];
            assert(((x >> 8u32) & 0xF) + ((y & 0xF) << 4u32) < 256) by (bit_vector);
            assert(b1 == (((x >> 8u32) & 0xF) + ((y & 0xF) << 4u32)) as u8);
            assert(((b0 as u32) | (((b1 & 0xF) as u32) << 8u32)) == x & 0xFFF) by (bit_vector)
                requires
                    b0 == (x & 0xFF) as u8,
                    b1 == (((x >> 8u32) & 0xF) + ((y & 0xF) << 4u32)) as u8,
            ;
        } else {
            assert(((x >> 8u32) & 0xF) < 256) by (bit_vector);
            assert(b1 == ((x >> 8u32) & 0xF) as u8);
            assert(((b0 as u32) | (((b1 & 0xF) as u32) << 8u32)) == x & 0xFFF) by (bit_vector)
                requires
                    b0 == (x & 0xFF) as u8,
                    b1 == ((x >> 8u32) & 0xF) as u8,
            ;
        }
    } else {
        assert(off % 3 == 1 && off / 3 == (i - 1) / 2);
        assert((off + 1) % 3 == 2 && (off + 1) / 3 == (i - 1) / 2);
        let w = fat[i - 1];
        assert(fat12_present(fat, len, m, i - 1));
        let b1 = t[off];
        let b2 = t[off + 1];
        assert(((w >> 8u32) & 0xF) + ((x & 0xF) << 4u32) < 256) by (bit_vector);
        assert(b1 == (((w >> 8u32) & 0xF) + ((x & 0xF) << 4u32)) as u8);
        assert(b2 == ((x >> 4u32) & 0xFF) as u8);
        assert((((b1 >> 4u8) as u32) | ((b2 as u32) << 4u32)) == x & 0xFFF) by (bit_vector)
            requires
                b1 == (((w >> 8u32) & 0xF) + ((x & 0xF) << 4u32)) as u8,
                b2 == ((x >> 4u32) & 0xFF) as u8,
        ;
    }
}

/// Packs 16-bit FAT entries.
fn fat16_pack(fat: &Vec<u32>, len: usize) -> (bytes: Vec<u8>)
    ensures
        bytes@ == fat16_table(fat@, len as int),
{
    let m: usize = if fat.len() < len / 2 {
        fat.len()
    } else {
        len / 2
    };
    let mut bytes: Vec<u8> = Vec::new();
    let mut i: usize = 0;
    while i < m
        invariant
            i <= m,
            m <= fat@.len(),
            bytes@ == fat16_bytes(fat@.take(i as int)),
        decreases m - i,
    {
        push_le16(&mut bytes, fat[i] as u16);
        i = i + 1;
        assert(fat@.take(i as int).drop_last() =~= fat@.take(i - 1));
    }
    proof {
        lemma_fat16_bytes_len(fat@.take(m as int));
    }
    push_zeros(&mut bytes, len - 2 * m);
    bytes
}

/// Packs 32-bit FAT entries, cut off at `len` bytes.
fn fat32_pack(fat: &Vec<u32>, len: usize) -> (bytes: Vec<u8>)
    ensures
        bytes@ == fat32_table(fat@, len as int),
{
    let mut bytes: Vec<u8> = Vec::new();
    let mut i: usize = 0;
    while i < fat.len()
        invariant
            i <= fat@.len(),
            bytes@ == fat32_bytes(fat@.take(i as int)),
        decreases fat@.len() - i,
    {
        push_le32(&mut bytes, fat[i]);
        i = i + 1;
        assert(fat@.take(i as int).drop_last() =~= fat@.take(i - 1));
    }
    assert(fat@.take(fat@.len() as int) =~= fat@);
    bytes.truncate(len);
    bytes
}

/// Serialises the FAT and writes it twice, as FAT #1 after the reserved
/// sectors and FAT #2 right after it.
pub fn write_fat_tables(img: &mut Vec<u8>, fat: &Vec<u32>, fat_type: FatType, sectors_per_fat: u64, reserved: u64)
    requires
        (reserved + 2 * sectors_per_fat) * 512 <= old(img)@.len(),
        old(img)@.len() <= usize::MAX,
        fat@.len() <= 0x4000_0000,
    ensures
        final(img)@ == splice(
            splice(old(img)@, reserved * 512, fat_table(fat@, fat_type, sectors_per_fat * 512)),
            (reserved + sectors_per_fat) * 512,
            fat_table(fat@, fat_type, sectors_per_fat * 512),
        ),
{
    let size = (sectors_per_fat * SECTOR) as usize;
    let fat0_off = (reserved * SECTOR) as usize;
    let fat1_off = fat0_off + size;
    let bytes = match fat_type {
        FatType::Fat32 => fat32_pack(fat, size),
        FatType::Fat16 => fat16_pack(fat, size),
        FatType::Fat12 => fat12_pack(fat, size),
    };
    proof {
        lemma_fat16_bytes_len(fat@.take(if fat@.len() < size / 2 { fat@.len() as int } else { (size / 2) as int }));
        lemma_fat32_bytes_len(fat@);
    }
    assert(bytes@.len() <= size);
    overwrite(img, fat0_off, bytes.as_slice());
    overwrite(img, fat1_off, bytes.as_slice());
}

} // verus!

verus! {

/// "MSWIN4.1", the OEM name of the boot sector.
pub open spec fn oem_name() -> Seq<u8> {
    seq![0x4Du8, 0x53, 0x57, 0x49, 0x4E, 0x34, 0x2E, 0x31]
}

/// "EFI        ", the volume label.
pub open spec fn efi_label() -> Seq<u8> {
    seq![0x45u8, 0x46, 0x49, 0x20, 0x20, 0x20, 0x20, 0x20, 0x20, 0x20, 0x20]
}

/// The 16-bit total-sectors field: the count when it fits, else 0.
pub open spec fn total16(total: u32) -> u16 {
    if total < 65536 { total as u16 } else { 0 }
}

/// The first 90 bytes of the boot sector (jump, OEM name and BIOS
/// parameter block) of a volume of type `ft`.
pub open spec fn spec_bpb(ft: FatType, total: u32, fat_sectors: u32, hidden: u32, serial: u32, root_entries: u16) -> Seq<u8> {
    let common = seq![0xEBu8, 0x58, 0x90] + oem_name() + le16(512) + seq![8u8] + le16(
        spec_reserved_sectors(ft) as u16,
    ) + seq![2u8] + le16(root_entries) + le16(total16(total)) + seq![0xF8u8];
    match ft {
        FatType::Fat32 => common + le16(0) + le16(32) + le16(64) + le32(hidden) + le32(total) + le32(
            fat_sectors,
        ) + le16(0) + le16(0) + le32(2) + le16(1) + le16(6) + zeros(12) + seq![0x80u8, 0, 0x29]
            + le32(serial) + efi_label() + spec_fstype(ft),
        _ => common + le16(fat_sectors as u16) + le16(32) + le16(64) + le32(hidden) + le32(0) + seq![
            0x80u8,
            0,
            0x29,
        ] + le32(serial) + efi_label() + spec_fstype(ft) + zeros(28),
    }
}

/// The part of the parameter block that all FAT types share (bytes 0..22).
pub open spec fn spec_bpb_common(ft: FatType, total: u32, root_entries: u16) -> Seq<u8> {
    seq![0xEBu8, 0x58, 0x90] + oem_name() + le16(512) + seq![8u8] + le16(
        spec_reserved_sectors(ft) as u16,
    ) + seq![2u8] + le16(root_entries) + le16(total16(total)) + seq![0xF8u8]
}

fn bpb_common(fat_type: FatType, total_sectors: u32, root_dir_entries: u16) -> (b: Vec<u8>)
    ensures
        b@ == spec_bpb_common(fat_type, total_sectors, root_dir_entries),
{
    let mut b: Vec<u8> = Vec::new();
    b.push(0xEB);
    b.push(0x58);
    b.push(0x90);
    let oem: [u8; 8] = [0x4D, 0x53, 0x57, 0x49, 0x4E, 0x34, 0x2E, 0x31];
    assert(oem@ =~= oem_name());
    push_slice(&mut b, &oem);
    push_le16(&mut b, 512);
    b.push(SEC_PER_CLUS as u8);
    push_le16(&mut b, fat_type.reserved_sectors() as u16);
    b.push(2);
    push_le16(&mut b, root_dir_entries);
    let t16: u16 = if total_sectors < 65536 {
        total_sectors as u16
    } else {
        0
    };
    push_le16(&mut b, t16);
    b.push(0xF8);
    assert(b@ =~= spec_bpb_common(fat_type, total_sectors, root_dir_entries));
    b
}

fn efi_label_bytes() -> (label: [u8; 11])
    ensures
        label@ == efi_label(),
{
    let label: [u8; 11] = [0x45, 0x46, 0x49, 0x20, 0x20, 0x20, 0x20, 0x20, 0x20, 0x20, 0x20];
    assert(label@ =~= efi_label());
    label
}

/// Builds the 90-byte parameter block.
fn bpb_bytes(fat_type: FatType, total_sectors: u32, fat_sectors: u32, hidden: u32, serial: u32, root_dir_entries: u16) -> (b: Vec<u8>)
    ensures
        b@ == spec_bpb(fat_type, total_sectors, fat_sectors, hidden, serial, root_dir_entries),
        b@.len() == 90,
{
    let mut b = bpb_common(fat_type, total_sectors, root_dir_entries);
    let ghost c = b@;
    let label = efi_label_bytes();
    let fstype = fat_type.fstype_str();
    match fat_type {
        FatType::Fat32 => {
            push_le16(&mut b, 0);
            push_le16(&mut b, 32);
            push_le16(&mut b, 64);
            push_le32(&mut b, hidden);
            push_le32(&mut b, total_sectors);
            push_le32(&mut b, fat_sectors);
            push_le16(&mut b, 0);
            push_le16(&mut b, 0);
            push_le32(&mut b, 2);
            push_le16(&mut b, 1);
            push_le16(&mut b, 6);
            push_zeros(&mut b, 12);
            b.push(0x80);
            b.push(0);
            b.push(0x29);
            push_le32(&mut b, serial);
            push_slice(&mut b, &label);
            push_slice(&mut b, &fstype);
            assert(b@ =~= c + le16(0) + le16(32) + le16(64) + le32(hidden) + le32(total_sectors) + le32(
                fat_sectors,
            ) + le16(0) + le16(0) + le32(2) + le16(1) + le16(6) + zeros(12) + seq![0x80u8, 0, 0x29]
                + le32(serial) + efi_label() + spec_fstype(fat_type));
        },
        _ => {
            push_le16(&mut b, fat_sectors as u16);
            push_le16(&mut b, 32);
            push_le16(&mut b, 64);
            push_le32(&mut b, hidden);
            push_le32(&mut b, 0);
            b.push(0x80);
            b.push(0);
            b.push(0x29);
            push_le32(&mut b, serial);
            push_slice(&mut b, &label);
            push_slice(&mut b, &fstype);
            push_zeros(&mut b, 28);
            assert(b@ =~= c + le16(fat_sectors as u16) + le16(32) + le16(64) + le32(hidden) + le32(0)
                + seq![0x80u8, 0, 0x29] + le32(serial) + efi_label() + spec_fstype(fat_type) + zeros(
                28,
            ));
        },
    }
    b
}

/// Writes the boot sector at byte `off`: the 90-byte parameter block and
/// the 0x55 0xAA signature at bytes 510 and 511.
pub fn write_bpb(
    img: &mut Vec<u8>,
    off: u64,
    fat_type: FatType,
    total_sectors: u32,
    fat_sectors: u32,
    hidden: u32,
    serial: u32,
    root_dir_entries: u16,
)
    requires
        off + 512 <= old(img)@.len(),
    ensures
        final(img)@ == splice(
            splice(old(img)@, off as int, spec_bpb(fat_type, total_sectors, fat_sectors, hidden, serial, root_dir_entries)),
            off + 510,
            le16(0xAA55),
        ),
{
    let len = img.len();
    let off = off as usize;
    let b = bpb_bytes(fat_type, total_sectors, fat_sectors, hidden, serial, root_dir_entries);
    overwrite(img, off, b.as_slice());
    let mut sig: Vec<u8> = Vec::new();
    push_le16(&mut sig, 0xAA55);
    overwrite(img, off + 510, sig.as_slice());
}

/// The FSInfo sector: lead and structure signatures, free cluster count,
/// next free cluster hint and trail signature.
pub open spec fn spec_fsinfo(free: u32, next: u32) -> Seq<u8> {
    le32(0x4161_5252) + zeros(480) + le32(0x6141_7272) + le32(free) + le32(next) + zeros(12) + le32(
        0xAA55_0000,
    )
}

/// Writes the FSInfo sector at sector `sector`.
pub fn write_fsinfo(img: &mut Vec<u8>, sector: u64, free: u32, next: u32)
    requires
        (sector + 1) * 512 <= old(img)@.len(),
    ensures
        final(img)@ == splice(old(img)@, sector * 512, spec_fsinfo(free, next)),
{
    let len = img.len();
    let off = (sector * SECTOR) as usize;
    let mut buf: Vec<u8> = Vec::new();
    push_le32(&mut buf, 0x4161_5252);
    push_zeros(&mut buf, 480);
    push_le32(&mut buf, 0x6141_7272);
    push_le32(&mut buf, free);
    push_le32(&mut buf, next);
    push_zeros(&mut buf, 12);
    push_le32(&mut buf, 0xAA55_0000);
    overwrite(img, off, buf.as_slice());
}

} // verus!

verus! {

/// The chars of `s`, collected.
pub fn collect_chars(s: &str) -> (v: Vec<char>)
    ensures
        v@ == s@,
{
    let mut v: Vec<char> = Vec::new();
    for c in it: s.chars()
        invariant
            v@ == it.seq().take(it.index() as int),
    {
        v.push(c);
    }
    assert(v@ =~= s@);
    v
}

} // verus!

verus! {

/// The UTF-16 code units of `c`: one unit below U+10000, else a surrogate pair.
pub open spec fn utf16_of_char(c: char) -> Seq<u16> {
    let v = c as u32;
    if v < 0x1_0000 {
        seq![v as u16]
    } else {
        let u = (v - 0x1_0000) as u32;
        seq![(0xD800 + (u >> 10u32)) as u16, (0xDC00 + (u & 0x3FF)) as u16]
    }
}

/// The UTF-16 encoding of `s`.
pub open spec fn utf16(s: Seq<char>) -> Seq<u16>
    decreases s.len(),
{
    if s.len() == 0 {
        Seq::empty()
    } else {
        utf16(s.drop_last()) + utf16_of_char(s.last())
    }
}

proof fn lemma_utf16_len(s: Seq<char>)
    ensures
        utf16(s).len() <= 2 * s.len(),
    decreases s.len(),
{
    if s.len() > 0 {
        lemma_utf16_len(s.drop_last());
    }
}

/// Encodes chars as UTF-16 code units.
pub(crate) fn encode_utf16(s: &Vec<char>) -> (u: Vec<u16>)
    ensures
        u@ == utf16(s@),
{
    let mut u: Vec<u16> = Vec::new();
    let mut i: usize = 0;
    while i < s.len()
        invariant
            i <= s@.len(),
            u@ == utf16(s@.take(i as int)),
        decreases s@.len() - i,
    {
        let c = s[i];
        let v = c as u32;
        if v < 0x1_0000 {
            u.push(v as u16);
        } else {
            let w = v - 0x1_0000;
            assert(w >> 10u32 <= 0x3F_FFFF) by (bit_vector);
            assert(w & 0x3FF <= 0x3FF) by (bit_vector);
            u.push((0xD800 + (w >> 10u32)) as u16);
            u.push((0xDC00 + (w & 0x3FF)) as u16);
        }
        i = i + 1;
        assert(s@.take(i as int).drop_last() =~= s@.take(i - 1));
        assert(u@ =~= utf16(s@.take(i as int)));
    }
    assert(s@.take(s@.len() as int) =~= s@);
    u
}

/// Whether `c` may stand in a name that needs no long-file-name entries.
pub open spec fn plain_char(c: char) -> bool {
    ('A' <= c <= 'Z') || ('0' <= c <= '9') || c == '_'
}

/// A name needs no long-file-name entries when it has at most 12 bytes and
/// only upper-case ASCII letters, digits and underscores (so no dot).
pub open spec fn plain_name(name: Seq<char>, byte_len: int) -> bool {
    byte_len <= 12 && forall|i: int| 0 <= i < name.len() ==> plain_char(#[trigger] name[i])
}

/// The little-endian bytes of a sequence of 16-bit units.
pub open spec fn units_le(u: Seq<u16>) -> Seq<u8>
    decreases u.len(),
{
    if u.len() == 0 {
        Seq::empty()
    } else {
        units_le(u.drop_last()) + le16(u.last())
    }
}

/// The name units of a long file name: the UTF-16 units, a 0x0000
/// terminator, then 0xFFFF up to a multiple of 13.
pub open spec fn lfn_units(u: Seq<u16>) -> Seq<u16> {
    let num = cdiv(u.len() + 1int, 13);
    u + seq![0u16] + Seq::new((num * 13 - u.len() - 1) as nat, |i: int| 0xFFFFu16)
}

/// Long-file-name entry number `i` (of `num`): sequence number (0x40 on the
/// last), 13 name units spread over three fields, attribute 0x0F, checksum.
pub open spec fn lfn_entry(p: Seq<u16>, i: int, num: int, chk: u8) -> Seq<u8> {
    let seq_byte = ((i + 1) as u8) | (if i == num - 1 { 0x40u8 } else { 0u8 });
    seq![seq_byte] + units_le(p.subrange(13 * i, 13 * i + 5)) + seq![0x0Fu8, 0, chk] + units_le(
        p.subrange(13 * i + 5, 13 * i + 11),
    ) + seq![0u8, 0] + units_le(p.subrange(13 * i + 11, 13 * i + 13))
}

/// The first `j` long-file-name entries as they are stored: the highest
/// entry number first.
pub open spec fn lfn_entries(p: Seq<u16>, num: int, chk: u8, j: int) -> Seq<u8>
    decreases j,
{
    if j <= 0 {
        Seq::empty()
    } else {
        lfn_entries(p, num, chk, j - 1) + lfn_entry(p, num - j, num, chk)
    }
}

/// The long-file-name entries of `name` whose 8.3 name is `short`.
pub open spec fn spec_lfn(name: Seq<char>, short: Seq<u8>) -> Seq<u8> {
    let p = lfn_units(utf16(name));
    let num = cdiv(utf16(name).len() + 1int, 13);
    lfn_entries(p, num, spec_lfn_checksum(short, 11), num)
}

/// The bytes of UTF-16 units are two per unit, each unit little-endian.
pub proof fn lemma_units_le(u: Seq<u16>)
    ensures
        units_le(u).len() == 2 * u.len(),
        forall|t: int| 0 <= t < u.len() ==> units_le(u).subrange(2 * t, 2 * t + 2) == le16(#[trigger] u[t]),
    decreases u.len(),
{
    if u.len() > 0 {
        let w = u.drop_last();
        lemma_units_le(w);
        assert forall|t: int| 0 <= t < u.len() implies units_le(u).subrange(2 * t, 2 * t + 2) == le16(#[trigger] u[t]) by {
            if t < w.len() {
                assert(units_le(u).subrange(2 * t, 2 * t + 2) =~= units_le(w).subrange(2 * t, 2 * t + 2));
                assert(w[t] == u[t]);
            } else {
                assert(units_le(u).subrange(2 * t, 2 * t + 2) =~= le16(u.last()));
            }
        }
    }
}

proof fn lemma_lfn_entry_len(p: Seq<u16>, i: int, num: int, chk: u8)
    requires
        0 <= i,
        13 * i + 13 <= p.len(),
    ensures
        lfn_entry(p, i, num, chk).len() == 32,
{
    lemma_units_le(p.subrange(13 * i, 13 * i + 5));
    lemma_units_le(p.subrange(13 * i + 5, 13 * i + 11));
    lemma_units_le(p.subrange(13 * i + 11, 13 * i + 13));
}

proof fn lemma_lfn_entries(p: Seq<u16>, num: int, chk: u8, j: int)
    requires
        0 <= j <= num,
        13 * num <= p.len(),
    ensures
        lfn_entries(p, num, chk, j).len() == 32 * j,
        forall|k: int|
            0 <= k < j ==> #[trigger] lfn_entries(p, num, chk, j).subrange(32 * k, 32 * k + 32) == lfn_entry(
                p,
                num - 1 - k,
                num,
                chk,
            ),
    decreases j,
{
    if j > 0 {
        lemma_lfn_entries(p, num, chk, j - 1);
        lemma_lfn_entry_len(p, num - j, num, chk);
        let a = lfn_entries(p, num, chk, j - 1);
        let e = lfn_entry(p, num - j, num, chk);
        assert forall|k: int| 0 <= k < j implies #[trigger] lfn_entries(p, num, chk, j).subrange(32 * k, 32 * k + 32)
            == lfn_entry(p, num - 1 - k, num, chk) by {
            if k < j - 1 {
                assert((a + e).subrange(32 * k, 32 * k + 32) =~= a.subrange(32 * k, 32 * k + 32));
            } else {
                assert((a + e).subrange(32 * k, 32 * k + 32) =~= e);
            }
        }
    }
}

/// The layout of the long-name entries of `name`: the name's UTF-16
/// units, a 0x0000 and 0xFFFF padding fill `num` runs of 13 units; the
/// entries take 32 bytes each, stored from the last run to the first; the
/// k-th stored entry holds run `num - 1 - k`: its sequence number (with
/// 0x40 on the first stored), attribute 0x0F, type 0, the checksum of the
/// 8.3 name, a zero cluster, and the run's units little-endian at bytes 1,
/// 14 and 28.
pub proof fn lemma_lfn_layout(name: Seq<char>, short: Seq<u8>)
    ensures
        ({
            let u = utf16(name);
            let num = cdiv(u.len() + 1int, 13);
            let p = lfn_units(u);
            let chk = spec_lfn_checksum(short, 11);
            let lfn = spec_lfn(name, short);
            &&& num >= 1
            &&& p.len() == 13 * num
            &&& p.take(u.len() as int) == u
            &&& p[u.len() as int] == 0
            &&& forall|t: int| u.len() < t < p.len() ==> #[trigger] p[t] == 0xFFFF
            &&& lfn.len() == 32 * num
            &&& forall|k: int|
                0 <= k < num ==> {
                    let e = #[trigger] lfn.subrange(32 * k, 32 * k + 32);
                    let i = num - 1 - k;
                    &&& e[0] == ((i + 1) as u8) | (if k == 0 { 0x40u8 } else { 0u8 })
                    &&& e[11] == 0x0F
                    &&& e[12] == 0
                    &&& e[13] == chk
                    &&& e[26] == 0
                    &&& e[27] == 0
                    &&& e.subrange(1, 11) == units_le(p.subrange(13 * i, 13 * i + 5))
                    &&& e.subrange(14, 26) == units_le(p.subrange(13 * i + 5, 13 * i + 11))
                    &&& e.subrange(28, 32) == units_le(p.subrange(13 * i + 11, 13 * i + 13))
                }
        }),
{
    let u = utf16(name);
    let a: int = u.len() + 1int;
    let num = cdiv(a, 13);
    assert(num * 13 >= a && num >= 1) by (nonlinear_arith)
        requires
            num == (a + 12) / 13,
            a >= 1,
    ;
    let p = lfn_units(u);
    assert(p.len() == 13 * num);
    assert(p.take(u.len() as int) =~= u);
    let chk = spec_lfn_checksum(short, 11);
    lemma_lfn_entries(p, num, chk, num);
    let lfn = spec_lfn(name, short);
    assert forall|k: int| 0 <= k < num implies {
        let e = #[trigger] lfn.subrange(32 * k, 32 * k + 32);
        let i = num - 1 - k;
        &&& e[0] == ((i + 1) as u8) | (if k == 0 { 0x40u8 } else { 0u8 })
        &&& e[11] == 0x0F
        &&& e[12] == 0
        &&& e[13] == chk
        &&& e[26] == 0
        &&& e[27] == 0
        &&& e.subrange(1, 11) == units_le(p.subrange(13 * i, 13 * i + 5))
        &&& e.subrange(14, 26) == units_le(p.subrange(13 * i + 5, 13 * i + 11))
        &&& e.subrange(28, 32) == units_le(p.subrange(13 * i + 11, 13 * i + 13))
    } by {
        let i = num - 1 - k;
        let e = lfn.subrange(32 * k, 32 * k + 32);
        assert(e == lfn_entry(p, i, num, chk));
        let x = units_le(p.subrange(13 * i, 13 * i + 5));
        let y = units_le(p.subrange(13 * i + 5, 13 * i + 11));
        let z = units_le(p.subrange(13 * i + 11, 13 * i + 13));
        lemma_units_le(p.subrange(13 * i, 13 * i + 5));
        lemma_units_le(p.subrange(13 * i + 5, 13 * i + 11));
        lemma_units_le(p.subrange(13 * i + 11, 13 * i + 13));
        assert(e.subrange(1, 11) =~= x);
        assert(e.subrange(14, 26) =~= y);
        assert(e.subrange(28, 32) =~= z);
        assert(i == num - 1 <==> k == 0);
    }
}

fn push_units_le(v: &mut Vec<u8>, u: &Vec<u16>, a: usize, b: usize)
    requires
        a <= b <= u@.len(),
    ensures
        final(v)@ == old(v)@ + units_le(u@.subrange(a as int, b as int)),
{
    let ghost start = old(v)@;
    let mut i = a;
    while i < b
        invariant
            a <= i <= b,
            b <= u@.len(),
            v@ == start + units_le(u@.subrange(a as int, i as int)),
        decreases b - i,
    {
        push_le16(v, u[i]);
        i = i + 1;
        assert(u@.subrange(a as int, i as int).drop_last() =~= u@.subrange(a as int, i - 1));
        assert(v@ =~= start + units_le(u@.subrange(a as int, i as int)));
    }
}

/// Long-file-name entries for `name` followed by its 8.3 entry, or `None`
/// when the name is plain enough for the 8.3 entry alone.
pub fn make_lfn(name: &str, short: &[u8; 11], attr: u8, first_cluster: u32, file_size: u32) -> (r:
    Option<(Vec<u8>, Vec<u8>)>)
    requires
        name@.len() <= 0x100_0000,
    ensures
        plain_name(name@, name.spec_bytes().len() as int) ==> r is None,
        !plain_name(name@, name.spec_bytes().len() as int) ==> (r matches Some((lfn, sfn)) && lfn@
            == spec_lfn(name@, short@) && sfn@ == spec_entry_83(
            short@,
            attr,
            first_cluster,
            file_size,
        )),
{
    let chars = collect_chars(name);
    let mut all_plain = true;
    let mut i: usize = 0;
    while i < chars.len()
        invariant
            i <= chars@.len(),
            all_plain == (forall|k: int| 0 <= k < i ==> plain_char(#[trigger] chars@[k])),
        decreases chars@.len() - i,
    {
        let c = chars[i];
        if !(('A' <= c && c <= 'Z') || ('0' <= c && c <= '9') || c == '_') {
            all_plain = false;
        }
        i = i + 1;
    }
    let name_bytes = name.as_bytes();
    if name_bytes.len() <= 12 && all_plain {
        return None;
    }
    let chk = lfn_checksum(short);
    let mut units = encode_utf16(&chars);
    proof {
        lemma_utf16_len(chars@);
    }
    let len = units.len();
    let num = (len + 1 + 12) / 13;
    let ghost u0 = units@;
    units.push(0);
    while units.len() < num * 13
        invariant
            len + 1 <= units@.len() <= num * 13,
            num * 13 <= 0x400_0000,
            units@ == u0 + seq![0u16] + Seq::new((units@.len() - len - 1) as nat, |t: int| 0xFFFFu16),
        decreases num * 13 - units@.len(),
    {
        units.push(0xFFFF);
        assert(units@ =~= u0 + seq![0u16] + Seq::new((units@.len() - len - 1) as nat, |t: int| 0xFFFFu16));
    }
    assert(units@ =~= lfn_units(u0));
    let mut lfn: Vec<u8> = Vec::new();
    let mut j: usize = 0;
    while j < num
        invariant
            j <= num,
            num * 13 == units@.len(),
            num * 13 <= 0x400_0000,
            units@ == lfn_units(u0),
            num == cdiv(u0.len() + 1int, 13),
            lfn@ == lfn_entries(units@, num as int, chk, j as int),
        decreases num - j,
    {
        let i = num - 1 - j;
        let sb: u8 = ((i + 1) as u8) | (if i == num - 1 { 0x40u8 } else { 0u8 });
        lfn.push(sb);
        push_units_le(&mut lfn, &units, 13 * i, 13 * i + 5);
        lfn.push(0x0F);
        lfn.push(0);
        lfn.push(chk);
        push_units_le(&mut lfn, &units, 13 * i + 5, 13 * i + 11);
        lfn.push(0);
        lfn.push(0);
        push_units_le(&mut lfn, &units, 13 * i + 11, 13 * i + 13);
        j = j + 1;
        assert(lfn@ =~= lfn_entries(units@, num as int, chk, j as int));
    }
    let sfn = entry_83(short, attr, first_cluster, file_size);
    Some((lfn, sfn))
}

} // verus!

verus! {

/// A FAT table is never longer than the space given to it.
pub proof fn lemma_fat_table_len(fat: Seq<u32>, ft: FatType, len: int)
    requires
        len >= 0,
    ensures
        fat_table(fat, ft, len).len() <= len,
        ft != FatType::Fat32 ==> fat_table(fat, ft, len).len() == len,
        ft == FatType::Fat32 && 4 * fat.len() <= len ==> fat_table(fat, ft, len).len() == 4 * fat.len(),
{
    lemma_fat32_bytes_len(fat);
    let m = if fat.len() < len / 2 { fat.len() as int } else { len / 2 };
    lemma_fat16_bytes_len(fat.take(m));
}

/// The parameter block is 90 bytes long.
pub proof fn lemma_bpb_len(ft: FatType, total: u32, fat_sectors: u32, hidden: u32, serial: u32, root_entries: u16)
    ensures
        spec_bpb(ft, total, fat_sectors, hidden, serial, root_entries).len() == 90,
{
}

} // verus!
