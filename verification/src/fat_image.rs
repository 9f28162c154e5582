//! The cluster allocator and the in-memory builder of FAT boot images.
use crate::bytes::{get_le16, le16, lemma_le16_roundtrip, overwrite, splice, zeros};
use crate::fat::{
    calc_layout, cdiv, cluster_type, lemma_layout_fits, spec_data_left, spec_entry_bits, spec_eoc_chain_end,
    spec_eoc_marker, spec_fat_sectors, spec_layout_from, spec_reserved_sectors,
    spec_root_dir_sectors, FatType, SEC_PER_CLUS, SECTOR,
};
use vstd::prelude::*;
use vstd::string::StringSliceAdditionalSpecFns;

verus! {

/// `fat` after linking the clusters `s .. e` into one chain ending in `eoc`.
pub open spec fn chained(fat: Seq<u32>, s: int, e: int, eoc: u32) -> Seq<u32> {
    Seq::new(
        fat.len(),
        |i: int|
            if s <= i < e - 1 {
                (i + 1) as u32
            } else if i == e - 1 && s < e {
                eoc
            } else {
                fat[i]
            },
    )
}

/// The cluster allocator of an image under construction. Clusters are
/// handed out in order, so the free clusters always form a suffix.
pub struct Alloc {
    /// The cluster chain table, one full-width entry per cluster (entries
    /// 0 and 1 are reserved).
    pub fat: Vec<u32>,
    /// Number of data clusters.
    pub clusters: usize,
    /// Sector (512 bytes) at which the cluster heap starts.
    pub data_start: u64,
    pub fat_type: FatType,
    /// Sectors per FAT, from the layout solver.
    pub sectors_per_fat: u64,
    /// The first free cluster.
    pub next: Ghost<int>,
}

impl Alloc {
    /// The allocator's invariant: two reserved entries, then used clusters
    /// (non-zero entries) up to `next`, then free ones (zero entries).
    pub open spec fn wf(&self) -> bool {
        &&& self.fat@.len() == self.clusters + 2
        &&& self.fat@.len() <= 0x4000_0000
        &&& 2 <= self.next@ <= self.fat@.len()
        &&& forall|i: int| 0 <= i < self.next@ ==> self.fat@[i] != 0
        &&& forall|i: int| self.next@ <= i < self.fat@.len() ==> self.fat@[i] == 0
        &&& self.data_start + (self.clusters as int) * 8 <= u64::MAX
    }

    /// Sets up the allocator of a volume of `total_sectors` sectors with
    /// `sectors_per_fat` sectors per FAT.
    pub fn new(total_sectors: u64, sectors_per_fat: u64, fat_type: FatType) -> (r: Alloc)
        requires
            spec_reserved_sectors(fat_type) + 2 * sectors_per_fat + spec_root_dir_sectors(fat_type)
                <= total_sectors,
            total_sectors <= 0x4000_0000,
        ensures
            r.wf(),
            r.next@ == 2,
            r.fat_type == fat_type,
            r.sectors_per_fat == sectors_per_fat,
            r.data_start == spec_reserved_sectors(fat_type) + 2 * sectors_per_fat
                + spec_root_dir_sectors(fat_type),
            r.clusters == (total_sectors - r.data_start) / 8,
            r.fat@ == seq![spec_eoc_marker(fat_type), spec_eoc_chain_end(fat_type)] + Seq::new(
                r.clusters as nat,
                |i: int| 0u32,
            ),
    {
        let root_sectors = fat_type.root_dir_sectors();
        let data_start = fat_type.reserved_sectors() + 2 * sectors_per_fat + root_sectors;
        let clusters = ((total_sectors - data_start) / SEC_PER_CLUS) as usize;
        let mut fat: Vec<u32> = Vec::new();
        fat.push(fat_type.eoc_marker());
        fat.push(fat_type.eoc_chain_end());
        let mut i: usize = 0;
        while i < clusters
            invariant
                i <= clusters,
                fat@ == seq![spec_eoc_marker(fat_type), spec_eoc_chain_end(fat_type)] + Seq::new(
                    i as nat,
                    |k: int| 0u32,
                ),
            decreases clusters - i,
        {
            fat.push(0);
            i = i + 1;
            assert(fat@ =~= seq![spec_eoc_marker(fat_type), spec_eoc_chain_end(fat_type)] + Seq::new(
                i as nat,
                |k: int| 0u32,
            ));
        }
        Alloc { fat, clusters, data_start, fat_type, sectors_per_fat, next: Ghost(2) }
    }

    /// Allocates a chain of `count` clusters (one when `count` is 0) from
    /// the free clusters in ascending order and returns its first cluster.
    /// When too few are free, every free cluster is consumed and `None`
    /// is returned.
    pub fn allocate(&mut self, count: u32) -> (r: Option<u32>)
        requires
            old(self).wf(),
        ensures
            final(self).wf(),
            final(self).clusters == old(self).clusters,
            final(self).data_start == old(self).data_start,
            final(self).fat_type == old(self).fat_type,
            final(self).sectors_per_fat == old(self).sectors_per_fat,
            ({
                let k = if count == 0 { 1 } else { count as int };
                let s = old(self).next@;
                let len = old(self).fat@.len() as int;
                let eoc = spec_eoc_chain_end(old(self).fat_type);
                if s + k <= len {
                    &&& r == Some(s as u32)
                    &&& final(self).fat@ == chained(old(self).fat@, s, s + k, eoc)
                    &&& final(self).next@ == s + k
                } else {
                    &&& r is None
                    &&& final(self).fat@ == chained(old(self).fat@, s, len, eoc)
                    &&& final(self).next@ == len
                }
            }),
    {
        let eoc = self.fat_type.eoc_chain_end();
        let ghost s = self.next@;
        let ghost old_fat = self.fat@;
        let ghost k: int = if count == 0 { 1 } else { count as int };
        let len = self.fat.len();
        let mut first: Option<u32> = None;
        let mut prev: Option<u32> = None;
        let mut n: u32 = 0;
        let mut i: usize = 2;
        assert(self.fat@ =~= chained(old_fat, s, s, eoc));
        while i < len
            invariant
                2 <= s <= len,
                len == old_fat.len(),
                len <= 0x4000_0000,
                2 <= i <= len,
                forall|j: int| 0 <= j < s ==> old_fat[j] != 0,
                forall|j: int| s <= j < len ==> old_fat[j] == 0,
                eoc == spec_eoc_chain_end(self.fat_type),
                eoc != 0,
                k == (if count == 0 { 1 } else { count as int }),
                i <= s ==> (first is None && prev is None && n == 0 && self.fat@ == old_fat),
                i > s ==> (first == Some(s as u32) && prev == Some((i - 1) as u32) && n == i - s
                    && n < k && self.fat@ == chained(old_fat, s, i as int, eoc)),
                self.clusters == old(self).clusters,
                self.data_start == old(self).data_start,
                self.fat_type == old(self).fat_type,
                self.sectors_per_fat == old(self).sectors_per_fat,
                self.next == old(self).next,
                old(self).wf(),
                old_fat == old(self).fat@,
                s == old(self).next@,
            decreases len - i,
        {
            if self.fat[i] == 0 {
                if first.is_none() {
                    first = Some(i as u32);
                }
                if let Some(p) = prev {
                    self.fat.set(p as usize, i as u32);
                }
                prev = Some(i as u32);
                self.fat.set(i, eoc);
                n = n + 1;
                assert(self.fat@ =~= chained(old_fat, s, i + 1, eoc));
                if n >= count {
                    self.next = Ghost(i + 1);
                    return first;
                }
            }
            i = i + 1;
        }
        self.next = Ghost(len as int);
        assert(i <= s ==> self.fat@ =~= chained(old_fat, s, len as int, eoc));
        first = None;
        first
    }

    /// The first sector of `cluster`.
    pub fn sector_of(&self, cluster: u32) -> (r: u64)
        requires
            self.wf(),
            2 <= cluster < self.fat@.len(),
        ensures
            r == self.data_start + (cluster - 2) * 8,
    {
        self.data_start + (cluster as u64 - 2) * SEC_PER_CLUS
    }

    /// Sectors occupied by the fixed root directory (none for FAT32).
    pub fn root_dir_sectors(&self) -> (r: u64)
        ensures
            r == spec_root_dir_sectors(self.fat_type),
    {
        self.fat_type.root_dir_sectors()
    }

    /// The first sector of the fixed root directory region.
    pub fn root_dir_start(&self) -> (r: u64)
        requires
            spec_reserved_sectors(self.fat_type) + 2 * self.sectors_per_fat <= u64::MAX,
        ensures
            r == spec_reserved_sectors(self.fat_type) + 2 * self.sectors_per_fat,
    {
        self.fat_type.reserved_sectors() + 2 * self.sectors_per_fat
    }

    /// Sectors per FAT.
    pub fn sectors_per_fat(&self) -> (r: u64)
        ensures
            r == self.sectors_per_fat,
    {
        self.sectors_per_fat
    }
}

} // verus!

verus! {

/// The first size estimate of an image holding `content` bytes: the
/// content plus five clusters and 128 KiB of overhead, at least a
/// 1.44 MB floppy (2880 sectors).
pub open spec fn est_sectors(content: int) -> int {
    let e = cdiv(content + 5 * 4096 + 256 * 512, 512);
    if e >= 2880 { e } else { 2880 }
}

/// Data sectors the layout solver gives type `ft` on `est` sectors.
pub open spec fn cand_data(ft: FatType, est: int) -> int {
    spec_layout_from(
        est,
        spec_reserved_sectors(ft) as int,
        8,
        spec_root_dir_sectors(ft) as int,
        spec_entry_bits(ft) as int,
        est - spec_reserved_sectors(ft) - spec_root_dir_sectors(ft),
    )
}

/// Sectors per FAT for type `ft` on `est` sectors.
pub open spec fn cand_fat_sectors(ft: FatType, est: int) -> int {
    spec_fat_sectors(cand_data(ft, est), 8, spec_entry_bits(ft) as int)
}

/// Data clusters for type `ft` on `est` sectors.
pub open spec fn cand_clusters(ft: FatType, est: int) -> int {
    cand_data(ft, est) / 8
}

/// Total sectors for type `ft` on `est` sectors: reserved sectors, two
/// FATs, the root directory region and whole clusters of data.
pub open spec fn cand_total(ft: FatType, est: int) -> int {
    spec_reserved_sectors(ft) + 2 * cand_fat_sectors(ft, est) + spec_root_dir_sectors(ft)
        + cand_clusters(ft, est) * 8
}

/// Whether type `ft` suits `est` sectors: its cluster count lies in the
/// range that FAT drivers read as that type (FAT12 up to 4084, FAT16 from
/// 4085 to 65524, FAT32 from 65525), and a FAT12 or FAT16 volume fits the
/// 16-bit total-sectors field.
pub open spec fn cand_ok(ft: FatType, est: int) -> bool {
    &&& cluster_type(cand_clusters(ft, est)) == ft
    &&& (ft != FatType::Fat32 ==> cand_total(ft, est) < 65536)
}

/// The smallest estimate on which FAT16 has 4085 clusters or more.
pub open spec fn fat16_floor() -> int {
    33000
}

/// The smallest estimate on which FAT32 is sure to have 65525 clusters.
pub open spec fn fat32_floor() -> int {
    532480
}

/// The FAT type chosen for `est` sectors: FAT12 or FAT16 where it suits
/// `est`; else FAT16 on a volume grown to `fat16_floor` where `est` is
/// below it, else FAT32 (on a volume grown to `fat32_floor` where `est` is
/// below it).
pub open spec fn chosen_type(est: int) -> FatType {
    if cand_ok(FatType::Fat12, est) {
        FatType::Fat12
    } else if cand_ok(FatType::Fat16, est) {
        FatType::Fat16
    } else if est < fat16_floor() {
        FatType::Fat16
    } else {
        FatType::Fat32
    }
}

/// The sectors the chosen type is laid out on: `est`, or the floor the
/// volume is grown to where no type suits `est` itself.
pub open spec fn chosen_est(est: int) -> int {
    if cand_ok(FatType::Fat12, est) || cand_ok(FatType::Fat16, est) {
        est
    } else if est < fat16_floor() {
        fat16_floor()
    } else if est < fat32_floor() {
        fat32_floor()
    } else {
        est
    }
}

proof fn lemma_cand_bounds(ft: FatType, est: int)
    requires
        2880 <= est <= 0x1_0000_0000,
    ensures
        0 <= cand_data(ft, est) <= est,
        cand_total(ft, est) <= est,
        1 <= cand_fat_sectors(ft, est),
{
    let res = spec_reserved_sectors(ft);
    let rds = spec_root_dir_sectors(ft);
    let bits = spec_entry_bits(ft);
    assert(ft == FatType::Fat12 ==> rds == 14);
    assert(ft == FatType::Fat16 ==> rds == 32);
    assert(ft == FatType::Fat32 ==> rds == 0);
    lemma_layout_fits(est as u64, res, 8, rds, bits);
    lemma_layout_bounds(est, res as int, 8, rds as int, bits as int, est - res - rds);
    let d = cand_data(ft, est);
    assert((d / 8) * 8 <= d);
    let fs = cand_fat_sectors(ft, est);
    assert(fs >= 1) by (nonlinear_arith)
        requires
            fs == cdiv(cdiv((cdiv(d, 8) + 2) * bits, 8), 512),
            d >= 0,
            12 <= bits <= 32,
    ;
    if d <= 1 {
        assert(d / 8 == 0);
        assert(fs <= 1) by (nonlinear_arith)
            requires
                fs == cdiv(cdiv((cdiv(d, 8) + 2) * bits, 8), 512),
                0 <= d <= 1,
                12 <= bits <= 32,
        ;
    }
}

proof fn lemma_layout_bounds(total: int, reserved: int, spc: int, rds: int, bits: int, data: int)
    requires
        0 <= data <= total,
    ensures
        0 <= spec_layout_from(total, reserved, spc, rds, bits, data) <= data,
    decreases data,
{
    let new = spec_data_left(total, reserved, rds, spec_fat_sectors(data, spc, bits));
    if data <= 1 || new >= data {
    } else {
        lemma_layout_bounds(total, reserved, spc, rds, bits, new);
    }
}

} // verus!

verus! {

/// Lays out a volume of type `ft` on `est` sectors: whether the type suits,
/// the total sectors (whole clusters) and the sectors per FAT.
fn try_candidate(ft: FatType, est: u64) -> (r: (bool, u32, u32))
    requires
        2880 <= est <= 0x1_0000_0000 - 1,
    ensures
        r.0 == cand_ok(ft, est as int),
        r.1 == cand_total(ft, est as int),
        r.2 == cand_fat_sectors(ft, est as int),
{
    proof {
        lemma_cand_bounds(ft, est as int);
    }
    let reserved = ft.reserved_sectors();
    let rds = ft.root_dir_sectors();
    let (fs, ds) = calc_layout(est, reserved, SEC_PER_CLUS, rds, ft.entry_bits());
    let data_aligned = (ds / SEC_PER_CLUS) * SEC_PER_CLUS;
    let total = (reserved + 2 * fs + rds + data_aligned) as u32;
    let clusters = data_aligned / SEC_PER_CLUS;
    let fits_in_u16 = total < 65536;
    let in_range = match ft {
        FatType::Fat12 => clusters <= 4084 && fits_in_u16,
        FatType::Fat16 => 4085 <= clusters && clusters <= 65524 && fits_in_u16,
        FatType::Fat32 => 65525 <= clusters,
    };
    (in_range, total, fs as u32)
}

/// Chooses the FAT type for an image of `est` estimated sectors and lays
/// it out: `(type, total sectors, sectors per FAT)`. The type is the one
/// FAT drivers read from the volume's cluster count.
pub fn choose_geometry(est: u64) -> (r: (FatType, u32, u32))
    requires
        2880 <= est <= 0x1_0000_0000 - 1,
    ensures
        r.0 == chosen_type(est as int),
        r.1 == cand_total(r.0, chosen_est(est as int)),
        r.2 == cand_fat_sectors(r.0, chosen_est(est as int)),
        cand_ok(r.0, chosen_est(est as int)),
{
    let (ok12, t12, fs12) = try_candidate(FatType::Fat12, est);
    if ok12 {
        return (FatType::Fat12, t12, fs12);
    }
    let (ok16, t16, fs16) = try_candidate(FatType::Fat16, est);
    if ok16 {
        return (FatType::Fat16, t16, fs16);
    }
    proof {
        lemma_chosen_ok(est as int);
    }
    if est < 33000 {
        let (_ok, t, fs) = try_candidate(FatType::Fat16, 33000);
        return (FatType::Fat16, t, fs);
    }
    let e2: u64 = if est < 532480 {
        532480
    } else {
        est
    };
    let (_ok32, t32, fs32) = try_candidate(FatType::Fat32, e2);
    (FatType::Fat32, t32, fs32)
}

} // verus!

verus! {

/// The FAT grows with the data it describes.
proof fn lemma_fat_sectors_mono(a: int, b: int, bits: int)
    requires
        0 <= a <= b,
        0 <= bits,
    ensures
        spec_fat_sectors(a, 8, bits) <= spec_fat_sectors(b, 8, bits),
{
    let ca = cdiv(a, 8);
    let cb = cdiv(b, 8);
    assert(ca <= cb) by (nonlinear_arith)
        requires
            ca == (a + 7) / 8,
            cb == (b + 7) / 8,
            a <= b,
    ;
    let xa = (ca + 2) * bits;
    let xb = (cb + 2) * bits;
    assert(xa <= xb) by (nonlinear_arith)
        requires
            xa == (ca + 2) * bits,
            xb == (cb + 2) * bits,
            ca <= cb,
            0 <= bits,
    ;
    let ya = cdiv(xa, 8);
    let yb = cdiv(xb, 8);
    assert(ya <= yb) by (nonlinear_arith)
        requires
            ya == (xa + 7) / 8,
            yb == (xb + 7) / 8,
            xa <= xb,
    ;
    assert(cdiv(ya, 512) <= cdiv(yb, 512)) by (nonlinear_arith)
        requires
            ya <= yb,
    ;
}

/// The solver leaves at least what is left after FATs sized for the whole
/// area `d0`: starting below `d0` and at or above that floor, it ends at
/// or above it.
proof fn lemma_layout_floor(total: int, reserved: int, rds: int, bits: int, data: int, d0: int)
    requires
        0 <= data <= d0,
        0 <= bits,
        total - reserved - rds - 2 * spec_fat_sectors(d0, 8, bits) <= data,
    ensures
        spec_layout_from(total, reserved, 8, rds, bits, data) >= total - reserved - rds - 2 * spec_fat_sectors(
            d0,
            8,
            bits,
        ),
    decreases data,
{
    let new = spec_data_left(total, reserved, rds, spec_fat_sectors(data, 8, bits));
    if data <= 1 || new >= data {
    } else {
        lemma_fat_sectors_mono(data, d0, bits);
        lemma_layout_floor(total, reserved, rds, bits, new, d0);
    }
}

/// On `fat16_floor` sectors FAT16 suits.
proof fn lemma_fat16_floor_ok()
    ensures
        cand_ok(FatType::Fat16, fat16_floor()),
{
    let est = 33000int;
    let d0 = est - 1 - 32;
    assert(cdiv(d0, 8) == 4121);
    assert(cdiv(65968int, 8) == 8246);
    assert(cdiv(8246, 512) == 17);
    assert(spec_fat_sectors(d0, 8, 16) == 17);
    lemma_layout_floor(est, 1, 32, 16, d0, d0);
    lemma_layout_bounds(est, 1, 8, 32, 16, d0);
    lemma_cand_bounds(FatType::Fat16, est);
    let d = cand_data(FatType::Fat16, est);
    assert(32933 <= d <= 32967);
    assert(4085 <= d / 8 <= 65524);
}

/// From `fat32_floor` sectors on, FAT32 suits.
proof fn lemma_fat32_floor_ok(est: int)
    requires
        fat32_floor() <= est <= 0x1_0000_0000,
    ensures
        cand_ok(FatType::Fat32, est),
{
    let d0 = est - 32;
    let c = cdiv(d0, 8);
    let x = (c + 2) * 32;
    let y = cdiv(x, 8);
    let fs = cdiv(y, 512);
    assert(spec_fat_sectors(d0, 8, 32) == fs);
    assert(fs <= d0 / 1024 + 2) by (nonlinear_arith)
        requires
            c == (d0 + 7) / 8,
            x == (c + 2) * 32,
            y == (x + 7) / 8,
            fs == (y + 511) / 512,
            d0 >= 0,
    ;
    lemma_layout_floor(est, 32, 0, 32, d0, d0);
    let d = cand_data(FatType::Fat32, est);
    assert(d >= d0 - 2 * fs);
    assert(d / 8 >= 65525) by (nonlinear_arith)
        requires
            d >= d0 - 2 * fs,
            fs <= d0 / 1024 + 2,
            d0 >= 532448,
    ;
}

/// The chosen type suits the sectors it is laid out on: its cluster count
/// is in that type's range, and a FAT12 or FAT16 volume fits 16 bits.
pub proof fn lemma_chosen_ok(est: int)
    requires
        2880 <= est <= 0x1_0000_0000 - 1,
    ensures
        cand_ok(chosen_type(est), chosen_est(est)),
        2880 <= chosen_est(est) <= est || chosen_est(est) == fat16_floor() || chosen_est(est) == fat32_floor(),
        chosen_est(est) <= 0x1_0000_0000 - 1,
{
    if cand_ok(FatType::Fat12, est) || cand_ok(FatType::Fat16, est) {
    } else if est < fat16_floor() {
        lemma_fat16_floor_ok();
    } else if est < fat32_floor() {
        lemma_fat32_floor_ok(fat32_floor());
    } else {
        lemma_fat32_floor_ok(est);
    }
}

} // verus!

verus! {

/// A file to store in `EFI/BOOT/` of the image: its name there and its bytes.
pub struct FatFile {
    pub name: String,
    pub data: Vec<u8>,
}

/// Why an image could not be built.
#[derive(Debug, Clone, Copy, PartialEq, Eq, Structural)]
pub enum FatError {
    /// No file was given.
    NoFiles,
    /// The volume has too few clusters for the directories and files.
    OutOfClusters,
    /// The entries of the `EFI/BOOT` directory exceed its single cluster.
    BootDirTooLarge,
}

/// Total bytes of the files.
pub open spec fn content_size(files: Seq<FatFile>) -> int
    decreases files.len(),
{
    if files.len() == 0 {
        0
    } else {
        content_size(files.drop_last()) + files.last().data@.len()
    }
}

proof fn lemma_content_size_prefix(files: Seq<FatFile>, k: int)
    requires
        0 <= k <= files.len(),
    ensures
        0 <= content_size(files.take(k)) <= content_size(files),
        k < files.len() ==> content_size(files.take(k)) + files[k].data@.len() <= content_size(files),
    decreases files.len() - k,
{
    if k < files.len() {
        lemma_content_size_prefix(files, k + 1);
        assert(files.take(k + 1).drop_last() =~= files.take(k));
    } else {
        assert(files.take(k) =~= files);
    }
    lemma_content_size_nonneg(files.take(k));
}

proof fn lemma_content_size_nonneg(files: Seq<FatFile>)
    ensures
        content_size(files) >= 0,
    decreases files.len(),
{
    if files.len() > 0 {
        lemma_content_size_nonneg(files.drop_last());
    }
}

/// Sums the file sizes.
fn sum_sizes(files: &Vec<FatFile>) -> (r: u64)
    requires
        content_size(files@) <= 0x100_0000_0000,
    ensures
        r == content_size(files@),
{
    let mut total: u64 = 0;
    let mut i: usize = 0;
    while i < files.len()
        invariant
            i <= files@.len(),
            content_size(files@) <= 0x100_0000_0000,
            total == content_size(files@.take(i as int)),
        decreases files@.len() - i,
    {
        proof {
            lemma_content_size_prefix(files@, i as int);
        }
        total = total + files[i].data.len() as u64;
        i = i + 1;
        assert(files@.take(i as int).drop_last() =~= files@.take(i - 1));
    }
    assert(files@.take(files@.len() as int) =~= files@);
    total
}

/// The upper-case form of a string, as `str::to_uppercase` computes it
/// (Unicode case mapping).
pub uninterp spec fn uppercase_of(s: Seq<char>) -> Seq<char>;

/// `str::to_uppercase` (std). The result is named, not stated: Unicode
/// upper-casing is given only by the name `uppercase_of` of the argument.
#[verifier::external_body]
pub(crate) fn to_uppercase(s: &str) -> (r: String)
    ensures
        r@ == uppercase_of(s@),
{
    s.to_uppercase()
}

/// The index of the last byte 0x2E ('.') in `b`, if any.
pub open spec fn last_dot(b: Seq<u8>) -> Option<int>
    decreases b.len(),
{
    if b.len() == 0 {
        None
    } else if b.last() == 0x2E {
        Some(b.len() - 1)
    } else {
        last_dot(b.drop_last())
    }
}

proof fn lemma_last_dot_range(b: Seq<u8>)
    ensures
        last_dot(b) matches Some(i) ==> 0 <= i < b.len() && b[i] == 0x2E,
    decreases b.len(),
{
    if b.len() > 0 && b.last() != 0x2E {
        lemma_last_dot_range(b.drop_last());
    }
}

/// The 8.3 name of `name`: upper-cased, split at its last dot into stem
/// and extension (no extension without a dot).
pub open spec fn spec_short_name(name: Seq<char>) -> Seq<u8> {
    let b = vstd::utf8::encode_utf8(uppercase_of(name));
    match last_dot(b) {
        Some(i) => crate::fat::spec_pack_83(b.take(i), b.skip(i + 1)),
        None => crate::fat::spec_pack_83(b, Seq::empty()),
    }
}

/// Finds the last dot in `b`.
fn find_last_dot(b: &[u8]) -> (r: Option<usize>)
    ensures
        r matches Some(i) ==> last_dot(b@) == Some(i as int),
        r is None ==> last_dot(b@) is None,
{
    let mut i = b.len();
    assert(b@.take(i as int) =~= b@);
    while i > 0
        invariant
            i <= b@.len(),
            last_dot(b@) == last_dot(b@.take(i as int)),
        decreases i,
    {
        if b[i - 1] == 0x2E {
            assert(b@.take(i as int).last() == 0x2E);
            return Some(i - 1);
        }
        assert(b@.take(i as int).drop_last() =~= b@.take(i - 1));
        i = i - 1;
    }
    assert(b@.take(0) =~= Seq::<u8>::empty());
    None
}

/// The 8.3 name under which a file is stored.
fn short_name(name: &str) -> (r: [u8; 11])
    ensures
        r@ == spec_short_name(name@),
{
    let upper = to_uppercase(name);
    let b = upper.as_str().as_bytes();
    proof {
        lemma_last_dot_range(b@);
    }
    match find_last_dot(b) {
        Some(i) => {
            assert(i < b@.len());
            let blen = b.len();
            assert(i < blen);
            let stem = vstd::slice::slice_subrange(b, 0, i);
            let ext = vstd::slice::slice_subrange(b, i + 1, blen);
            assert(stem@ =~= b@.take(i as int));
            assert(ext@ =~= b@.skip(i + 1));
            crate::fat::pack_83(stem, ext)
        },
        None => {
            let empty: [u8; 0] = [];
            assert(empty@ =~= Seq::<u8>::empty());
            crate::fat::pack_83(b, &empty)
        },
    }
}

/// The entries of a file in the `EFI/BOOT` directory: long-file-name
/// entries unless the name is plain, then the 8.3 entry (attribute 0x20).
pub open spec fn spec_file_entries(name: Seq<char>, first: u32, size: u32) -> Seq<u8> {
    let short = spec_short_name(name);
    let sfn = crate::fat::spec_entry_83(short, 0x20, first, size);
    if crate::fat::plain_name(name, vstd::utf8::encode_utf8(name).len() as int) {
        sfn
    } else {
        crate::fat::spec_lfn(name, short) + sfn
    }
}

fn file_entries(name: &str, first: u32, size: u32) -> (e: Vec<u8>)
    requires
        name@.len() <= 0x100_0000,
    ensures
        e@ == spec_file_entries(name@, first, size),
{
    let short = short_name(name);
    match crate::fat::make_lfn(name, &short, 0x20, first, size) {
        Some((lfn, sfn)) => {
            let mut lfn = lfn;
            let mut sfn = sfn;
            lfn.append(&mut sfn);
            lfn
        },
        None => crate::fat::entry_83(&short, 0x20, first, size),
    }
}

} // verus!

verus! {

/// Clusters that a file of `size` bytes takes (at least one).
pub open spec fn ncl(size: int) -> int {
    let c = cdiv(size, 4096);
    if c >= 1 { c } else { 1 }
}

/// Sum of a sequence of cluster counts.
pub open spec fn lens_sum(lens: Seq<int>) -> int
    decreases lens.len(),
{
    if lens.len() == 0 {
        0
    } else {
        lens_sum(lens.drop_last()) + lens.last()
    }
}

/// The table after allocating chains of the given lengths one after the
/// other, from cluster 2 on.
pub open spec fn table_of(init: Seq<u32>, lens: Seq<int>, eoc: u32) -> Seq<u32>
    decreases lens.len(),
{
    if lens.len() == 0 {
        init
    } else {
        let p = lens.drop_last();
        chained(table_of(init, p, eoc), 2 + lens_sum(p), 2 + lens_sum(lens), eoc)
    }
}

/// The clusters of the directories: the root (FAT32 only), `EFI` and `EFI/BOOT`.
pub open spec fn dir_lens(ft: FatType) -> Seq<int> {
    if ft == FatType::Fat32 { seq![1int, 1, 1] } else { seq![1int, 1] }
}

/// The clusters of each file.
pub open spec fn file_lens(files: Seq<FatFile>) -> Seq<int> {
    Seq::new(files.len(), |k: int| ncl(files[k].data@.len() as int))
}

/// Every allocation of an image, in order.
pub open spec fn alloc_lens(ft: FatType, files: Seq<FatFile>) -> Seq<int> {
    dir_lens(ft) + file_lens(files)
}

/// The cluster of the `EFI` directory.
pub open spec fn efi_cluster(ft: FatType) -> int {
    if ft == FatType::Fat32 { 3 } else { 2 }
}

/// The first cluster of file `k`.
pub open spec fn file_start(ft: FatType, files: Seq<FatFile>, k: int) -> int {
    2 + lens_sum(alloc_lens(ft, files).take(dir_lens(ft).len() + k))
}

/// The FAT of a fresh volume with `clusters` data clusters.
pub open spec fn fresh_table(ft: FatType, clusters: int) -> Seq<u32> {
    seq![spec_eoc_marker(ft), spec_eoc_chain_end(ft)] + Seq::new(clusters as nat, |i: int| 0u32)
}

proof fn lemma_lens_sum_prefix(lens: Seq<int>, j: int)
    requires
        0 <= j <= lens.len(),
        forall|i: int| 0 <= i < lens.len() ==> lens[i] >= 1,
    ensures
        lens_sum(lens.take(j)) <= lens_sum(lens),
        lens_sum(lens.take(j)) >= j,
    decreases lens.len() - j,
{
    if j < lens.len() {
        lemma_lens_sum_prefix(lens, j + 1);
        assert(lens.take(j + 1).drop_last() =~= lens.take(j));
        lemma_lens_sum_ge_len(lens.take(j));
    } else {
        assert(lens.take(j) =~= lens);
        lemma_lens_sum_ge_len(lens);
    }
}

proof fn lemma_lens_sum_ge_len(lens: Seq<int>)
    requires
        forall|i: int| 0 <= i < lens.len() ==> lens[i] >= 1,
    ensures
        lens_sum(lens) >= lens.len(),
    decreases lens.len(),
{
    if lens.len() > 0 {
        lemma_lens_sum_ge_len(lens.drop_last());
    }
}

/// Allocates one chain of `n` clusters, failing when too few are free.
fn alloc_or_fail(alloc: &mut Alloc, n: u32, Ghost(init): Ghost<Seq<u32>>, Ghost(lens): Ghost<Seq<int>>)
    -> (r: Result<u32, FatError>)
    requires
        old(alloc).wf(),
        n >= 1,
        old(alloc).fat@ == table_of(init, lens, spec_eoc_chain_end(old(alloc).fat_type)),
        old(alloc).next@ == 2 + lens_sum(lens),
    ensures
        final(alloc).wf(),
        final(alloc).clusters == old(alloc).clusters,
        final(alloc).data_start == old(alloc).data_start,
        final(alloc).fat_type == old(alloc).fat_type,
        final(alloc).sectors_per_fat == old(alloc).sectors_per_fat,
        2 + lens_sum(lens.push(n as int)) <= old(alloc).fat@.len() ==> (r == Ok::<u32, FatError>(
            (2 + lens_sum(lens)) as u32,
        ) && final(alloc).fat@ == table_of(init, lens.push(n as int), spec_eoc_chain_end(old(alloc).fat_type))
            && final(alloc).next@ == 2 + lens_sum(lens.push(n as int))),
        2 + lens_sum(lens.push(n as int)) > old(alloc).fat@.len() ==> r == Err::<u32, FatError>(FatError::OutOfClusters),
{
    assert(lens.push(n as int).drop_last() =~= lens);
    match alloc.allocate(n) {
        Some(c) => Ok(c),
        None => Err(FatError::OutOfClusters),
    }
}

} // verus!

verus! {

/// Bounds under which an image can be built: content under 508 GiB (so
/// the volume stays under 2^30 sectors, well inside what 28-bit FAT32
/// cluster numbers and a 32-bit sector count can describe), no file over
/// the 4 GiB - 1 that a FAT directory entry records, names of reasonable
/// size, and the whole estimated image fits in memory.
pub open spec fn build_args_ok(files: Seq<FatFile>) -> bool {
    &&& content_size(files) <= 0x7F_0000_0000
    &&& files.len() <= 0x100_0000
    &&& forall|k: int| 0 <= k < files.len() ==> (#[trigger] files[k]).name@.len() <= 0x100_0000
    &&& forall|k: int| 0 <= k < files.len() ==> (#[trigger] files[k]).data@.len() <= u32::MAX
    &&& est_sectors(content_size(files)) * 512 <= usize::MAX
}

/// Whether `files` are within the bounds under which an image can be
/// built (`build_args_ok`).
pub fn build_args_check(files: &Vec<FatFile>) -> (r: bool)
    ensures
        r == build_args_ok(files@),
{
    if files.len() > 0x100_0000 {
        return false;
    }
    let mut total: u64 = 0;
    let mut i: usize = 0;
    while i < files.len()
        invariant
            i <= files@.len(),
            total == content_size(files@.take(i as int)),
            total <= 0x7F_0000_0000,
            forall|k: int| 0 <= k < i ==> (#[trigger] files@[k]).name@.len() <= 0x100_0000,
            forall|k: int| 0 <= k < i ==> (#[trigger] files@[k]).data@.len() <= u32::MAX,
        decreases files@.len() - i,
    {
        proof {
            lemma_content_size_prefix(files@, i as int);
            assert(files@.take(i + 1).drop_last() =~= files@.take(i as int));
        }
        let chars = crate::fat::collect_chars(files[i].name.as_str());
        if chars.len() > 0x100_0000 {
            return false;
        }
        let n = files[i].data.len() as u64;
        if n > 0xFFFF_FFFF {
            return false;
        }
        if total + n > 0x7F_0000_0000 {
            proof {
                lemma_content_size_prefix(files@, i as int + 1);
            }
            return false;
        }
        total = total + n;
        i = i + 1;
    }
    assert(files@.take(files@.len() as int) =~= files@);
    let e0 = (total + 20480 + 131072 + 511) / 512;
    let est: u64 = if e0 >= 2880 {
        e0
    } else {
        2880
    };
    assert(est == est_sectors(content_size(files@)));
    est <= (usize::MAX / 512) as u64
}

proof fn lemma_alloc_lens_pos(ft: FatType, files: Seq<FatFile>)
    ensures
        forall|i: int| 0 <= i < alloc_lens(ft, files).len() ==> alloc_lens(ft, files)[i] >= 1,
        alloc_lens(ft, files).len() == dir_lens(ft).len() + files.len(),
{
}

/// Allocates the directories and then every file, in order.
fn allocate_all(alloc: &mut Alloc, files: &Vec<FatFile>) -> (r: Result<(Option<u32>, u32, u32, Vec<u32>), FatError>)
    requires
        old(alloc).wf(),
        old(alloc).next@ == 2,
        old(alloc).fat@ == fresh_table(old(alloc).fat_type, old(alloc).clusters as int),
        build_args_ok(files@),
    ensures
        final(alloc).wf(),
        final(alloc).clusters == old(alloc).clusters,
        final(alloc).data_start == old(alloc).data_start,
        final(alloc).fat_type == old(alloc).fat_type,
        final(alloc).sectors_per_fat == old(alloc).sectors_per_fat,
        ({
            let ft = old(alloc).fat_type;
            let lens = alloc_lens(ft, files@);
            if lens_sum(lens) <= old(alloc).clusters {
                &&& r matches Ok((root, efi, boot, starts)) && {
                    &&& root == (if ft == FatType::Fat32 { Some(2u32) } else { None })
                    &&& efi == efi_cluster(ft)
                    &&& boot == efi_cluster(ft) + 1
                    &&& starts@.len() == files@.len()
                    &&& forall|k: int| 0 <= k < files@.len() ==> #[trigger] starts@[k] == file_start(ft, files@, k)
                }
                &&& final(alloc).fat@ == table_of(fresh_table(ft, old(alloc).clusters as int), lens, spec_eoc_chain_end(ft))
                &&& final(alloc).next@ == 2 + lens_sum(lens)
            } else {
                r == Err::<(Option<u32>, u32, u32, Vec<u32>), FatError>(FatError::OutOfClusters)
            }
        }),
{
    let ghost ft = alloc.fat_type;
    let ghost init = alloc.fat@;
    let ghost lens = alloc_lens(ft, files@);
    let ghost d: int = dir_lens(ft).len() as int;
    let ghost clusters = alloc.clusters as int;
    proof {
        lemma_alloc_lens_pos(ft, files@);
        lemma_lens_sum_prefix(lens, 0);
        assert(lens.take(0) =~= Seq::<int>::empty());
    }
    let root = if alloc.fat_type.root_is_cluster() {
        proof {
            lemma_lens_sum_prefix(lens, 1);
            assert(lens.take(0).push(1) =~= lens.take(1));
        }
        match alloc_or_fail(alloc, 1, Ghost(init), Ghost(lens.take(0))) {
            Ok(c) => Some(c),
            Err(e) => return Err(e),
        }
    } else {
        None
    };
    let ghost j0: int = if ft == FatType::Fat32 { 1 } else { 0 };
    proof {
        lemma_lens_sum_prefix(lens, j0 + 1);
        assert(lens.take(j0).push(1) =~= lens.take(j0 + 1));
    }
    let efi = match alloc_or_fail(alloc, 1, Ghost(init), Ghost(lens.take(j0))) {
        Ok(c) => c,
        Err(e) => return Err(e),
    };
    proof {
        if ft == FatType::Fat32 {
            assert(lens.take(1).drop_last() =~= lens.take(0));
            assert(lens_sum(lens.take(1)) == 1);
        }
        assert(efi == efi_cluster(ft));
        assert(lens.take(j0 + 1).drop_last() =~= lens.take(j0));
    }
    proof {
        lemma_lens_sum_prefix(lens, j0 + 2);
        assert(lens.take(j0 + 1).push(1) =~= lens.take(j0 + 2));
    }
    let boot = match alloc_or_fail(alloc, 1, Ghost(init), Ghost(lens.take(j0 + 1))) {
        Ok(c) => c,
        Err(e) => return Err(e),
    };
    assert(boot == efi_cluster(ft) + 1);
    let mut starts: Vec<u32> = Vec::new();
    let mut k: usize = 0;
    while k < files.len()
        invariant
            k <= files@.len(),
            build_args_ok(files@),
            alloc.wf(),
            alloc.clusters == old(alloc).clusters,
            alloc.data_start == old(alloc).data_start,
            alloc.fat_type == ft,
            alloc.sectors_per_fat == old(alloc).sectors_per_fat,
            ft == old(alloc).fat_type,
            clusters == old(alloc).clusters,
            init == fresh_table(ft, clusters),
            lens == alloc_lens(ft, files@),
            d == dir_lens(ft).len(),
            d == j0 + 2,
            forall|i: int| 0 <= i < lens.len() ==> lens[i] >= 1,
            lens.len() == d + files@.len(),
            alloc.fat@ == table_of(init, lens.take(d + k), spec_eoc_chain_end(ft)),
            alloc.next@ == 2 + lens_sum(lens.take(d + k)),
            starts@.len() == k,
            forall|t: int| 0 <= t < k ==> #[trigger] starts@[t] == file_start(ft, files@, t),
        decreases files@.len() - k,
    {
        proof {
            lemma_content_size_prefix(files@, k as int);
            lemma_lens_sum_prefix(lens, d + k + 1);
            assert(lens.take(d + k).push(lens[d + k]) =~= lens.take(d + k + 1));
        }
        let sz = files[k].data.len() as u64;
        let c = (sz + 4095) / 4096;
        let n: u32 = if c > 1 {
            c as u32
        } else {
            1
        };
        assert(n == lens[d + k]);
        let start = match alloc_or_fail(alloc, n, Ghost(init), Ghost(lens.take(d + k))) {
            Ok(s) => s,
            Err(e) => return Err(e),
        };
        starts.push(start);
        k = k + 1;
    }
    assert(lens.take(d + files@.len()) =~= lens);
    Ok((root, efi, boot, starts))
}

} // verus!

verus! {

/// The first sector of the cluster heap.
pub open spec fn data_start_of(ft: FatType, fs: int) -> int {
    spec_reserved_sectors(ft) + 2 * fs + spec_root_dir_sectors(ft)
}

/// The byte offset of cluster `c`.
pub open spec fn cluster_off(ft: FatType, fs: int, c: int) -> int {
    (data_start_of(ft, fs) + (c - 2) * 8) * 512
}

/// The byte offset of the root directory: cluster 2 for FAT32, else the
/// fixed region after the FATs.
pub open spec fn root_off(ft: FatType, fs: int) -> int {
    if ft == FatType::Fat32 {
        cluster_off(ft, fs, 2)
    } else {
        (spec_reserved_sectors(ft) + 2 * fs) * 512
    }
}

/// "EFI" and "BOOT" as 8.3 names.
pub open spec fn efi_name() -> Seq<u8> {
    crate::fat::spec_pack_83(seq![0x45u8, 0x46, 0x49], Seq::empty())
}

pub open spec fn boot_name() -> Seq<u8> {
    crate::fat::spec_pack_83(seq![0x42u8, 0x4F, 0x4F, 0x54], Seq::empty())
}

/// The first cluster of the root directory: the volume label and `EFI`.
pub open spec fn root_area(ft: FatType) -> Seq<u8> {
    crate::fat::spec_vol_entry(efi_name()) + crate::fat::spec_entry_83(efi_name(), 0x10, efi_cluster(ft) as u32, 0)
        + zeros(4032)
}

/// The cluster of `EFI`: ".", ".." (the root: cluster 2 on FAT32, else 0)
/// and `BOOT`.
pub open spec fn efi_area(ft: FatType) -> Seq<u8> {
    let efi = efi_cluster(ft);
    let parent: u32 = if ft == FatType::Fat32 { 2 } else { 0 };
    crate::fat::spec_entry_83(crate::fat::dot_name(), 0x10, efi as u32, 0) + crate::fat::spec_entry_83(
        crate::fat::dotdot_name(),
        0x10,
        parent,
        0,
    ) + crate::fat::spec_entry_83(boot_name(), 0x10, (efi + 1) as u32, 0) + zeros(4000)
}

/// The entries of `EFI/BOOT` up to file `k`: ".", "..", then the entries of
/// the first `k` files.
pub open spec fn boot_dir(ft: FatType, files: Seq<FatFile>, k: int) -> Seq<u8>
    decreases k,
{
    if k <= 0 {
        let efi = efi_cluster(ft);
        crate::fat::spec_entry_83(crate::fat::dot_name(), 0x10, (efi + 1) as u32, 0) + crate::fat::spec_entry_83(
            crate::fat::dotdot_name(),
            0x10,
            efi as u32,
            0,
        )
    } else {
        boot_dir(ft, files, k - 1) + spec_file_entries(
            files[k - 1].name@,
            file_start(ft, files, k - 1) as u32,
            files[k - 1].data@.len() as u32,
        )
    }
}

/// The first cluster a 32-byte directory entry records: the high half at
/// bytes 20..22, the low half at bytes 26..28.
pub open spec fn entry_first_cluster(e: Seq<u8>) -> int {
    get_le16(e, 26) as int + 65536 * get_le16(e, 20) as int
}

proof fn lemma_entry_cluster(short: Seq<u8>, attr: u8, c: u32, size: u32)
    requires
        short.len() == 11,
    ensures
        entry_first_cluster(crate::fat::spec_entry_83(short, attr, c, size)) == c,
        crate::fat::spec_entry_83(short, attr, c, size).len() == 32,
        crate::fat::spec_entry_83(short, attr, c, size).subrange(0, 11) == short,
{
    let e = crate::fat::spec_entry_83(short, attr, c, size);
    let hi = (c >> 16u32) as u16;
    let lo = c as u16;
    assert(e.subrange(20, 22) =~= le16(hi));
    assert(e.subrange(26, 28) =~= le16(lo));
    assert(e.subrange(0, 11) =~= short);
    lemma_le16_roundtrip(hi, e, 20);
    lemma_le16_roundtrip(lo, e, 26);
    assert(lo as int + 65536 * hi as int == c as int) by (bit_vector)
        requires
            hi == (c >> 16u32) as u16,
            lo == c as u16,
    ;
}

proof fn lemma_boot_dir_head(ft: FatType, files: Seq<FatFile>, k: int)
    ensures
        boot_dir(ft, files, k).len() >= 64,
        boot_dir(ft, files, k).subrange(0, 64) == boot_dir(ft, files, 0),
    decreases k,
{
    let efi = efi_cluster(ft);
    lemma_entry_cluster(crate::fat::dot_name(), 0x10, (efi + 1) as u32, 0);
    lemma_entry_cluster(crate::fat::dotdot_name(), 0x10, efi as u32, 0);
    if k > 0 {
        lemma_boot_dir_head(ft, files, k - 1);
        let a = boot_dir(ft, files, k - 1);
        let b = spec_file_entries(
            files[k - 1].name@,
            file_start(ft, files, k - 1) as u32,
            files[k - 1].data@.len() as u32,
        );
        assert((a + b).subrange(0, 64) =~= a.subrange(0, 64));
    }
}

/// The directories of the FAT image link up: the root's `EFI` entry, the
/// "." entry of `EFI` and the ".." entry of `EFI/BOOT` all hold `EFI`'s
/// cluster; `EFI`'s `BOOT` entry and the "." entry of `EFI/BOOT` hold
/// `BOOT`'s cluster, which is not `EFI`'s; and the ".." entry of `EFI` holds
/// the root (0 on FAT12/16, the root's cluster 2 on FAT32).
pub proof fn lemma_fat_dir_links(ft: FatType, files: Seq<FatFile>, k: int)
    ensures
        ({
            let root = root_area(ft);
            let efi = efi_area(ft);
            let boot = boot_dir(ft, files, k);
            &&& efi.subrange(0, 11) == crate::fat::dot_name()
            &&& efi.subrange(32, 43) == crate::fat::dotdot_name()
            &&& boot.subrange(0, 11) == crate::fat::dot_name()
            &&& boot.subrange(32, 43) == crate::fat::dotdot_name()
            &&& entry_first_cluster(efi.subrange(0, 32)) == entry_first_cluster(root.subrange(32, 64))
            &&& entry_first_cluster(efi.subrange(32, 64)) == if ft == FatType::Fat32 { 2int } else { 0int }
            &&& entry_first_cluster(boot.subrange(0, 32)) == entry_first_cluster(efi.subrange(64, 96))
            &&& entry_first_cluster(boot.subrange(32, 64)) == entry_first_cluster(efi.subrange(0, 32))
            &&& entry_first_cluster(boot.subrange(0, 32)) != entry_first_cluster(efi.subrange(0, 32))
        }),
{
    let c = efi_cluster(ft);
    let parent: u32 = if ft == FatType::Fat32 { 2 } else { 0 };
    let dot = crate::fat::dot_name();
    let dotdot = crate::fat::dotdot_name();
    assert(dot.len() == 11 && dotdot.len() == 11);
    assert(efi_name().len() == 11);
    assert(boot_name().len() == 11);
    let vol = crate::fat::spec_vol_entry(efi_name());
    let e_efi = crate::fat::spec_entry_83(efi_name(), 0x10, c as u32, 0);
    let e_dot = crate::fat::spec_entry_83(dot, 0x10, c as u32, 0);
    let e_dotdot = crate::fat::spec_entry_83(dotdot, 0x10, parent, 0);
    let e_boot = crate::fat::spec_entry_83(boot_name(), 0x10, (c + 1) as u32, 0);
    let b_dot = crate::fat::spec_entry_83(dot, 0x10, (c + 1) as u32, 0);
    let b_dotdot = crate::fat::spec_entry_83(dotdot, 0x10, c as u32, 0);
    lemma_entry_cluster(efi_name(), 0x10, c as u32, 0);
    lemma_entry_cluster(dot, 0x10, c as u32, 0);
    lemma_entry_cluster(dotdot, 0x10, parent, 0);
    lemma_entry_cluster(boot_name(), 0x10, (c + 1) as u32, 0);
    lemma_entry_cluster(dot, 0x10, (c + 1) as u32, 0);
    lemma_entry_cluster(dotdot, 0x10, c as u32, 0);
    assert(vol.len() == 32);
    let root = root_area(ft);
    assert(root.subrange(32, 64) =~= e_efi);
    let efi = efi_area(ft);
    assert(efi.subrange(0, 32) =~= e_dot);
    assert(efi.subrange(32, 64) =~= e_dotdot);
    assert(efi.subrange(64, 96) =~= e_boot);
    assert(efi.subrange(0, 11) =~= e_dot.subrange(0, 11));
    assert(efi.subrange(32, 43) =~= e_dotdot.subrange(0, 11));
    lemma_boot_dir_head(ft, files, k);
    let boot = boot_dir(ft, files, k);
    let b0 = boot_dir(ft, files, 0);
    assert(b0 == b_dot + b_dotdot);
    assert(boot.subrange(0, 32) =~= b_dot) by {
        assert(boot.subrange(0, 32) =~= boot.subrange(0, 64).subrange(0, 32));
    }
    assert(boot.subrange(32, 64) =~= b_dotdot) by {
        assert(boot.subrange(32, 64) =~= boot.subrange(0, 64).subrange(32, 64));
    }
    assert(boot.subrange(0, 11) =~= b_dot.subrange(0, 11));
    assert(boot.subrange(32, 43) =~= b_dotdot.subrange(0, 11));
}

pub proof fn lemma_splice_other(s: Seq<u8>, off: int, b: Seq<u8>, a: int, c: int)
    requires
        0 <= off,
        off + b.len() <= s.len(),
        0 <= a <= c <= s.len(),
        c <= off || off + b.len() <= a,
    ensures
        splice(s, off, b).len() == s.len(),
        splice(s, off, b).subrange(a, c) == s.subrange(a, c),
{
    assert(splice(s, off, b).subrange(a, c) =~= s.subrange(a, c));
}

pub proof fn lemma_splice_at(s: Seq<u8>, off: int, b: Seq<u8>)
    requires
        0 <= off,
        off + b.len() <= s.len(),
    ensures
        splice(s, off, b).len() == s.len(),
        splice(s, off, b).subrange(off, off + b.len()) == b,
{
    assert(splice(s, off, b).subrange(off, off + b.len()) =~= b);
}

proof fn lemma_lens_sum_step(lens: Seq<int>, a: int)
    requires
        0 <= a < lens.len(),
    ensures
        lens_sum(lens.take(a + 1)) == lens_sum(lens.take(a)) + lens[a],
{
    assert(lens.take(a + 1).drop_last() =~= lens.take(a));
}

proof fn lemma_lens_sum_mono(lens: Seq<int>, a: int, b: int)
    requires
        0 <= a <= b <= lens.len(),
        forall|i: int| 0 <= i < lens.len() ==> lens[i] >= 1,
    ensures
        lens_sum(lens.take(a)) <= lens_sum(lens.take(b)),
        a < b ==> lens_sum(lens.take(a)) + lens[a] <= lens_sum(lens.take(b)),
    decreases b - a,
{
    if a < b {
        lemma_lens_sum_step(lens, a);
        lemma_lens_sum_mono(lens, a + 1, b);
    }
}

} // verus!

verus! {

/// What `allocate_all` establishes when it succeeds.
pub open spec fn placed(alloc: &Alloc, files: Seq<FatFile>, root: Option<u32>, efi: u32, boot: u32, starts: Seq<u32>) -> bool {
    let ft = alloc.fat_type;
    &&& alloc.wf()
    &&& build_args_ok(files)
    &&& lens_sum(alloc_lens(ft, files)) <= alloc.clusters
    &&& root == (if ft == FatType::Fat32 { Some(2u32) } else { None })
    &&& efi == efi_cluster(ft)
    &&& boot == efi_cluster(ft) + 1
    &&& starts.len() == files.len()
    &&& forall|k: int| 0 <= k < files.len() ==> #[trigger] starts[k] == file_start(ft, files, k)
    &&& alloc.data_start == data_start_of(ft, alloc.sectors_per_fat as int)
    &&& alloc.sectors_per_fat <= 0x4000_0000
}

fn root_dir_area(efi: u32) -> (area: Vec<u8>)
    ensures
        area@ == crate::fat::spec_vol_entry(efi_name()) + crate::fat::spec_entry_83(efi_name(), 0x10, efi, 0) + zeros(4032),
{
    let empty: [u8; 0] = [];
    let name: [u8; 3] = [0x45, 0x46, 0x49];
    assert(name@ =~= seq![0x45u8, 0x46, 0x49]);
    assert(empty@ =~= Seq::<u8>::empty());
    let label = crate::fat::pack_83(&name, &empty);
    let mut area = crate::fat::vol_entry(&label);
    let mut e = crate::fat::entry_83(&label, 0x10, efi, 0);
    area.append(&mut e);
    crate::bytes::push_zeros(&mut area, 4032);
    area
}

fn efi_dir_area(efi: u32, parent: u32, boot: u32) -> (area: Vec<u8>)
    ensures
        area@ == crate::fat::spec_entry_83(crate::fat::dot_name(), 0x10, efi, 0) + crate::fat::spec_entry_83(
            crate::fat::dotdot_name(),
            0x10,
            parent,
            0,
        ) + crate::fat::spec_entry_83(boot_name(), 0x10, boot, 0) + zeros(4000),
{
    let empty: [u8; 0] = [];
    let name: [u8; 4] = [0x42, 0x4F, 0x4F, 0x54];
    assert(name@ =~= seq![0x42u8, 0x4F, 0x4F, 0x54]);
    assert(empty@ =~= Seq::<u8>::empty());
    let bname = crate::fat::pack_83(&name, &empty);
    let mut area = crate::fat::dot_entries(efi, parent);
    let mut e = crate::fat::entry_83(&bname, 0x10, boot, 0);
    area.append(&mut e);
    crate::bytes::push_zeros(&mut area, 4000);
    area
}

proof fn lemma_dir_sum(ft: FatType, files: Seq<FatFile>)
    ensures
        lens_sum(alloc_lens(ft, files).take(dir_lens(ft).len() as int)) == dir_lens(ft).len(),
{
    let lens = alloc_lens(ft, files);
    assert(lens[0] == 1 && lens[1] == 1);
    assert(lens_sum(lens.take(0)) == 0);
    lemma_lens_sum_step(lens, 0);
    lemma_lens_sum_step(lens, 1);
    if ft == FatType::Fat32 {
        assert(lens[2] == 1);
        lemma_lens_sum_step(lens, 2);
    }
}

proof fn lemma_cluster_bounds(alloc: &Alloc, files: Seq<FatFile>, root: Option<u32>, efi: u32, boot: u32, starts: Seq<u32>, k: int)
    requires
        placed(alloc, files, root, efi, boot, starts),
        0 <= k < files.len(),
    ensures
        ({
            let ft = alloc.fat_type;
            let fs = alloc.sectors_per_fat as int;
            let s = file_start(ft, files, k);
            let n = ncl(files[k].data@.len() as int);
            &&& boot + 1 <= s
            &&& s + n <= alloc.clusters + 2
            &&& files[k].data@.len() <= n * 4096
            &&& cluster_off(ft, fs, s) + files[k].data@.len() <= cluster_off(ft, fs, s + n)
            &&& forall|t: int| 0 <= t < k ==> file_start(ft, files, t) + ncl(files[t].data@.len() as int) <= s
        }),
{
    let ft = alloc.fat_type;
    let lens = alloc_lens(ft, files);
    let d = dir_lens(ft).len() as int;
    lemma_alloc_lens_pos(ft, files);
    lemma_lens_sum_mono(lens, d, d + k);
    lemma_lens_sum_mono(lens, d + k, d + k + 1);
    lemma_lens_sum_mono(lens, d + k + 1, lens.len() as int);
    assert(lens.take(lens.len() as int) =~= lens);
    lemma_lens_sum_step(lens, d + k);
    assert(lens[d + k] == ncl(files[k].data@.len() as int));
    lemma_dir_sum(ft, files);
    assert forall|t: int| 0 <= t < k implies file_start(ft, files, t) + ncl(files[t].data@.len() as int) <= file_start(ft, files, k) by {
        lemma_lens_sum_mono(lens, d + t, d + k);
        assert(lens[d + t] == ncl(files[t].data@.len() as int));
    }
    let fs = alloc.sectors_per_fat as int;
    let s = file_start(ft, files, k);
    let n = ncl(files[k].data@.len() as int);
    assert(boot + 1 <= s);
    assert(s + n <= alloc.clusters + 2);
    assert(files[k].data@.len() <= n * 4096);
    assert(cluster_off(ft, fs, s) + files[k].data@.len() <= cluster_off(ft, fs, s + n));
}

} // verus!

verus! {

/// Bytes per cluster, as a buffer length.
const CLUSTER_BYTES: usize = 4096;

/// Whether `off <= i < off + n`.
pub open spec fn in_range(i: int, off: int, n: int) -> bool {
    off <= i < off + n
}

/// Whether byte `i` holds data of file `t`.
pub open spec fn in_file(i: int, ft: FatType, fs: int, files: Seq<FatFile>, t: int) -> bool {
    in_range(i, cluster_off(ft, fs, file_start(ft, files, t)), files[t].data@.len() as int)
}

/// Whether byte `i` belongs to the directories or to the data of the
/// first `k` files (the `EFI/BOOT` cluster when `boot` holds).
pub open spec fn tree_region(i: int, ft: FatType, fs: int, files: Seq<FatFile>, k: int, boot: bool) -> bool {
    ||| in_range(i, root_off(ft, fs), 4096)
    ||| in_range(i, cluster_off(ft, fs, efi_cluster(ft)), 4096)
    ||| (boot && in_range(i, cluster_off(ft, fs, efi_cluster(ft) + 1), 4096))
    ||| exists|t: int| 0 <= t < k && #[trigger] in_file(i, ft, fs, files, t)
}

/// Whether byte `i` belongs to the boot sector, the FSInfo sectors, the
/// backup boot sector or the two FATs of `tlen` bytes each.
pub open spec fn meta_region(i: int, ft: FatType, fs: int, tlen: int) -> bool {
    let res = spec_reserved_sectors(ft) as int;
    ||| in_range(i, 0, 90)
    ||| in_range(i, 510, 2)
    ||| in_range(i, res * 512, tlen)
    ||| in_range(i, (res + fs) * 512, tlen)
    ||| (ft == FatType::Fat32 && (in_range(i, 512, 512) || in_range(i, 3072, 90) || in_range(i, 3582, 514)))
}

/// A write at `off` leaves the bytes outside it as they were.
pub proof fn lemma_splice_frame(s: Seq<u8>, off: int, b: Seq<u8>)
    requires
        0 <= off,
        off + b.len() <= s.len(),
    ensures
        forall|i: int| 0 <= i < s.len() && !in_range(i, off, b.len() as int) ==> #[trigger] splice(s, off, b)[i] == s[i],
{
}

/// What the directories and file data of an image look like once written.
pub open spec fn tree_written(img: Seq<u8>, ft: FatType, fs: int, files: Seq<FatFile>, k: int) -> bool {
    &&& img.subrange(root_off(ft, fs), root_off(ft, fs) + 4096) == root_area(ft)
    &&& img.subrange(cluster_off(ft, fs, efi_cluster(ft)), cluster_off(ft, fs, efi_cluster(ft)) + 4096)
        == efi_area(ft)
    &&& forall|t: int|
        0 <= t < k ==> (#[trigger] img.subrange(
            cluster_off(ft, fs, file_start(ft, files, t)),
            cluster_off(ft, fs, file_start(ft, files, t)) + files[t].data@.len(),
        )) == files[t].data@
}

/// Writes the root, `EFI` and `EFI/BOOT` directories and the file data.
fn write_tree(
    img: &mut Vec<u8>,
    alloc: &Alloc,
    files: &Vec<FatFile>,
    root: Option<u32>,
    efi: u32,
    boot: u32,
    starts: &Vec<u32>,
) -> (r: Result<(), FatError>)
    requires
        placed(alloc, files@, root, efi, boot, starts@),
        old(img)@.len() == (alloc.data_start + alloc.clusters * 8) * 512,
        old(img)@.len() <= usize::MAX,
    ensures
        final(img)@.len() == old(img)@.len(),
        ({
            let ft = alloc.fat_type;
            let fs = alloc.sectors_per_fat as int;
            let m = (spec_reserved_sectors(ft) + 2 * fs) * 512;
            let dir = boot_dir(ft, files@, files@.len() as int);
            let b = cluster_off(ft, fs, efi_cluster(ft) + 1);
            &&& final(img)@.subrange(0, m) == old(img)@.subrange(0, m)
            &&& (r is Ok <==> dir.len() <= 4096)
            &&& (r is Err ==> r == Err::<(), FatError>(FatError::BootDirTooLarge))
            &&& r is Ok ==> tree_written(final(img)@, ft, fs, files@, files@.len() as int)
            &&& r is Ok ==> final(img)@.subrange(b, b + 4096) == dir + zeros((4096 - dir.len()) as nat)
            &&& r is Ok ==> forall|i: int|
                0 <= i < final(img)@.len() && !tree_region(i, ft, fs, files@, files@.len() as int, true)
                    ==> #[trigger] final(img)@[i] == old(img)@[i]
        }),
{
    let ghost ft = alloc.fat_type;
    let ghost fs = alloc.sectors_per_fat as int;
    let ghost m = (spec_reserved_sectors(ft) + 2 * fs) * 512;
    let ghost ds = alloc.data_start as int;
    let ghost start = img@;
    let len = img.len();
    proof {
        assert(ft == FatType::Fat12 ==> spec_root_dir_sectors(ft) == 14);
        assert(ft == FatType::Fat16 ==> spec_root_dir_sectors(ft) == 32);
        assert(ft == FatType::Fat32 ==> spec_root_dir_sectors(ft) == 0);
        assert(lens_sum(alloc_lens(ft, files@)) >= dir_lens(ft).len()) by {
            lemma_alloc_lens_pos(ft, files@);
            lemma_lens_sum_prefix(alloc_lens(ft, files@), dir_lens(ft).len() as int);
            lemma_dir_sum(ft, files@);
        }
    }
    // The root directory: a cluster on FAT32, else the fixed region.
    let area = root_dir_area(efi);
    assert(area@ == root_area(ft));
    let root_pos: usize = match root {
        Some(rc) => (alloc.sector_of(rc) * SECTOR) as usize,
        None => (alloc.root_dir_start() * SECTOR) as usize,
    };
    assert(root_pos == root_off(ft, fs));
    let copy_len: usize = match root {
        Some(_) => area.len(),
        None => {
            let root_size = (alloc.root_dir_sectors() * SECTOR) as usize;
            if area.len() < root_size {
                area.len()
            } else {
                root_size
            }
        },
    };
    assert(copy_len == 4096);
    let part = vstd::slice::slice_subrange(area.as_slice(), 0, copy_len);
    assert(part@ =~= area@);
    overwrite(img, root_pos, part);
    proof {
        lemma_splice_other(start, root_pos as int, part@, 0, m);
        lemma_splice_at(start, root_pos as int, part@);
        lemma_splice_frame(start, root_pos as int, part@);
    }
    // EFI: ".", "..", BOOT.
    let ghost s1 = img@;
    let efi_parent: u32 = match root {
        Some(rc) => rc,
        None => 0,
    };
    let efi_area_bytes = efi_dir_area(efi, efi_parent, boot);
    assert(efi_area_bytes@ =~= efi_area(ft));
    let efi_pos = (alloc.sector_of(efi) * SECTOR) as usize;
    overwrite(img, efi_pos, efi_area_bytes.as_slice());
    proof {
        lemma_splice_other(s1, efi_pos as int, efi_area_bytes@, 0, m);
        lemma_splice_other(s1, efi_pos as int, efi_area_bytes@, root_off(ft, fs), root_off(ft, fs) + 4096);
        lemma_splice_at(s1, efi_pos as int, efi_area_bytes@);
        lemma_splice_frame(s1, efi_pos as int, efi_area_bytes@);
        assert forall|i: int| 0 <= i < img@.len() && !tree_region(i, ft, fs, files@, 0, false) implies #[trigger] img@[i]
            == start[i] by {}
    }
    // EFI/BOOT: ".", "..", the file entries; the file data.
    let mut dir = crate::fat::dot_entries(boot, efi);
    let mut k: usize = 0;
    while k < files.len()
        invariant
            placed(alloc, files@, root, efi, boot, starts@),
            ft == alloc.fat_type,
            fs == alloc.sectors_per_fat as int,
            m == (spec_reserved_sectors(ft) + 2 * fs) * 512,
            ds == alloc.data_start as int,
            ds == data_start_of(ft, fs),
            len == img@.len(),
            len == start.len(),
            len == (alloc.data_start + alloc.clusters * 8) * 512,
            k <= files@.len(),
            img@.subrange(0, m) == start.subrange(0, m),
            tree_written(img@, ft, fs, files@, k as int),
            forall|i: int| 0 <= i < img@.len() && !tree_region(i, ft, fs, files@, k as int, false) ==> #[trigger] img@[i]
                == start[i],
            dir@ == boot_dir(ft, files@, k as int),
            ft == FatType::Fat12 ==> spec_root_dir_sectors(ft) == 14,
            ft == FatType::Fat16 ==> spec_root_dir_sectors(ft) == 32,
            ft == FatType::Fat32 ==> spec_root_dir_sectors(ft) == 0,
        decreases files@.len() - k,
    {
        proof {
            lemma_cluster_bounds(alloc, files@, root, efi, boot, starts@, k as int);
        }
        let f = &files[k];
        let first = starts[k];
        let size = f.data.len() as u32;
        let mut e = file_entries(f.name.as_str(), first, size);
        dir.append(&mut e);
        let pos = (alloc.sector_of(first) * SECTOR) as usize;
        let ghost before = img@;
        overwrite(img, pos, f.data.as_slice());
        proof {
            let sk = file_start(ft, files@, k as int);
            assert(pos == cluster_off(ft, fs, sk));
            lemma_splice_other(before, pos as int, f.data@, 0, m);
            lemma_splice_other(before, pos as int, f.data@, root_off(ft, fs), root_off(ft, fs) + 4096);
            lemma_splice_other(
                before,
                pos as int,
                f.data@,
                cluster_off(ft, fs, efi_cluster(ft)),
                cluster_off(ft, fs, efi_cluster(ft)) + 4096,
            );
            lemma_splice_at(before, pos as int, f.data@);
            lemma_splice_frame(before, pos as int, f.data@);
            assert forall|i: int| 0 <= i < img@.len() && !tree_region(i, ft, fs, files@, k + 1, false) implies #[trigger] img@[i]
                == start[i] by {
                assert(!in_file(i, ft, fs, files@, k as int));
                assert(!tree_region(i, ft, fs, files@, k as int, false));
            }
            assert forall|t: int| 0 <= t < k + 1 implies (#[trigger] img@.subrange(
                cluster_off(ft, fs, file_start(ft, files@, t)),
                cluster_off(ft, fs, file_start(ft, files@, t)) + files@[t].data@.len(),
            )) == files@[t].data@ by {
                if t < k {
                    lemma_cluster_bounds(alloc, files@, root, efi, boot, starts@, t);
                    lemma_splice_other(
                        before,
                        pos as int,
                        f.data@,
                        cluster_off(ft, fs, file_start(ft, files@, t)),
                        cluster_off(ft, fs, file_start(ft, files@, t)) + files@[t].data@.len(),
                    );
                }
            }
        }
        k = k + 1;
    }
    if dir.len() > CLUSTER_BYTES {
        return Err(FatError::BootDirTooLarge);
    }
    let dlen = dir.len();
    crate::bytes::push_zeros(&mut dir, CLUSTER_BYTES - dlen);
    let boot_pos = (alloc.sector_of(boot) * SECTOR) as usize;
    let ghost s3 = img@;
    overwrite(img, boot_pos, dir.as_slice());
    proof {
        lemma_splice_other(s3, boot_pos as int, dir@, 0, m);
        lemma_splice_other(s3, boot_pos as int, dir@, root_off(ft, fs), root_off(ft, fs) + 4096);
        lemma_splice_other(
            s3,
            boot_pos as int,
            dir@,
            cluster_off(ft, fs, efi_cluster(ft)),
            cluster_off(ft, fs, efi_cluster(ft)) + 4096,
        );
        lemma_splice_at(s3, boot_pos as int, dir@);
        lemma_splice_frame(s3, boot_pos as int, dir@);
        assert forall|i: int| 0 <= i < img@.len() && !tree_region(i, ft, fs, files@, files@.len() as int, true) implies #[trigger] img@[i]
            == start[i] by {
            assert(!tree_region(i, ft, fs, files@, files@.len() as int, false));
        }
        assert forall|t: int| 0 <= t < files@.len() implies (#[trigger] img@.subrange(
            cluster_off(ft, fs, file_start(ft, files@, t)),
            cluster_off(ft, fs, file_start(ft, files@, t)) + files@[t].data@.len(),
        )) == files@[t].data@ by {
            lemma_cluster_bounds(alloc, files@, root, efi, boot, starts@, t);
            lemma_splice_other(
                s3,
                boot_pos as int,
                dir@,
                cluster_off(ft, fs, file_start(ft, files@, t)),
                cluster_off(ft, fs, file_start(ft, files@, t)) + files@[t].data@.len(),
            );
        }
    }
    Ok(())
}

} // verus!

verus! {

/// Free clusters and the next-free hint for the FSInfo sector of a table
/// whose used entries are exactly those below `next`.
pub open spec fn fsinfo_free(clusters: int, next: int) -> u32 {
    (clusters - (next - 2)) as u32
}

pub open spec fn fsinfo_next(len: int, next: int) -> u32 {
    if next < len { next as u32 } else { 2 }
}

/// Counts the used (non-zero) entries and finds the first free one.
fn fsinfo_counts(alloc: &Alloc) -> (r: (u32, u32))
    requires
        alloc.wf(),
    ensures
        r.0 == fsinfo_free(alloc.clusters as int, alloc.next@),
        r.1 == fsinfo_next(alloc.fat@.len() as int, alloc.next@),
{
    let mut used: usize = 0;
    let mut first_free: Option<usize> = None;
    let mut i: usize = 0;
    while i < alloc.fat.len()
        invariant
            alloc.wf(),
            i <= alloc.fat@.len(),
            used == (if i < alloc.next@ { i as int } else { alloc.next@ }),
            first_free == (if i <= alloc.next@ { None } else { Some(alloc.next@ as usize) }),
        decreases alloc.fat@.len() - i,
    {
        if alloc.fat[i] != 0 {
            used = used + 1;
        } else if first_free.is_none() {
            first_free = Some(i);
        }
        i = i + 1;
    }
    let used32 = (used as u32) - 2;
    let free = (alloc.clusters as u32) - used32;
    let next_free = match first_free {
        Some(p) => p as u32,
        None => 2,
    };
    (free, next_free)
}

/// Writes the two FATs, the FSInfo sectors (FAT32) and the boot sector
/// with its FAT32 backup.
fn write_metadata(img: &mut Vec<u8>, alloc: &Alloc, total_sectors: u32, hidden: u32, serial: u32)
    requires
        alloc.wf(),
        alloc.data_start == data_start_of(alloc.fat_type, alloc.sectors_per_fat as int),
        alloc.sectors_per_fat <= 0x4000_0000,
        total_sectors == alloc.data_start + alloc.clusters * 8,
        old(img)@.len() == total_sectors as int * 512,
        old(img)@.len() <= usize::MAX,
        alloc.fat_type == FatType::Fat32 ==> 4 * alloc.fat@.len() <= alloc.sectors_per_fat * 512,
    ensures
        final(img)@.len() == old(img)@.len(),
        ({
            let ft = alloc.fat_type;
            let fs = alloc.sectors_per_fat as int;
            let res = spec_reserved_sectors(ft) as int;
            let m = (res + 2 * fs) * 512;
            let t = crate::fat::fat_table(alloc.fat@, ft, fs * 512);
            let bpb = crate::fat::spec_bpb(ft, total_sectors, fs as u32, hidden, serial, crate::fat::spec_root_dir_entries(ft) as u16);
            let info = crate::fat::spec_fsinfo(fsinfo_free(alloc.clusters as int, alloc.next@), fsinfo_next(alloc.fat@.len() as int, alloc.next@));
            &&& final(img)@.subrange(m, final(img)@.len() as int) == old(img)@.subrange(m, old(img)@.len() as int)
            &&& final(img)@.subrange(res * 512, res * 512 + t.len()) == t
            &&& final(img)@.subrange((res + fs) * 512, (res + fs) * 512 + t.len()) == t
            &&& t.len() <= fs * 512
            &&& final(img)@.subrange(0, 90) == bpb
            &&& final(img)@.subrange(510, 512) == le16(0xAA55)
            &&& ft == FatType::Fat32 ==> {
                &&& final(img)@.subrange(512, 1024) == info
                &&& final(img)@.subrange(3584, 4096) == info
                &&& final(img)@.subrange(3072, 3162) == bpb
                &&& final(img)@.subrange(3582, 3584) == le16(0xAA55)
            }
            &&& forall|i: int|
                0 <= i < final(img)@.len() && !meta_region(i, ft, fs, t.len() as int) ==> #[trigger] final(img)@[i]
                    == old(img)@[i]
        }),
{
    let ghost ft = alloc.fat_type;
    let ghost fs = alloc.sectors_per_fat as int;
    let ghost res = spec_reserved_sectors(ft) as int;
    let ghost m = (res + 2 * fs) * 512;
    let ghost s0 = img@;
    let len = img.len();
    let ft_exec = alloc.fat_type;
    let spf = alloc.sectors_per_fat;
    let reserved = ft_exec.reserved_sectors();
    proof {
        assert(ft == FatType::Fat12 ==> spec_root_dir_sectors(ft) == 14);
        assert(ft == FatType::Fat16 ==> spec_root_dir_sectors(ft) == 32);
        assert(ft == FatType::Fat32 ==> spec_root_dir_sectors(ft) == 0);
    }
    crate::fat::write_fat_tables(img, &alloc.fat, ft_exec, spf, reserved);
    let ghost t = crate::fat::fat_table(alloc.fat@, ft, fs * 512);
    proof {
        crate::fat::lemma_fat_table_len(alloc.fat@, ft, fs * 512);
        let mid = splice(s0, res * 512, t);
        lemma_splice_other(s0, res * 512, t, m, len as int);
        lemma_splice_at(s0, res * 512, t);
        lemma_splice_other(mid, (res + fs) * 512, t, m, len as int);
        lemma_splice_other(mid, (res + fs) * 512, t, res * 512, res * 512 + t.len());
        lemma_splice_at(mid, (res + fs) * 512, t);
        lemma_splice_frame(s0, res * 512, t);
        lemma_splice_frame(mid, (res + fs) * 512, t);
    }
    let ghost s1 = img@;
    if ft_exec == FatType::Fat32 {
        let (free, next_free) = fsinfo_counts(alloc);
        crate::fat::write_fsinfo(img, 1, free, next_free);
        let ghost s2 = img@;
        crate::fat::write_fsinfo(img, 7, free, next_free);
        proof {
            let info = crate::fat::spec_fsinfo(free, next_free);
            assert(info.len() == 512);
            lemma_splice_other(s1, 512, info, m, len as int);
            lemma_splice_other(s1, 512, info, res * 512, res * 512 + t.len());
            lemma_splice_other(s1, 512, info, (res + fs) * 512, (res + fs) * 512 + t.len());
            lemma_splice_at(s1, 512, info);
            lemma_splice_other(s2, 3584, info, m, len as int);
            lemma_splice_other(s2, 3584, info, res * 512, res * 512 + t.len());
            lemma_splice_other(s2, 3584, info, (res + fs) * 512, (res + fs) * 512 + t.len());
            lemma_splice_other(s2, 3584, info, 512, 1024);
            lemma_splice_at(s2, 3584, info);
            lemma_splice_frame(s1, 512, info);
            lemma_splice_frame(s2, 3584, info);
        }
    }
    let ghost s3 = img@;
    let root_dir_entries = ft_exec.root_dir_entries() as u16;
    crate::fat::write_bpb(img, 0, ft_exec, total_sectors, spf as u32, hidden, serial, root_dir_entries);
    proof {
        let bpb = crate::fat::spec_bpb(ft, total_sectors, fs as u32, hidden, serial, root_dir_entries);
        assert(bpb.len() == 90) by {
            crate::fat::lemma_bpb_len(ft, total_sectors, fs as u32, hidden, serial, root_dir_entries);
        }
        let a = splice(s3, 0, bpb);
        let sig = le16(0xAA55);
        lemma_splice_frame(s3, 0, bpb);
        lemma_splice_frame(a, 510, sig);
        lemma_splice_at(s3, 0, bpb);
        lemma_splice_other(a, 510, sig, 0, 90);
        lemma_splice_at(a, 510, sig);
        lemma_splice_other(s3, 0, bpb, m, len as int);
        lemma_splice_other(a, 510, sig, m, len as int);
        lemma_splice_other(s3, 0, bpb, res * 512, res * 512 + t.len());
        lemma_splice_other(a, 510, sig, res * 512, res * 512 + t.len());
        lemma_splice_other(s3, 0, bpb, (res + fs) * 512, (res + fs) * 512 + t.len());
        lemma_splice_other(a, 510, sig, (res + fs) * 512, (res + fs) * 512 + t.len());
        if ft == FatType::Fat32 {
            lemma_splice_other(s3, 0, bpb, 512, 1024);
            lemma_splice_other(a, 510, sig, 512, 1024);
            lemma_splice_other(s3, 0, bpb, 3584, 4096);
            lemma_splice_other(a, 510, sig, 3584, 4096);
        }
    }
    if ft_exec == FatType::Fat32 {
        let ghost s4 = img@;
        crate::fat::write_bpb(img, 6 * SECTOR, ft_exec, total_sectors, spf as u32, hidden, serial, root_dir_entries);
        proof {
            let bpb = crate::fat::spec_bpb(ft, total_sectors, fs as u32, hidden, serial, root_dir_entries);
            crate::fat::lemma_bpb_len(ft, total_sectors, fs as u32, hidden, serial, root_dir_entries);
            let a = splice(s4, 3072, bpb);
            let sig = le16(0xAA55);
            lemma_splice_frame(s4, 3072, bpb);
            lemma_splice_frame(a, 3582, sig);
            lemma_splice_at(s4, 3072, bpb);
            lemma_splice_other(a, 3582, sig, 3072, 3162);
            lemma_splice_at(a, 3582, sig);
            lemma_splice_other(s4, 3072, bpb, m, len as int);
            lemma_splice_other(a, 3582, sig, m, len as int);
            lemma_splice_other(s4, 3072, bpb, res * 512, res * 512 + t.len());
            lemma_splice_other(a, 3582, sig, res * 512, res * 512 + t.len());
            lemma_splice_other(s4, 3072, bpb, (res + fs) * 512, (res + fs) * 512 + t.len());
            lemma_splice_other(a, 3582, sig, (res + fs) * 512, (res + fs) * 512 + t.len());
            lemma_splice_other(s4, 3072, bpb, 512, 1024);
            lemma_splice_other(a, 3582, sig, 512, 1024);
            lemma_splice_other(s4, 3072, bpb, 3584, 4096);
            lemma_splice_other(a, 3582, sig, 3584, 4096);
            lemma_splice_other(s4, 3072, bpb, 0, 90);
            lemma_splice_other(a, 3582, sig, 0, 90);
            lemma_splice_other(s4, 3072, bpb, 510, 512);
            lemma_splice_other(a, 3582, sig, 510, 512);
        }
    }
}

} // verus!

verus! {

/// The size estimate (sectors) of the image of `files`.
pub open spec fn image_est(files: Seq<FatFile>) -> int {
    est_sectors(content_size(files))
}

/// The FAT type of the image of `files`.
pub open spec fn image_type(files: Seq<FatFile>) -> FatType {
    chosen_type(image_est(files))
}

/// The sectors the image of `files` is laid out on.
pub open spec fn image_layout_est(files: Seq<FatFile>) -> int {
    chosen_est(image_est(files))
}

/// The total sectors of the image of `files`.
pub open spec fn image_total(files: Seq<FatFile>) -> int {
    cand_total(image_type(files), image_layout_est(files))
}

/// The sectors per FAT of the image of `files`.
pub open spec fn image_fat_sectors(files: Seq<FatFile>) -> int {
    cand_fat_sectors(image_type(files), image_layout_est(files))
}

/// The data clusters of the image of `files`.
pub open spec fn image_clusters(files: Seq<FatFile>) -> int {
    cand_clusters(image_type(files), image_layout_est(files))
}

/// The cluster chain table of the image of `files`: the directories, then
/// each file, each as one chain of consecutive clusters.
pub open spec fn image_table(files: Seq<FatFile>) -> Seq<u32> {
    let ft = image_type(files);
    table_of(fresh_table(ft, image_clusters(files)), alloc_lens(ft, files), spec_eoc_chain_end(ft))
}

/// The clusters in use in the image of `files`.
pub open spec fn image_used(files: Seq<FatFile>) -> int {
    lens_sum(alloc_lens(image_type(files), files))
}

/// The image of `files` can be built: there is a file, the clusters
/// suffice, and the entries of `EFI/BOOT` fit in its one cluster.
pub open spec fn image_fits(files: Seq<FatFile>) -> bool {
    &&& files.len() > 0
    &&& image_used(files) <= image_clusters(files)
    &&& boot_dir(image_type(files), files, files.len() as int).len() <= 4096
}

/// What the image `img` of `files` holds: the boot sector, the two FATs,
/// the directories and the file data, and on FAT32 the FSInfo sectors and
/// the backup boot sector.
pub open spec fn image_ok(img: Seq<u8>, files: Seq<FatFile>, hidden: u32, serial: u32) -> bool {
    layout_ok(
        img,
        files,
        image_type(files),
        image_fat_sectors(files),
        image_clusters(files),
        hidden,
        serial,
    )
}

/// What an image of type `ft` with `fs` sectors per FAT and `clusters`
/// data clusters holds once `files` are written to it.
pub open spec fn layout_ok(
    img: Seq<u8>,
    files: Seq<FatFile>,
    ft: FatType,
    fs: int,
    clusters: int,
    hidden: u32,
    serial: u32,
) -> bool {
    let res = spec_reserved_sectors(ft) as int;
    let total = data_start_of(ft, fs) + clusters * 8;
    let lens = alloc_lens(ft, files);
    let table = table_of(fresh_table(ft, clusters), lens, spec_eoc_chain_end(ft));
    let t = crate::fat::fat_table(table, ft, fs * 512);
    let bpb = crate::fat::spec_bpb(
        ft,
        total as u32,
        fs as u32,
        hidden,
        serial,
        crate::fat::spec_root_dir_entries(ft) as u16,
    );
    let used = lens_sum(lens);
    let info = crate::fat::spec_fsinfo(fsinfo_free(clusters, 2 + used), fsinfo_next(clusters + 2, 2 + used));
    let dir = boot_dir(ft, files, files.len() as int);
    let b = cluster_off(ft, fs, efi_cluster(ft) + 1);
    &&& img.len() == total * 512
    &&& img.subrange(0, 90) == bpb
    &&& img.subrange(510, 512) == le16(0xAA55)
    &&& img.subrange(res * 512, res * 512 + t.len()) == t
    &&& img.subrange((res + fs) * 512, (res + fs) * 512 + t.len()) == t
    &&& tree_written(img, ft, fs, files, files.len() as int)
    &&& img.subrange(b, b + 4096) == dir + zeros((4096 - dir.len()) as nat)
    &&& ft == FatType::Fat32 ==> {
        &&& img.subrange(512, 1024) == info
        &&& img.subrange(3584, 4096) == info
        &&& img.subrange(3072, 3162) == bpb
        &&& img.subrange(3582, 3584) == le16(0xAA55)
    }
    &&& forall|i: int|
        0 <= i < img.len() && !tree_region(i, ft, fs, files, files.len() as int, true) && !meta_region(
            i,
            ft,
            fs,
            t.len() as int,
        ) ==> #[trigger] img[i] == 0
}

proof fn lemma_sub_of_sub(a: Seq<u8>, b: Seq<u8>, m: int, n: int, x: int, y: int)
    requires
        0 <= m <= x <= y <= n <= a.len(),
        n <= b.len(),
        a.subrange(m, n) == b.subrange(m, n),
    ensures
        a.subrange(x, y) == b.subrange(x, y),
{
    assert forall|i: int| 0 <= i < y - x implies a.subrange(x, y)[i] == b.subrange(x, y)[i] by {
        assert(a.subrange(x, y)[i] == a[x + i]);
        assert(b.subrange(x, y)[i] == b[x + i]);
        assert(a.subrange(m, n)[x - m + i] == a[x + i]);
        assert(b.subrange(m, n)[x - m + i] == b[x + i]);
    }
    assert(a.subrange(x, y) =~= b.subrange(x, y));
}

/// The directories and file data lie after the FATs, so rewriting what
/// precedes them keeps them.
proof fn lemma_tree_kept(
    alloc: &Alloc,
    files: Seq<FatFile>,
    root: Option<u32>,
    efi: u32,
    boot: u32,
    starts: Seq<u32>,
    a: Seq<u8>,
    b: Seq<u8>,
)
    requires
        placed(alloc, files, root, efi, boot, starts),
        a.len() == (alloc.data_start + alloc.clusters * 8) * 512,
        b.len() == a.len(),
        ({
            let m = (spec_reserved_sectors(alloc.fat_type) + 2 * alloc.sectors_per_fat) * 512;
            a.subrange(m, a.len() as int) == b.subrange(m, b.len() as int)
        }),
        tree_written(a, alloc.fat_type, alloc.sectors_per_fat as int, files, files.len() as int),
    ensures
        tree_written(b, alloc.fat_type, alloc.sectors_per_fat as int, files, files.len() as int),
        ({
            let ft = alloc.fat_type;
            let x = cluster_off(ft, alloc.sectors_per_fat as int, efi_cluster(ft) + 1);
            a.subrange(x, x + 4096) == b.subrange(x, x + 4096)
        }),
{
    let ft = alloc.fat_type;
    let fs = alloc.sectors_per_fat as int;
    let m = (spec_reserved_sectors(ft) + 2 * fs) * 512;
    let n = a.len() as int;
    assert(ft == FatType::Fat12 ==> spec_root_dir_sectors(ft) == 14);
    assert(ft == FatType::Fat16 ==> spec_root_dir_sectors(ft) == 32);
    assert(ft == FatType::Fat32 ==> spec_root_dir_sectors(ft) == 0);
    assert(lens_sum(alloc_lens(ft, files)) >= dir_lens(ft).len()) by {
        lemma_alloc_lens_pos(ft, files);
        lemma_lens_sum_prefix(alloc_lens(ft, files), dir_lens(ft).len() as int);
        lemma_dir_sum(ft, files);
    }
    lemma_sub_of_sub(a, b, m, n, root_off(ft, fs), root_off(ft, fs) + 4096);
    lemma_sub_of_sub(a, b, m, n, cluster_off(ft, fs, efi_cluster(ft)), cluster_off(ft, fs, efi_cluster(ft)) + 4096);
    lemma_sub_of_sub(
        a,
        b,
        m,
        n,
        cluster_off(ft, fs, efi_cluster(ft) + 1),
        cluster_off(ft, fs, efi_cluster(ft) + 1) + 4096,
    );
    assert forall|t: int| 0 <= t < files.len() implies (#[trigger] b.subrange(
        cluster_off(ft, fs, file_start(ft, files, t)),
        cluster_off(ft, fs, file_start(ft, files, t)) + files[t].data@.len(),
    )) == files[t].data@ by {
        lemma_cluster_bounds(alloc, files, root, efi, boot, starts, t);
        lemma_sub_of_sub(
            a,
            b,
            m,
            n,
            cluster_off(ft, fs, file_start(ft, files, t)),
            cluster_off(ft, fs, file_start(ft, files, t)) + files[t].data@.len(),
        );
    }
}

/// On FAT32 the two FATs have room for every entry of the table.
proof fn lemma_fat32_room(est: int)
    requires
        2880 <= est <= 0x1_0000_0000,
    ensures
        4 * (cand_clusters(FatType::Fat32, est) + 2) <= cand_fat_sectors(FatType::Fat32, est) * 512,
{
    let d = cand_data(FatType::Fat32, est);
    lemma_cand_bounds(FatType::Fat32, est);
    let c = cdiv(d, 8);
    let x = (c + 2) * 32;
    let y = cdiv(x, 8);
    let fs = cdiv(y, 512);
    assert(spec_entry_bits(FatType::Fat32) == 32);
    assert(fs == cand_fat_sectors(FatType::Fat32, est));
    assert(d / 8 <= c) by (nonlinear_arith)
        requires
            c == (d + 7) / 8,
            d >= 0,
    ;
    assert(y == 4 * (c + 2)) by (nonlinear_arith)
        requires
            y == (x + 7) / 8,
            x == (c + 2) * 32,
    ;
    assert(y <= fs * 512) by (nonlinear_arith)
        requires
            fs == (y + 511) / 512,
            y >= 0,
    ;
}

/// Writes the directories, the file data, the FATs and the boot sectors
/// into the zeroed image of an allocator that holds every allocation.
fn fill_image(
    img: &mut Vec<u8>,
    alloc: &Alloc,
    files: &Vec<FatFile>,
    root: Option<u32>,
    efi: u32,
    boot: u32,
    starts: &Vec<u32>,
    total: u32,
    hidden: u32,
    serial: u32,
) -> (r: Result<(), FatError>)
    requires
        placed(alloc, files@, root, efi, boot, starts@),
        alloc.fat@ == table_of(
            fresh_table(alloc.fat_type, alloc.clusters as int),
            alloc_lens(alloc.fat_type, files@),
            spec_eoc_chain_end(alloc.fat_type),
        ),
        alloc.next@ == 2 + lens_sum(alloc_lens(alloc.fat_type, files@)),
        total == alloc.data_start + alloc.clusters * 8,
        old(img)@.len() == total as int * 512,
        old(img)@.len() <= usize::MAX,
        alloc.fat_type == FatType::Fat32 ==> 4 * (alloc.clusters + 2) <= alloc.sectors_per_fat * 512,
        forall|i: int| 0 <= i < old(img)@.len() ==> #[trigger] old(img)@[i] == 0,
    ensures
        (r is Ok <==> boot_dir(alloc.fat_type, files@, files@.len() as int).len() <= 4096),
        r is Err ==> r == Err::<(), FatError>(FatError::BootDirTooLarge),
        r is Ok ==> layout_ok(
            final(img)@,
            files@,
            alloc.fat_type,
            alloc.sectors_per_fat as int,
            alloc.clusters as int,
            hidden,
            serial,
        ),
{
    match write_tree(img, alloc, files, root, efi, boot, starts) {
        Ok(()) => {},
        Err(e) => return Err(e),
    }
    let ghost a1 = img@;
    write_metadata(img, alloc, total, hidden, serial);
    proof {
        lemma_tree_kept(alloc, files@, root, efi, boot, starts@, a1, img@);
    }
    Ok(())
}

/// The FAT type declared for the image of `files` is the one FAT drivers
/// read from its cluster count, and a FAT12 or FAT16 image has fewer than
/// 65536 sectors.
pub open spec fn image_type_valid(files: Seq<FatFile>) -> bool {
    &&& cluster_type(image_clusters(files)) == image_type(files)
    &&& (image_type(files) != FatType::Fat32 ==> image_total(files) < 65536)
}

/// Every image the builder lays out declares the FAT type that its
/// cluster count gives.
pub proof fn lemma_image_type_valid(files: Seq<FatFile>)
    requires
        build_args_ok(files),
    ensures
        image_type_valid(files),
{
    lemma_content_size_nonneg(files);
    assert(2880 <= image_est(files) <= 0x4000_0000);
    lemma_chosen_ok(image_est(files));
}

/// The geometry of the image of `files`: its type, total sectors and
/// sectors per FAT.
fn image_geometry(files: &Vec<FatFile>) -> (r: (FatType, u32, u32))
    requires
        build_args_ok(files@),
    ensures
        r.0 == image_type(files@),
        r.1 == image_total(files@),
        r.2 == image_fat_sectors(files@),
        r.1 == data_start_of(r.0, r.2 as int) + image_clusters(files@) * 8,
        (r.1 as int) * 512 <= usize::MAX,
        r.1 <= 0x4000_0000,
        r.2 <= 0x4000_0000,
        image_clusters(files@) >= 0,
        r.0 == FatType::Fat32 ==> 4 * (image_clusters(files@) + 2) <= r.2 * 512,
{
    let content = sum_sizes(files);
    let rough = content + 20480 + 131072;
    let e0 = (rough + 511) / 512;
    let est: u64 = if e0 >= 2880 {
        e0
    } else {
        2880
    };
    assert(est == image_est(files@));
    let (ft, total, fs) = choose_geometry(est);
    proof {
        lemma_chosen_ok(est as int);
        let e2 = chosen_est(est as int);
        lemma_cand_bounds(ft, e2);
        if ft == FatType::Fat32 {
            lemma_fat32_room(e2);
        }
        assert(e2 * 512 <= usize::MAX) by {
            if e2 != est {
                assert(e2 <= 532480);
            }
        }
    }
    (ft, total, fs)
}

/// Builds the image of `files` in memory with volume serial `serial` and
/// `hidden` sectors before the volume: its bytes and its total sectors.
pub fn build_image_with_serial(files: &Vec<FatFile>, hidden: u32, serial: u32) -> (r: Result<(Vec<u8>, u32), FatError>)
    requires
        build_args_ok(files@),
    ensures
        files@.len() == 0 ==> r == Err::<(Vec<u8>, u32), FatError>(FatError::NoFiles),
        files@.len() > 0 && image_used(files@) > image_clusters(files@) ==> r == Err::<(Vec<u8>, u32), FatError>(
            FatError::OutOfClusters,
        ),
        files@.len() > 0 && image_used(files@) <= image_clusters(files@) && !image_fits(files@) ==> r == Err::<
            (Vec<u8>, u32),
            FatError,
        >(FatError::BootDirTooLarge),
        image_fits(files@) ==> (r matches Ok((img, total)) && total == image_total(files@) && image_ok(
            img@,
            files@,
            hidden,
            serial,
        )),
        image_type_valid(files@),
{
    if files.len() == 0 {
        proof {
            lemma_image_type_valid(files@);
        }
        return Err(FatError::NoFiles);
    }
    proof {
        lemma_image_type_valid(files@);
    }
    let (ft, total, fs) = image_geometry(files);
    let ghost clusters = image_clusters(files@);
    proof {
        assert(ft == FatType::Fat12 ==> spec_root_dir_sectors(ft) == 14);
        assert(ft == FatType::Fat16 ==> spec_root_dir_sectors(ft) == 32);
        assert(ft == FatType::Fat32 ==> spec_root_dir_sectors(ft) == 0);
        assert((clusters * 8) / 8 == clusters);
    }
    let mut img: Vec<u8> = Vec::new();
    crate::bytes::push_zeros(&mut img, (total as usize) * 512);
    let mut alloc = Alloc::new(total as u64, fs as u64, ft);
    assert(alloc.clusters == image_clusters(files@));
    let (root, efi, boot, starts) = match allocate_all(&mut alloc, files) {
        Ok(p) => p,
        Err(e) => return Err(e),
    };
    match fill_image(&mut img, &alloc, files, root, efi, boot, &starts, total, hidden, serial) {
        Ok(()) => {},
        Err(e) => return Err(e),
    }
    Ok((img, total))
}

/// A random volume serial number, from `rand::random`. Nothing is claimed
/// of its value.
#[verifier::external_body]
fn random_serial() -> u32 {
    rand::random::<u32>()
}

/// Builds the image of `files` in memory with a random volume serial and
/// `hidden` sectors before the volume: its bytes and its total sectors.
pub fn build_image(files: &Vec<FatFile>, hidden: u32) -> (r: Result<(Vec<u8>, u32), FatError>)
    requires
        build_args_ok(files@),
    ensures
        files@.len() == 0 ==> r == Err::<(Vec<u8>, u32), FatError>(FatError::NoFiles),
        files@.len() > 0 && image_used(files@) > image_clusters(files@) ==> r == Err::<(Vec<u8>, u32), FatError>(
            FatError::OutOfClusters,
        ),
        files@.len() > 0 && image_used(files@) <= image_clusters(files@) && !image_fits(files@) ==> r == Err::<
            (Vec<u8>, u32),
            FatError,
        >(FatError::BootDirTooLarge),
        image_fits(files@) ==> (r matches Ok((img, total)) && total == image_total(files@) && exists|serial: u32|
            image_ok(img@, files@, hidden, serial)),
        image_type_valid(files@),
{
    let serial = random_serial();
    build_image_with_serial(files, hidden, serial)
}

} // verus!

verus! {

proof fn lemma_table_of_len(init: Seq<u32>, lens: Seq<int>, eoc: u32)
    ensures
        table_of(init, lens, eoc).len() == init.len(),
    decreases lens.len(),
{
    if lens.len() > 0 {
        lemma_table_of_len(init, lens.drop_last(), eoc);
    }
}

/// Inside the `j`-th allocation, each entry of the table links to the next
/// cluster and the last ends the chain.
proof fn lemma_table_of_at(init: Seq<u32>, lens: Seq<int>, eoc: u32, j: int, i: int)
    requires
        0 <= j < lens.len(),
        forall|t: int| 0 <= t < lens.len() ==> lens[t] >= 1,
        init.len() >= 2 + lens_sum(lens),
        2 + lens_sum(lens.take(j)) <= i < 2 + lens_sum(lens.take(j + 1)),
    ensures
        table_of(init, lens, eoc)[i] == (if i < 1 + lens_sum(lens.take(j + 1)) {
            (i + 1) as u32
        } else {
            eoc
        }),
    decreases lens.len(),
{
    let p = lens.drop_last();
    lemma_table_of_len(init, p, eoc);
    lemma_lens_sum_prefix(lens, lens.len() - 1);
    assert(lens.take(lens.len() - 1) =~= p);
    lemma_lens_sum_prefix(lens, j);
    let s = 2 + lens_sum(p);
    let e = 2 + lens_sum(lens);
    assert(lens_sum(lens) == lens_sum(p) + lens[lens.len() - 1]);
    assert(table_of(init, lens, eoc) == chained(table_of(init, p, eoc), s, e, eoc));
    if j == lens.len() - 1 {
        assert(lens.take(j) =~= p);
        assert(lens.take(j + 1) =~= lens);
        assert(s <= i < e);
        assert(table_of(init, p, eoc).len() == init.len());
        let c = chained(table_of(init, p, eoc), s, e, eoc);
        assert(c[i] == (if s <= i < e - 1 { (i + 1) as u32 } else if i == e - 1 && s < e { eoc } else { table_of(init, p, eoc)[i] }));
    } else {
        assert(p.take(j) =~= lens.take(j));
        assert(p.take(j + 1) =~= lens.take(j + 1));
        lemma_lens_sum_prefix(p, j + 1);
        assert(i < s);
        lemma_table_of_at(init, p, eoc, j, i);
        assert(table_of(init, p, eoc).len() == init.len());
        let c = chained(table_of(init, p, eoc), s, e, eoc);
        assert(c[i] == table_of(init, p, eoc)[i]);
    }
}

/// Each file of a built image is one chain: from its first cluster on,
/// each entry of the table names the next cluster of the file, and the
/// entry of its last cluster ends the chain.
pub proof fn lemma_file_chain(files: Seq<FatFile>, k: int, i: int)
    requires
        build_args_ok(files),
        image_fits(files),
        0 <= k < files.len(),
        file_start(image_type(files), files, k) <= i < file_start(image_type(files), files, k) + ncl(
            files[k].data@.len() as int,
        ),
    ensures
        ({
            let ft = image_type(files);
            let last = file_start(ft, files, k) + ncl(files[k].data@.len() as int) - 1;
            &&& i < last ==> image_table(files)[i] == i + 1
            &&& i == last ==> image_table(files)[i] == spec_eoc_chain_end(ft)
        }),
{
    let ft = image_type(files);
    let lens = alloc_lens(ft, files);
    let d = dir_lens(ft).len() as int;
    lemma_alloc_lens_pos(ft, files);
    lemma_lens_sum_step(lens, d + k);
    assert(lens[d + k] == ncl(files[k].data@.len() as int));
    lemma_content_size_nonneg(files);
    lemma_chosen_ok(image_est(files));
    lemma_cand_bounds(ft, image_layout_est(files));
    lemma_lens_sum_prefix(lens, lens.len() as int);
    assert(lens.take(lens.len() as int) =~= lens);
    assert(image_layout_est(files) <= 0x4000_0000);
    assert(image_clusters(files) <= 0x4000_0000);
    let init = fresh_table(ft, image_clusters(files));
    assert(init.len() == image_clusters(files) + 2);
    assert(file_start(ft, files, k) == 2 + lens_sum(lens.take(d + k)));
    lemma_lens_sum_prefix(lens, d + k);
    lemma_lens_sum_prefix(lens, d + k + 1);
    assert(i < 2 + lens_sum(lens.take(d + k + 1)));
    lemma_table_of_at(init, lens, spec_eoc_chain_end(ft), d + k, i);
    assert(image_table(files) == table_of(init, lens, spec_eoc_chain_end(ft)));
    let last = file_start(ft, files, k) + ncl(files[k].data@.len() as int) - 1;
    assert(last == 1 + lens_sum(lens.take(d + k + 1)));
    if i < last {
        assert(image_table(files)[i] == (i + 1) as u32);
        assert(image_table(files)[i] == i + 1);
    } else {
        assert(i == last);
        assert(image_table(files)[i] == spec_eoc_chain_end(ft));
    }
}

} // verus!
