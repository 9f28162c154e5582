//! Writing the parts of an ISO image into its bytes: descriptors, boot
//! catalog, directory sectors, file data, the boot information table and
//! the final padding.
use crate::bytes::{be32, get_le32, le32, lemma_le32_roundtrip, push_le32, push_slice, push_zeros, write_at, write_at_spec, zeros};
use crate::iso::boot_catalog::{catalog_image, write_boot_catalog, BootCatalogEntry};
use crate::iso::dir_record::{file_id, record_bytes, IsoDirEntry};
use crate::iso::builder_utils::{children_extent, dir_extent, layout_dir, layout_node, node_extent};
use crate::iso::error::IsoError;
use crate::iso::fs_node::{dir_view, key, lemma_children_view, node_view, DirView, IsoDirectory, IsoFile, IsoFsNode, NodeView};
use crate::iso::volume_descriptor::{
    brvd_image, opt_bytes, pvd_image, terminator_image, update_total_sectors_in_pvd, write_volume_descriptors,
};
use vstd::prelude::*;
use vstd::utf8::{decode_utf8, encode_utf8};

verus! {

/// The record of the volume's root directory in the primary descriptor.
pub open spec fn root_record(root_lba: u32) -> Seq<u8> {
    record_bytes(root_lba, 2048, 2, seq![0u8])
}

/// The three volume descriptors (sectors 16 to 18) written over `img`.
pub open spec fn descriptors_image(img: Seq<u8>, volume_id: Option<Seq<u8>>, root_lba: u32, total_sectors: u32) -> Seq<u8> {
    write_at_spec(
        write_at_spec(write_at_spec(img, 32768, pvd_image(volume_id, total_sectors, root_record(root_lba))), 34816, brvd_image()),
        36864,
        terminator_image(),
    )
}

/// Writes the volume descriptors of a volume whose root directory is at
/// `root_lba`.
pub fn write_descriptors(iso: &mut Vec<u8>, volume_id: Option<&str>, root_lba: u32, total_sectors: u32)
    ensures
        final(iso)@ == descriptors_image(old(iso)@, opt_bytes(volume_id), root_lba, total_sectors),
{
    let root_entry = IsoDirEntry { lba: root_lba, size: 2048, flags: 0x02, name: "." };
    proof {
        reveal_strlit(".");
        assert(root_entry.name@ =~= seq!['.']);
    }
    write_volume_descriptors(iso, volume_id, total_sectors, &root_entry);
}

/// Writes the boot catalog at sector `boot_catalog_lba` when there are
/// entries.
pub fn write_boot_catalog_to_iso(iso: &mut Vec<u8>, boot_catalog_lba: u32, boot_entries: Vec<BootCatalogEntry>)
    requires
        boot_entries@.len() <= 63,
        (boot_catalog_lba + 1) * 2048 <= usize::MAX,
    ensures
        boot_entries@.len() == 0 ==> final(iso)@ == old(iso)@,
        boot_entries@.len() > 0 ==> final(iso)@ == write_at_spec(
            old(iso)@,
            boot_catalog_lba * 2048,
            catalog_image(boot_entries@),
        ),
{
    if boot_entries.len() > 0 {
        let ghost entries = boot_entries@;
        let mut cat: Vec<u8> = Vec::new();
        write_boot_catalog(&mut cat, boot_entries);
        assert(cat@ =~= catalog_image(entries));
        proof {
            crate::iso::boot_catalog::lemma_catalog_len(entries);
        }
        write_at(iso, (boot_catalog_lba as usize) * 2048, cat.as_slice());
    }
}

} // verus!

verus! {

/// The file identifier of a child's record.
pub open spec fn child_id(c: (Seq<u8>, NodeView)) -> Seq<u8> {
    match c.1 {
        NodeView::File(_) => file_id(decode_utf8(c.0), 0),
        NodeView::Dir(_) => file_id(decode_utf8(c.0), 2),
    }
}

/// The record of a child: a file's extent and size, or a directory's
/// sector with the directory flag.
pub open spec fn child_rec(c: (Seq<u8>, NodeView)) -> Seq<u8> {
    match c.1 {
        NodeView::File(f) => record_bytes(f.lba, f.size as u32, 0, child_id(c)),
        NodeView::Dir(d) => record_bytes(d.lba, 2048, 2, child_id(c)),
    }
}

/// Whether a child is a file too large for a record.
pub open spec fn file_too_large(c: (Seq<u8>, NodeView)) -> bool {
    match c.1 {
        NodeView::File(f) => f.size > u32::MAX,
        NodeView::Dir(_) => false,
    }
}

/// The records of the first `k` children.
pub open spec fn recs(cs: Seq<(Seq<u8>, NodeView)>, k: int) -> Seq<u8>
    decreases k,
{
    if k <= 0 {
        Seq::empty()
    } else {
        recs(cs, k - 1) + child_rec(cs[k - 1])
    }
}

/// The sector of directory `v` whose parent is at `parent`: the records
/// of ".", "..", and the children in order, zero-padded; or why it cannot
/// be written.
#[verifier::opaque]
pub open spec fn dir_sector(v: DirView, parent: u32) -> Result<Seq<u8>, IsoError> {
    let cs = v.children;
    if exists|i: int| 0 <= i < cs.len() && #[trigger] file_too_large(cs[i]) {
        Err(IsoError::FileTooLarge)
    } else if exists|i: int| 0 <= i < cs.len() && (#[trigger] child_id(cs[i])).len() > 221 {
        Err(IsoError::NameTooLong)
    } else {
        let body = record_bytes(v.lba, 2048, 2, seq![0u8]) + record_bytes(parent, 2048, 2, seq![1u8]) + recs(
            cs,
            cs.len() as int,
        );
        if body.len() > 2048 {
            Err(IsoError::DirectoryTooLarge)
        } else {
            Ok(body + zeros((2048 - body.len()) as nat))
        }
    }
}

/// The sector written for a directory starts with its "." record, which
/// points at the directory's own sector, and then its ".." record, which
/// points at the parent's sector: both 34 bytes, directory records, with
/// identifiers 0 and 1.
pub proof fn lemma_dir_sector_links(v: DirView, parent: u32)
    ensures
        dir_sector(v, parent) matches Ok(s) ==> {
            &&& s.len() == 2048
            &&& s[0] == 34 && s[25] == 2 && s[32] == 1 && s[33] == 0
            &&& get_le32(s, 2) == v.lba
            &&& s[34] == 34 && s[59] == 2 && s[66] == 1 && s[67] == 1
            &&& get_le32(s, 36) == parent
        },
{
    reveal(dir_sector);
    if let Ok(s) = dir_sector(v, parent) {
        let a = record_bytes(v.lba, 2048, 2, seq![0u8]);
        let b = record_bytes(parent, 2048, 2, seq![1u8]);
        assert(a.len() == 34);
        assert(b.len() == 34);
        let body = a + b + recs(v.children, v.children.len() as int);
        assert(s == body + zeros((2048 - body.len()) as nat));
        assert(s.subrange(0, 34) =~= a);
        assert(s.subrange(34, 68) =~= b);
        assert(a.subrange(2, 6) =~= le32(v.lba));
        assert(b.subrange(2, 6) =~= le32(parent));
        assert(s.subrange(2, 6) =~= le32(v.lba));
        assert(s.subrange(36, 40) =~= le32(parent));
        lemma_le32_roundtrip(v.lba, s, 2);
        lemma_le32_roundtrip(parent, s, 36);
        assert(s[0] == a[0] && s[25] == a[25] && s[32] == a[32] && s[33] == a[33]);
        assert(s[34] == b[0] && s[59] == b[25] && s[66] == b[32] && s[67] == b[33]);
    }
}

/// The sector of `dir`.
fn directory_sector(dir: &IsoDirectory, parent_lba: u32) -> (r: Result<Vec<u8>, IsoError>)
    ensures
        match dir_sector(dir_view(*dir), parent_lba) {
            Ok(s) => r is Ok && r->Ok_0@ == s,
            Err(e) => r == Err::<Vec<u8>, IsoError>(e),
        },
{
    reveal(dir_sector);
    let ghost v = dir_view(*dir);
    let ghost cv = v.children;
    let n = dir.children.len();
    proof {
        lemma_children_view(dir.children@, n as int);
    }
    let mut k: usize = 0;
    while k < n
        invariant
            k <= n,
            n == dir.children@.len(),
            cv == dir_view(*dir).children,
            cv.len() == n,
            forall|j: int| 0 <= j < n ==> #[trigger] cv[j] == (key(dir.children@[j].0), node_view(dir.children@[j].1)),
            forall|j: int| 0 <= j < k ==> !#[trigger] file_too_large(cv[j]),
        decreases n - k,
    {
        match &dir.children[k].1 {
            IsoFsNode::File(f) => {
                if f.size > 0xFFFF_FFFF {
                    assert(file_too_large(cv[k as int]));
                    proof {
                        reveal(dir_sector);
                    }
                    return Err(IsoError::FileTooLarge);
                }
            },
            IsoFsNode::Directory(_) => {},
        }
        k = k + 1;
    }
    let dot = IsoDirEntry { lba: dir.lba, size: 2048, flags: 0x02, name: "." };
    let dotdot = IsoDirEntry { lba: parent_lba, size: 2048, flags: 0x02, name: ".." };
    proof {
        reveal_strlit(".");
        reveal_strlit("..");
        assert(dot.name@ =~= seq!['.']);
        assert(dotdot.name@ =~= seq!['.', '.']);
    }
    let mut sector = dot.to_bytes();
    let mut dd = dotdot.to_bytes();
    sector.append(&mut dd);
    let ghost head = sector@;
    let mut k: usize = 0;
    while k < n
        invariant
            k <= n,
            n == dir.children@.len(),
            cv == dir_view(*dir).children,
            cv.len() == n,
            forall|j: int| 0 <= j < n ==> #[trigger] cv[j] == (key(dir.children@[j].0), node_view(dir.children@[j].1)),
            forall|j: int| 0 <= j < n ==> !#[trigger] file_too_large(cv[j]),
            forall|j: int| 0 <= j < k ==> (#[trigger] child_id(cv[j])).len() <= 221,
            sector@ == head + recs(cv, k as int),
        decreases n - k,
    {
        let name = &dir.children[k].0;
        proof {
            vstd::utf8::encode_utf8_decode_utf8(name@);
        }
        let entry = match &dir.children[k].1 {
            IsoFsNode::File(f) => IsoDirEntry { lba: f.lba, size: f.size as u32, flags: 0, name: name.as_str() },
            IsoFsNode::Directory(d) => IsoDirEntry { lba: d.lba, size: 2048, flags: 0x02, name: name.as_str() },
        };
        assert(entry.spec_id() == child_id(cv[k as int]));
        match entry.try_to_bytes() {
            Some(mut b) => {
                assert(b@ == child_rec(cv[k as int]));
                sector.append(&mut b);
            },
            None => {
                proof {
                    reveal(dir_sector);
                    assert(child_id(cv[k as int]).len() > 221);
                }
                return Err(IsoError::NameTooLong);
            },
        }
        k = k + 1;
    }
    if sector.len() > 2048 {
        return Err(IsoError::DirectoryTooLarge);
    }
    let len = sector.len();
    push_zeros(&mut sector, 2048 - len);
    Ok(sector)
}

} // verus!

verus! {

/// The image after writing the sectors of directory `v` (parent at
/// `parent`) and then, in order, of its subdirectories, with the position
/// after the last write; or why it cannot be written.
pub open spec fn write_dirs(img: Seq<u8>, pos: u64, v: DirView, parent: u32) -> Result<(Seq<u8>, u64), IsoError>
    decreases v, 0int,
{
    match dir_sector(v, parent) {
        Err(e) => Err(e),
        Ok(sec) => if (v.lba + 1) * 2048 > usize::MAX {
            Err(IsoError::ImageTooLarge)
        } else {
            write_subdirs(
                write_at_spec(img, v.lba * 2048, sec),
                ((v.lba + 1) * 2048) as u64,
                v.children,
                v.children.len() as int,
                v.lba,
            )
        },
    }
}

/// The image after writing the subdirectories among the first `k`
/// children, in order.
pub open spec fn write_subdirs(img: Seq<u8>, pos: u64, cs: Seq<(Seq<u8>, NodeView)>, k: int, parent: u32) -> Result<
    (Seq<u8>, u64),
    IsoError,
>
    decreases cs, k,
{
    if k <= 0 || k > cs.len() {
        Ok((img, pos))
    } else {
        proof {
            assert(decreases_to!(cs => cs[k - 1]));
        }
        match write_subdirs(img, pos, cs, k - 1, parent) {
            Err(e) => Err(e),
            Ok((i2, p2)) => match cs[k - 1].1 {
                NodeView::Dir(d) => write_dirs(i2, p2, d, parent),
                NodeView::File(_) => Ok((i2, p2)),
            },
        }
    }
}

proof fn lemma_dir_sector_len(v: DirView, parent: u32)
    ensures
        dir_sector(v, parent) matches Ok(s) ==> s.len() == 2048,
{
    reveal(dir_sector);
}

/// Writes the sector of `dir` (whose parent is at `parent_lba`) and then
/// those of its subdirectories, in name order; `*pos` ends after the last
/// sector written.
pub fn write_directories(iso: &mut Vec<u8>, pos: &mut u64, dir: &IsoDirectory, parent_lba: u32) -> (r: Result<(), IsoError>)
    ensures
        match write_dirs(old(iso)@, *old(pos), dir_view(*dir), parent_lba) {
            Ok((img, p)) => r is Ok && final(iso)@ == img && *final(pos) == p,
            Err(e) => r == Err::<(), IsoError>(e),
        },
    decreases *dir, 0int,
{
    let ghost v = dir_view(*dir);
    let sector = match directory_sector(dir, parent_lba) {
        Ok(s) => s,
        Err(e) => return Err(e),
    };
    proof {
        lemma_dir_sector_len(v, parent_lba);
    }
    let end = (dir.lba as u64 + 1) * 2048;
    if end > usize::MAX as u64 {
        return Err(IsoError::ImageTooLarge);
    }
    write_at(iso, (dir.lba as usize) * 2048, sector.as_slice());
    *pos = end;
    let n = dir.children.len();
    proof {
        lemma_children_view(dir.children@, n as int);
    }
    let ghost img0 = iso@;
    let ghost pos0 = *pos;
    assert(write_dirs(old(iso)@, *old(pos), v, parent_lba) == write_subdirs(img0, pos0, v.children, n as int, dir.lba));
    let mut k: usize = 0;
    while k < n
        invariant
            k <= n,
            n == dir.children@.len(),
            v == dir_view(*dir),
            write_dirs(old(iso)@, *old(pos), v, parent_lba) == write_subdirs(img0, pos0, v.children, n as int, dir.lba),
            v.children.len() == n,
            forall|j: int|
                0 <= j < n ==> #[trigger] v.children[j] == (key(dir.children@[j].0), node_view(dir.children@[j].1)),
            write_subdirs(img0, pos0, v.children, k as int, dir.lba) == Ok::<(Seq<u8>, u64), IsoError>((iso@, *pos)),
        decreases n - k,
    {
        match &dir.children[k].1 {
            IsoFsNode::Directory(sub) => {
                assert(decreases_to!(*dir => dir.children));
                assert(decreases_to!(dir.children => dir.children@));
                assert(decreases_to!(dir.children@ => dir.children@[k as int]));
                assert(decreases_to!(dir.children@[k as int] => dir.children@[k as int].1));
                let ghost i2 = iso@;
                let ghost p2 = *pos;
                proof {
                    assert(v.children[k as int].1 == NodeView::Dir(dir_view(*sub)));
                assert(files_in_children(v.children, k + 1) =~= files_in_children(v.children, k as int) + files_in(
                    dir_view(*sub),
                ));
                    assert(write_subdirs(img0, pos0, v.children, k + 1, dir.lba) == write_dirs(i2, p2, dir_view(*sub), dir.lba));
                }
                let r = write_directories(iso, pos, sub, dir.lba);
                if r.is_err() {
                    proof {
                        lemma_subdirs_err(img0, pos0, v.children, k as int + 1, n as int, dir.lba);
                    }
                    return r;
                }
            },
            IsoFsNode::File(_) => {},
        }
        k = k + 1;
    }
    Ok(())
}

/// Once writing the subdirectories fails, it fails the same way however
/// many more children are considered.
proof fn lemma_subdirs_err(img: Seq<u8>, pos: u64, cs: Seq<(Seq<u8>, NodeView)>, k: int, m: int, parent: u32)
    requires
        1 <= k <= m <= cs.len(),
        write_subdirs(img, pos, cs, k, parent) is Err,
    ensures
        write_subdirs(img, pos, cs, m, parent) == write_subdirs(img, pos, cs, k, parent),
    decreases m - k,
{
    if m > k {
        lemma_subdirs_err(img, pos, cs, k, m - 1, parent);
    }
}

} // verus!

verus! {

/// The files under `v`, in the order the image writes them: children in
/// name order, each directory's files where the directory stands.
pub open spec fn files_in(v: DirView) -> Seq<IsoFile>
    decreases v, 0int,
{
    files_in_children(v.children, v.children.len() as int)
}

pub open spec fn files_in_children(cs: Seq<(Seq<u8>, NodeView)>, k: int) -> Seq<IsoFile>
    decreases cs, k,
{
    if k <= 0 || k > cs.len() {
        Seq::empty()
    } else {
        proof {
            assert(decreases_to!(cs => cs[k - 1]));
        }
        files_in_children(cs, k - 1) + match cs[k - 1].1 {
            NodeView::File(f) => seq![f],
            NodeView::Dir(d) => files_in(d),
        }
    }
}

/// The files behind references.
pub open spec fn derefs(s: Seq<&IsoFile>) -> Seq<IsoFile> {
    s.map_values(|f: &IsoFile| *f)
}

/// Appends to `out` the files under `dir`, in the order the image writes
/// them.
fn collect_files<'a>(dir: &'a IsoDirectory, out: &mut Vec<&'a IsoFile>)
    ensures
        derefs(final(out)@) == derefs(old(out)@) + files_in(dir_view(*dir)),
    decreases *dir, 0int,
{
    let ghost v = dir_view(*dir);
    let ghost start = out@;
    let n = dir.children.len();
    proof {
        lemma_children_view(dir.children@, n as int);
    }
    let mut k: usize = 0;
    while k < n
        invariant
            k <= n,
            n == dir.children@.len(),
            v == dir_view(*dir),
            forall|j: int|
                0 <= j < n ==> #[trigger] v.children[j] == (key(dir.children@[j].0), node_view(dir.children@[j].1)),
            v.children.len() == n,
            derefs(out@) == derefs(start) + files_in_children(v.children, k as int),
        decreases n - k,
    {
        let ghost before = out@;
        match &dir.children[k].1 {
            IsoFsNode::File(f) => {
                out.push(f);
                assert(derefs(out@) =~= derefs(before) + seq![*f]);
                assert(v.children[k as int].1 == NodeView::File(*f));
                assert(files_in_children(v.children, k + 1) =~= files_in_children(v.children, k as int) + seq![*f]);
            },
            IsoFsNode::Directory(sub) => {
                assert(decreases_to!(*dir => dir.children));
                assert(decreases_to!(dir.children => dir.children@));
                assert(decreases_to!(dir.children@ => dir.children@[k as int]));
                assert(decreases_to!(dir.children@[k as int] => dir.children@[k as int].1));
                collect_files(sub, out);
                assert(v.children[k as int].1 == NodeView::Dir(dir_view(*sub)));
                assert(files_in_children(v.children, k + 1) =~= files_in_children(v.children, k as int) + files_in(
                    dir_view(*sub),
                ));
            },
        }
        k = k + 1;
        assert(derefs(out@) =~= derefs(start) + files_in_children(v.children, k as int));
    }
}

/// The files under `dir`, in the order the image writes them.
pub fn list_files(dir: &IsoDirectory) -> (r: Vec<&IsoFile>)
    ensures
        derefs(r@) == files_in(dir_view(*dir)),
{
    let mut out: Vec<&IsoFile> = Vec::new();
    assert(derefs(out@) =~= Seq::<IsoFile>::empty());
    collect_files(dir, &mut out);
    assert(derefs(out@) =~= files_in(dir_view(*dir)));
    out
}

/// The image after writing each file's data at its extent, in order, with
/// the position after the last write.
pub open spec fn files_image(img: Seq<u8>, pos: u64, files: Seq<IsoFile>, data: Seq<Seq<u8>>, k: int) -> (Seq<u8>, u64)
    decreases k,
{
    if k <= 0 {
        (img, pos)
    } else {
        let (i2, _) = files_image(img, pos, files, data, k - 1);
        (
            write_at_spec(i2, files[k - 1].lba * 2048, data[k - 1]),
            (files[k - 1].lba * 2048 + data[k - 1].len()) as u64,
        )
    }
}

/// Writes the data of each file (`data[i]` for `files[i]`) at its extent,
/// in order; `*pos` ends after the last write.
pub fn copy_files(iso: &mut Vec<u8>, pos: &mut u64, files: &Vec<&IsoFile>, data: &Vec<Vec<u8>>) -> (r: Result<(), IsoError>)
    requires
        files@.len() == data@.len(),
    ensures
        (forall|i: int| 0 <= i < files@.len() ==> files@[i].lba * 2048 + (#[trigger] data@[i])@.len() <= usize::MAX)
            <==> r is Ok,
        r is Err ==> r == Err::<(), IsoError>(IsoError::ImageTooLarge),
        r is Ok ==> (final(iso)@, *final(pos)) == files_image(
            old(iso)@,
            *old(pos),
            derefs(files@),
            data@.map_values(|d: Vec<u8>| d@),
            files@.len() as int,
        ),
{
    let ghost fs = derefs(files@);
    let ghost ds = data@.map_values(|d: Vec<u8>| d@);
    let mut i: usize = 0;
    while i < files.len()
        invariant
            i <= files@.len(),
            files@.len() == data@.len(),
            forall|j: int| 0 <= j < i ==> files@[j].lba * 2048 + (#[trigger] data@[j])@.len() <= usize::MAX,
        decreases files@.len() - i,
    {
        let off = files[i].lba as u64 * 2048;
        if off > usize::MAX as u64 {
            assert(files@[i as int].lba * 2048 + data@[i as int]@.len() > usize::MAX);
            return Err(IsoError::ImageTooLarge);
        }
        if data[i].len() > usize::MAX - off as usize {
            assert(files@[i as int].lba * 2048 + data@[i as int]@.len() > usize::MAX);
            return Err(IsoError::ImageTooLarge);
        }
        i = i + 1;
    }
    let mut i: usize = 0;
    while i < files.len()
        invariant
            i <= files@.len(),
            files@.len() == data@.len(),
            fs == derefs(files@),
            ds == data@.map_values(|d: Vec<u8>| d@),
            forall|j: int| 0 <= j < files@.len() ==> files@[j].lba * 2048 + (#[trigger] data@[j])@.len() <= usize::MAX,
            (iso@, *pos) == files_image(old(iso)@, *old(pos), fs, ds, i as int),
        decreases files@.len() - i,
    {
        assert(files@[i as int].lba * 2048 + data@[i as int]@.len() <= usize::MAX);
        let off = (files[i].lba as usize) * 2048;
        write_at(iso, off, data[i].as_slice());
        *pos = (off + data[i].len()) as u64;
        i = i + 1;
    }
    Ok(())
}

} // verus!

verus! {

/// The little-endian 32-bit word at `off` of `s`.
pub open spec fn word32(s: Seq<u8>, off: int) -> int {
    s[off] + 256 * s[off + 1] + 65536 * s[off + 2] + 16777216 * s[off + 3]
}

/// The sum of the first `n` words of `s` from `off` on.
pub open spec fn words_sum(s: Seq<u8>, off: int, n: int) -> int
    decreases n,
{
    if n <= 0 {
        0
    } else {
        words_sum(s, off, n - 1) + word32(s, off + 4 * (n - 1))
    }
}

/// The checksum of a boot image of `size` bytes at byte `base` of `img`:
/// the sum, modulo 2^32, of its whole 32-bit words from byte 64 on.
pub open spec fn boot_checksum(img: Seq<u8>, base: int, size: int) -> u32 {
    if size > 64 {
        (words_sum(img, base + 64, (size - 64) / 4) % 0x1_0000_0000) as u32
    } else {
        0
    }
}

/// The boot image's checksum takes in every whole 32-bit word from byte
/// 64 to the image's size: an image of fewer than 68 bytes sums nothing,
/// and an image one word longer sums one more word, the little-endian
/// word just below its size (modulo 2^32).
pub proof fn lemma_boot_checksum_words(img: Seq<u8>, base: int, size: int)
    ensures
        size < 68 ==> boot_checksum(img, base, size) == 0,
        size >= 64 && 0 <= base + 64 + 4 * ((size - 64) / 4) && base + 64 + 4 * ((size - 64) / 4) + 4 <= img.len()
            ==> boot_checksum(img, base, size + 4) == (boot_checksum(img, base, size) as int + get_le32(
            img,
            base + 64 + 4 * ((size - 64) / 4),
        ) as int) % 0x1_0000_0000,
{
    if size >= 64 && 0 <= base + 64 + 4 * ((size - 64) / 4) && base + 64 + 4 * ((size - 64) / 4) + 4 <= img.len() {
        let o = base + 64 + 4 * ((size - 64) / 4);
        let b0 = img[o];
        let b1 = img[o + 1];
        let b2 = img[o + 2];
        let b3 = img[o + 3];
        assert(((b0 as u32) | ((b1 as u32) << 8) | ((b2 as u32) << 16) | ((b3 as u32) << 24)) as int == b0 + 256 * b1
            + 65536 * b2 + 16777216 * b3) by (bit_vector);
        assert(get_le32(img, o) as int == word32(img, o));
    }
    if size >= 64 {
        let n = (size - 64) / 4;
        assert((size + 4 - 64) / 4 == n + 1);
        assert(words_sum(img, base + 64, n + 1) == words_sum(img, base + 64, n) + word32(img, base + 64 + 4 * n));
        if size > 64 {
            vstd::arithmetic::div_mod::lemma_add_mod_noop(
                words_sum(img, base + 64, n),
                word32(img, base + 64 + 4 * n),
                0x1_0000_0000,
            );
            assert((words_sum(img, base + 64, n) % 0x1_0000_0000) % 0x1_0000_0000 == words_sum(img, base + 64, n)
                % 0x1_0000_0000) by {
                vstd::arithmetic::div_mod::lemma_mod_twice(words_sum(img, base + 64, n), 0x1_0000_0000);
            }
        } else {
            assert(n == 0);
            assert(words_sum(img, base + 64, 0) == 0);
        }
    }
    if size < 68 && size > 64 {
        assert((size - 64) / 4 == 0);
    }
}

/// The 56-byte boot information table: the primary descriptor's sector
/// (16), the image's sector and size, the checksum, and 40 zero bytes.
pub open spec fn boot_info_table(lba: u32, size: u64, checksum: u32) -> Seq<u8> {
    le32(16) + le32(lba) + le32(size as u32) + le32(checksum) + zeros(40)
}

/// Writes the boot information table at byte 8 of the boot image at
/// sector `boot_image_lba`, of `boot_image_size` bytes.
pub fn write_boot_info_table(iso: &mut Vec<u8>, boot_image_lba: u32, boot_image_size: u64) -> (r: Result<(), IsoError>)
    ensures
        ({
            let base = boot_image_lba * 2048;
            if base + 64 > usize::MAX {
                r == Err::<(), IsoError>(IsoError::ImageTooLarge)
            } else if boot_image_size > 64 && base + boot_image_size > old(iso)@.len() {
                r == Err::<(), IsoError>(IsoError::Truncated)
            } else {
                &&& r is Ok
                &&& final(iso)@ == write_at_spec(
                    old(iso)@,
                    base + 8,
                    boot_info_table(
                        boot_image_lba,
                        boot_image_size,
                        boot_checksum(old(iso)@, base, boot_image_size as int),
                    ),
                )
            }
        }),
{
    let base64 = boot_image_lba as u64 * 2048;
    if base64 + 64 > usize::MAX as u64 {
        return Err(IsoError::ImageTooLarge);
    }
    let base = base64 as usize;
    let mut checksum: u64 = 0;
    if boot_image_size > 64 {
        let len = iso.len();
        if base > len || boot_image_size > (len - base) as u64 {
            return Err(IsoError::Truncated);
        }
        let n = ((boot_image_size - 64) / 4) as usize;
        let start = base + 64;
        let mut w: usize = 0;
        while w < n
            invariant
                w <= n,
                n == (boot_image_size - 64) / 4,
                start == base + 64,
                start + 4 * n <= iso@.len(),
                iso@.len() == len,
                checksum == words_sum(iso@, start as int, w as int) % 0x1_0000_0000,
            decreases n - w,
        {
            let o = start + 4 * w;
            let word = iso[o] as u64 + 256 * (iso[o + 1] as u64) + 65536 * (iso[o + 2] as u64) + 16777216 * (iso[o
                + 3] as u64);
            checksum = (checksum + word) % 0x1_0000_0000;
            w = w + 1;
        }
    }
    let mut table: Vec<u8> = Vec::new();
    push_le32(&mut table, 16);
    push_le32(&mut table, boot_image_lba);
    push_le32(&mut table, boot_image_size as u32);
    push_le32(&mut table, checksum as u32);
    push_zeros(&mut table, 40);
    assert(table@ =~= boot_info_table(boot_image_lba, boot_image_size, boot_checksum(iso@, base as int, boot_image_size as int)));
    write_at(iso, base + 8, table.as_slice());
    Ok(())
}

/// The position rounded up to a whole sector.
pub open spec fn padded_pos(pos: u64) -> int {
    if pos % 2048 == 0 { pos as int } else { pos + 2048 - pos % 2048 }
}

/// The image after `finalize_iso` pads it from `pos` to a whole sector.
pub open spec fn padded_image(img: Seq<u8>, pos: u64) -> Seq<u8> {
    if pos % 2048 == 0 { img } else { write_at_spec(img, pos as int, zeros((2048 - pos % 2048) as nat)) }
}

/// `img` with `total` as the volume size in the primary descriptor.
pub open spec fn with_total_sectors(img: Seq<u8>, total: u32) -> Seq<u8> {
    write_at_spec(write_at_spec(img, 32848, le32(total)), 32852, be32(total))
}

/// Pads the image from position `*pos` to a whole sector and records the
/// sectors up to there as the volume size.
pub fn finalize_iso(iso: &mut Vec<u8>, pos: &mut u64, total_sectors: &mut u32) -> (r: Result<(), IsoError>)
    ensures
        padded_pos(*old(pos)) > usize::MAX ==> r == Err::<(), IsoError>(IsoError::ImageTooLarge),
        padded_pos(*old(pos)) <= usize::MAX && padded_pos(*old(pos)) / 2048 > u32::MAX ==> r == Err::<(), IsoError>(
            IsoError::ImageTooLarge,
        ),
        padded_pos(*old(pos)) <= usize::MAX && padded_pos(*old(pos)) / 2048 <= u32::MAX ==> {
            &&& r is Ok
            &&& *final(pos) == padded_pos(*old(pos))
            &&& *final(total_sectors) == padded_pos(*old(pos)) / 2048
            &&& final(iso)@ == with_total_sectors(padded_image(old(iso)@, *old(pos)), (padded_pos(*old(pos)) / 2048) as u32)
            &&& final(iso)@.len() >= 32856
            &&& final(iso)@.subrange(32848, 32852) == le32(*final(total_sectors))
            &&& final(iso)@.subrange(32852, 32856) == be32(*final(total_sectors))
        },
{
    let rem = *pos % 2048;
    if rem != 0 {
        let pad = 2048 - rem;
        if *pos > usize::MAX as u64 - pad {
            return Err(IsoError::ImageTooLarge);
        }
        let z: Vec<u8> = vec![0u8; pad as usize];
        assert(z@ =~= zeros((2048 - *old(pos) % 2048) as nat));
        write_at(iso, *pos as usize, z.as_slice());
        *pos = *pos + pad;
    } else if *pos > usize::MAX as u64 {
        return Err(IsoError::ImageTooLarge);
    }
    let total = *pos / 2048;
    if total > u32::MAX as u64 {
        return Err(IsoError::ImageTooLarge);
    }
    *total_sectors = total as u32;
    update_total_sectors_in_pvd(iso, total as u32);
    Ok(())
}

} // verus!

verus! {

/// Byte `i` of `img`, zero past its end (as a write past the end fills).
pub open spec fn byte_or_zero(img: Seq<u8>, i: int) -> int {
    if 0 <= i < img.len() { img[i] as int } else { 0 }
}

/// Whether sector `s` is the sector of `v` or of a directory below it.
pub open spec fn tree_has(v: DirView, s: int) -> bool
    decreases v, 0int,
{
    s == v.lba || kids_have(v.children, v.children.len() as int, s)
}

/// Whether sector `s` belongs to the tree of one of the first `k`
/// children that are directories.
pub open spec fn kids_have(cs: Seq<(Seq<u8>, NodeView)>, k: int, s: int) -> bool
    decreases cs, k,
{
    if k <= 0 || k > cs.len() {
        false
    } else {
        proof {
            assert(decreases_to!(cs => cs[k - 1]));
        }
        kids_have(cs, k - 1, s) || match cs[k - 1].1 {
            NodeView::Dir(d) => tree_has(d, s),
            NodeView::File(_) => false,
        }
    }
}

proof fn lemma_write_at_outside(f: Seq<u8>, off: int, b: Seq<u8>)
    requires
        0 <= off,
    ensures
        write_at_spec(f, off, b).len() >= f.len(),
        write_at_spec(f, off, b).len() >= off + b.len(),
        write_at_spec(f, off, b).subrange(off, off + b.len()) == b,
        forall|i: int|
            0 <= i < write_at_spec(f, off, b).len() && !(off <= i < off + b.len()) ==> #[trigger] byte_or_zero(
                write_at_spec(f, off, b),
                i,
            ) == byte_or_zero(f, i),
{
    reveal(write_at_spec);
    crate::bytes::lemma_write_at(f, off, b);
}

/// Writing the directories of `v` changes no byte outside their sectors
/// (the bytes a write past the end adds there are zero), and never
/// shortens the image.
pub proof fn lemma_dirs_frame(img: Seq<u8>, pos: u64, v: DirView, parent: u32)
    ensures
        write_dirs(img, pos, v, parent) matches Ok((img2, p2)) ==> {
            &&& img2.len() >= img.len()
            &&& forall|i: int|
                0 <= i < img2.len() && !tree_has(v, i / 2048) ==> #[trigger] byte_or_zero(img2, i) == byte_or_zero(
                    img,
                    i,
                )
        },
    decreases v, 0int,
{
    if let Ok((img2, p2)) = write_dirs(img, pos, v, parent) {
        lemma_dir_sector_len(v, parent);
        let sec = dir_sector(v, parent)->Ok_0;
        let off = v.lba * 2048;
        let img1 = write_at_spec(img, off, sec);
        lemma_write_at_outside(img, off, sec);
        lemma_subdirs_frame(img1, ((v.lba + 1) * 2048) as u64, v.children, v.children.len() as int, v.lba);
        assert forall|i: int| 0 <= i < img2.len() && !tree_has(v, i / 2048) implies #[trigger] byte_or_zero(img2, i)
            == byte_or_zero(img, i) by {
            assert(byte_or_zero(img2, i) == byte_or_zero(img1, i));
            if i < img1.len() {
                assert(!(off <= i < off + 2048)) by {
                    if off <= i < off + 2048 {
                        assert(i / 2048 == v.lba) by (nonlinear_arith)
                            requires
                                off == v.lba * 2048,
                                off <= i < off + 2048,
                        ;
                    }
                }
            }
        }
    }
}

/// Writing the directories of the first `k` children changes no byte
/// outside their sectors, and never shortens the image.
pub proof fn lemma_subdirs_frame(img: Seq<u8>, pos: u64, cs: Seq<(Seq<u8>, NodeView)>, k: int, parent: u32)
    ensures
        write_subdirs(img, pos, cs, k, parent) matches Ok((img2, p2)) ==> {
            &&& img2.len() >= img.len()
            &&& forall|i: int|
                0 <= i < img2.len() && !kids_have(cs, k, i / 2048) ==> #[trigger] byte_or_zero(img2, i)
                    == byte_or_zero(img, i)
        },
    decreases cs, k,
{
    if k > 0 && k <= cs.len() {
        assert(decreases_to!(cs => cs[k - 1]));
        lemma_subdirs_frame(img, pos, cs, k - 1, parent);
        if let Ok((i2, p2)) = write_subdirs(img, pos, cs, k - 1, parent) {
            match cs[k - 1].1 {
                NodeView::Dir(d) => {
                    assert(decreases_to!(cs[k - 1] => cs[k - 1].1));
                    lemma_dirs_frame(i2, p2, d, parent);
                },
                NodeView::File(_) => {},
            }
        }
    }
}

} // verus!

verus! {

/// In a tree laid out from sector `start`, the directories below it lie in
/// its extent.
proof fn lemma_laid_tree_range(u: DirView, start: int, s: int)
    requires
        0 <= start,
        start + dir_extent(u) <= u32::MAX + 1,
        tree_has(layout_dir(u, start), s),
    ensures
        start <= s < start + dir_extent(u),
    decreases u, u.children.len() + 1,
{
    crate::iso::builder_utils::lemma_layout_disjoint(u, start);
    crate::iso::builder_utils::lemma_children_extent_mono(u.children, u.children.len() as int);
    if s != start {
        lemma_laid_kids_range(u, start, u.children.len() as int, s);
    }
}

proof fn lemma_laid_kids_range(u: DirView, start: int, k: int, s: int)
    requires
        0 <= start,
        start + dir_extent(u) <= u32::MAX + 1,
        0 <= k <= u.children.len(),
        kids_have(layout_dir(u, start).children, k, s),
    ensures
        start + 1 + children_extent(u.children, 0) <= s < start + 1 + children_extent(u.children, k),
    decreases u, k,
{
    let cs = u.children;
    let laid = layout_dir(u, start).children;
    crate::iso::builder_utils::lemma_layout_disjoint(u, start);
    crate::iso::builder_utils::lemma_children_extent_mono(cs, k);
    if k > 0 {
        if kids_have(laid, k - 1, s) {
            lemma_laid_kids_range(u, start, k - 1, s);
        } else {
            let j = k - 1;
            let st = start + 1 + children_extent(cs, j);
            assert(laid[j] == (cs[j].0, layout_node(cs[j].1, st)));
            assert(children_extent(cs, k) == children_extent(cs, j) + node_extent(cs[j].1));
            match cs[j].1 {
                NodeView::Dir(d) => {
                    assert(decreases_to!(u => u.children));
                    assert(decreases_to!(u.children => u.children[j]));
                    assert(decreases_to!(u.children[j] => u.children[j].1));
                    assert(laid[j].1 == NodeView::Dir(layout_dir(d, st)));
                    assert(node_extent(cs[j].1) == dir_extent(d));
                    lemma_laid_tree_range(d, st, s);
                },
                NodeView::File(_) => {
                    assert(laid[j].1 is File);
                },
            }
        }
    }
}

} // verus!

verus! {

/// Whether sector `s` belongs to the tree of one of the children `k` to
/// `m - 1` that are directories.
pub open spec fn kids_between(cs: Seq<(Seq<u8>, NodeView)>, k: int, m: int, s: int) -> bool
    decreases m - k,
{
    if m <= k || m > cs.len() || k < 0 {
        false
    } else {
        kids_between(cs, k, m - 1, s) || match cs[m - 1].1 {
            NodeView::Dir(d) => tree_has(d, s),
            NodeView::File(_) => false,
        }
    }
}

/// Writing the directories of children `k` to `m - 1` changes no byte
/// outside their sectors.
proof fn lemma_subdirs_tail(img: Seq<u8>, pos: u64, cs: Seq<(Seq<u8>, NodeView)>, k: int, m: int, parent: u32)
    requires
        0 <= k <= m <= cs.len(),
        write_subdirs(img, pos, cs, m, parent) is Ok,
    ensures
        write_subdirs(img, pos, cs, k, parent) is Ok,
        ({
            let ik = write_subdirs(img, pos, cs, k, parent)->Ok_0.0;
            let im = write_subdirs(img, pos, cs, m, parent)->Ok_0.0;
            &&& im.len() >= ik.len()
            &&& forall|i: int|
                0 <= i < im.len() && !kids_between(cs, k, m, i / 2048) ==> #[trigger] byte_or_zero(im, i)
                    == byte_or_zero(ik, i)
        }),
    decreases m - k,
{
    if m > k {
        if write_subdirs(img, pos, cs, m - 1, parent) is Err {
            if m - 1 >= 1 {
                lemma_subdirs_err(img, pos, cs, m - 1, m, parent);
            }
        }
        lemma_subdirs_tail(img, pos, cs, k, m - 1, parent);
        let (i2, p2) = write_subdirs(img, pos, cs, m - 1, parent)->Ok_0;
        match cs[m - 1].1 {
            NodeView::Dir(d) => {
                lemma_dirs_frame(i2, p2, d, parent);
            },
            NodeView::File(_) => {},
        }
    }
}

/// The sector of the top directory of a laid-out tree, once its
/// directories are written, holds that directory's sector.
proof fn lemma_top_sector(u: DirView, start: int, img: Seq<u8>, pos: u64, parent: u32)
    requires
        0 <= start,
        start + dir_extent(u) <= u32::MAX + 1,
        write_dirs(img, pos, layout_dir(u, start), parent) is Ok,
    ensures
        ({
            let img2 = write_dirs(img, pos, layout_dir(u, start), parent)->Ok_0.0;
            &&& dir_sector(layout_dir(u, start), parent) is Ok
            &&& img2.len() >= start * 2048 + 2048
            &&& img2.subrange(start * 2048, start * 2048 + 2048) == dir_sector(layout_dir(u, start), parent)->Ok_0
        }),
{
    let v = layout_dir(u, start);
    crate::iso::builder_utils::lemma_layout_disjoint(u, start);
    crate::iso::builder_utils::lemma_children_extent_mono(u.children, u.children.len() as int);
    assert(start <= u32::MAX);
    lemma_dir_sector_len(v, parent);
    let sec = dir_sector(v, parent)->Ok_0;
    let off = v.lba * 2048;
    assert(v.lba == start);
    let img1 = write_at_spec(img, off, sec);
    lemma_write_at_outside(img, off, sec);
    let n = v.children.len() as int;
    lemma_subdirs_frame(img1, ((v.lba + 1) * 2048) as u64, v.children, n, v.lba);
    let img2 = write_dirs(img, pos, v, parent)->Ok_0.0;
    assert forall|i: int| 0 <= i < 2048 implies img2[off + i] == sec[i] by {
        assert((off + i) / 2048 == start) by (nonlinear_arith)
            requires
                off == start * 2048,
                0 <= i < 2048,
        ;
        if kids_have(v.children, n, start) {
            assert(u.children.len() == n);
            lemma_laid_kids_range(u, start, n, start);
            assert(false);
        }
        assert(byte_or_zero(img2, off + i) == byte_or_zero(img1, off + i));
        assert(img1.subrange(off, off + 2048)[i] == sec[i]);
    }
    assert(img2.subrange(off, off + 2048) =~= sec);
}

/// Once the directories of a tree laid out from sector `start` are
/// written, the sector of the top directory holds its records, whose
/// ".." points at `parent`, and the sector of each directory among its
/// children holds that child's records, whose ".." points at `start`, the
/// sector of the directory that contains it; each "." points at the
/// directory's own sector.
pub proof fn lemma_dirs_link_to_parent(u: DirView, start: int, img: Seq<u8>, pos: u64, parent: u32)
    requires
        0 <= start,
        start + dir_extent(u) <= u32::MAX + 1,
    ensures
        write_dirs(img, pos, layout_dir(u, start), parent) matches Ok((img2, p2)) ==> {
            &&& get_le32(img2, start * 2048 + 2) == start
            &&& get_le32(img2, start * 2048 + 36) == parent
            &&& forall|j: int|
                0 <= j < u.children.len() && #[trigger] layout_dir(u, start).children[j].1 is Dir ==> {
                    let d = layout_dir(u, start).children[j].1->Dir_0;
                    &&& get_le32(img2, d.lba * 2048 + 2) == d.lba
                    &&& get_le32(img2, d.lba * 2048 + 36) == start
                }
        },
{
    let v = layout_dir(u, start);
    if let Ok((img2, p2)) = write_dirs(img, pos, v, parent) {
        lemma_top_sector(u, start, img, pos, parent);
        lemma_dir_sector_links(v, parent);
        let sec = dir_sector(v, parent)->Ok_0;
        assert(img2[start * 2048 + 2] == sec[2] && img2[start * 2048 + 3] == sec[3] && img2[start * 2048 + 4]
            == sec[4] && img2[start * 2048 + 5] == sec[5]) by {
            assert(img2.subrange(start * 2048, start * 2048 + 2048) == sec);
        }
        assert(img2[start * 2048 + 36] == sec[36] && img2[start * 2048 + 37] == sec[37] && img2[start * 2048 + 38]
            == sec[38] && img2[start * 2048 + 39] == sec[39]) by {
            assert(img2.subrange(start * 2048, start * 2048 + 2048) == sec);
        }
        let n = u.children.len() as int;
        let cs = u.children;
        let laid = v.children;
        crate::iso::builder_utils::lemma_layout_disjoint(u, start);
        assert forall|j: int| 0 <= j < n && #[trigger] laid[j].1 is Dir implies {
            let d = laid[j].1->Dir_0;
            &&& get_le32(img2, d.lba * 2048 + 2) == d.lba
            &&& get_le32(img2, d.lba * 2048 + 36) == start
        } by {
            lemma_child_sector(u, start, img, pos, parent, j);
        }
    }
}

proof fn lemma_child_sector(u: DirView, start: int, img: Seq<u8>, pos: u64, parent: u32, j: int)
    requires
        0 <= start,
        start + dir_extent(u) <= u32::MAX + 1,
        write_dirs(img, pos, layout_dir(u, start), parent) is Ok,
        0 <= j < u.children.len(),
        layout_dir(u, start).children[j].1 is Dir,
    ensures
        ({
            let img2 = write_dirs(img, pos, layout_dir(u, start), parent)->Ok_0.0;
            let d = layout_dir(u, start).children[j].1->Dir_0;
            &&& get_le32(img2, d.lba * 2048 + 2) == d.lba
            &&& get_le32(img2, d.lba * 2048 + 36) == start
        }),
{
    let v = layout_dir(u, start);
    let cs = u.children;
    let laid = v.children;
    let n = cs.len() as int;
    crate::iso::builder_utils::lemma_layout_disjoint(u, start);
    crate::iso::builder_utils::lemma_children_extent_mono(cs, n);
    assert(start <= u32::MAX);
    lemma_dir_sector_len(v, parent);
    let sec = dir_sector(v, parent)->Ok_0;
    let img1 = write_at_spec(img, v.lba * 2048, sec);
    let p1 = ((v.lba + 1) * 2048) as u64;
    assert(v.lba == start);
    let img2 = write_dirs(img, pos, v, parent)->Ok_0.0;
    assert(write_subdirs(img1, p1, laid, n, v.lba) is Ok);
    let st = start + 1 + children_extent(cs, j);
    let du = cs[j].1->Dir_0;
    assert(laid[j] == (cs[j].0, layout_node(cs[j].1, st)));
    assert(cs[j].1 is Dir);
    let d = layout_dir(du, st);
    assert(laid[j].1 == NodeView::Dir(d));
    assert(node_extent(cs[j].1) == dir_extent(du));
    crate::iso::builder_utils::lemma_children_extent_mono(du.children, du.children.len() as int);
    assert(dir_extent(du) >= 1);
    assert(start + 1 + children_extent(cs, j) + node_extent(cs[j].1) <= start + dir_extent(u));
    assert(children_extent(cs, j + 1) == children_extent(cs, j) + node_extent(cs[j].1));
    assert(st <= u32::MAX);
    // Stages j and j + 1 of writing the children.
    lemma_subdirs_tail(img1, p1, laid, j + 1, n, v.lba);
    lemma_subdirs_tail(img1, p1, laid, j, j + 1, v.lba);
    let (ij, pj) = write_subdirs(img1, p1, laid, j, v.lba)->Ok_0;
    assert(write_subdirs(img1, p1, laid, j + 1, v.lba) == write_dirs(ij, pj, d, v.lba));
    assert(d.lba == st);
    lemma_top_sector(du, st, ij, pj, start as u32);
    lemma_dir_sector_links(d, start as u32);
    let ij1 = write_subdirs(img1, p1, laid, j + 1, v.lba)->Ok_0.0;
    let dsec = dir_sector(d, start as u32)->Ok_0;
    // Later children do not touch the child's sector.
    assert forall|i: int| 0 <= i < 2048 implies img2[st * 2048 + i] == dsec[i] by {
        assert((st * 2048 + i) / 2048 == st) by (nonlinear_arith)
            requires
                0 <= i < 2048,
        ;
        lemma_not_between(u, start, j + 1, n, st);
        assert(byte_or_zero(img2, st * 2048 + i) == byte_or_zero(ij1, st * 2048 + i));
        assert(ij1.subrange(st * 2048, st * 2048 + 2048)[i] == dsec[i]);
    }
    assert(img2[st * 2048 + 2] == dsec[2] && img2[st * 2048 + 3] == dsec[3] && img2[st * 2048 + 4] == dsec[4]
        && img2[st * 2048 + 5] == dsec[5]);
    assert(img2[st * 2048 + 36] == dsec[36] && img2[st * 2048 + 37] == dsec[37] && img2[st * 2048 + 38] == dsec[38]
        && img2[st * 2048 + 39] == dsec[39]);
}

/// The trees of children `k` to `m - 1` of a laid-out directory do not
/// reach the sector of an earlier child `j < k` that is a directory.
proof fn lemma_not_between(u: DirView, start: int, k: int, m: int, s: int)
    requires
        0 <= start,
        start + dir_extent(u) <= u32::MAX + 1,
        1 <= k <= m <= u.children.len(),
        start + 1 <= s < start + 1 + children_extent(u.children, k),
    ensures
        !kids_between(layout_dir(u, start).children, k, m, s),
    decreases m - k,
{
    if m > k {
        lemma_not_between(u, start, k, m - 1, s);
        let cs = u.children;
        let laid = layout_dir(u, start).children;
        crate::iso::builder_utils::lemma_layout_disjoint(u, start);
        crate::iso::builder_utils::lemma_children_extent_mono(cs, m);
        let j = m - 1;
        let st = start + 1 + children_extent(cs, j);
        assert(laid[j] == (cs[j].0, layout_node(cs[j].1, st)));
        match cs[j].1 {
            NodeView::Dir(du) => {
                assert(laid[j].1 == NodeView::Dir(layout_dir(du, st)));
                assert(node_extent(cs[j].1) == dir_extent(du));
                if tree_has(layout_dir(du, st), s) {
                    assert(start + 1 + children_extent(cs, j) + node_extent(cs[j].1) <= start + dir_extent(u));
                    lemma_laid_tree_range(du, st, s);
                    crate::iso::builder_utils::lemma_children_extent_mono(cs, j);
                    assert(children_extent(cs, k) <= children_extent(cs, j));
                    assert(false);
                }
            },
            NodeView::File(_) => {},
        }
    }
}

} // verus!
