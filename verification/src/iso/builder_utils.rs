//! Paths in the ISO tree: splitting, lookup, directory creation, and the
//! El Torito boot entries of files in the tree.
use crate::iso::boot_catalog::{BootCatalogEntry, BootCatalogEntryType, BOOT_CATALOG_EFI_PLATFORM_ID};
use crate::iso::error::IsoError;
use crate::iso::fs_node::{
    dir_view, key, lemma_children_view, lemma_insert_lookup, lookup_child, node_view, sorted, view_insert,
    view_wf, DirView, IsoDirectory, IsoFile, IsoFsNode, NodeView,
};
use vstd::prelude::*;
use vstd::utf8::encode_utf8;

verus! {

/// The string of the chars `cs` (`String::from_iter`, std).
#[verifier::external_body]
fn string_from_chars(cs: &[char]) -> (r: String)
    ensures
        r@ == cs@,
{
    cs.iter().collect::<String>()
}

/// Whether segment `idx` of a path (between separators) is a component:
/// empty segments never are, and "." only as the first segment of a
/// relative path.
pub open spec fn keep_seg(seg: Seq<char>, idx: int, rooted: bool) -> bool {
    seg.len() > 0 && !(seg == seq!['.'] && (idx > 0 || rooted))
}

/// Reading `p` from the start: the components found so far, the segment
/// being read, and its index among the segments.
pub open spec fn scan(p: Seq<char>, rooted: bool) -> (Seq<Seq<char>>, Seq<char>, int)
    decreases p.len(),
{
    if p.len() == 0 {
        (Seq::empty(), Seq::empty(), 0)
    } else {
        let (k, c, i) = scan(p.drop_last(), rooted);
        if p.last() == '/' {
            (if keep_seg(c, i, rooted) { k.push(c) } else { k }, Seq::empty(), i + 1)
        } else {
            (k, c.push(p.last()), i)
        }
    }
}

/// The components of `p` as `std::path::Path::components` documents them
/// on Unix, each as its text: a leading "/" is the root component, empty
/// segments (repeated or trailing separators) are dropped, and so is "."
/// except as the first segment of a relative path.
pub open spec fn components(p: Seq<char>) -> Seq<Seq<char>> {
    let rooted = p.len() > 0 && p[0] == '/';
    let (k, c, i) = scan(p, rooted);
    let rest = if keep_seg(c, i, rooted) { k.push(c) } else { k };
    if rooted { seq![seq!['/']] + rest } else { rest }
}

/// Whether a component names an entry (not the root, ".", or "..").
pub open spec fn is_normal(c: Seq<char>) -> bool {
    c != seq!['/'] && c != seq!['.'] && c != seq!['.', '.']
}

/// The components of `path`.
pub fn path_components(path: &str) -> (r: Vec<String>)
    ensures
        r@.len() == components(path@).len(),
        forall|i: int| 0 <= i < r@.len() ==> (#[trigger] r@[i])@ == components(path@)[i],
{
    let chars = crate::fat::collect_chars(path);
    let rooted = chars.len() > 0 && chars[0] == '/';
    let mut out: Vec<String> = Vec::new();
    let mut cur: Vec<char> = Vec::new();
    let mut idx: usize = 0;
    let mut i: usize = 0;
    let ghost root_part: Seq<Seq<char>> = if rooted { seq![seq!['/']] } else { Seq::empty() };
    if rooted {
        let s: [char; 1] = ['/'];
        out.push(string_from_chars(&s));
        assert(s@ =~= seq!['/']);
    }
    while i < chars.len()
        invariant
            i <= chars@.len(),
            chars@ == path@,
            rooted == (path@.len() > 0 && path@[0] == '/'),
            idx <= i,
            scan(path@.take(i as int), rooted) == (
                Seq::new((out@.len() - root_part.len()) as nat, |j: int| out@[j + root_part.len()]@),
                cur@,
                idx as int,
            ),
            out@.len() >= root_part.len(),
            forall|j: int| 0 <= j < root_part.len() ==> (#[trigger] out@[j])@ == root_part[j],
        decreases chars@.len() - i,
    {
        let ghost before = path@.take(i as int);
        let ghost k0 = Seq::new((out@.len() - root_part.len()) as nat, |j: int| out@[j + root_part.len()]@);
        let c = chars[i];
        assert(path@.take(i + 1).drop_last() =~= before);
        if c == '/' {
            let keep = cur.len() > 0 && !(cur.len() == 1 && cur[0] == '.' && (idx > 0 || rooted));
            assert(keep == keep_seg(cur@, idx as int, rooted)) by {
                if cur@.len() == 1 && cur@[0] == '.' {
                    assert(cur@ =~= seq!['.']);
                }
            }
            if keep {
                let s = string_from_chars(cur.as_slice());
                out.push(s);
                assert(Seq::new((out@.len() - root_part.len()) as nat, |j: int| out@[j + root_part.len()]@) =~= k0.push(cur@));
            } else {
                assert(Seq::new((out@.len() - root_part.len()) as nat, |j: int| out@[j + root_part.len()]@) =~= k0);
            }
            cur = Vec::new();
            idx = idx + 1;
        } else {
            cur.push(c);
            assert(Seq::new((out@.len() - root_part.len()) as nat, |j: int| out@[j + root_part.len()]@) =~= k0);
        }
        i = i + 1;
    }
    assert(path@.take(chars@.len() as int) =~= path@);
    let ghost k0 = Seq::new((out@.len() - root_part.len()) as nat, |j: int| out@[j + root_part.len()]@);
    let keep = cur.len() > 0 && !(cur.len() == 1 && cur[0] == '.' && (idx > 0 || rooted));
    assert(keep == keep_seg(cur@, idx as int, rooted)) by {
        if cur@.len() == 1 && cur@[0] == '.' {
            assert(cur@ =~= seq!['.']);
        }
    }
    if keep {
        let s = string_from_chars(cur.as_slice());
        out.push(s);
        assert(Seq::new((out@.len() - root_part.len()) as nat, |j: int| out@[j + root_part.len()]@) =~= k0.push(cur@));
    }
    let ghost rest = Seq::new((out@.len() - root_part.len()) as nat, |j: int| out@[j + root_part.len()]@);
    assert(rest == (if keep_seg(cur@, idx as int, rooted) { k0.push(cur@) } else { k0 }));
    assert forall|j: int| 0 <= j < out@.len() implies (#[trigger] out@[j])@ == components(path@)[j] by {
        if j >= root_part.len() {
            assert(rest[j - root_part.len()] == out@[j]@);
        }
    }
    out
}

} // verus!

verus! {

/// The node at the components `comps` under the directory `v`.
pub open spec fn lookup_path(v: DirView, comps: Seq<Seq<char>>) -> Option<NodeView>
    decreases comps.len(),
{
    if comps.len() == 0 {
        None
    } else {
        match lookup_child(v.children, encode_utf8(comps[0])) {
            None => None,
            Some(n) => if comps.len() == 1 {
                Some(n)
            } else {
                match n {
                    NodeView::Dir(d) => lookup_path(d, comps.drop_first()),
                    NodeView::File(_) => None,
                }
            },
        }
    }
}

/// The node at `path` in the tree under `root`.
fn get_node_for_path<'a>(root: &'a IsoDirectory, path: &str) -> (r: Result<&'a IsoFsNode, IsoError>)
    ensures
        r matches Ok(n) ==> lookup_path(dir_view(*root), components(path@)) == Some(node_view(*n)),
        r is Err ==> lookup_path(dir_view(*root), components(path@)) is None && r == Err::<&IsoFsNode, IsoError>(
            IsoError::NotFound,
        ),
{
    let comps = path_components(path);
    let ghost cs = components(path@);
    if comps.len() == 0 {
        return Err(IsoError::NotFound);
    }
    let mut current = root;
    let mut i: usize = 0;
    assert(cs.skip(0) =~= cs);
    while i < comps.len()
        invariant
            0 <= i < comps@.len(),
            cs == components(path@),
            comps@.len() == cs.len(),
            forall|j: int| 0 <= j < comps@.len() ==> (#[trigger] comps@[j])@ == cs[j],
            lookup_path(dir_view(*root), cs) == lookup_path(dir_view(*current), cs.skip(i as int)),
        decreases comps@.len() - i,
    {
        let name = comps[i].as_str().as_bytes();
        let ghost s = cs.skip(i as int);
        assert(s.len() == cs.len() - i);
        assert(s[0] == cs[i as int]);
        assert(name@ == encode_utf8(s[0]));
        let found = current.find_child(name);
        match found {
            None => {
                assert(lookup_path(dir_view(*current), s) is None);
                return Err(IsoError::NotFound);
            },
            Some(idx) => {
                if i == comps.len() - 1 {
                    return Ok(&current.children[idx].1);
                }
                match &current.children[idx].1 {
                    IsoFsNode::Directory(d) => {
                        assert(cs.skip(i as int).drop_first() =~= cs.skip(i + 1));
                        current = d;
                    },
                    IsoFsNode::File(f) => {
                        assert(node_view(current.children@[idx as int].1) == NodeView::File(*f));
                        assert(lookup_path(dir_view(*current), s) is None);
                        return Err(IsoError::NotFound);
                    },
                }
            },
        }
        i = i + 1;
    }
    Err(IsoError::NotFound)
}

/// The first sector of the file at `path`.
pub fn get_lba_for_path(root: &IsoDirectory, path: &str) -> (r: Result<u32, IsoError>)
    ensures
        match lookup_path(dir_view(*root), components(path@)) {
            Some(NodeView::File(f)) => r == Ok::<u32, IsoError>(f.lba),
            Some(NodeView::Dir(_)) => r == Err::<u32, IsoError>(IsoError::IsDirectory),
            None => r == Err::<u32, IsoError>(IsoError::NotFound),
        },
{
    match get_node_for_path(root, path) {
        Ok(IsoFsNode::File(f)) => Ok(f.lba),
        Ok(IsoFsNode::Directory(_)) => Err(IsoError::IsDirectory),
        Err(e) => Err(e),
    }
}

/// The size in bytes of the file at `path`.
pub fn get_file_size_in_iso(root: &IsoDirectory, path: &str) -> (r: Result<u64, IsoError>)
    ensures
        match lookup_path(dir_view(*root), components(path@)) {
            Some(NodeView::File(f)) => r == Ok::<u64, IsoError>(f.size),
            Some(NodeView::Dir(_)) => r == Err::<u64, IsoError>(IsoError::IsDirectory),
            None => r == Err::<u64, IsoError>(IsoError::NotFound),
        },
{
    match get_node_for_path(root, path) {
        Ok(IsoFsNode::File(f)) => Ok(f.size),
        Ok(IsoFsNode::Directory(_)) => Err(IsoError::IsDirectory),
        Err(e) => Err(e),
    }
}

} // verus!

verus! {

/// A fresh, empty directory.
pub open spec fn empty_dir() -> DirView {
    DirView { lba: 0, size: 2048, children: Seq::empty() }
}

/// Whether a node is a file or a well-formed directory.
pub open spec fn node_wf(n: NodeView) -> bool {
    match n {
        NodeView::Dir(d) => view_wf(d),
        NodeView::File(_) => true,
    }
}

/// The text of each component.
pub open spec fn names_of(comps: Seq<String>) -> Seq<Seq<char>> {
    Seq::new(comps.len(), |j: int| comps[j]@)
}

/// The model of an optional named node.
pub open spec fn leaf_view(leaf: Option<(String, IsoFsNode)>) -> Option<(Seq<u8>, NodeView)> {
    match leaf {
        Some(l) => Some((key(l.0), node_view(l.1))),
        None => None,
    }
}

/// The directory `v` after making sure that the directories `comps` exist
/// one inside the other (creating the missing ones) and adding `leaf` to
/// the innermost one; `None` where a component is a file.
pub open spec fn add_view(v: DirView, comps: Seq<Seq<char>>, leaf: Option<(Seq<u8>, NodeView)>) -> Option<DirView>
    decreases comps.len(),
{
    if comps.len() == 0 {
        match leaf {
            Some(l) => Some(DirView { children: view_insert(v.children, l.0, l.1), ..v }),
            None => Some(v),
        }
    } else {
        let name = encode_utf8(comps[0]);
        let sub = match lookup_child(v.children, name) {
            Some(NodeView::Dir(d)) => Some(d),
            Some(NodeView::File(_)) => None,
            None => Some(empty_dir()),
        };
        match sub {
            None => None,
            Some(d) => match add_view(d, comps.drop_first(), leaf) {
                None => None,
                Some(d2) => Some(DirView { children: view_insert(v.children, name, NodeView::Dir(d2)), ..v }),
            },
        }
    }
}

/// Adding to an empty directory never meets a file.
proof fn lemma_add_empty(comps: Seq<Seq<char>>, leaf: Option<(Seq<u8>, NodeView)>)
    ensures
        add_view(empty_dir(), comps, leaf) is Some,
    decreases comps.len(),
{
    if comps.len() > 0 {
        lemma_add_empty(comps.drop_first(), leaf);
    }
}

/// In sorted children, re-inserting a name that is present at `idx`
/// replaces that child.
proof fn lemma_insert_present(cs: Seq<(Seq<u8>, NodeView)>, idx: int, node: NodeView)
    requires
        sorted(cs),
        0 <= idx < cs.len(),
    ensures
        view_insert(cs, cs[idx].0, node) == cs.update(idx, (cs[idx].0, node)),
{
    crate::iso::fs_node::lemma_lex_irrefl(cs[idx].0);
    crate::iso::fs_node::lemma_view_insert_at_pub(cs, cs[idx].0, node, idx);
}

/// A node with a well-formed model in place of a child keeps a sorted,
/// well-formed directory well-formed.
proof fn lemma_wf_update(v: DirView, idx: int, n: NodeView)
    requires
        view_wf(v),
        0 <= idx < v.children.len(),
        node_wf(n),
    ensures
        view_wf(DirView { children: v.children.update(idx, (v.children[idx].0, n)), ..v }),
{
    let w = DirView { children: v.children.update(idx, (v.children[idx].0, n)), ..v };
    assert forall|i: int, j: int| 0 <= i < j < w.children.len() implies crate::iso::fs_node::lex_lt(
        #[trigger] w.children[i].0,
        #[trigger] w.children[j].0,
    ) by {
        assert(w.children[i].0 == v.children[i].0);
        assert(w.children[j].0 == v.children[j].0);
    }
    assert forall|i: int| 0 <= i < w.children.len() implies match #[trigger] w.children[i].1 {
        NodeView::Dir(d) => view_wf(d),
        NodeView::File(_) => true,
    } by {
        if i != idx {
            assert(w.children[i] == v.children[i]);
        }
    }
}

/// Adding a well-formed node keeps a directory well-formed.
proof fn lemma_wf_insert(v: DirView, name: Seq<u8>, n: NodeView)
    requires
        view_wf(v),
        node_wf(n),
    ensures
        view_wf(DirView { children: view_insert(v.children, name, n), ..v }),
{
    let w = DirView { children: view_insert(v.children, name, n), ..v };
    lemma_insert_lookup(v.children, name, n, name);
    assert forall|i: int| 0 <= i < w.children.len() implies match #[trigger] w.children[i].1 {
        NodeView::Dir(d) => view_wf(d),
        NodeView::File(_) => true,
    } by {
        crate::iso::fs_node::lemma_insert_nodes(v.children, name, n, i);
    }
}

/// Makes sure the directories `comps[i..end]` exist one inside the other
/// under `d`, creating the missing ones, and adds `leaf` to the innermost.
pub(crate) fn add_at(
    d: &mut IsoDirectory,
    comps: &Vec<String>,
    i: usize,
    end: usize,
    leaf: Option<(String, IsoFsNode)>,
) -> (r: Result<(), IsoError>)
    requires
        i <= end <= comps@.len(),
        view_wf(dir_view(*old(d))),
        leaf_view(leaf) matches Some(l) ==> node_wf(l.1),
    ensures
        match add_view(dir_view(*old(d)), names_of(comps@).subrange(i as int, end as int), leaf_view(leaf)) {
            Some(v2) => r is Ok && dir_view(*final(d)) == v2 && view_wf(v2),
            None => r == Err::<(), IsoError>(IsoError::NotADirectory) && dir_view(*final(d)) == dir_view(*old(d)),
        },
    decreases end - i,
{
    let ghost v = dir_view(*d);
    let ghost cs = names_of(comps@).subrange(i as int, end as int);
    if i == end {
        assert(cs.len() == 0);
        match leaf {
            Some(l) => {
                let (n, node) = l;
                proof {
                    lemma_wf_insert(v, key(n), node_view(node));
                }
                d.insert(n, node);
            },
            None => {},
        }
        return Ok(());
    }
    assert(cs[0] == comps@[i as int]@);
    assert(cs.drop_first() =~= names_of(comps@).subrange(i + 1, end as int));
    let name = comps[i].as_str().as_bytes();
    proof {
        lemma_children_view(d.children@, d.children@.len() as int);
    }
    match d.find_child(name) {
        Some(idx) => {
            let is_file = match &d.children[idx].1 {
                IsoFsNode::File(_) => true,
                IsoFsNode::Directory(_) => false,
            };
            if is_file {
                return Err(IsoError::NotADirectory);
            }
            let ghost old_children = d.children@;
            let (nm, node) = d.children.remove(idx);
            match node {
                IsoFsNode::Directory(mut sub) => {
                    proof {
                        assert(v.children[idx as int] == (key(nm), node_view(IsoFsNode::Directory(sub))));
                        assert(match v.children[idx as int].1 {
                            NodeView::Dir(dd) => view_wf(dd),
                            NodeView::File(_) => true,
                        });
                        assert(view_wf(dir_view(sub)));
                    }
                    let r = add_at(&mut sub, comps, i + 1, end, leaf);
                    let ghost sub_view = dir_view(sub);
                    d.children.insert(idx, (nm, IsoFsNode::Directory(sub)));
                    proof {
                        assert(d.children@ =~= old_children.update(idx as int, (nm, IsoFsNode::Directory(sub))));
                        lemma_children_view(d.children@, d.children@.len() as int);
                        let nv = dir_view(*d).children;
                        assert(nv =~= v.children.update(idx as int, (v.children[idx as int].0, NodeView::Dir(sub_view))));
                        lemma_insert_present(v.children, idx as int, NodeView::Dir(sub_view));
                        if r is Ok {
                            lemma_wf_update(v, idx as int, NodeView::Dir(sub_view));
                        } else {
                            assert(v.children.update(idx as int, (v.children[idx as int].0, NodeView::Dir(sub_view))) =~= v.children);
                        }
                    }
                    r
                },
                IsoFsNode::File(f) => {
                    d.children.insert(idx, (nm, IsoFsNode::File(f)));
                    Err(IsoError::NotADirectory)
                },
            }
        },
        None => {
            let mut sub = IsoDirectory::new();
            proof {
                lemma_add_empty(cs.drop_first(), leaf_view(leaf));
            }
            let r = add_at(&mut sub, comps, i + 1, end, leaf);
            let ghost sub_view = dir_view(sub);
            proof {
                lemma_wf_insert(v, key(comps@[i as int]), NodeView::Dir(sub_view));
            }
            d.insert(comps[i].clone(), IsoFsNode::Directory(sub));
            r
        },
    }
}

/// Makes sure the directories of `path` (all its components but the last)
/// exist under `root`, creating the missing ones; fails where one of them
/// is a file. Once it has succeeded, the same call again changes nothing
/// (the tree it leaves is its own result: `lemma_ensure_dirs_idempotent`).
pub fn ensure_directory_path(root: &mut IsoDirectory, path: &str) -> (r: Result<(), IsoError>)
    requires
        view_wf(dir_view(*old(root))),
    ensures
        ({
            let cs = components(path@);
            let dirs = if cs.len() == 0 { cs } else { cs.drop_last() };
            match add_view(dir_view(*old(root)), dirs, None) {
                Some(v2) => r is Ok && dir_view(*final(root)) == v2 && view_wf(v2) && add_view(v2, dirs, None)
                    == Some(v2),
                None => r == Err::<(), IsoError>(IsoError::NotADirectory) && dir_view(*final(root)) == dir_view(
                    *old(root),
                ),
            }
        }),
{
    let comps = path_components(path);
    let end = if comps.len() == 0 {
        0
    } else {
        comps.len() - 1
    };
    proof {
        let cs = components(path@);
        let dirs = if cs.len() == 0 { cs } else { cs.drop_last() };
        assert(names_of(comps@).subrange(0, end as int) =~= dirs);
        if add_view(dir_view(*old(root)), dirs, None) is Some {
            lemma_ensure_dirs_idempotent(dir_view(*old(root)), dirs);
        }
    }
    add_at(root, &comps, 0, end, None)
}

} // verus!

verus! {

/// The ISO sectors a file of `size` bytes takes.
pub open spec fn file_sectors(size: u64) -> int {
    (size + 2047) / 2048
}

/// The sectors a node takes: a file its data, a directory one sector plus
/// everything under it.
pub open spec fn node_extent(n: NodeView) -> int
    decreases n, 0int,
{
    match n {
        NodeView::File(f) => file_sectors(f.size),
        NodeView::Dir(d) => dir_extent(d),
    }
}

pub open spec fn dir_extent(d: DirView) -> int
    decreases d, 0int,
{
    1 + children_extent(d.children, d.children.len() as int)
}

/// The sectors the first `k` children take.
pub open spec fn children_extent(cs: Seq<(Seq<u8>, NodeView)>, k: int) -> int
    decreases cs, k,
{
    if k <= 0 || k > cs.len() {
        0
    } else {
        proof {
            assert(decreases_to!(cs => cs[k - 1]));
        }
        children_extent(cs, k - 1) + node_extent(cs[k - 1].1)
    }
}

/// A node laid out from sector `start`: a file starts there; a directory's
/// own sector is there and its children follow it in order, each after
/// the one before.
pub open spec fn layout_node(n: NodeView, start: int) -> NodeView
    decreases n, 0int,
{
    match n {
        NodeView::File(f) => NodeView::File(IsoFile { lba: start as u32, ..f }),
        NodeView::Dir(d) => NodeView::Dir(layout_dir(d, start)),
    }
}

pub open spec fn layout_dir(d: DirView, start: int) -> DirView
    decreases d, 0int,
{
    DirView {
        lba: start as u32,
        size: d.size,
        children: layout_children(d.children, d.children.len() as int, start + 1),
    }
}

/// The first `k` children laid out from sector `start`.
pub open spec fn layout_children(cs: Seq<(Seq<u8>, NodeView)>, k: int, start: int) -> Seq<(Seq<u8>, NodeView)>
    decreases cs, k,
{
    if k <= 0 || k > cs.len() {
        Seq::empty()
    } else {
        proof {
            assert(decreases_to!(cs => cs[k - 1]));
        }
        layout_children(cs, k - 1, start).push(
            (cs[k - 1].0, layout_node(cs[k - 1].1, start + children_extent(cs, k - 1))),
        )
    }
}

proof fn lemma_layout_children(cs: Seq<(Seq<u8>, NodeView)>, k: int, start: int)
    requires
        0 <= k <= cs.len(),
    ensures
        layout_children(cs, k, start).len() == k,
        forall|j: int|
            0 <= j < k ==> #[trigger] layout_children(cs, k, start)[j] == (
                cs[j].0,
                layout_node(cs[j].1, start + children_extent(cs, j)),
            ),
    decreases k,
{
    if k > 0 {
        lemma_layout_children(cs, k - 1, start);
    }
}

pub(crate) proof fn lemma_node_extent_nonneg(n: NodeView)
    ensures
        node_extent(n) >= 0,
    decreases n, 0int,
{
    match n {
        NodeView::File(f) => {
            assert(node_extent(n) == file_sectors(f.size));
            let x: int = f.size as int + 2047;
            assert(x / 2048 >= 0) by (nonlinear_arith)
                requires
                    x >= 0,
            ;
            assert(file_sectors(f.size) == x / 2048);
            assert(node_extent(n) >= 0);
        },
        NodeView::Dir(d) => {
            lemma_children_extent_mono(d.children, d.children.len() as int);
            assert(children_extent(d.children, d.children.len() as int) >= 0);
            assert(dir_extent(d) == 1 + children_extent(d.children, d.children.len() as int));
            assert(node_extent(n) == dir_extent(d));
            assert(node_extent(n) >= 0);
        },
    }
}

/// The sectors of the first `k` children grow with `k`.
pub(crate) proof fn lemma_children_extent_mono(cs: Seq<(Seq<u8>, NodeView)>, k: int)
    requires
        0 <= k <= cs.len(),
    ensures
        forall|j: int| 0 <= j <= k ==> 0 <= #[trigger] children_extent(cs, j) <= children_extent(cs, k),
    decreases cs, k,
{
    if k > 0 {
        assert(decreases_to!(cs => cs[k - 1]));
        lemma_children_extent_mono(cs, k - 1);
        lemma_node_extent_nonneg(cs[k - 1].1);
        assert(children_extent(cs, k) == children_extent(cs, k - 1) + node_extent(cs[k - 1].1));
    } else {
        assert(children_extent(cs, 0) == 0);
    }
}

/// Laying a directory out from sector `start` gives each child a run of
/// sectors of its own: the directory's sector comes first, then the
/// children in name order, each starting where the one before ends, and
/// every child ends within the directory's extent.
pub proof fn lemma_layout_disjoint(d: DirView, start: int)
    ensures
        ({
            let cs = d.children;
            let laid = layout_dir(d, start);
            &&& laid.lba == start as u32
            &&& laid.children.len() == cs.len()
            &&& forall|i: int|
                0 <= i < cs.len() ==> #[trigger] laid.children[i] == (
                    cs[i].0,
                    layout_node(cs[i].1, start + 1 + children_extent(cs, i)),
                )
            &&& forall|i: int|
                0 <= i < cs.len() ==> start + 1 <= start + 1 + #[trigger] children_extent(cs, i) && start + 1
                    + children_extent(cs, i) + node_extent(cs[i].1) <= start + dir_extent(d)
            &&& forall|i: int, j: int|
                0 <= i < j < cs.len() ==> start + 1 + #[trigger] children_extent(cs, i) + node_extent(cs[i].1)
                    <= start + 1 + #[trigger] children_extent(cs, j)
        }),
{
    let cs = d.children;
    let n = cs.len() as int;
    lemma_layout_children(cs, n, start + 1);
    lemma_children_extent_mono(cs, n);
    assert forall|i: int| 0 <= i < n implies children_extent(cs, i) + node_extent(cs[i].1) <= children_extent(
        cs,
        n,
    ) && children_extent(cs, i) + node_extent(cs[i].1) == children_extent(cs, i + 1) by {
        assert(children_extent(cs, i + 1) == children_extent(cs, i) + node_extent(cs[i].1));
        assert(children_extent(cs, i + 1) <= children_extent(cs, n));
    }
    assert forall|i: int, j: int| 0 <= i < j < n implies #[trigger] children_extent(cs, i) + node_extent(cs[i].1)
        <= #[trigger] children_extent(cs, j) by {
        lemma_children_extent_mono(cs, j);
        assert(children_extent(cs, i + 1) == children_extent(cs, i) + node_extent(cs[i].1));
        assert(children_extent(cs, i + 1) <= children_extent(cs, j));
    }
}

/// Lays out the tree under `dir` from sector `*current_lba` on: each node
/// gets the next free sector, directories before their children and
/// children in name order; `*current_lba` ends past the last sector used.
pub fn calculate_lbas(current_lba: &mut u32, dir: &mut IsoDirectory) -> (r: Result<(), IsoError>)
    requires
        *old(current_lba) + dir_extent(dir_view(*old(dir))) <= u32::MAX,
    ensures
        r is Ok,
        dir_view(*final(dir)) == layout_dir(dir_view(*old(dir)), *old(current_lba) as int),
        *final(current_lba) == *old(current_lba) + dir_extent(dir_view(*old(dir))),
    decreases *old(dir), 0int,
{
    let ghost start = *current_lba as int;
    let ghost v = dir_view(*dir);
    let ghost cs = v.children;
    let n = dir.children.len();
    proof {
        lemma_children_view(dir.children@, n as int);
        lemma_children_extent_mono(cs, n as int);
        lemma_layout_children(cs, n as int, start + 1);
    }
    dir.lba = *current_lba;
    *current_lba = *current_lba + 1;
    let ghost orig = dir.children@;
    let mut k: usize = 0;
    while k < n
        invariant
            k <= n,
            n == dir.children@.len(),
            orig == old(dir).children@,
            orig.len() == n,
            cs.len() == n,
            v == dir_view(*old(dir)),
            cs == v.children,
            start == *old(current_lba) as int,
            start + dir_extent(v) <= u32::MAX,
            dir.lba == start,
            dir.size == v.size,
            forall|j: int| 0 <= j < n ==> #[trigger] cs[j] == (key(orig[j].0), node_view(orig[j].1)),
            forall|j: int| 0 <= j <= n ==> 0 <= #[trigger] children_extent(cs, j) <= children_extent(cs, n as int),
            *current_lba == start + 1 + children_extent(cs, k as int),
            forall|j: int| k <= j < n ==> #[trigger] dir.children@[j] == orig[j],
            forall|j: int|
                0 <= j < k ==> (key((#[trigger] dir.children@[j]).0), node_view(dir.children@[j].1)) == (
                    cs[j].0,
                    layout_node(cs[j].1, start + 1 + children_extent(cs, j)),
                ),
        decreases n - k,
    {
        let ghost pos = *current_lba as int;
        let ghost before = dir.children@;
        let (nm, node) = dir.children.remove(k);
        proof {
            assert(node == orig[k as int].1);
            assert(children_extent(cs, k + 1) == children_extent(cs, k as int) + node_extent(cs[k as int].1));
        }
        let new_node = match node {
            IsoFsNode::File(mut f) => {
                let sectors = f.size / 2048 + if f.size % 2048 != 0 {
                    1
                } else {
                    0
                };
                assert(sectors == file_sectors(f.size));
                f.lba = *current_lba;
                *current_lba = *current_lba + sectors as u32;
                IsoFsNode::File(f)
            },
            IsoFsNode::Directory(mut sub) => {
                assert(decreases_to!(*old(dir) => old(dir).children));
                assert(decreases_to!(old(dir).children => old(dir).children@));
                assert(decreases_to!(old(dir).children@ => old(dir).children@[k as int]));
                assert(decreases_to!(old(dir).children@[k as int] => old(dir).children@[k as int].1));
                assert(decreases_to!(IsoFsNode::Directory(sub) => sub));
                let _ = calculate_lbas(current_lba, &mut sub);
                IsoFsNode::Directory(sub)
            },
        };
        dir.children.insert(k, (nm, new_node));
        proof {
            assert forall|j: int| 0 <= j < n implies #[trigger] dir.children@[j] == (if j == k {
                (nm, new_node)
            } else {
                before[j]
            }) by {}
        }
        k = k + 1;
    }
    proof {
        lemma_children_view(dir.children@, n as int);
        let nv = dir_view(*dir).children;
        assert(nv =~= layout_children(cs, n as int, start + 1));
    }
    Ok(())
}

} // verus!

verus! {

/// A bootable catalog entry for the image at `lba` of `sectors` 512-byte
/// sectors.
pub open spec fn boot_entry(platform_id: u8, lba: u32, sectors: u16) -> BootCatalogEntry {
    BootCatalogEntry {
        platform_id,
        boot_image_lba: lba,
        boot_image_sectors: sectors,
        entry_type: BootCatalogEntryType::BootEntry { bootable: true },
    }
}

fn mk_boot_entry(platform_id: u8, lba: u32, sectors: u16) -> (e: BootCatalogEntry)
    ensures
        e == boot_entry(platform_id, lba, sectors),
{
    BootCatalogEntry {
        platform_id,
        boot_image_lba: lba,
        boot_image_sectors: sectors,
        entry_type: BootCatalogEntryType::BootEntry { bootable: true },
    }
}

/// The 512-byte sectors of a boot image of `size` bytes (at least one).
pub open spec fn boot_sectors(size: u64) -> int {
    let s = (size + 511) / 512;
    if s >= 1 { s } else { 1 }
}

/// What a boot entry for the file at `path` is: the file's sector and its
/// size in 512-byte sectors, or the lookup's error, or
/// `BootImageTooLarge` past 65535 sectors.
pub open spec fn file_boot_entry(root: DirView, path: Seq<char>, platform_id: u8) -> Result<BootCatalogEntry, IsoError> {
    match lookup_path(root, components(path)) {
        Some(NodeView::File(f)) => if boot_sectors(f.size) > 0xFFFF {
            Err(IsoError::BootImageTooLarge)
        } else {
            Ok(boot_entry(platform_id, f.lba, boot_sectors(f.size) as u16))
        },
        Some(NodeView::Dir(_)) => Err(IsoError::IsDirectory),
        None => Err(IsoError::NotFound),
    }
}

/// A boot entry for the file at `path` holds the file's sector, is a
/// bootable entry of the given platform, and asks for enough 512-byte
/// sectors to load the whole file: at least one, and fewer than one more
/// than the file needs. It fails as too large exactly where that count
/// would pass 65535; a directory or a missing file fails as such.
pub proof fn lemma_boot_entry_covers_file(root: DirView, path: Seq<char>, platform_id: u8)
    ensures
        match lookup_path(root, components(path)) {
            Some(NodeView::File(f)) => match file_boot_entry(root, path, platform_id) {
                Ok(e) => {
                    &&& e.boot_image_lba == f.lba
                    &&& e.platform_id == platform_id
                    &&& e.entry_type == (BootCatalogEntryType::BootEntry { bootable: true })
                    &&& e.boot_image_sectors >= 1
                    &&& e.boot_image_sectors * 512 >= f.size
                    &&& (f.size > 0 ==> e.boot_image_sectors * 512 < f.size + 512)
                    &&& f.size <= 65535 * 512
                },
                Err(err) => err == IsoError::BootImageTooLarge && f.size > 65535 * 512,
            },
            Some(NodeView::Dir(_)) => file_boot_entry(root, path, platform_id) == Err::<BootCatalogEntry, IsoError>(
                IsoError::IsDirectory,
            ),
            None => file_boot_entry(root, path, platform_id) == Err::<BootCatalogEntry, IsoError>(
                IsoError::NotFound,
            ),
        },
{
    match lookup_path(root, components(path)) {
        Some(NodeView::File(f)) => {
            let z = f.size as int;
            let s = (z + 511) / 512;
            assert(s * 512 >= z && s * 512 < z + 512) by (nonlinear_arith)
                requires
                    s == (z + 511) / 512,
                    z >= 0,
            ;
            assert(s > 65535 <==> z > 65535 * 512) by (nonlinear_arith)
                requires
                    s * 512 >= z,
                    s * 512 < z + 512,
                    z >= 0,
            ;
            if z == 0 {
                assert(s == 0);
            }
        },
        _ => {},
    }
}

fn file_entry(root: &IsoDirectory, path: &str, platform_id: u8) -> (r: Result<BootCatalogEntry, IsoError>)
    ensures
        r == file_boot_entry(dir_view(*root), path@, platform_id),
{
    let lba = match get_lba_for_path(root, path) {
        Ok(l) => l,
        Err(e) => return Err(e),
    };
    let sz = match get_file_size_in_iso(root, path) {
        Ok(s) => s,
        Err(e) => return Err(e),
    };
    let s = sz / 512 + if sz % 512 != 0 {
        1
    } else {
        0
    };
    let sectors = if s >= 1 {
        s
    } else {
        1
    };
    if sectors > 0xFFFF {
        return Err(IsoError::BootImageTooLarge);
    }
    Ok(mk_boot_entry(platform_id, lba, sectors as u16))
}

/// The BIOS (platform 0) boot entry for the file at `path`.
pub fn create_bios_boot_entry(root: &IsoDirectory, path: &str) -> (r: Result<BootCatalogEntry, IsoError>)
    ensures
        r == file_boot_entry(dir_view(*root), path@, 0),
{
    file_entry(root, path, 0)
}

/// The UEFI (platform `EF`) boot entry for the file at `path`.
pub fn create_uefi_boot_entry(root: &IsoDirectory, path: &str) -> (r: Result<BootCatalogEntry, IsoError>)
    ensures
        r == file_boot_entry(dir_view(*root), path@, BOOT_CATALOG_EFI_PLATFORM_ID),
{
    file_entry(root, path, BOOT_CATALOG_EFI_PLATFORM_ID)
}

/// The UEFI boot entry for an ESP image at `esp_lba`; a no-emulation entry
/// records no sector count.
pub fn create_uefi_esp_boot_entry(esp_lba: u32, _esp_size: u32) -> (r: Result<BootCatalogEntry, IsoError>)
    ensures
        r == Ok::<BootCatalogEntry, IsoError>(boot_entry(BOOT_CATALOG_EFI_PLATFORM_ID, esp_lba, 0)),
{
    Ok(mk_boot_entry(BOOT_CATALOG_EFI_PLATFORM_ID, esp_lba, 0))
}

} // verus!

verus! {

/// The sectors the tree under `dir` takes, or `cap + 1` where that is
/// more than `cap`.
pub fn tree_extent(dir: &IsoDirectory, cap: u64) -> (r: u64)
    requires
        cap <= 0x1_0000_0000_0000,
    ensures
        r == if dir_extent(dir_view(*dir)) <= cap { dir_extent(dir_view(*dir)) } else { cap as int + 1 },
    decreases *dir, 0int,
{
    let ghost v = dir_view(*dir);
    let n = dir.children.len();
    proof {
        lemma_children_view(dir.children@, n as int);
        lemma_children_extent_mono(v.children, n as int);
    }
    if cap == 0 {
        return 1;
    }
    let mut total: u64 = 1;
    let mut k: usize = 0;
    while k < n
        invariant
            k <= n,
            n == dir.children@.len(),
            v == dir_view(*dir),
            v.children.len() == n,
            cap <= 0x1_0000_0000_0000,
            forall|j: int| 0 <= j < n ==> #[trigger] v.children[j] == (key(dir.children@[j].0), node_view(dir.children@[j].1)),
            forall|j: int| 0 <= j <= n ==> 0 <= #[trigger] children_extent(v.children, j) <= children_extent(v.children, n as int),
            total == 1 + children_extent(v.children, k as int),
            total <= cap,
        decreases n - k,
    {
        let add: u64 = match &dir.children[k].1 {
            IsoFsNode::File(f) => {
                let s = f.size / 2048 + if f.size % 2048 != 0 {
                    1
                } else {
                    0
                };
                assert(s == node_extent(v.children[k as int].1));
                s
            },
            IsoFsNode::Directory(sub) => {
                assert(decreases_to!(*dir => dir.children));
                assert(decreases_to!(dir.children => dir.children@));
                assert(decreases_to!(dir.children@ => dir.children@[k as int]));
                assert(decreases_to!(dir.children@[k as int] => dir.children@[k as int].1));
                assert(v.children[k as int].1 == NodeView::Dir(dir_view(*sub)));
                tree_extent(sub, cap)
            },
        };
        assert(children_extent(v.children, k + 1) == children_extent(v.children, k as int) + node_extent(v.children[k as int].1));
        if add > cap - total {
            proof {
                lemma_node_extent_nonneg(v.children[k as int].1);
            }
            return cap + 1;
        }
        total = total + add;
        k = k + 1;
    }
    total
}

} // verus!

verus! {

/// A node added under the directories `comps` is found again at
/// `comps` followed by its name.
pub proof fn lemma_add_then_lookup(v: DirView, comps: Seq<Seq<char>>, name: Seq<char>, node: NodeView)
    requires
        view_wf(v),
        add_view(v, comps, Some((encode_utf8(name), node))) is Some,
    ensures
        lookup_path(add_view(v, comps, Some((encode_utf8(name), node)))->0, comps.push(name)) == Some(node),
    decreases comps.len(),
{
    let leaf = Some((encode_utf8(name), node));
    let v2 = add_view(v, comps, leaf)->0;
    if comps.len() == 0 {
        lemma_insert_lookup(v.children, encode_utf8(name), node, encode_utf8(name));
        assert(comps.push(name) =~= seq![name]);
    } else {
        let c = encode_utf8(comps[0]);
        let d = match lookup_child(v.children, c) {
            Some(NodeView::Dir(d)) => d,
            _ => empty_dir(),
        };
        assert(view_wf(d)) by {
            if lookup_child(v.children, c) is Some {
                lemma_lookup_child_in(v.children, c);
            } else {
                assert(sorted(empty_dir().children));
            }
        }
        let rest = comps.drop_first();
        let d2 = add_view(d, rest, leaf)->0;
        lemma_add_then_lookup(d, rest, name, node);
        lemma_insert_lookup(v.children, c, NodeView::Dir(d2), c);
        assert(comps.push(name).drop_first() =~= rest.push(name));
        assert(comps.push(name)[0] == comps[0]);
    }
}

/// Making sure directories exist keeps a well-formed tree well-formed.
proof fn lemma_add_wf(v: DirView, comps: Seq<Seq<char>>, leaf: Option<(Seq<u8>, NodeView)>)
    requires
        view_wf(v),
        leaf matches Some(l) ==> node_wf(l.1),
        add_view(v, comps, leaf) is Some,
    ensures
        view_wf(add_view(v, comps, leaf)->0),
    decreases comps.len(),
{
    if comps.len() == 0 {
        if let Some(l) = leaf {
            lemma_wf_insert(v, l.0, l.1);
        }
    } else {
        let c = encode_utf8(comps[0]);
        let d = match lookup_child(v.children, c) {
            Some(NodeView::Dir(d)) => d,
            _ => empty_dir(),
        };
        assert(view_wf(d)) by {
            if lookup_child(v.children, c) is Some {
                lemma_lookup_child_in(v.children, c);
            } else {
                assert(sorted(empty_dir().children));
            }
        }
        lemma_add_wf(d, comps.drop_first(), leaf);
        lemma_wf_insert(v, c, NodeView::Dir(add_view(d, comps.drop_first(), leaf)->0));
    }
}

/// Where a child is found by name, it stands at some index.
proof fn lemma_lookup_child_index(cs: Seq<(Seq<u8>, NodeView)>, name: Seq<u8>) -> (idx: int)
    requires
        lookup_child(cs, name) is Some,
    ensures
        0 <= idx < cs.len(),
        cs[idx] == (name, lookup_child(cs, name)->0),
    decreases cs.len(),
{
    if cs[0].0 == name {
        0
    } else {
        let i = lemma_lookup_child_index(cs.drop_first(), name);
        i + 1
    }
}

/// Making sure that the directories `comps` exist a second time changes
/// nothing: the tree after one call is the tree after two.
pub proof fn lemma_ensure_dirs_idempotent(v: DirView, comps: Seq<Seq<char>>)
    requires
        view_wf(v),
        add_view(v, comps, None) is Some,
    ensures
        add_view(add_view(v, comps, None)->0, comps, None) == add_view(v, comps, None),
    decreases comps.len(),
{
    if comps.len() > 0 {
        let c = encode_utf8(comps[0]);
        let d = match lookup_child(v.children, c) {
            Some(NodeView::Dir(d)) => d,
            _ => empty_dir(),
        };
        assert(view_wf(d)) by {
            if lookup_child(v.children, c) is Some {
                lemma_lookup_child_in(v.children, c);
            } else {
                assert(sorted(empty_dir().children));
            }
        }
        let rest = comps.drop_first();
        let d2 = add_view(d, rest, None)->0;
        lemma_ensure_dirs_idempotent(d, rest);
        lemma_add_wf(d, rest, None);
        let v2 = add_view(v, comps, None)->0;
        lemma_insert_lookup(v.children, c, NodeView::Dir(d2), c);
        lemma_wf_insert(v, c, NodeView::Dir(d2));
        assert(lookup_child(v2.children, c) == Some(NodeView::Dir(d2)));
        let idx = lemma_lookup_child_index(v2.children, c);
        lemma_insert_present(v2.children, idx, NodeView::Dir(d2));
        assert(v2.children.update(idx, (v2.children[idx].0, NodeView::Dir(d2))) =~= v2.children);
    }
}

/// A child found by name is one of the children.
proof fn lemma_lookup_child_in(cs: Seq<(Seq<u8>, NodeView)>, name: Seq<u8>)
    requires
        lookup_child(cs, name) is Some,
        forall|i: int|
            0 <= i < cs.len() ==> match #[trigger] cs[i].1 {
                NodeView::Dir(d) => view_wf(d),
                NodeView::File(_) => true,
            },
    ensures
        match lookup_child(cs, name)->0 {
            NodeView::Dir(d) => view_wf(d),
            NodeView::File(_) => true,
        },
    decreases cs.len(),
{
    if cs[0].0 != name {
        let t = cs.drop_first();
        assert forall|i: int| 0 <= i < t.len() implies match #[trigger] t[i].1 {
            NodeView::Dir(d) => view_wf(d),
            NodeView::File(_) => true,
        } by {
            assert(t[i] == cs[i + 1]);
        }
        lemma_lookup_child_in(t, name);
    } else {
        assert(match cs[0].1 {
            NodeView::Dir(d) => view_wf(d),
            NodeView::File(_) => true,
        });
    }
}

} // verus!
