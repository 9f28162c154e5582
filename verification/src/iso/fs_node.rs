//! The file tree of an ISO image. Each directory keeps its children in
//! ascending byte order of their names, with no name twice: the order in
//! which the image lays them out and lists them.
use std::path::PathBuf;
use vstd::prelude::*;
use vstd::string::StringSliceAdditionalSpecFns;
use vstd::utf8::encode_utf8;

verus! {

/// A file within the ISO tree: where its bytes come from, its size, and
/// its first sector once laid out.
#[derive(Clone, Debug)]
pub struct IsoFile {
    pub path: PathBuf,
    pub size: u64,
    pub lba: u32,
}

/// A directory within the ISO tree.
pub struct IsoDirectory {
    /// The children, in ascending byte order of their names.
    pub children: Vec<(String, IsoFsNode)>,
    pub lba: u32,
    pub size: u32,
}

/// A node in the ISO filesystem tree, either a file or a directory.
pub enum IsoFsNode {
    File(IsoFile),
    Directory(IsoDirectory),
}

/// The model of a node: a file, or a directory with its sector, its size
/// and its children as (name bytes, model) pairs.
pub enum NodeView {
    File(IsoFile),
    Dir(DirView),
}

/// The model of a directory.
pub struct DirView {
    pub lba: u32,
    pub size: u32,
    pub children: Seq<(Seq<u8>, NodeView)>,
}

/// The bytes of a name (UTF-8).
pub open spec fn key(name: String) -> Seq<u8> {
    encode_utf8(name@)
}

/// The model of a node.
pub open spec fn node_view(n: IsoFsNode) -> NodeView
    decreases n, 0int,
{
    match n {
        IsoFsNode::File(f) => NodeView::File(f),
        IsoFsNode::Directory(d) => NodeView::Dir(dir_view(d)),
    }
}

/// The model of a directory.
pub open spec fn dir_view(d: IsoDirectory) -> DirView
    decreases d, 0int,
{
    proof {
        assert(decreases_to!(d => d.children));
        assert(decreases_to!(d.children => d.children@));
    }
    DirView { lba: d.lba, size: d.size, children: children_view(d.children@, d.children@.len() as int) }
}

/// The models of the first `k` children.
pub open spec fn children_view(cs: Seq<(String, IsoFsNode)>, k: int) -> Seq<(Seq<u8>, NodeView)>
    decreases cs, k,
{
    if k <= 0 || k > cs.len() {
        Seq::empty()
    } else {
        proof {
            assert(decreases_to!(cs => cs[k - 1]));
            assert(decreases_to!(cs[k - 1] => cs[k - 1].1));
        }
        children_view(cs, k - 1).push((key(cs[k - 1].0), node_view(cs[k - 1].1)))
    }
}

} // verus!

verus! {

/// Byte-wise lexicographic order, the order of `String`s.
pub open spec fn lex_lt(a: Seq<u8>, b: Seq<u8>) -> bool
    decreases a.len(),
{
    if b.len() == 0 {
        false
    } else if a.len() == 0 {
        true
    } else if a[0] != b[0] {
        a[0] < b[0]
    } else {
        lex_lt(a.drop_first(), b.drop_first())
    }
}

pub proof fn lemma_lex_irrefl(a: Seq<u8>)
    ensures
        !lex_lt(a, a),
    decreases a.len(),
{
    if a.len() > 0 {
        lemma_lex_irrefl(a.drop_first());
    }
}

pub proof fn lemma_lex_trans(a: Seq<u8>, b: Seq<u8>, c: Seq<u8>)
    requires
        lex_lt(a, b),
        lex_lt(b, c),
    ensures
        lex_lt(a, c),
    decreases a.len(),
{
    if a.len() > 0 && b.len() > 0 && c.len() > 0 && a[0] == b[0] && b[0] == c[0] {
        lemma_lex_trans(a.drop_first(), b.drop_first(), c.drop_first());
    }
}

pub proof fn lemma_lex_total(a: Seq<u8>, b: Seq<u8>)
    ensures
        a == b || lex_lt(a, b) || lex_lt(b, a),
    decreases a.len(),
{
    if a.len() > 0 && b.len() > 0 && a[0] == b[0] {
        lemma_lex_total(a.drop_first(), b.drop_first());
        if a.drop_first() == b.drop_first() {
            assert(a =~= seq![a[0]] + a.drop_first());
            assert(b =~= seq![b[0]] + b.drop_first());
        }
    } else if a.len() == 0 && b.len() == 0 {
        assert(a =~= b);
    }
}

pub proof fn lemma_lex_asym(a: Seq<u8>, b: Seq<u8>)
    requires
        lex_lt(a, b),
    ensures
        !lex_lt(b, a),
        a != b,
{
    if lex_lt(b, a) {
        lemma_lex_trans(a, b, a);
        lemma_lex_irrefl(a);
    }
    lemma_lex_irrefl(a);
}

/// Names in strictly ascending order (so no name twice).
pub open spec fn sorted(cs: Seq<(Seq<u8>, NodeView)>) -> bool {
    forall|i: int, j: int| 0 <= i < j < cs.len() ==> lex_lt(#[trigger] cs[i].0, #[trigger] cs[j].0)
}

/// A well-formed directory: every directory in it keeps its children in
/// ascending name order.
pub open spec fn view_wf(v: DirView) -> bool
    decreases v,
{
    &&& sorted(v.children)
    &&& forall|i: int|
        0 <= i < v.children.len() ==> match #[trigger] v.children[i].1 {
            NodeView::Dir(d) => view_wf(d),
            NodeView::File(_) => true,
        }
}

/// The child named `name`, if any (the first one).
pub open spec fn lookup_child(cs: Seq<(Seq<u8>, NodeView)>, name: Seq<u8>) -> Option<NodeView>
    decreases cs.len(),
{
    if cs.len() == 0 {
        None
    } else if cs[0].0 == name {
        Some(cs[0].1)
    } else {
        lookup_child(cs.drop_first(), name)
    }
}

/// The children after adding (or replacing) the child `name`, in order.
pub open spec fn view_insert(cs: Seq<(Seq<u8>, NodeView)>, name: Seq<u8>, node: NodeView) -> Seq<(Seq<u8>, NodeView)>
    decreases cs.len(),
{
    if cs.len() == 0 {
        seq![(name, node)]
    } else if cs[0].0 == name {
        cs.update(0, (name, node))
    } else if lex_lt(name, cs[0].0) {
        seq![(name, node)] + cs
    } else {
        seq![cs[0]] + view_insert(cs.drop_first(), name, node)
    }
}

/// The models of the children are those of each child, in order.
pub proof fn lemma_children_view(cs: Seq<(String, IsoFsNode)>, k: int)
    requires
        0 <= k <= cs.len(),
    ensures
        children_view(cs, k).len() == k,
        forall|i: int| 0 <= i < k ==> #[trigger] children_view(cs, k)[i] == (key(cs[i].0), node_view(cs[i].1)),
    decreases k,
{
    if k > 0 {
        lemma_children_view(cs, k - 1);
    }
}

/// Adding a child keeps the names in order, the new child is found under
/// its name, and every other child is found as before.
pub proof fn lemma_insert_lookup(cs: Seq<(Seq<u8>, NodeView)>, name: Seq<u8>, node: NodeView, other: Seq<u8>)
    requires
        sorted(cs),
    ensures
        sorted(view_insert(cs, name, node)),
        lookup_child(view_insert(cs, name, node), name) == Some(node),
        other != name ==> lookup_child(view_insert(cs, name, node), other) == lookup_child(cs, other),
    decreases cs.len(),
{
    if cs.len() == 0 {
        let r = view_insert(cs, name, node);
        assert(r.drop_first() =~= Seq::<(Seq<u8>, NodeView)>::empty());
    } else if cs[0].0 == name {
        let r = view_insert(cs, name, node);
        assert(r.drop_first() =~= cs.drop_first());
        assert forall|i: int, j: int| 0 <= i < j < r.len() implies lex_lt(#[trigger] r[i].0, #[trigger] r[j].0) by {
            assert(r[i].0 == cs[i].0);
            assert(r[j].0 == cs[j].0);
        }
    } else if lex_lt(name, cs[0].0) {
        let r = view_insert(cs, name, node);
        assert(r.drop_first() =~= cs);
        assert forall|i: int, j: int| 0 <= i < j < r.len() implies lex_lt(#[trigger] r[i].0, #[trigger] r[j].0) by {
            if i == 0 {
                if j > 1 {
                    lemma_lex_trans(name, cs[0].0, cs[j - 1].0);
                }
            } else {
                assert(r[i] == cs[i - 1]);
                assert(r[j] == cs[j - 1]);
            }
        }
        if other != name {
            assert(lookup_child(r, other) == lookup_child(r.drop_first(), other));
        }
    } else {
        let t = cs.drop_first();
        assert(sorted(t)) by {
            assert forall|i: int, j: int| 0 <= i < j < t.len() implies lex_lt(#[trigger] t[i].0, #[trigger] t[j].0) by {
                assert(t[i] == cs[i + 1]);
                assert(t[j] == cs[j + 1]);
            }
        }
        lemma_insert_lookup(t, name, node, other);
        let rest = view_insert(t, name, node);
        let r = view_insert(cs, name, node);
        assert(r =~= seq![cs[0]] + rest);
        assert(r.drop_first() =~= rest);
        lemma_lex_total(name, cs[0].0);
        // every name in `rest` is above cs[0]'s
        assert forall|j: int| 0 <= j < rest.len() implies lex_lt(cs[0].0, #[trigger] rest[j].0) by {
            lemma_insert_names(t, name, node, j);
            if rest[j].0 != name {
                let m = choose|m: int| 0 <= m < t.len() && t[m].0 == rest[j].0;
                assert(t[m] == cs[m + 1]);
            }
        }
        assert forall|i: int, j: int| 0 <= i < j < r.len() implies lex_lt(#[trigger] r[i].0, #[trigger] r[j].0) by {
            if i == 0 {
                assert(r[j] == rest[j - 1]);
            } else {
                assert(r[i] == rest[i - 1]);
                assert(r[j] == rest[j - 1]);
            }
        }
        assert(cs[0].0 != name);
    }
}

/// Every node among the children after an insertion is the new one or an
/// old one.
pub proof fn lemma_insert_nodes(cs: Seq<(Seq<u8>, NodeView)>, name: Seq<u8>, node: NodeView, j: int)
    requires
        0 <= j < view_insert(cs, name, node).len(),
    ensures
        view_insert(cs, name, node)[j].1 == node || exists|m: int|
            0 <= m < cs.len() && cs[m].1 == view_insert(cs, name, node)[j].1,
    decreases cs.len(),
{
    let r = view_insert(cs, name, node);
    if cs.len() == 0 {
    } else if cs[0].0 == name {
        if j > 0 {
            assert(cs[j].1 == r[j].1);
        }
    } else if lex_lt(name, cs[0].0) {
        if j > 0 {
            assert(cs[j - 1].1 == r[j].1);
        }
    } else {
        if j == 0 {
            assert(cs[0].1 == r[0].1);
        } else {
            let t = cs.drop_first();
            assert(r[j] == view_insert(t, name, node)[j - 1]);
            lemma_insert_nodes(t, name, node, j - 1);
            if r[j].1 != node {
                let m = choose|m: int| 0 <= m < t.len() && t[m].1 == r[j].1;
                assert(cs[m + 1].1 == r[j].1);
            }
        }
    }
}

/// Every name among the children after an insertion is the new one or an
/// old one.
proof fn lemma_insert_names(cs: Seq<(Seq<u8>, NodeView)>, name: Seq<u8>, node: NodeView, j: int)
    requires
        0 <= j < view_insert(cs, name, node).len(),
    ensures
        view_insert(cs, name, node)[j].0 == name || exists|m: int|
            0 <= m < cs.len() && cs[m].0 == view_insert(cs, name, node)[j].0,
    decreases cs.len(),
{
    let r = view_insert(cs, name, node);
    if cs.len() == 0 {
    } else if cs[0].0 == name {
        if j > 0 {
            assert(cs[j].0 == r[j].0);
        }
    } else if lex_lt(name, cs[0].0) {
        if j > 0 {
            assert(cs[j - 1].0 == r[j].0);
        }
    } else {
        if j == 0 {
            assert(cs[0].0 == r[0].0);
        } else {
            let t = cs.drop_first();
            assert(r[j] == view_insert(t, name, node)[j - 1]);
            lemma_insert_names(t, name, node, j - 1);
            if r[j].0 != name {
                let m = choose|m: int| 0 <= m < t.len() && t[m].0 == r[j].0;
                assert(cs[m + 1].0 == r[j].0);
            }
        }
    }
}

} // verus!

verus! {

/// Whether `a` comes before `b` in byte-wise lexicographic order.
pub fn lex_less(a: &[u8], b: &[u8]) -> (r: bool)
    ensures
        r == lex_lt(a@, b@),
{
    let mut i: usize = 0;
    assert(a@.skip(0) =~= a@);
    assert(b@.skip(0) =~= b@);
    while i < a.len() && i < b.len()
        invariant
            i <= a@.len(),
            i <= b@.len(),
            lex_lt(a@, b@) == lex_lt(a@.skip(i as int), b@.skip(i as int)),
        decreases a@.len() - i,
    {
        if a[i] != b[i] {
            return a[i] < b[i];
        }
        assert(a@.skip(i as int).drop_first() =~= a@.skip(i + 1));
        assert(b@.skip(i as int).drop_first() =~= b@.skip(i + 1));
        i = i + 1;
    }
    i < b.len()
}

/// Whether two byte strings are equal.
pub fn bytes_eq(a: &[u8], b: &[u8]) -> (r: bool)
    ensures
        r == (a@ == b@),
{
    if a.len() != b.len() {
        return false;
    }
    let mut i: usize = 0;
    while i < a.len()
        invariant
            i <= a@.len(),
            a@.len() == b@.len(),
            a@.take(i as int) == b@.take(i as int),
        decreases a@.len() - i,
    {
        if a[i] != b[i] {
            assert(a@[i as int] != b@[i as int]);
            return false;
        }
        i = i + 1;
        assert(a@.take(i as int) =~= a@.take(i - 1).push(a@[i - 1]));
        assert(b@.take(i as int) =~= b@.take(i - 1).push(b@[i - 1]));
    }
    assert(a@ =~= a@.take(a@.len() as int));
    assert(b@ =~= b@.take(b@.len() as int));
    true
}

/// Where `view_insert` puts a name: before the first name not below it.
pub proof fn lemma_view_insert_at_pub(cs: Seq<(Seq<u8>, NodeView)>, name: Seq<u8>, node: NodeView, p: int)
    requires
        0 <= p <= cs.len(),
        forall|i: int| 0 <= i < p ==> lex_lt(#[trigger] cs[i].0, name),
        p < cs.len() ==> !lex_lt(cs[p].0, name),
    ensures
        view_insert(cs, name, node) == if p < cs.len() && cs[p].0 == name {
            cs.update(p, (name, node))
        } else {
            cs.insert(p, (name, node))
        },
{
    lemma_view_insert_at(cs, name, node, p);
}

proof fn lemma_view_insert_at(cs: Seq<(Seq<u8>, NodeView)>, name: Seq<u8>, node: NodeView, p: int)
    requires
        0 <= p <= cs.len(),
        forall|i: int| 0 <= i < p ==> lex_lt(#[trigger] cs[i].0, name),
        p < cs.len() ==> !lex_lt(cs[p].0, name),
    ensures
        view_insert(cs, name, node) == if p < cs.len() && cs[p].0 == name {
            cs.update(p, (name, node))
        } else {
            cs.insert(p, (name, node))
        },
    decreases p,
{
    if p == 0 {
        if cs.len() > 0 && cs[0].0 != name {
            lemma_lex_total(name, cs[0].0);
        }
        if cs.len() == 0 {
            assert(cs.insert(0, (name, node)) =~= seq![(name, node)]);
        } else if cs[0].0 != name {
            assert(cs.insert(0, (name, node)) =~= seq![(name, node)] + cs);
        }
    } else {
        lemma_lex_asym(cs[0].0, name);
        let t = cs.drop_first();
        assert forall|i: int| 0 <= i < p - 1 implies lex_lt(#[trigger] t[i].0, name) by {
            assert(t[i] == cs[i + 1]);
        }
        lemma_view_insert_at(t, name, node, p - 1);
        if p < cs.len() && cs[p].0 == name {
            assert(seq![cs[0]] + t.update(p - 1, (name, node)) =~= cs.update(p, (name, node)));
        } else {
            assert(seq![cs[0]] + t.insert(p - 1, (name, node)) =~= cs.insert(p, (name, node)));
        }
    }
}

impl IsoDirectory {
    /// An empty directory of one sector.
    pub fn new() -> (d: Self)
        ensures
            d.children@.len() == 0,
            d.lba == 0,
            d.size == 2048,
            dir_view(d) == (DirView { lba: 0, size: 2048, children: Seq::empty() }),
    {
        let d = IsoDirectory { children: Vec::new(), lba: 0, size: 2048 };
        assert(children_view(d.children@, 0) =~= Seq::<(Seq<u8>, NodeView)>::empty());
        d
    }

    /// The index of the child named by the bytes `name`.
    pub fn find_child(&self, name: &[u8]) -> (r: Option<usize>)
        ensures
            r matches Some(i) ==> i < self.children@.len() && key(self.children@[i as int].0) == name@
                && lookup_child(dir_view(*self).children, name@) == Some(node_view(self.children@[i as int].1)),
            r is None ==> lookup_child(dir_view(*self).children, name@) is None,
    {
        let ghost cv = dir_view(*self).children;
        proof {
            lemma_children_view(self.children@, self.children@.len() as int);
        }
        let mut i: usize = 0;
        assert(cv.skip(0) =~= cv);
        while i < self.children.len()
            invariant
                i <= self.children@.len(),
                cv == dir_view(*self).children,
                cv.len() == self.children@.len(),
                forall|k: int| 0 <= k < cv.len() ==> #[trigger] cv[k] == (key(self.children@[k].0), node_view(self.children@[k].1)),
                lookup_child(cv, name@) == lookup_child(cv.skip(i as int), name@),
            decreases self.children@.len() - i,
        {
            let b = self.children[i].0.as_str().as_bytes();
            if bytes_eq(b, name) {
                assert(cv.skip(i as int)[0] == cv[i as int]);
                return Some(i);
            }
            assert(cv.skip(i as int).drop_first() =~= cv.skip(i + 1));
            i = i + 1;
        }
        None
    }

    /// The child named `name`, if any.
    pub fn get(&self, name: &str) -> (r: Option<&IsoFsNode>)
        ensures
            r matches Some(n) ==> lookup_child(dir_view(*self).children, name.spec_bytes()) == Some(node_view(*n)),
            r is None ==> lookup_child(dir_view(*self).children, name.spec_bytes()) is None,
    {
        match self.find_child(name.as_bytes()) {
            Some(i) => Some(&self.children[i].1),
            None => None,
        }
    }

    /// Whether a child is named `name`.
    pub fn contains_key(&self, name: &str) -> (r: bool)
        ensures
            r == lookup_child(dir_view(*self).children, name.spec_bytes()) is Some,
    {
        self.find_child(name.as_bytes()).is_some()
    }

    /// Adds the child `name`, replacing any child of that name, in name
    /// order.
    pub fn insert(&mut self, name: String, node: IsoFsNode)
        ensures
            final(self).lba == old(self).lba,
            final(self).size == old(self).size,
            dir_view(*final(self)).children == view_insert(dir_view(*old(self)).children, key(name), node_view(node)),
    {
        let ghost cv = dir_view(*self).children;
        proof {
            lemma_children_view(self.children@, self.children@.len() as int);
        }
        let mut p: usize = 0;
        let mut done = false;
        while p < self.children.len() && !done
            invariant
                p <= self.children@.len(),
                cv == dir_view(*self).children,
                cv.len() == self.children@.len(),
                forall|k: int| 0 <= k < cv.len() ==> #[trigger] cv[k] == (key(self.children@[k].0), node_view(self.children@[k].1)),
                forall|k: int| 0 <= k < p ==> lex_lt(#[trigger] cv[k].0, key(name)),
                done ==> p < cv.len() && !lex_lt(cv[p as int].0, key(name)),
            decreases self.children@.len() - p, if done { 0int } else { 1int },
        {
            if lex_less(self.children[p].0.as_str().as_bytes(), name.as_str().as_bytes()) {
                p = p + 1;
            } else {
                done = true;
            }
        }
        let found = p < self.children.len() && bytes_eq(self.children[p].0.as_str().as_bytes(), name.as_str().as_bytes());
        proof {
            lemma_view_insert_at(cv, key(name), node_view(node), p as int);
        }
        let ghost old_cs = self.children@;
        let ghost nk = (name, node);
        if found {
            self.children.set(p, (name, node));
        } else {
            self.children.insert(p, (name, node));
        }
        proof {
            lemma_children_view(self.children@, self.children@.len() as int);
            let nv = dir_view(*self).children;
            if found {
                assert(nv =~= cv.update(p as int, (key(nk.0), node_view(nk.1))));
            } else {
                assert forall|k: int| 0 <= k < nv.len() implies nv[k] == cv.insert(p as int, (key(nk.0), node_view(nk.1)))[k] by {
                    if k < p {
                        assert(self.children@[k] == old_cs[k]);
                    } else if k > p {
                        assert(self.children@[k] == old_cs[k - 1]);
                    }
                }
                assert(nv =~= cv.insert(p as int, (key(nk.0), node_view(nk.1))));
            }
        }
    }
}

impl IsoFsNode {
    /// The first sector of the node.
    pub fn lba(&self) -> (r: u32)
        ensures
            r == match *self {
                IsoFsNode::File(f) => f.lba,
                IsoFsNode::Directory(d) => d.lba,
            },
    {
        match self {
            IsoFsNode::File(file) => file.lba,
            IsoFsNode::Directory(dir) => dir.lba,
        }
    }

    /// The size of the node in bytes.
    pub fn size(&self) -> (r: u64)
        ensures
            r == match *self {
                IsoFsNode::File(f) => f.size,
                IsoFsNode::Directory(d) => d.size as u64,
            },
    {
        match self {
            IsoFsNode::File(file) => file.size,
            IsoFsNode::Directory(dir) => dir.size as u64,
        }
    }
}

} // verus!
