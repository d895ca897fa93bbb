//! The virtual filesystem: a tree of [`crate::fcb::FCB`] nodes lazily
//! materialized from native backing locations, an overlay mount table
//! redirecting paths at other parts of the same tree, and union directory
//! listing. All resolution is a function of the tree, the mount table and
//! an explicit [`crate::disk::Disk`] listing.

use vstd::prelude::*;
use crate::disk::{Disk, disk_entries, disk_has, disk_view};
use crate::error::Error;
use crate::fcb::{FCB, FcbV, fcb_view, fcbs_view, find_idx, find_idx_from, lemma_fcbs_view};
use crate::strutil::{
    clone_strings, contains_string, index_of_string, index_of_string_from, join_path,
    lemma_deep_view_strings, lemma_strs_view, path_join, seq_contains_string, split_segments,
    split_segs, str_eq, strs_view,
};

verus! {

/// How many overlay redirections one resolution may follow; a mount table
/// with a cycle runs out and resolves to not-found instead of diverging.
pub const MOUNT_DEPTH_LIMIT: u32 = 32;

/// The overlay mount table: each entry maps a virtual target path to its
/// source virtual paths in registration order.
pub struct MountTable {
    pub entries: Vec<(String, Vec<String>)>,
}

/// The shape of the mount table.
pub open spec fn mounts_view(m: MountTable) -> Seq<(Seq<char>, Seq<Seq<char>>)> {
    Seq::new(m.entries@.len(), |i: int| (m.entries@[i].0@, strs_view(m.entries@[i].1@)))
}

/// The first mount entry index at or after `i` for `path`.
pub open spec fn mount_find_from(
    mv: Seq<(Seq<char>, Seq<Seq<char>>)>,
    path: Seq<char>,
    i: int,
) -> Option<int>
    decreases mv.len() - i,
{
    if i < 0 || i >= mv.len() {
        None
    } else if mv[i].0 == path {
        Some(i)
    } else {
        mount_find_from(mv, path, i + 1)
    }
}

/// The sources mounted at `path`, in registration order.
pub open spec fn mount_sources(mv: Seq<(Seq<char>, Seq<Seq<char>>)>, path: Seq<char>) -> Seq<
    Seq<char>,
> {
    match mount_find_from(mv, path, 0) {
        Some(i) => mv[i].1,
        None => Seq::<Seq<char>>::empty(),
    }
}

/// The whole virtual filesystem: the tree and its mount table.
pub struct Vfs {
    pub root: FCB,
    pub mounts: MountTable,
}

impl Vfs {
    /// A fresh filesystem whose root is backed by the working directory.
    pub fn new(work_dir: String) -> (v: Vfs)
        ensures
            fcb_view(v.root) == (FcbV {
                name: Seq::<char>::empty(),
                path: Seq::<char>::empty(),
                backing: seq![work_dir@],
                children: Seq::<FcbV>::empty(),
            }),
            mounts_view(v.mounts) =~= Seq::<(Seq<char>, Seq<Seq<char>>)>::empty(),
    {
        let root = FCB {
            name: String::new(),
            path: String::new(),
            native_paths: vec![work_dir],
            children: Vec::new(),
        };
        proof {
            assert(fcb_view(root).backing =~= seq![root.native_paths@[0]@]);
            assert(fcb_view(root).children =~= Seq::<FcbV>::empty());
        }
        Vfs { root, mounts: MountTable { entries: Vec::new() } }
    }
}

// ---------------------------------------------------------------------------
// Edits: every mutation of the tree is one local edit applied at a chain of
// child names descending from the root.
// ---------------------------------------------------------------------------

/// One local edit of a node.
pub enum NodeEdit {
    /// Adds each backing location not already present, in order.
    MergeBacking(Vec<String>),
    /// Adds one backing location if absent.
    AddBacking(String),
    /// Removes the first occurrence of one backing location.
    RemoveBacking(String),
    /// Unloads the subtree: drops every materialized child.
    ClearChildren,
    /// Appends one child node.
    AddChild(FCB),
}

/// The shape of an edit.
pub enum EditV {
    MergeBacking(Seq<Seq<char>>),
    AddBacking(Seq<char>),
    RemoveBacking(Seq<char>),
    ClearChildren,
    AddChild(FcbV),
}

pub open spec fn edit_view(e: NodeEdit) -> EditV {
    match e {
        NodeEdit::MergeBacking(v) => EditV::MergeBacking(strs_view(v@)),
        NodeEdit::AddBacking(p) => EditV::AddBacking(p@),
        NodeEdit::RemoveBacking(p) => EditV::RemoveBacking(p@),
        NodeEdit::ClearChildren => EditV::ClearChildren,
        NodeEdit::AddChild(f) => EditV::AddChild(fcb_view(f)),
    }
}

/// `b` with `p` appended unless already present.
pub open spec fn add_if_absent(b: Seq<Seq<char>>, p: Seq<char>) -> Seq<Seq<char>> {
    if seq_contains_string(b, p) {
        b
    } else {
        b.push(p)
    }
}

/// The first `n` of `xs` appended to `acc`, each unless already present.
pub open spec fn append_absent_n(acc: Seq<Seq<char>>, xs: Seq<Seq<char>>, n: int) -> Seq<
    Seq<char>,
>
    decreases n,
{
    if n <= 0 {
        acc
    } else {
        add_if_absent(append_absent_n(acc, xs, n - 1), xs[n - 1])
    }
}

/// `xs` appended to `acc`, dropping entries already present.
pub open spec fn append_absent(acc: Seq<Seq<char>>, xs: Seq<Seq<char>>) -> Seq<Seq<char>> {
    append_absent_n(acc, xs, xs.len() as int)
}

/// `b` with the first occurrence of `p` removed, if any.
pub open spec fn remove_first(b: Seq<Seq<char>>, p: Seq<char>) -> Seq<Seq<char>> {
    match index_of_string(b, p) {
        Some(i) => b.remove(i),
        None => b,
    }
}

/// One edit applied to a node itself. A child is added only when no
/// sibling of its name exists yet, so sibling names stay unique even when
/// a concurrent resolution (or an overlay probe) materialized the name
/// first.
pub open spec fn edit_node(n: FcbV, e: EditV) -> FcbV {
    match e {
        EditV::MergeBacking(ms) => FcbV { backing: append_absent(n.backing, ms), ..n },
        EditV::AddBacking(p) => FcbV { backing: add_if_absent(n.backing, p), ..n },
        EditV::RemoveBacking(p) => FcbV { backing: remove_first(n.backing, p), ..n },
        EditV::ClearChildren => FcbV { children: Seq::<FcbV>::empty(), ..n },
        EditV::AddChild(c) => if find_idx(n.children, c.name) is Some {
            n
        } else {
            FcbV { children: n.children.push(c), ..n }
        },
    }
}

/// One edit applied at the node reached by `chain[i..]`; a chain that does
/// not resolve leaves the tree unchanged.
pub open spec fn edit_at(n: FcbV, chain: Seq<Seq<char>>, i: int, e: EditV) -> FcbV
    decreases chain.len() - i,
{
    if i < 0 || i >= chain.len() {
        edit_node(n, e)
    } else {
        match find_idx(n.children, chain[i]) {
            Some(j) => FcbV {
                children: n.children.update(j, edit_at(n.children[j], chain, i + 1, e)),
                ..n
            },
            None => n,
        }
    }
}

/// The node reached by `chain[i..]`, if every name resolves.
pub open spec fn node_at(n: FcbV, chain: Seq<Seq<char>>, i: int) -> Option<FcbV>
    decreases chain.len() - i,
{
    if i < 0 || i >= chain.len() {
        Some(n)
    } else {
        match find_idx(n.children, chain[i]) {
            Some(j) => node_at(n.children[j], chain, i + 1),
            None => None,
        }
    }
}

/// The names of a node's children, in order.
pub open spec fn child_names_of(n: FcbV) -> Seq<Seq<char>> {
    Seq::new(n.children.len(), |i: int| n.children[i].name)
}

// ---------------------------------------------------------------------------
// Executable counterparts.
// ---------------------------------------------------------------------------

/// The plain content of one resolved node, as reported to clients.
#[derive(Debug)]
pub struct NodeData {
    pub name: String,
    pub path: String,
    pub native_paths: Vec<String>,
    pub child_names: Vec<String>,
}

/// Reads a copy of the node reached by `chain[i..]`.
fn read_node(f: &FCB, chain: &Vec<String>, i: usize) -> (r: Option<NodeData>)
    requires
        i <= chain@.len(),
    ensures
        match r {
            Some(d) => {
                &&& node_at(fcb_view(*f), chain.deep_view(), i as int) is Some
                &&& {
                    let n = node_at(fcb_view(*f), chain.deep_view(), i as int)->Some_0;
                    &&& d.name@ == n.name
                    &&& d.path@ == n.path
                    &&& d.native_paths.deep_view() == n.backing
                    &&& d.child_names.deep_view() == child_names_of(n)
                }
            },
            None => node_at(fcb_view(*f), chain.deep_view(), i as int) is None,
        },
    decreases chain@.len() - i,
{
    proof {
        lemma_deep_view_strings(chain);
    }
    if i == chain.len() {
        let mut child_names: Vec<String> = Vec::new();
        let ghost n = fcb_view(*f);
        proof {
            lemma_fcbs_view(f.children@);
        }
        let mut k: usize = 0;
        while k < f.children.len()
            invariant
                k <= f.children@.len(),
                n == fcb_view(*f),
                n.children.len() == f.children@.len(),
                forall|j: int| 0 <= j < f.children@.len() ==> n.children[j] == fcb_view(
                    f.children@[j],
                ),
                child_names@.len() == k,
                forall|j: int| 0 <= j < k ==> child_names@[j]@ == n.children[j].name,
            decreases f.children@.len() - k,
        {
            child_names.push(f.children[k].name.clone());
            k = k + 1;
        }
        let d = NodeData {
            name: f.name.clone(),
            path: f.path.clone(),
            native_paths: clone_strings(&f.native_paths),
            child_names,
        };
        proof {
            lemma_strs_view(&f.native_paths);
            lemma_deep_view_strings(&d.child_names);
            assert(d.child_names.deep_view() =~= child_names_of(n));
        }
        Some(d)
    } else {
        match f.find(chain[i].as_str()) {
            Some(j) => {
                proof {
                    lemma_fcbs_view(f.children@);
                }
                read_node(&f.children[j], chain, i + 1)
            },
            None => None,
        }
    }
}

/// Applies one edit at the node reached by `chain[i..]`.
fn apply_edit_at(f: &mut FCB, chain: &Vec<String>, i: usize, e: NodeEdit)
    requires
        i <= chain@.len(),
    ensures
        fcb_view(*final(f)) == edit_at(fcb_view(*old(f)), chain.deep_view(), i as int, edit_view(e)),
    decreases chain@.len() - i,
{
    proof {
        lemma_deep_view_strings(chain);
    }
    if i == chain.len() {
        let ghost n0 = fcb_view(*old(f));
        match e {
            NodeEdit::MergeBacking(ms) => {
                let ghost msv = strs_view(ms@);
                proof {
                    lemma_deep_view_strings(&ms);
                    lemma_strs_view(&f.native_paths);
                }
                let mut k: usize = 0;
                while k < ms.len()
                    invariant
                        k <= ms@.len(),
                        msv == strs_view(ms@),
                        msv.len() == ms@.len(),
                        forall|j: int| 0 <= j < ms@.len() ==> msv[j] == ms@[j]@,
                        strs_view(f.native_paths@) == append_absent_n(n0.backing, msv, k as int),
                        f.name == old(f).name,
                        f.path == old(f).path,
                        f.children == old(f).children,
                        n0 == fcb_view(*old(f)),
                    decreases ms@.len() - k,
                {
                    proof {
                        lemma_strs_view(&f.native_paths);
                    }
                    if !contains_string(&f.native_paths, &ms[k]) {
                        f.native_paths.push(ms[k].clone());
                        proof {
                            lemma_strs_view(&f.native_paths);
                            assert(strs_view(f.native_paths@) =~= append_absent_n(
                                n0.backing,
                                msv,
                                k as int,
                            ).push(msv[k as int]));
                        }
                    }
                    k = k + 1;
                }
                proof {
                    assert(fcb_view(*f) == edit_node(n0, EditV::MergeBacking(msv)));
                }
            },
            NodeEdit::AddBacking(p) => {
                proof {
                    lemma_strs_view(&f.native_paths);
                }
                if !contains_string(&f.native_paths, &p) {
                    f.native_paths.push(p);
                    proof {
                        lemma_strs_view(&f.native_paths);
                        assert(strs_view(f.native_paths@) =~= n0.backing.push(
                            f.native_paths@.last()@,
                        ));
                    }
                }
            },
            NodeEdit::RemoveBacking(p) => {
                let ghost b0 = strs_view(f.native_paths@);
                proof {
                    lemma_strs_view(&f.native_paths);
                }
                match crate::strutil::find_string(&f.native_paths, &p) {
                    Some(j) => {
                        f.native_paths.remove(j);
                        proof {
                            lemma_strs_view(&f.native_paths);
                            assert(strs_view(f.native_paths@) =~= b0.remove(j as int));
                        }
                    },
                    None => {
                    },
                }
            },
            NodeEdit::ClearChildren => {
                f.children.clear();
                proof {
                    assert(fcbs_view(f.children@) =~= Seq::<FcbV>::empty());
                }
            },
            NodeEdit::AddChild(c) => {
                let dup = f.find(c.name.as_str());
                match dup {
                    Some(_) => {
                    },
                    None => {
                        let ghost pre = f.children@;
                        f.children.push(c);
                        proof {
                            lemma_fcbs_view(pre);
                            lemma_fcbs_view(f.children@);
                            assert(f.children@.drop_last() =~= pre);
                            assert(fcbs_view(f.children@) =~= fcbs_view(pre).push(fcb_view(c)));
                        }
                    },
                }
            },
        }
    } else {
        let r = f.find(chain[i].as_str());
        match r {
            Some(j) => {
                proof {
                    lemma_fcbs_view(f.children@);
                }
                let ghost pre = f.children@;
                let mut child = f.children.remove(j);
                apply_edit_at(&mut child, chain, i + 1, e);
                f.children.insert(j, child);
                proof {
                    lemma_fcbs_view(pre);
                    lemma_fcbs_view(f.children@);
                    assert(f.children@ =~= pre.update(j as int, f.children@[j as int]));
                    assert(fcbs_view(f.children@) =~= fcbs_view(pre).update(
                        j as int,
                        fcb_view(f.children@[j as int]),
                    ));
                }
            },
            None => {
            },
        }
    }
}

// ---------------------------------------------------------------------------
// Backing-location scans.
// ---------------------------------------------------------------------------

/// The joined native paths of the first `n` backing locations whose
/// directory holds an entry named `name`, in backing order.
pub open spec fn scan_matches_n(
    dv: Seq<(Seq<char>, Seq<Seq<char>>)>,
    backing: Seq<Seq<char>>,
    name: Seq<char>,
    n: int,
) -> Seq<Seq<char>>
    decreases n,
{
    if n <= 0 {
        Seq::<Seq<char>>::empty()
    } else {
        let prev = scan_matches_n(dv, backing, name, n - 1);
        if disk_has(dv, backing[n - 1], name) {
            prev.push(path_join(backing[n - 1], name))
        } else {
            prev
        }
    }
}

/// The joined native paths of every backing location whose directory holds
/// an entry named `name`.
pub open spec fn scan_matches(
    dv: Seq<(Seq<char>, Seq<Seq<char>>)>,
    backing: Seq<Seq<char>>,
    name: Seq<char>,
) -> Seq<Seq<char>> {
    scan_matches_n(dv, backing, name, backing.len() as int)
}

/// The first `n` backing locations each joined with `name`.
pub open spec fn join_all_n(backing: Seq<Seq<char>>, name: Seq<char>, n: int) -> Seq<Seq<char>>
    decreases n,
{
    if n <= 0 {
        Seq::<Seq<char>>::empty()
    } else {
        join_all_n(backing, name, n - 1).push(path_join(backing[n - 1], name))
    }
}

/// Every backing location joined with `name`: the backing set of a node
/// materialized without any native match.
pub open spec fn join_all(backing: Seq<Seq<char>>, name: Seq<char>) -> Seq<Seq<char>> {
    join_all_n(backing, name, backing.len() as int)
}

/// Scans each backing location for an entry named `name`, collecting the
/// joined native paths of the hits.
fn scan_backing(disk: &Disk, backing: &Vec<String>, name: &String) -> (r: Vec<String>)
    ensures
        r.deep_view() == scan_matches(disk_view(*disk), strs_view(backing@), name@),
{
    let ghost bv = strs_view(backing@);
    proof {
        lemma_strs_view(backing);
        lemma_deep_view_strings(backing);
    }
    let mut out: Vec<String> = Vec::new();
    let mut k: usize = 0;
    while k < backing.len()
        invariant
            k <= backing@.len(),
            bv == strs_view(backing@),
            bv.len() == backing@.len(),
            forall|j: int| 0 <= j < bv.len() ==> bv[j] == backing@[j]@,
            strs_view(out@) == scan_matches_n(disk_view(*disk), bv, name@, k as int),
        decreases backing@.len() - k,
    {
        let ghost pre = strs_view(out@);
        if disk.has_entry(&backing[k], name) {
            let joined = join_path(backing[k].as_str(), name.as_str());
            out.push(joined);
            proof {
                lemma_strs_view(&out);
                assert(strs_view(out@) =~= pre.push(path_join(bv[k as int], name@)));
            }
        }
        k = k + 1;
    }
    proof {
        lemma_strs_view(&out);
    }
    out
}

/// Joins each backing location with `name`.
fn join_each(backing: &Vec<String>, name: &String) -> (r: Vec<String>)
    ensures
        r.deep_view() == join_all(strs_view(backing@), name@),
{
    let ghost bv = strs_view(backing@);
    proof {
        lemma_strs_view(backing);
        lemma_deep_view_strings(backing);
    }
    let mut out: Vec<String> = Vec::new();
    let mut k: usize = 0;
    while k < backing.len()
        invariant
            k <= backing@.len(),
            bv == strs_view(backing@),
            bv.len() == backing@.len(),
            forall|j: int| 0 <= j < bv.len() ==> bv[j] == backing@[j]@,
            strs_view(out@) == join_all_n(bv, name@, k as int),
        decreases backing@.len() - k,
    {
        let ghost pre = strs_view(out@);
        let joined = join_path(backing[k].as_str(), name.as_str());
        out.push(joined);
        proof {
            lemma_strs_view(&out);
            assert(strs_view(out@) =~= pre.push(path_join(bv[k as int], name@)));
        }
        k = k + 1;
    }
    proof {
        lemma_strs_view(&out);
    }
    out
}

// ---------------------------------------------------------------------------
// Resolution: the model.
// ---------------------------------------------------------------------------

/// The resolution model, advancing over `segs[i..]` from the node at
/// `cur`. Per segment: an existing child absorbs the joined paths of every
/// backing match and is descended into; otherwise a backing match
/// materializes the child; otherwise each source mounted at the node's path
/// is probed in registration order and a hit becomes the descent target;
/// otherwise the child is fabricated (`create`) or resolution fails naming
/// the unresolved path.
pub open spec fn resolve_m(
    root: FcbV,
    mv: Seq<(Seq<char>, Seq<Seq<char>>)>,
    dv: Seq<(Seq<char>, Seq<Seq<char>>)>,
    cur: Seq<Seq<char>>,
    segs: Seq<Seq<char>>,
    i: int,
    create: bool,
    fuel: nat,
) -> (FcbV, Result<Seq<Seq<char>>, Seq<char>>)
    decreases fuel, 1int, segs.len() - i, 0int,
{
    match node_at(root, cur, 0) {
        Option::None => (root, Result::Err(Seq::<char>::empty())),
        Option::Some(node) => {
            if i < 0 || i >= segs.len() {
                (root, Result::Ok(cur))
            } else {
                let seg = segs[i];
                let ms = scan_matches(dv, node.backing, seg);
                if find_idx(node.children, seg) is Some {
                    let root1 = edit_at(root, cur.push(seg), 0, EditV::MergeBacking(ms));
                    resolve_m(root1, mv, dv, cur.push(seg), segs, i + 1, create, fuel)
                } else if ms.len() > 0 {
                    let child = FcbV {
                        name: seg,
                        path: path_join(node.path, seg),
                        backing: ms,
                        children: Seq::<FcbV>::empty(),
                    };
                    let root1 = edit_at(root, cur, 0, EditV::AddChild(child));
                    resolve_m(root1, mv, dv, cur.push(seg), segs, i + 1, create, fuel)
                } else {
                    let sources = mount_sources(mv, node.path);
                    let probed = try_sources_m(root, mv, dv, sources, 0, seg, fuel);
                    match probed.1 {
                        Option::Some(chain) => resolve_m(
                            probed.0,
                            mv,
                            dv,
                            chain,
                            segs,
                            i + 1,
                            create,
                            fuel,
                        ),
                        Option::None => {
                            if create {
                                let child = FcbV {
                                    name: seg,
                                    path: path_join(node.path, seg),
                                    backing: join_all(node.backing, seg),
                                    children: Seq::<FcbV>::empty(),
                                };
                                let root2 = edit_at(probed.0, cur, 0, EditV::AddChild(child));
                                resolve_m(root2, mv, dv, cur.push(seg), segs, i + 1, create, fuel)
                            } else {
                                (probed.0, Result::Err(path_join(node.path, seg)))
                            }
                        },
                    }
                }
            }
        },
    }
}

/// Probes `sources[k..]` in order: each source path plus the pending
/// segment is resolved read-only from the root, and the first hit is the
/// descent target. State changes made by failed probes are kept, as lazy
/// materialization is a cache, not an observable effect.
pub open spec fn try_sources_m(
    root: FcbV,
    mv: Seq<(Seq<char>, Seq<Seq<char>>)>,
    dv: Seq<(Seq<char>, Seq<Seq<char>>)>,
    sources: Seq<Seq<char>>,
    k: int,
    seg: Seq<char>,
    fuel: nat,
) -> (FcbV, Option<Seq<Seq<char>>>)
    decreases fuel, 0int, 0int, sources.len() - k,
{
    if k < 0 || k >= sources.len() || fuel == 0 {
        (root, Option::None)
    } else {
        let probe_segs = split_segs(sources[k], false).push(seg);
        let probed = resolve_m(
            root,
            mv,
            dv,
            Seq::<Seq<char>>::empty(),
            probe_segs,
            0,
            false,
            (fuel - 1) as nat,
        );
        match probed.1 {
            Result::Ok(chain) => (probed.0, Option::Some(chain)),
            Result::Err(_) => try_sources_m(probed.0, mv, dv, sources, k + 1, seg, fuel),
        }
    }
}

/// A successful resolution always leaves a node at the returned chain.
pub proof fn lemma_resolve_ok(
    root: FcbV,
    mv: Seq<(Seq<char>, Seq<Seq<char>>)>,
    dv: Seq<(Seq<char>, Seq<Seq<char>>)>,
    cur: Seq<Seq<char>>,
    segs: Seq<Seq<char>>,
    i: int,
    create: bool,
    fuel: nat,
)
    ensures
        ({
            let (r, res) = resolve_m(root, mv, dv, cur, segs, i, create, fuel);
            res is Ok ==> node_at(r, res->Ok_0, 0) is Some
        }),
    decreases fuel, 1int, segs.len() - i, 0int,
{
    match node_at(root, cur, 0) {
        Option::None => {},
        Option::Some(node) => {
            if i < 0 || i >= segs.len() {
            } else {
                let seg = segs[i];
                let ms = scan_matches(dv, node.backing, seg);
                if find_idx(node.children, seg) is Some {
                    let root1 = edit_at(root, cur.push(seg), 0, EditV::MergeBacking(ms));
                    lemma_resolve_ok(root1, mv, dv, cur.push(seg), segs, i + 1, create, fuel);
                } else if ms.len() > 0 {
                    let child = FcbV {
                        name: seg,
                        path: path_join(node.path, seg),
                        backing: ms,
                        children: Seq::<FcbV>::empty(),
                    };
                    let root1 = edit_at(root, cur, 0, EditV::AddChild(child));
                    lemma_resolve_ok(root1, mv, dv, cur.push(seg), segs, i + 1, create, fuel);
                } else {
                    let sources = mount_sources(mv, node.path);
                    let probed = try_sources_m(root, mv, dv, sources, 0, seg, fuel);
                    match probed.1 {
                        Option::Some(chain) => {
                            lemma_resolve_ok(probed.0, mv, dv, chain, segs, i + 1, create, fuel);
                        },
                        Option::None => {
                            if create {
                                let child = FcbV {
                                    name: seg,
                                    path: path_join(node.path, seg),
                                    backing: join_all(node.backing, seg),
                                    children: Seq::<FcbV>::empty(),
                                };
                                let root2 = edit_at(probed.0, cur, 0, EditV::AddChild(child));
                                lemma_resolve_ok(
                                    root2,
                                    mv,
                                    dv,
                                    cur.push(seg),
                                    segs,
                                    i + 1,
                                    create,
                                    fuel,
                                );
                            }
                        },
                    }
                }
            }
        },
    }
}

// ---------------------------------------------------------------------------
// Resolution: the executable walk.
// ---------------------------------------------------------------------------

/// The shape of a resolution result.
pub open spec fn res_view(r: Result<Vec<String>, String>) -> Result<Seq<Seq<char>>, Seq<char>> {
    match r {
        Result::Ok(v) => Result::Ok(v.deep_view()),
        Result::Err(s) => Result::Err(s@),
    }
}

/// Resolves `segs[i..]` from the node at `cur`, exactly as the model does.
fn resolve_from(
    root: &mut FCB,
    mounts: &MountTable,
    disk: &Disk,
    cur: Vec<String>,
    segs: &Vec<String>,
    i: usize,
    create: bool,
    fuel: u32,
) -> (r: Result<Vec<String>, String>)
    requires
        i <= segs@.len(),
    ensures
        (fcb_view(*final(root)), res_view(r)) == resolve_m(
            fcb_view(*old(root)),
            mounts_view(*mounts),
            disk_view(*disk),
            cur.deep_view(),
            segs.deep_view(),
            i as int,
            create,
            fuel as nat,
        ),
    decreases fuel, 1int, segs@.len() - i, 0int,
{
    let ghost root0 = fcb_view(*root);
    let ghost mv = mounts_view(*mounts);
    let ghost dv = disk_view(*disk);
    proof {
        lemma_deep_view_strings(segs);
        lemma_deep_view_strings(&cur);
    }
    let nd = match read_node(root, &cur, 0) {
        Some(nd) => nd,
        None => {
            let e = String::new();
            proof {
                assert(e@ =~= Seq::<char>::empty());
            }
            return Err(e);
        },
    };
    let ghost node = node_at(root0, cur.deep_view(), 0)->Some_0;
    if i == segs.len() {
        return Ok(cur);
    }
    let seg = &segs[i];
    let ms = scan_backing(disk, &nd.native_paths, seg);
    let ghost msv = scan_matches(dv, node.backing, seg@);
    proof {
        lemma_strs_view(&nd.native_paths);
        lemma_strs_view(&ms);
        assert(ms.deep_view() == msv);
        assert(strs_view(ms@) == msv);
    }
    let has_child = contains_string(&nd.child_names, seg);
    proof {
        crate::fcb::lemma_find_idx_from_exists(node.children, seg@, 0);
        lemma_deep_view_strings(&nd.child_names);
        if has_child {
            let w = choose|j: int|
                0 <= j < nd.child_names.deep_view().len() && nd.child_names.deep_view()[j] == seg@;
            assert(child_names_of(node)[w] == seg@);
            assert(node.children[w].name == seg@);
        } else {
            if find_idx(node.children, seg@) is Some {
                let w = choose|j: int|
                    #![trigger node.children[j]]
                    0 <= j < node.children.len() && node.children[j].name == seg@;
                assert(child_names_of(node)[w] == seg@);
                assert(seq_contains_string(nd.child_names.deep_view(), seg@));
            }
        }
        assert(has_child == (find_idx(node.children, seg@) is Some));
    }
    if has_child {
        let mut chain2 = cur;
        chain2.push(seg.clone());
        proof {
            lemma_deep_view_strings(&chain2);
            assert(chain2.deep_view() =~= cur.deep_view().push(seg@));
        }
        apply_edit_at(root, &chain2, 0, NodeEdit::MergeBacking(ms));
        resolve_from(root, mounts, disk, chain2, segs, i + 1, create, fuel)
    } else if ms.len() > 0 {
        let child = FCB {
            name: seg.clone(),
            path: join_path(nd.path.as_str(), seg.as_str()),
            native_paths: ms,
            children: Vec::new(),
        };
        proof {
            lemma_strs_view(&child.native_paths);
            assert(fcb_view(child).children =~= Seq::<FcbV>::empty());
            assert(fcb_view(child) == (FcbV {
                name: seg@,
                path: path_join(node.path, seg@),
                backing: msv,
                children: Seq::<FcbV>::empty(),
            }));
        }
        apply_edit_at(root, &cur, 0, NodeEdit::AddChild(child));
        let mut chain2 = cur;
        chain2.push(seg.clone());
        proof {
            lemma_deep_view_strings(&chain2);
            assert(chain2.deep_view() =~= cur.deep_view().push(seg@));
        }
        resolve_from(root, mounts, disk, chain2, segs, i + 1, create, fuel)
    } else {
        proof {
            assert(msv.len() == 0);
        }
        let probe = match mounts.find(&nd.path) {
            Some(mi) => {
                let sources = &mounts.entries[mi].1;
                proof {
                    lemma_strs_view(sources);
                    assert(mount_sources(mv, node.path) == strs_view(sources@));
                }
                try_sources(root, mounts, disk, sources, 0, seg, fuel)
            },
            None => {
                proof {
                    assert(mount_sources(mv, node.path) =~= Seq::<Seq<char>>::empty());
                    assert(try_sources_m(
                        root0,
                        mv,
                        dv,
                        mount_sources(mv, node.path),
                        0,
                        seg@,
                        fuel as nat,
                    ) == (root0, Option::<Seq<Seq<char>>>::None));
                }
                None
            },
        };
        match probe {
            Some(chain) => resolve_from(root, mounts, disk, chain, segs, i + 1, create, fuel),
            None => {
                if create {
                    let joined = join_each(&nd.native_paths, seg);
                    let child = FCB {
                        name: seg.clone(),
                        path: join_path(nd.path.as_str(), seg.as_str()),
                        native_paths: joined,
                        children: Vec::new(),
                    };
                    proof {
                        lemma_strs_view(&child.native_paths);
                        lemma_strs_view(&nd.native_paths);
                        assert(fcb_view(child).children =~= Seq::<FcbV>::empty());
                        assert(fcb_view(child) == (FcbV {
                            name: seg@,
                            path: path_join(node.path, seg@),
                            backing: join_all(node.backing, seg@),
                            children: Seq::<FcbV>::empty(),
                        }));
                    }
                    apply_edit_at(root, &cur, 0, NodeEdit::AddChild(child));
                    let mut chain2 = cur;
                    chain2.push(seg.clone());
                    proof {
                        lemma_deep_view_strings(&chain2);
                        assert(chain2.deep_view() =~= cur.deep_view().push(seg@));
                    }
                    resolve_from(root, mounts, disk, chain2, segs, i + 1, create, fuel)
                } else {
                    Err(join_path(nd.path.as_str(), seg.as_str()))
                }
            },
        }
    }
}

/// The shape of a probe result.
pub open spec fn opt_view(r: Option<Vec<String>>) -> Option<Seq<Seq<char>>> {
    match r {
        Option::Some(v) => Option::Some(v.deep_view()),
        Option::None => Option::None,
    }
}

/// Probes `sources[k..]` in order, exactly as the model does.
fn try_sources(
    root: &mut FCB,
    mounts: &MountTable,
    disk: &Disk,
    sources: &Vec<String>,
    k: usize,
    seg: &String,
    fuel: u32,
) -> (r: Option<Vec<String>>)
    ensures
        (fcb_view(*final(root)), opt_view(r)) == try_sources_m(
            fcb_view(*old(root)),
            mounts_view(*mounts),
            disk_view(*disk),
            strs_view(sources@),
            k as int,
            seg@,
            fuel as nat,
        ),
    decreases fuel, 0int, 0int, sources@.len() - k,
{
    proof {
        lemma_strs_view(sources);
        lemma_deep_view_strings(sources);
    }
    if k >= sources.len() || fuel == 0 {
        return None;
    }
    let mut probe_segs = split_segments(sources[k].as_str(), false);
    probe_segs.push(seg.clone());
    proof {
        lemma_deep_view_strings(&probe_segs);
        assert(probe_segs.deep_view() =~= split_segs(sources@[k as int]@, false).push(seg@));
    }
    let empty_chain: Vec<String> = Vec::new();
    proof {
        assert(empty_chain.deep_view() =~= Seq::<Seq<char>>::empty());
    }
    let r = resolve_from(root, mounts, disk, empty_chain, &probe_segs, 0, false, fuel - 1);
    match r {
        Ok(chain) => Some(chain),
        Err(_) => try_sources(root, mounts, disk, sources, k + 1, seg, fuel),
    }
}

// ---------------------------------------------------------------------------
// Directory listing: the model.
// ---------------------------------------------------------------------------

/// The entry names of the first `n` backing locations, deduplicated, in
/// backing order.
pub open spec fn scan_names_n(
    dv: Seq<(Seq<char>, Seq<Seq<char>>)>,
    backing: Seq<Seq<char>>,
    n: int,
) -> Seq<Seq<char>>
    decreases n,
{
    if n <= 0 {
        Seq::<Seq<char>>::empty()
    } else {
        append_absent(scan_names_n(dv, backing, n - 1), disk_entries(dv, backing[n - 1]))
    }
}

/// The deduplicated entry names of every backing location.
pub open spec fn scan_names(
    dv: Seq<(Seq<char>, Seq<Seq<char>>)>,
    backing: Seq<Seq<char>>,
) -> Seq<Seq<char>> {
    scan_names_n(dv, backing, backing.len() as int)
}

/// The listing model: resolve the path, union the native entry names with
/// the materialized child names, then append each mounted source's own
/// listing in registration order, deduplicating throughout.
pub open spec fn listdir_m(
    root: FcbV,
    mv: Seq<(Seq<char>, Seq<Seq<char>>)>,
    dv: Seq<(Seq<char>, Seq<Seq<char>>)>,
    segs: Seq<Seq<char>>,
    fuel: nat,
) -> (FcbV, Result<Seq<Seq<char>>, Seq<char>>)
    decreases fuel, 1int, 0int,
{
    let (root1, res) = resolve_m(
        root,
        mv,
        dv,
        Seq::<Seq<char>>::empty(),
        segs,
        0,
        false,
        fuel,
    );
    match res {
        Result::Err(e) => (root1, Result::Err(e)),
        Result::Ok(chain) => match node_at(root1, chain, 0) {
            Option::None => (root1, Result::Err(Seq::<char>::empty())),
            Option::Some(node) => {
                let base = scan_names(dv, node.backing);
                let with_children = append_absent(base, child_names_of(node));
                let sources = mount_sources(mv, node.path);
                let (root2, all) = listdir_sources_m(
                    root1,
                    mv,
                    dv,
                    sources,
                    0,
                    with_children,
                    fuel,
                );
                (root2, Result::Ok(all))
            },
        },
    }
}

/// Appends each source's own listing to `acc` in registration order,
/// deduplicated; a source whose listing fails contributes nothing.
pub open spec fn listdir_sources_m(
    root: FcbV,
    mv: Seq<(Seq<char>, Seq<Seq<char>>)>,
    dv: Seq<(Seq<char>, Seq<Seq<char>>)>,
    sources: Seq<Seq<char>>,
    k: int,
    acc: Seq<Seq<char>>,
    fuel: nat,
) -> (FcbV, Seq<Seq<char>>)
    decreases fuel, 0int, sources.len() - k,
{
    if k < 0 || k >= sources.len() || fuel == 0 {
        (root, acc)
    } else {
        let (root1, r) = listdir_m(root, mv, dv, split_segs(sources[k], false), (fuel - 1) as nat);
        let acc1 = match r {
            Result::Ok(names) => append_absent(acc, names),
            Result::Err(_) => acc,
        };
        listdir_sources_m(root1, mv, dv, sources, k + 1, acc1, fuel)
    }
}

// ---------------------------------------------------------------------------
// Directory listing: the executable walk.
// ---------------------------------------------------------------------------

/// Appends each of `xs` to `acc` unless already present.
fn append_absent_exec(acc: &mut Vec<String>, xs: &Vec<String>)
    ensures
        strs_view(final(acc)@) == append_absent(strs_view(old(acc)@), strs_view(xs@)),
{
    let ghost acc0 = strs_view(old(acc)@);
    let ghost xv = strs_view(xs@);
    proof {
        lemma_strs_view(xs);
        lemma_deep_view_strings(xs);
    }
    let mut k: usize = 0;
    while k < xs.len()
        invariant
            k <= xs@.len(),
            xv == strs_view(xs@),
            xv.len() == xs@.len(),
            forall|j: int| 0 <= j < xv.len() ==> xv[j] == xs@[j]@,
            strs_view(acc@) == append_absent_n(acc0, xv, k as int),
        decreases xs@.len() - k,
    {
        let ghost pre = strs_view(acc@);
        proof {
            lemma_strs_view(acc);
        }
        if !contains_string(acc, &xs[k]) {
            acc.push(xs[k].clone());
            proof {
                lemma_strs_view(acc);
                assert(strs_view(acc@) =~= pre.push(xv[k as int]));
            }
        }
        k = k + 1;
    }
}

/// Collects the deduplicated entry names of every backing location.
fn scan_names_exec(disk: &Disk, backing: &Vec<String>) -> (r: Vec<String>)
    ensures
        strs_view(r@) == scan_names(disk_view(*disk), strs_view(backing@)),
{
    let ghost bv = strs_view(backing@);
    proof {
        lemma_strs_view(backing);
        lemma_deep_view_strings(backing);
    }
    let mut out: Vec<String> = Vec::new();
    let mut k: usize = 0;
    while k < backing.len()
        invariant
            k <= backing@.len(),
            bv == strs_view(backing@),
            bv.len() == backing@.len(),
            forall|j: int| 0 <= j < bv.len() ==> bv[j] == backing@[j]@,
            strs_view(out@) == scan_names_n(disk_view(*disk), bv, k as int),
        decreases backing@.len() - k,
    {
        match disk.find(&backing[k]) {
            Some(di) => {
                proof {
                    lemma_strs_view(&disk.dirs[di as int].1);
                    assert(disk_entries(disk_view(*disk), bv[k as int]) == strs_view(
                        disk.dirs@[di as int].1@,
                    ));
                }
                append_absent_exec(&mut out, &disk.dirs[di].1);
            },
            None => {
                proof {
                    assert(disk_entries(disk_view(*disk), bv[k as int]) =~= Seq::<
                        Seq<char>,
                    >::empty());
                    assert(strs_view(out@) =~= append_absent(
                        strs_view(out@),
                        disk_entries(disk_view(*disk), bv[k as int]),
                    ));
                }
            },
        }
        k = k + 1;
    }
    out
}

/// Lists the node at `segs`, exactly as the model does.
fn listdir_segs(
    root: &mut FCB,
    mounts: &MountTable,
    disk: &Disk,
    segs: &Vec<String>,
    fuel: u32,
) -> (r: Result<Vec<String>, String>)
    ensures
        (fcb_view(*final(root)), res_view(r)) == listdir_m(
            fcb_view(*old(root)),
            mounts_view(*mounts),
            disk_view(*disk),
            segs.deep_view(),
            fuel as nat,
        ),
    decreases fuel, 1int, 0int,
{
    let ghost root0 = fcb_view(*root);
    let ghost mv = mounts_view(*mounts);
    let ghost dv = disk_view(*disk);
    let empty_chain: Vec<String> = Vec::new();
    proof {
        assert(empty_chain.deep_view() =~= Seq::<Seq<char>>::empty());
    }
    let chain = match resolve_from(root, mounts, disk, empty_chain, segs, 0, false, fuel) {
        Ok(chain) => chain,
        Err(e) => {
            return Err(e);
        },
    };
    let nd = match read_node(root, &chain, 0) {
        Some(nd) => nd,
        None => {
            let e = String::new();
            proof {
                assert(e@ =~= Seq::<char>::empty());
            }
            return Err(e);
        },
    };
    let ghost root1 = fcb_view(*root);
    let ghost node = node_at(root1, chain.deep_view(), 0)->Some_0;
    let mut names = scan_names_exec(disk, &nd.native_paths);
    proof {
        lemma_strs_view(&nd.native_paths);
    }
    append_absent_exec(&mut names, &nd.child_names);
    proof {
        lemma_strs_view(&nd.child_names);
        lemma_deep_view_strings(&nd.child_names);
        assert(strs_view(nd.child_names@) =~= child_names_of(node));
    }
    let r = match mounts.find(&nd.path) {
        Some(mi) => {
            let sources = &mounts.entries[mi].1;
            proof {
                lemma_strs_view(sources);
                assert(mount_sources(mv, node.path) == strs_view(sources@));
            }
            listdir_sources(root, mounts, disk, sources, 0, names, fuel)
        },
        None => {
            proof {
                assert(mount_sources(mv, node.path) =~= Seq::<Seq<char>>::empty());
            }
            names
        },
    };
    proof {
        lemma_strs_view(&r);
        lemma_deep_view_strings(&r);
        assert(r.deep_view() =~= strs_view(r@));
    }
    Ok(r)
}

/// Appends each source's listing, exactly as the model does.
fn listdir_sources(
    root: &mut FCB,
    mounts: &MountTable,
    disk: &Disk,
    sources: &Vec<String>,
    k: usize,
    acc: Vec<String>,
    fuel: u32,
) -> (r: Vec<String>)
    ensures
        (fcb_view(*final(root)), strs_view(r@)) == listdir_sources_m(
            fcb_view(*old(root)),
            mounts_view(*mounts),
            disk_view(*disk),
            strs_view(sources@),
            k as int,
            strs_view(acc@),
            fuel as nat,
        ),
    decreases fuel, 0int, sources@.len() - k,
{
    proof {
        lemma_strs_view(sources);
        lemma_deep_view_strings(sources);
        lemma_strs_view(&acc);
    }
    if k >= sources.len() || fuel == 0 {
        return acc;
    }
    let sub_segs = split_segments(sources[k].as_str(), false);
    proof {
        lemma_deep_view_strings(&sub_segs);
    }
    let r = listdir_segs(root, mounts, disk, &sub_segs, fuel - 1);
    let mut acc1 = acc;
    match r {
        Ok(names) => {
            append_absent_exec(&mut acc1, &names);
            proof {
                lemma_strs_view(&names);
                lemma_deep_view_strings(&names);
                assert(strs_view(names@) =~= names.deep_view());
            }
        },
        Err(_) => {
        },
    }
    listdir_sources(root, mounts, disk, sources, k + 1, acc1, fuel)
}

impl MountTable {
    /// The entry index for `path`, if one exists.
    pub fn find(&self, path: &String) -> (r: Option<usize>)
        ensures
            match r {
                Some(i) => i < self.entries@.len() && mount_find_from(
                    mounts_view(*self),
                    path@,
                    0,
                ) == Some(i as int),
                None => mount_find_from(mounts_view(*self), path@, 0) is None,
            },
    {
        let ghost mv = mounts_view(*self);
        let mut i: usize = 0;
        while i < self.entries.len()
            invariant
                i <= self.entries@.len(),
                mv == mounts_view(*self),
                mv.len() == self.entries@.len(),
                mount_find_from(mv, path@, 0) == mount_find_from(mv, path@, i as int),
            decreases self.entries@.len() - i,
        {
            if str_eq(self.entries[i].0.as_str(), path.as_str()) {
                return Some(i);
            }
            i = i + 1;
        }
        None
    }
}

// ---------------------------------------------------------------------------
// The public operations.
// ---------------------------------------------------------------------------

/// Resolution of a whole path from the root, with the standard fuel.
pub open spec fn vfs_resolve(
    rootv: FcbV,
    mv: Seq<(Seq<char>, Seq<Seq<char>>)>,
    dv: Seq<(Seq<char>, Seq<Seq<char>>)>,
    path: Seq<char>,
    create: bool,
) -> (FcbV, Result<Seq<Seq<char>>, Seq<char>>) {
    resolve_m(
        rootv,
        mv,
        dv,
        Seq::<Seq<char>>::empty(),
        split_segs(path, false),
        0,
        create,
        MOUNT_DEPTH_LIMIT as nat,
    )
}

/// What a resolution outcome obliges of the exec result `r` and the tree
/// after the call.
pub open spec fn resolved_node_ok(
    r: Result<NodeData, Error>,
    root1: FcbV,
    res: Result<Seq<Seq<char>>, Seq<char>>,
) -> bool {
    match res {
        Result::Ok(c) => {
            &&& r is Ok
            &&& node_at(root1, c, 0) is Some
            &&& {
                let n = node_at(root1, c, 0)->Some_0;
                &&& r->Ok_0.name@ == n.name
                &&& r->Ok_0.path@ == n.path
                &&& r->Ok_0.native_paths.deep_view() == n.backing
                &&& r->Ok_0.child_names.deep_view() == child_names_of(n)
            }
        },
        Result::Err(p) => {
            &&& r is Err
            &&& r->Err_0 is FileNotFound
            &&& r->Err_0->FileNotFound_0@ == p
        },
    }
}

/// Resolves `path` read-only (lazy materialization aside) and reports the
/// node's content; fails with the unresolved path when a segment has no
/// backing match, no materialized child and no mount hit.
pub fn get_fcb(vfs: &mut Vfs, disk: &Disk, path: &String) -> (r: Result<NodeData, Error>)
    ensures
        ({
            let (root1, res) = vfs_resolve(
                fcb_view(old(vfs).root),
                mounts_view(old(vfs).mounts),
                disk_view(*disk),
                path@,
                false,
            );
            &&& fcb_view(final(vfs).root) == root1
            &&& final(vfs).mounts == old(vfs).mounts
            &&& resolved_node_ok(r, root1, res)
        }),
{
    resolve_to_node(vfs, disk, path, false)
}

/// As [`get_fcb`], but a segment with no backing match and no mount hit is
/// materialized, backed by each parent backing location joined with it.
pub fn get_or_create_fcb(vfs: &mut Vfs, disk: &Disk, path: &String) -> (r: Result<
    NodeData,
    Error,
>)
    ensures
        ({
            let (root1, res) = vfs_resolve(
                fcb_view(old(vfs).root),
                mounts_view(old(vfs).mounts),
                disk_view(*disk),
                path@,
                true,
            );
            &&& fcb_view(final(vfs).root) == root1
            &&& final(vfs).mounts == old(vfs).mounts
            &&& resolved_node_ok(r, root1, res)
        }),
{
    resolve_to_node(vfs, disk, path, true)
}

fn resolve_to_node(vfs: &mut Vfs, disk: &Disk, path: &String, create: bool) -> (r: Result<
    NodeData,
    Error,
>)
    ensures
        ({
            let (root1, res) = vfs_resolve(
                fcb_view(old(vfs).root),
                mounts_view(old(vfs).mounts),
                disk_view(*disk),
                path@,
                create,
            );
            &&& fcb_view(final(vfs).root) == root1
            &&& final(vfs).mounts == old(vfs).mounts
            &&& resolved_node_ok(r, root1, res)
        }),
{
    let segs = split_segments(path.as_str(), false);
    proof {
        lemma_deep_view_strings(&segs);
    }
    let empty_chain: Vec<String> = Vec::new();
    proof {
        assert(empty_chain.deep_view() =~= Seq::<Seq<char>>::empty());
    }
    let ghost root0 = fcb_view(vfs.root);
    let ghost mv = mounts_view(vfs.mounts);
    match resolve_from(
        &mut vfs.root,
        &vfs.mounts,
        disk,
        empty_chain,
        &segs,
        0,
        create,
        MOUNT_DEPTH_LIMIT,
    ) {
        Ok(chain) => {
            proof {
                lemma_resolve_ok(
                    root0,
                    mv,
                    disk_view(*disk),
                    Seq::<Seq<char>>::empty(),
                    segs.deep_view(),
                    0,
                    create,
                    MOUNT_DEPTH_LIMIT as nat,
                );
            }
            match read_node(&vfs.root, &chain, 0) {
                Some(nd) => Ok(nd),
                None => {
                    proof {
                        assert(false);
                    }
                    Err(Error::FileNotFound(String::new()))
                },
            }
        },
        Err(s) => Err(Error::FileNotFound(s)),
    }
}

/// Lists the names visible under `path`: native entries first, then
/// already-materialized children, then each mounted source's own listing
/// in registration order, all deduplicated.
pub fn listdir(vfs: &mut Vfs, disk: &Disk, path: &String) -> (r: Result<Vec<String>, Error>)
    ensures
        ({
            let (root1, res) = listdir_m(
                fcb_view(old(vfs).root),
                mounts_view(old(vfs).mounts),
                disk_view(*disk),
                split_segs(path@, false),
                MOUNT_DEPTH_LIMIT as nat,
            );
            &&& fcb_view(final(vfs).root) == root1
            &&& final(vfs).mounts == old(vfs).mounts
            &&& match res {
                Result::Ok(names) => r is Ok && r->Ok_0.deep_view() == names,
                Result::Err(p) => r is Err && r->Err_0 is FileNotFound
                    && r->Err_0->FileNotFound_0@ == p,
            }
        }),
{
    let segs = split_segments(path.as_str(), false);
    proof {
        lemma_deep_view_strings(&segs);
    }
    match listdir_segs(&mut vfs.root, &vfs.mounts, disk, &segs, MOUNT_DEPTH_LIMIT) {
        Ok(names) => Ok(names),
        Err(s) => Err(Error::FileNotFound(s)),
    }
}

/// Resolves-or-creates `path` and adds `native_path` to its backing set if
/// absent.
pub fn mount_native(vfs: &mut Vfs, disk: &Disk, path: &String, native_path: &String) -> (r:
    Result<(), Error>)
    ensures
        ({
            let (root1, res) = vfs_resolve(
                fcb_view(old(vfs).root),
                mounts_view(old(vfs).mounts),
                disk_view(*disk),
                path@,
                true,
            );
            &&& final(vfs).mounts == old(vfs).mounts
            &&& match res {
                Result::Ok(c) => r is Ok && fcb_view(final(vfs).root) == edit_at(
                    root1,
                    c,
                    0,
                    EditV::AddBacking(native_path@),
                ),
                Result::Err(p) => r is Err && r->Err_0 is FileNotFound
                    && r->Err_0->FileNotFound_0@ == p && fcb_view(final(vfs).root) == root1,
            }
        }),
{
    let segs = split_segments(path.as_str(), false);
    proof {
        lemma_deep_view_strings(&segs);
    }
    let empty_chain: Vec<String> = Vec::new();
    proof {
        assert(empty_chain.deep_view() =~= Seq::<Seq<char>>::empty());
    }
    match resolve_from(
        &mut vfs.root,
        &vfs.mounts,
        disk,
        empty_chain,
        &segs,
        0,
        true,
        MOUNT_DEPTH_LIMIT,
    ) {
        Ok(chain) => {
            apply_edit_at(&mut vfs.root, &chain, 0, NodeEdit::AddBacking(native_path.clone()));
            Ok(())
        },
        Err(s) => Err(Error::FileNotFound(s)),
    }
}

/// Resolves-or-creates `path`, removes `native_path` from its backing set
/// if present, and unloads its subtree so later reads reflect only the
/// remaining backing locations.
pub fn unmount_native(vfs: &mut Vfs, disk: &Disk, path: &String, native_path: &String) -> (r:
    Result<(), Error>)
    ensures
        ({
            let (root1, res) = vfs_resolve(
                fcb_view(old(vfs).root),
                mounts_view(old(vfs).mounts),
                disk_view(*disk),
                path@,
                true,
            );
            &&& final(vfs).mounts == old(vfs).mounts
            &&& match res {
                Result::Ok(c) => r is Ok && fcb_view(final(vfs).root) == edit_at(
                    edit_at(root1, c, 0, EditV::RemoveBacking(native_path@)),
                    c,
                    0,
                    EditV::ClearChildren,
                ),
                Result::Err(p) => r is Err && r->Err_0 is FileNotFound
                    && r->Err_0->FileNotFound_0@ == p && fcb_view(final(vfs).root) == root1,
            }
        }),
{
    let segs = split_segments(path.as_str(), false);
    proof {
        lemma_deep_view_strings(&segs);
    }
    let empty_chain: Vec<String> = Vec::new();
    proof {
        assert(empty_chain.deep_view() =~= Seq::<Seq<char>>::empty());
    }
    match resolve_from(
        &mut vfs.root,
        &vfs.mounts,
        disk,
        empty_chain,
        &segs,
        0,
        true,
        MOUNT_DEPTH_LIMIT,
    ) {
        Ok(chain) => {
            apply_edit_at(&mut vfs.root, &chain, 0, NodeEdit::RemoveBacking(native_path.clone()));
            apply_edit_at(&mut vfs.root, &chain, 0, NodeEdit::ClearChildren);
            Ok(())
        },
        Err(s) => Err(Error::FileNotFound(s)),
    }
}

/// The mount table with `src` appended at `key`'s entry, which is created
/// on first use.
pub open spec fn mount_add(
    mv: Seq<(Seq<char>, Seq<Seq<char>>)>,
    key: Seq<char>,
    src: Seq<char>,
) -> Seq<(Seq<char>, Seq<Seq<char>>)> {
    match mount_find_from(mv, key, 0) {
        Some(i) => mv.update(i, (mv[i].0, mv[i].1.push(src))),
        None => mv.push((key, seq![src])),
    }
}

/// The mount table with the first occurrence of `src` removed from
/// `key`'s entry, if both exist.
pub open spec fn mount_remove(
    mv: Seq<(Seq<char>, Seq<Seq<char>>)>,
    key: Seq<char>,
    src: Seq<char>,
) -> Seq<(Seq<char>, Seq<Seq<char>>)> {
    match mount_find_from(mv, key, 0) {
        Some(i) => mv.update(i, (mv[i].0, remove_first(mv[i].1, src))),
        None => mv,
    }
}

/// Resolves-or-creates `target` and registers `source` as one more overlay
/// source for it, after any already registered.
pub fn mount(vfs: &mut Vfs, disk: &Disk, target: &String, source: &String) -> (r: Result<
    (),
    Error,
>)
    ensures
        ({
            let (root1, res) = vfs_resolve(
                fcb_view(old(vfs).root),
                mounts_view(old(vfs).mounts),
                disk_view(*disk),
                target@,
                true,
            );
            &&& fcb_view(final(vfs).root) == root1
            &&& match res {
                Result::Ok(c) => r is Ok && mounts_view(final(vfs).mounts) == mount_add(
                    mounts_view(old(vfs).mounts),
                    node_at(root1, c, 0)->Some_0.path,
                    source@,
                ),
                Result::Err(p) => r is Err && r->Err_0 is FileNotFound
                    && r->Err_0->FileNotFound_0@ == p && final(vfs).mounts == old(vfs).mounts,
            }
        }),
{
    let nd = match resolve_to_node(vfs, disk, target, true) {
        Ok(nd) => nd,
        Err(e) => {
            return Err(e);
        },
    };
    let ghost mv0 = mounts_view(vfs.mounts);
    match vfs.mounts.find(&nd.path) {
        Some(mi) => {
            let mut ent = vfs.mounts.entries.remove(mi);
            let ghost ev = strs_view(ent.1@);
            proof {
                lemma_strs_view(&ent.1);
                assert(ev == mv0[mi as int].1);
            }
            ent.1.push(source.clone());
            proof {
                lemma_strs_view(&ent.1);
                assert(strs_view(ent.1@) =~= ev.push(source@));
            }
            vfs.mounts.entries.insert(mi, ent);
            proof {
                lemma_strs_view(&vfs.mounts.entries[mi as int].1);
                assert(mounts_view(vfs.mounts) =~= mount_add(mv0, nd.path@, source@));
            }
        },
        None => {
            vfs.mounts.entries.push((nd.path, vec![source.clone()]));
            proof {
                let last = vfs.mounts.entries@.len() - 1;
                lemma_strs_view(&vfs.mounts.entries[last].1);
                assert(strs_view(vfs.mounts.entries@[last].1@) =~= seq![source@]);
                assert(mounts_view(vfs.mounts) =~= mount_add(mv0, nd.path@, source@));
            }
        },
    }
    Ok(())
}

/// Resolves-or-creates `target`, withdraws `source` from its overlay
/// sources, and unloads the target's subtree.
pub fn unmount(vfs: &mut Vfs, disk: &Disk, target: &String, source: &String) -> (r: Result<
    (),
    Error,
>)
    ensures
        ({
            let (root1, res) = vfs_resolve(
                fcb_view(old(vfs).root),
                mounts_view(old(vfs).mounts),
                disk_view(*disk),
                target@,
                true,
            );
            &&& match res {
                Result::Ok(c) => r is Ok && mounts_view(final(vfs).mounts) == mount_remove(
                    mounts_view(old(vfs).mounts),
                    node_at(root1, c, 0)->Some_0.path,
                    source@,
                ) && fcb_view(final(vfs).root) == edit_at(root1, c, 0, EditV::ClearChildren),
                Result::Err(p) => r is Err && r->Err_0 is FileNotFound
                    && r->Err_0->FileNotFound_0@ == p && final(vfs).mounts == old(vfs).mounts
                    && fcb_view(final(vfs).root) == root1,
            }
        }),
{
    let segs = split_segments(target.as_str(), false);
    proof {
        lemma_deep_view_strings(&segs);
    }
    let empty_chain: Vec<String> = Vec::new();
    proof {
        assert(empty_chain.deep_view() =~= Seq::<Seq<char>>::empty());
    }
    let ghost root0 = fcb_view(vfs.root);
    let ghost mv0 = mounts_view(vfs.mounts);
    let chain = match resolve_from(
        &mut vfs.root,
        &vfs.mounts,
        disk,
        empty_chain,
        &segs,
        0,
        true,
        MOUNT_DEPTH_LIMIT,
    ) {
        Ok(chain) => chain,
        Err(s) => {
            return Err(Error::FileNotFound(s));
        },
    };
    proof {
        lemma_resolve_ok(
            root0,
            mv0,
            disk_view(*disk),
            Seq::<Seq<char>>::empty(),
            segs.deep_view(),
            0,
            true,
            MOUNT_DEPTH_LIMIT as nat,
        );
    }
    let nd = match read_node(&vfs.root, &chain, 0) {
        Some(nd) => nd,
        None => {
            proof {
                assert(false);
            }
            return Err(Error::FileNotFound(String::new()));
        },
    };
    match vfs.mounts.find(&nd.path) {
        Some(mi) => {
            let mut ent = vfs.mounts.entries.remove(mi);
            let ghost ev = strs_view(ent.1@);
            proof {
                lemma_strs_view(&ent.1);
            }
            match crate::strutil::find_string(&ent.1, source) {
                Some(si) => {
                    ent.1.remove(si);
                    proof {
                        lemma_strs_view(&ent.1);
                        assert(strs_view(ent.1@) =~= remove_first(ev, source@));
                    }
                },
                None => {
                },
            }
            vfs.mounts.entries.insert(mi, ent);
            proof {
                lemma_strs_view(&vfs.mounts.entries[mi as int].1);
                assert(mounts_view(vfs.mounts) =~= mount_remove(mv0, nd.path@, source@));
            }
        },
        None => {
            proof {
                assert(mounts_view(vfs.mounts) == mount_remove(mv0, nd.path@, source@));
            }
        },
    }
    apply_edit_at(&mut vfs.root, &chain, 0, NodeEdit::ClearChildren);
    Ok(())
}

/// Resolves-or-creates `path` and names the native directory to create:
/// the first backing location. The flag reports an ambiguous choice (more
/// than one backing location); an empty backing set is an I/O failure.
pub fn makedirs(vfs: &mut Vfs, disk: &Disk, path: &String) -> (r: Result<(String, bool), Error>)
    ensures
        ({
            let (root1, res) = vfs_resolve(
                fcb_view(old(vfs).root),
                mounts_view(old(vfs).mounts),
                disk_view(*disk),
                path@,
                true,
            );
            &&& fcb_view(final(vfs).root) == root1
            &&& final(vfs).mounts == old(vfs).mounts
            &&& match res {
                Result::Ok(c) => {
                    let n = node_at(root1, c, 0)->Some_0;
                    if n.backing.len() == 0 {
                        r is Err && r->Err_0 is IOFailure && r->Err_0->IOFailure_0@
                            == "no backing location"@
                    } else {
                        r is Ok && r->Ok_0.0@ == n.backing[0] && r->Ok_0.1 == (n.backing.len()
                            > 1)
                    }
                },
                Result::Err(p) => r is Err && r->Err_0 is FileNotFound
                    && r->Err_0->FileNotFound_0@ == p,
            }
        }),
{
    let nd = match resolve_to_node(vfs, disk, path, true) {
        Ok(nd) => nd,
        Err(e) => {
            return Err(e);
        },
    };
    proof {
        lemma_deep_view_strings(&nd.native_paths);
    }
    if nd.native_paths.len() == 0 {
        return Err(Error::IOFailure("no backing location".to_owned()));
    }
    let ambiguous = nd.native_paths.len() > 1;
    let first = nd.native_paths[0].clone();
    Ok((first, ambiguous))
}

} // verus!
