//! The file control block: one node of the virtual filesystem tree. A node
//! carries its name, its root-relative virtual path, the native backing
//! locations it was discovered under, and its materialized children.

use vstd::prelude::*;
use crate::error::Error;
use crate::strutil::{str_eq, strs_view};

verus! {

/// One node of the virtual filesystem tree.
pub struct FCB {
    /// The node's name, unique among its siblings; empty for the root.
    pub name: String,
    /// The root-relative virtual path, `/`-joined; empty for the root.
    pub path: String,
    /// The native backing locations, in discovery order, without duplicates.
    pub native_paths: Vec<String>,
    /// The materialized children, owned exclusively by this node.
    pub children: Vec<FCB>,
}

/// The mathematical shape of a node.
pub struct FcbV {
    pub name: Seq<char>,
    pub path: Seq<char>,
    pub backing: Seq<Seq<char>>,
    pub children: Seq<FcbV>,
}

/// The shape of a node.
pub open spec fn fcb_view(f: FCB) -> FcbV
    decreases f,
{
    FcbV {
        name: f.name@,
        path: f.path@,
        backing: strs_view(f.native_paths@),
        children: fcbs_view(f.children@),
    }
}

/// The shapes of a sequence of nodes.
pub open spec fn fcbs_view(cs: Seq<FCB>) -> Seq<FcbV>
    decreases cs,
{
    if cs.len() == 0 {
        Seq::<FcbV>::empty()
    } else {
        fcbs_view(cs.drop_last()).push(fcb_view(cs.last()))
    }
}

pub proof fn lemma_fcbs_view(cs: Seq<FCB>)
    ensures
        fcbs_view(cs).len() == cs.len(),
        forall|i: int| 0 <= i < cs.len() ==> fcbs_view(cs)[i] == fcb_view(cs[i]),
    decreases cs,
{
    if cs.len() > 0 {
        lemma_fcbs_view(cs.drop_last());
    }
}

/// The first index at or after `i` whose node is named `name`.
pub open spec fn find_idx_from(cs: Seq<FcbV>, name: Seq<char>, i: int) -> Option<int>
    decreases cs.len() - i,
{
    if i < 0 || i >= cs.len() {
        None
    } else if cs[i].name == name {
        Some(i)
    } else {
        find_idx_from(cs, name, i + 1)
    }
}

/// The first index among `cs` whose node is named `name`.
pub open spec fn find_idx(cs: Seq<FcbV>, name: Seq<char>) -> Option<int> {
    find_idx_from(cs, name, 0)
}

/// Sibling names are pairwise distinct.
pub open spec fn wf_names(cs: Seq<FcbV>) -> bool {
    forall|a: int, b: int| 0 <= a < b < cs.len() ==> cs[a].name != cs[b].name
}

/// The tree invariant: at every node, sibling names are unique.
pub open spec fn wf_node(n: FcbV) -> bool
    decreases n,
{
    wf_names(n.children) && forall|i: int|
        0 <= i < n.children.len() ==> wf_node(#[trigger] n.children[i])
}

/// A successful first-match search returns an index in range whose node
/// has the name searched for.
pub proof fn lemma_find_idx_some(cs: Seq<FcbV>, name: Seq<char>, k: int)
    requires
        0 <= k <= cs.len(),
    ensures
        match find_idx_from(cs, name, k) {
            Some(j) => k <= j < cs.len() && cs[j].name == name,
            None => true,
        },
    decreases cs.len() - k,
{
    if k < cs.len() {
        lemma_find_idx_some(cs, name, k + 1);
    }
}

/// A first-match search only reads names: updating an entry to one with
/// the same name leaves it unchanged.
pub proof fn lemma_find_idx_update(cs: Seq<FcbV>, j: int, c: FcbV, name: Seq<char>, k: int)
    requires
        0 <= j < cs.len(),
        c.name == cs[j].name,
        0 <= k <= cs.len(),
    ensures
        find_idx_from(cs.update(j, c), name, k) == find_idx_from(cs, name, k),
    decreases cs.len() - k,
{
    if k < cs.len() {
        lemma_find_idx_update(cs, j, c, name, k + 1);
    }
}

/// A first-match search succeeds exactly when some candidate matches.
pub proof fn lemma_find_idx_from_exists(cs: Seq<FcbV>, name: Seq<char>, i: int)
    requires
        0 <= i <= cs.len(),
    ensures
        (find_idx_from(cs, name, i) is Some) <==> exists|j: int|
            #![trigger cs[j]]
            i <= j < cs.len() && cs[j].name == name,
    decreases cs.len() - i,
{
    if i < cs.len() {
        lemma_find_idx_from_exists(cs, name, i + 1);
    }
}

impl FCB {
    /// Finds the child named `name`, returning its position.
    pub fn find(&self, name: &str) -> (r: Option<usize>)
        ensures
            match r {
                Some(j) => j < self.children@.len() && find_idx(
                    fcb_view(*self).children,
                    name@,
                ) == Some(j as int),
                None => find_idx(fcb_view(*self).children, name@) is None,
            },
    {
        proof {
            lemma_fcbs_view(self.children@);
        }
        let ghost cs = fcb_view(*self).children;
        let mut i: usize = 0;
        while i < self.children.len()
            invariant
                i <= self.children@.len(),
                cs == fcb_view(*self).children,
                cs.len() == self.children@.len(),
                forall|j: int| 0 <= j < cs.len() ==> cs[j] == fcb_view(self.children@[j]),
                find_idx(cs, name@) == find_idx_from(cs, name@, i as int),
            decreases self.children@.len() - i,
        {
            if str_eq(self.children[i].name.as_str(), name) {
                return Some(i);
            }
            i = i + 1;
        }
        None
    }

    /// Adds `fcb` as a child, refusing a duplicate name.
    pub fn create(&mut self, fcb: FCB) -> (r: Result<(), Error>)
        ensures
            match find_idx(fcb_view(*old(self)).children, fcb.name@) {
                Some(_) => {
                    &&& r == Result::<(), Error>::Err(Error::FileExists(fcb.name))
                    &&& *final(self) == *old(self)
                },
                None => {
                    &&& r is Ok
                    &&& fcb_view(*final(self)) == FcbV {
                        children: fcb_view(*old(self)).children.push(fcb_view(fcb)),
                        ..fcb_view(*old(self))
                    }
                },
            },
    {
        match self.find(fcb.name.as_str()) {
            Some(_) => Err(Error::FileExists(fcb.name)),
            None => {
                let ghost pre = self.children@;
                self.children.push(fcb);
                proof {
                    lemma_fcbs_view(pre);
                    lemma_fcbs_view(self.children@);
                    assert(self.children@.drop_last() =~= pre);
                    assert(fcbs_view(self.children@) =~= fcbs_view(pre).push(fcb_view(fcb)));
                }
                Ok(())
            },
        }
    }
}

} // verus!
