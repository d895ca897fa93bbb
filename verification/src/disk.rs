//! An explicit listing of the native directories the virtual filesystem is
//! backed by: for each readable native directory, its entry names. A native
//! path with no listing is treated as unreadable and contributes nothing,
//! which is how a failed directory scan is swallowed.

use vstd::prelude::*;
use crate::strutil::{seq_contains_string, str_eq, strs_view};

verus! {

/// A listing of native directories, in no particular order; lookups take
/// the first entry for a path.
pub struct Disk {
    /// Pairs of a native directory path and its entry names.
    pub dirs: Vec<(String, Vec<String>)>,
}

/// The shape of a disk listing.
pub open spec fn disk_view(d: Disk) -> Seq<(Seq<char>, Seq<Seq<char>>)> {
    Seq::new(d.dirs@.len(), |i: int| (d.dirs@[i].0@, strs_view(d.dirs@[i].1@)))
}

/// The first listing index at or after `i` for `path`.
pub open spec fn disk_find_from(
    dv: Seq<(Seq<char>, Seq<Seq<char>>)>,
    path: Seq<char>,
    i: int,
) -> Option<int>
    decreases dv.len() - i,
{
    if i < 0 || i >= dv.len() {
        None
    } else if dv[i].0 == path {
        Some(i)
    } else {
        disk_find_from(dv, path, i + 1)
    }
}

/// The entry names under a native path; empty when the path is unlisted.
pub open spec fn disk_entries(dv: Seq<(Seq<char>, Seq<Seq<char>>)>, path: Seq<char>) -> Seq<
    Seq<char>,
> {
    match disk_find_from(dv, path, 0) {
        Some(i) => dv[i].1,
        None => Seq::<Seq<char>>::empty(),
    }
}

/// Whether the native directory `path` holds an entry named `name`.
pub open spec fn disk_has(
    dv: Seq<(Seq<char>, Seq<Seq<char>>)>,
    path: Seq<char>,
    name: Seq<char>,
) -> bool {
    seq_contains_string(disk_entries(dv, path), name)
}

impl Disk {
    /// An empty listing: every native path reads as unreadable.
    pub fn new() -> (d: Disk)
        ensures
            disk_view(d) =~= Seq::<(Seq<char>, Seq<Seq<char>>)>::empty(),
    {
        Disk { dirs: Vec::new() }
    }

    /// Records the entry names under one native directory.
    pub fn add_dir(&mut self, path: String, entries: Vec<String>)
        ensures
            disk_view(*final(self)) =~= disk_view(*old(self)).push(
                (path@, strs_view(entries@)),
            ),
    {
        self.dirs.push((path, entries));
    }

    /// The listing index for `path`, if one exists.
    pub fn find(&self, path: &String) -> (r: Option<usize>)
        ensures
            match r {
                Some(i) => i < self.dirs@.len() && disk_find_from(disk_view(*self), path@, 0)
                    == Some(i as int),
                None => disk_find_from(disk_view(*self), path@, 0) is None,
            },
    {
        let ghost dv = disk_view(*self);
        let mut i: usize = 0;
        while i < self.dirs.len()
            invariant
                i <= self.dirs@.len(),
                dv == disk_view(*self),
                dv.len() == self.dirs@.len(),
                disk_find_from(dv, path@, 0) == disk_find_from(dv, path@, i as int),
            decreases self.dirs@.len() - i,
        {
            if str_eq(self.dirs[i].0.as_str(), path.as_str()) {
                return Some(i);
            }
            i = i + 1;
        }
        None
    }

    /// Whether the directory `path` holds an entry named `name`.
    pub fn has_entry(&self, path: &String, name: &String) -> (r: bool)
        ensures
            r == disk_has(disk_view(*self), path@, name@),
    {
        match self.find(path) {
            Some(i) => {
                let r = crate::strutil::contains_string(&self.dirs[i].1, name);
                proof {
                    crate::strutil::lemma_strs_view(&self.dirs[i as int].1);
                    assert(disk_entries(disk_view(*self), path@) == strs_view(
                        self.dirs@[i as int].1@,
                    ));
                }
                r
            },
            None => false,
        }
    }
}

} // verus!
