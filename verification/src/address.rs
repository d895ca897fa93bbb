//! The address directory: an in-memory registry mapping service names to
//! loopback endpoints. Every service registers itself here after binding;
//! a liveness sweep prunes entries whose port no longer accepts
//! connections. Probing is the caller's I/O; the directory only decides
//! what to probe and what to drop.

use vstd::prelude::*;
use crate::strutil::{seq_contains_string, str_eq};

verus! {

/// The registry: one `(name, ip, port)` triple per registered service.
pub struct AddressDirectory {
    pub entries: Vec<(String, String, String)>,
}

/// The shape of the registry.
pub open spec fn addr_view(d: AddressDirectory) -> Seq<(Seq<char>, Seq<char>, Seq<char>)> {
    Seq::new(d.entries@.len(), |i: int| (d.entries@[i].0@, d.entries@[i].1@, d.entries@[i].2@))
}

/// The first entry index at or after `i` named `name`.
pub open spec fn afind_from(
    av: Seq<(Seq<char>, Seq<char>, Seq<char>)>,
    name: Seq<char>,
    i: int,
) -> Option<int>
    decreases av.len() - i,
{
    if i < 0 || i >= av.len() {
        None
    } else if av[i].0 == name {
        Some(i)
    } else {
        afind_from(av, name, i + 1)
    }
}

/// The registry after `register`: re-registering a name overwrites its
/// endpoint, a new name is appended.
pub open spec fn addr_register(
    av: Seq<(Seq<char>, Seq<char>, Seq<char>)>,
    name: Seq<char>,
    ip: Seq<char>,
    port: Seq<char>,
) -> Seq<(Seq<char>, Seq<char>, Seq<char>)> {
    match afind_from(av, name, 0) {
        Some(i) => av.update(i, (name, ip, port)),
        None => av.push((name, ip, port)),
    }
}

/// The registry after `unregister`: the first entry of that name removed.
pub open spec fn addr_unregister(
    av: Seq<(Seq<char>, Seq<char>, Seq<char>)>,
    name: Seq<char>,
) -> Seq<(Seq<char>, Seq<char>, Seq<char>)> {
    match afind_from(av, name, 0) {
        Some(i) => av.remove(i),
        None => av,
    }
}

/// The entries whose name is listed in `dead` dropped, order kept.
pub open spec fn addr_retain_alive_n(
    av: Seq<(Seq<char>, Seq<char>, Seq<char>)>,
    dead: Seq<Seq<char>>,
    n: int,
) -> Seq<(Seq<char>, Seq<char>, Seq<char>)>
    decreases n,
{
    if n <= 0 {
        Seq::<(Seq<char>, Seq<char>, Seq<char>)>::empty()
    } else {
        let prev = addr_retain_alive_n(av, dead, n - 1);
        if seq_contains_string(dead, av[n - 1].0) {
            prev
        } else {
            prev.push(av[n - 1])
        }
    }
}

/// The registry with every dead-named entry dropped.
pub open spec fn addr_retain_alive(
    av: Seq<(Seq<char>, Seq<char>, Seq<char>)>,
    dead: Seq<Seq<char>>,
) -> Seq<(Seq<char>, Seq<char>, Seq<char>)> {
    addr_retain_alive_n(av, dead, av.len() as int)
}

/// The `(name, port)` pairs of every entry not named `own`, in order: the
/// endpoints a liveness sweep probes. The directory's own entry is exempt.
pub open spec fn sweep_candidates_n(
    av: Seq<(Seq<char>, Seq<char>, Seq<char>)>,
    own: Seq<char>,
    n: int,
) -> Seq<(Seq<char>, Seq<char>)>
    decreases n,
{
    if n <= 0 {
        Seq::<(Seq<char>, Seq<char>)>::empty()
    } else {
        let prev = sweep_candidates_n(av, own, n - 1);
        if av[n - 1].0 == own {
            prev
        } else {
            prev.push((av[n - 1].0, av[n - 1].2))
        }
    }
}

impl AddressDirectory {
    /// An empty registry.
    pub fn new() -> (d: AddressDirectory)
        ensures
            addr_view(d) =~= Seq::<(Seq<char>, Seq<char>, Seq<char>)>::empty(),
    {
        AddressDirectory { entries: Vec::new() }
    }

    /// The entry index for `name`, if any.
    fn find(&self, name: &String) -> (r: Option<usize>)
        ensures
            match r {
                Some(i) => i < self.entries@.len() && afind_from(addr_view(*self), name@, 0)
                    == Some(i as int),
                None => afind_from(addr_view(*self), name@, 0) is None,
            },
    {
        let ghost av = addr_view(*self);
        let mut i: usize = 0;
        while i < self.entries.len()
            invariant
                i <= self.entries@.len(),
                av == addr_view(*self),
                av.len() == self.entries@.len(),
                afind_from(av, name@, 0) == afind_from(av, name@, i as int),
            decreases self.entries@.len() - i,
        {
            if str_eq(self.entries[i].0.as_str(), name.as_str()) {
                return Some(i);
            }
            i = i + 1;
        }
        None
    }

    /// The endpoint registered under `name`.
    pub fn get(&self, name: &String) -> (r: Option<(String, String)>)
        ensures
            match afind_from(addr_view(*self), name@, 0) {
                Some(i) => {
                    &&& r is Some
                    &&& r->Some_0.0@ == addr_view(*self)[i].1
                    &&& r->Some_0.1@ == addr_view(*self)[i].2
                },
                None => r is None,
            },
    {
        match self.find(name) {
            Some(i) => Some((self.entries[i].1.clone(), self.entries[i].2.clone())),
            None => None,
        }
    }

    /// A copy of every entry, in registration order.
    pub fn get_all(&self) -> (r: Vec<(String, String, String)>)
        ensures
            addr_view(AddressDirectory { entries: r }) == addr_view(*self),
    {
        let mut out: Vec<(String, String, String)> = Vec::new();
        let mut i: usize = 0;
        while i < self.entries.len()
            invariant
                i <= self.entries@.len(),
                out@.len() == i,
                forall|j: int| 0 <= j < i ==> (out@[j].0@, out@[j].1@, out@[j].2@) == (
                    self.entries@[j].0@,
                    self.entries@[j].1@,
                    self.entries@[j].2@,
                ),
            decreases self.entries@.len() - i,
        {
            let e = (
                self.entries[i].0.clone(),
                self.entries[i].1.clone(),
                self.entries[i].2.clone(),
            );
            out.push(e);
            i = i + 1;
        }
        proof {
            assert(addr_view(AddressDirectory { entries: out }) =~= addr_view(*self));
        }
        out
    }

    /// The `(name, port)` pairs a liveness sweep should probe: every
    /// entry except the directory's own.
    pub fn sweep_candidates(&self, own_name: &String) -> (r: Vec<(String, String)>)
        ensures
            Seq::new(r@.len(), |i: int| (r@[i].0@, r@[i].1@)) == sweep_candidates_n(
                addr_view(*self),
                own_name@,
                addr_view(*self).len() as int,
            ),
    {
        let ghost av = addr_view(*self);
        let mut out: Vec<(String, String)> = Vec::new();
        let mut i: usize = 0;
        while i < self.entries.len()
            invariant
                i <= self.entries@.len(),
                av == addr_view(*self),
                av.len() == self.entries@.len(),
                Seq::new(out@.len(), |j: int| (out@[j].0@, out@[j].1@)) == sweep_candidates_n(
                    av,
                    own_name@,
                    i as int,
                ),
            decreases self.entries@.len() - i,
        {
            let ghost pre = Seq::new(out@.len(), |j: int| (out@[j].0@, out@[j].1@));
            if !str_eq(self.entries[i].0.as_str(), own_name.as_str()) {
                let e = (self.entries[i].0.clone(), self.entries[i].2.clone());
                out.push(e);
                proof {
                    assert(Seq::new(out@.len(), |j: int| (out@[j].0@, out@[j].1@)) =~= pre.push(
                        (av[i as int].0, av[i as int].2),
                    ));
                }
            } else {
                proof {
                    assert(Seq::new(out@.len(), |j: int| (out@[j].0@, out@[j].1@)) =~= pre);
                }
            }
            i = i + 1;
        }
        out
    }
}

/// Registers `name` at `ip:port`; re-registering overwrites the endpoint.
pub fn register_address(dir: &mut AddressDirectory, name: &String, ip: &String, port: &String)
    ensures
        addr_view(*final(dir)) == addr_register(addr_view(*old(dir)), name@, ip@, port@),
{
    let ghost av = addr_view(*dir);
    match dir.find(name) {
        Some(i) => {
            dir.entries.remove(i);
            dir.entries.insert(i, (name.clone(), ip.clone(), port.clone()));
            proof {
                assert(addr_view(*dir) =~= av.update(i as int, (name@, ip@, port@)));
            }
        },
        None => {
            dir.entries.push((name.clone(), ip.clone(), port.clone()));
            proof {
                assert(addr_view(*dir) =~= av.push((name@, ip@, port@)));
            }
        },
    }
}

/// Unregisters `name`; unknown names are ignored.
pub fn unregister_address(dir: &mut AddressDirectory, name: &String)
    ensures
        addr_view(*final(dir)) == addr_unregister(addr_view(*old(dir)), name@),
{
    let ghost av = addr_view(*dir);
    match dir.find(name) {
        Some(i) => {
            dir.entries.remove(i);
            proof {
                assert(addr_view(*dir) =~= av.remove(i as int));
            }
        },
        None => {
        },
    }
}

/// Drops every entry whose name the caller's probes found dead, keeping
/// the order of the survivors.
pub fn remove_address_disconnected(dir: &mut AddressDirectory, dead: &Vec<String>)
    ensures
        addr_view(*final(dir)) == addr_retain_alive(addr_view(*old(dir)), dead.deep_view()),
{
    proof {
        crate::strutil::lemma_deep_view_strings(dead);
    }
    let ghost av = addr_view(*dir);
    let ghost deadv = dead.deep_view();
    let mut out: Vec<(String, String, String)> = Vec::new();
    let mut i: usize = 0;
    while i < dir.entries.len()
        invariant
            i <= dir.entries@.len(),
            av == addr_view(*dir),
            av.len() == dir.entries@.len(),
            deadv == dead.deep_view(),
            Seq::new(out@.len(), |j: int| (out@[j].0@, out@[j].1@, out@[j].2@))
                == addr_retain_alive_n(av, deadv, i as int),
        decreases dir.entries@.len() - i,
    {
        let ghost pre = Seq::new(out@.len(), |j: int| (out@[j].0@, out@[j].1@, out@[j].2@));
        if !crate::strutil::contains_string(dead, &dir.entries[i].0) {
            let e = (
                dir.entries[i].0.clone(),
                dir.entries[i].1.clone(),
                dir.entries[i].2.clone(),
            );
            out.push(e);
            proof {
                assert(Seq::new(out@.len(), |j: int| (out@[j].0@, out@[j].1@, out@[j].2@))
                    =~= pre.push(av[i as int]));
            }
        } else {
            proof {
                assert(Seq::new(out@.len(), |j: int| (out@[j].0@, out@[j].1@, out@[j].2@))
                    =~= pre);
            }
        }
        i = i + 1;
    }
    dir.entries = out;
    proof {
        assert(addr_view(*dir) =~= addr_retain_alive(av, deadv));
    }
}

} // verus!
