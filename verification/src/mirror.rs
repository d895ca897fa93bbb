//! The mirror registry: download mirrors announce themselves with a name,
//! a kind and a port. Each mirror also appears in the address directory
//! under a composite alias, so the shared liveness sweep covers it.

use vstd::prelude::*;
use crate::address::{AddressDirectory, addr_register, addr_unregister, addr_view, register_address, unregister_address};
use crate::strutil::str_eq;

verus! {

/// The registry: one `(name, kind, port)` triple per mirror.
pub struct MirrorDirectory {
    pub entries: Vec<(String, String, String)>,
}

/// The shape of the registry.
pub open spec fn mirror_view(d: MirrorDirectory) -> Seq<(Seq<char>, Seq<char>, Seq<char>)> {
    Seq::new(d.entries@.len(), |i: int| (d.entries@[i].0@, d.entries@[i].1@, d.entries@[i].2@))
}

/// The first entry index at or after `i` named `name`.
pub open spec fn mfind_from(
    mv: Seq<(Seq<char>, Seq<char>, Seq<char>)>,
    name: Seq<char>,
    i: int,
) -> Option<int>
    decreases mv.len() - i,
{
    if i < 0 || i >= mv.len() {
        None
    } else if mv[i].0 == name {
        Some(i)
    } else {
        mfind_from(mv, name, i + 1)
    }
}

/// The alias a mirror is registered under in the address directory.
pub open spec fn mirror_alias(name: Seq<char>, kind: Seq<char>, port: Seq<char>) -> Seq<char> {
    "mirror"@ + name + kind + port
}

fn mirror_alias_exec(name: &String, kind: &String, port: &String) -> (r: String)
    ensures
        r@ == mirror_alias(name@, kind@, port@),
{
    let mut r = "mirror".to_owned();
    r.append(name.as_str());
    r.append(kind.as_str());
    r.append(port.as_str());
    r
}

impl MirrorDirectory {
    /// An empty registry.
    pub fn new() -> (d: MirrorDirectory)
        ensures
            mirror_view(d) =~= Seq::<(Seq<char>, Seq<char>, Seq<char>)>::empty(),
    {
        MirrorDirectory { entries: Vec::new() }
    }

    /// The entry index for `name`, if any.
    fn find(&self, name: &String) -> (r: Option<usize>)
        ensures
            match r {
                Some(i) => i < self.entries@.len() && mfind_from(mirror_view(*self), name@, 0)
                    == Some(i as int),
                None => mfind_from(mirror_view(*self), name@, 0) is None,
            },
    {
        let ghost mv = mirror_view(*self);
        let mut i: usize = 0;
        while i < self.entries.len()
            invariant
                i <= self.entries@.len(),
                mv == mirror_view(*self),
                mv.len() == self.entries@.len(),
                mfind_from(mv, name@, 0) == mfind_from(mv, name@, i as int),
            decreases self.entries@.len() - i,
        {
            if str_eq(self.entries[i].0.as_str(), name.as_str()) {
                return Some(i);
            }
            i = i + 1;
        }
        None
    }

    /// The `(kind, port)` registered under `name`.
    pub fn get(&self, name: &String) -> (r: Option<(String, String)>)
        ensures
            match mfind_from(mirror_view(*self), name@, 0) {
                Some(i) => {
                    &&& r is Some
                    &&& r->Some_0.0@ == mirror_view(*self)[i].1
                    &&& r->Some_0.1@ == mirror_view(*self)[i].2
                },
                None => r is None,
            },
    {
        match self.find(name) {
            Some(i) => Some((self.entries[i].1.clone(), self.entries[i].2.clone())),
            None => None,
        }
    }

    /// A copy of every entry, in registration order.
    pub fn get_all(&self) -> (r: Vec<(String, String, String)>)
        ensures
            mirror_view(MirrorDirectory { entries: r }) == mirror_view(*self),
    {
        let mut out: Vec<(String, String, String)> = Vec::new();
        let mut i: usize = 0;
        while i < self.entries.len()
            invariant
                i <= self.entries@.len(),
                out@.len() == i,
                forall|j: int| 0 <= j < i ==> (out@[j].0@, out@[j].1@, out@[j].2@) == (
                    self.entries@[j].0@,
                    self.entries@[j].1@,
                    self.entries@[j].2@,
                ),
            decreases self.entries@.len() - i,
        {
            let e = (
                self.entries[i].0.clone(),
                self.entries[i].1.clone(),
                self.entries[i].2.clone(),
            );
            out.push(e);
            i = i + 1;
        }
        proof {
            assert(mirror_view(MirrorDirectory { entries: out }) =~= mirror_view(*self));
        }
        out
    }
}

/// The registry after `register`: re-registering overwrites, a new name
/// is appended.
pub open spec fn mirror_register_m(
    mv: Seq<(Seq<char>, Seq<char>, Seq<char>)>,
    name: Seq<char>,
    kind: Seq<char>,
    port: Seq<char>,
) -> Seq<(Seq<char>, Seq<char>, Seq<char>)> {
    match mfind_from(mv, name, 0) {
        Some(i) => mv.update(i, (name, kind, port)),
        None => mv.push((name, kind, port)),
    }
}

/// Registers a mirror and its alias in the address directory at
/// `127.0.0.1` on the announced port.
pub fn register_mirror(
    mir: &mut MirrorDirectory,
    addrs: &mut AddressDirectory,
    name: &String,
    kind: &String,
    port: &String,
)
    ensures
        mirror_view(*final(mir)) == mirror_register_m(mirror_view(*old(mir)), name@, kind@, port@),
        addr_view(*final(addrs)) == addr_register(
            addr_view(*old(addrs)),
            mirror_alias(name@, kind@, port@),
            "127.0.0.1"@,
            port@,
        ),
{
    let ghost mv = mirror_view(*mir);
    match mir.find(name) {
        Some(i) => {
            mir.entries.remove(i);
            mir.entries.insert(i, (name.clone(), kind.clone(), port.clone()));
            proof {
                assert(mirror_view(*mir) =~= mv.update(i as int, (name@, kind@, port@)));
            }
        },
        None => {
            mir.entries.push((name.clone(), kind.clone(), port.clone()));
            proof {
                assert(mirror_view(*mir) =~= mv.push((name@, kind@, port@)));
            }
        },
    }
    let alias = mirror_alias_exec(name, kind, port);
    let ip = "127.0.0.1".to_owned();
    register_address(addrs, &alias, &ip, port);
}

/// The registry after `unregister`: the first entry of that name removed.
pub open spec fn mirror_unregister_m(
    mv: Seq<(Seq<char>, Seq<char>, Seq<char>)>,
    name: Seq<char>,
) -> Seq<(Seq<char>, Seq<char>, Seq<char>)> {
    match mfind_from(mv, name, 0) {
        Some(i) => mv.remove(i),
        None => mv,
    }
}

/// Unregisters a mirror, withdrawing its alias from the address
/// directory; unknown names are ignored.
pub fn unregister_mirror(mir: &mut MirrorDirectory, addrs: &mut AddressDirectory, name: &String)
    ensures
        mirror_view(*final(mir)) == mirror_unregister_m(mirror_view(*old(mir)), name@),
        addr_view(*final(addrs)) == (match mfind_from(mirror_view(*old(mir)), name@, 0) {
            Some(i) => addr_unregister(
                addr_view(*old(addrs)),
                mirror_alias(
                    mirror_view(*old(mir))[i].0,
                    mirror_view(*old(mir))[i].1,
                    mirror_view(*old(mir))[i].2,
                ),
            ),
            None => addr_view(*old(addrs)),
        }),
{
    let ghost mv = mirror_view(*mir);
    match mir.find(name) {
        Some(i) => {
            let entry = mir.entries.remove(i);
            proof {
                assert(mirror_view(*mir) =~= mv.remove(i as int));
            }
            let alias = mirror_alias_exec(&entry.0, &entry.1, &entry.2);
            unregister_address(addrs, &alias);
        },
        None => {
        },
    }
}

} // verus!
