//! One node of the settings namespace: a named tree node carrying a
//! current value, a default value and mergeable attributes. A node whose
//! value equals its default counts as unmodified.

use vstd::prelude::*;
use crate::error::Error;
use crate::json::{Json, JsonV, jview};
use crate::strutil::str_eq;

verus! {

/// One settings node.
pub struct SettingItem {
    /// The node's name, unique among its siblings.
    pub name: String,
    /// The current value; equal to the default when unmodified.
    pub value: Json,
    /// The default value.
    pub default_value: Json,
    /// Named attributes, merged object-wise or array-wise on update.
    pub attribute: Vec<(String, Json)>,
    /// The children, owned exclusively by this node.
    pub children: Vec<SettingItem>,
}

/// The mathematical shape of a settings node.
pub struct SettingV {
    pub name: Seq<char>,
    pub value: JsonV,
    pub default_value: JsonV,
    pub attribute: Seq<(Seq<char>, JsonV)>,
    pub children: Seq<SettingV>,
}

/// The shapes of an attribute list.
pub open spec fn attrs_view(a: Seq<(String, Json)>) -> Seq<(Seq<char>, JsonV)> {
    Seq::new(a.len(), |i: int| (a[i].0@, jview(a[i].1)))
}

/// The shape of a settings node.
pub open spec fn sitem_view(s: SettingItem) -> SettingV
    decreases s,
{
    SettingV {
        name: s.name@,
        value: jview(s.value),
        default_value: jview(s.default_value),
        attribute: attrs_view(s.attribute@),
        children: sitems_view(s.children@),
    }
}

/// The shapes of a sequence of settings nodes.
pub open spec fn sitems_view(cs: Seq<SettingItem>) -> Seq<SettingV>
    decreases cs,
{
    if cs.len() == 0 {
        Seq::<SettingV>::empty()
    } else {
        sitems_view(cs.drop_last()).push(sitem_view(cs.last()))
    }
}

pub proof fn lemma_sitems_view(cs: Seq<SettingItem>)
    ensures
        sitems_view(cs).len() == cs.len(),
        forall|i: int| 0 <= i < cs.len() ==> sitems_view(cs)[i] == sitem_view(cs[i]),
    decreases cs,
{
    if cs.len() > 0 {
        lemma_sitems_view(cs.drop_last());
    }
}

/// The first index at or after `i` whose node is named `name`.
pub open spec fn sfind_from(cs: Seq<SettingV>, name: Seq<char>, i: int) -> Option<int>
    decreases cs.len() - i,
{
    if i < 0 || i >= cs.len() {
        None
    } else if cs[i].name == name {
        Some(i)
    } else {
        sfind_from(cs, name, i + 1)
    }
}

/// The first index among `cs` whose node is named `name`.
pub open spec fn sfind(cs: Seq<SettingV>, name: Seq<char>) -> Option<int> {
    sfind_from(cs, name, 0)
}

/// A fresh, unmodified node: both values null, no attributes, no children.
pub open spec fn fresh_sitem(name: Seq<char>) -> SettingV {
    SettingV {
        name: name,
        value: JsonV::Null,
        default_value: JsonV::Null,
        attribute: Seq::<(Seq<char>, JsonV)>::empty(),
        children: Seq::<SettingV>::empty(),
    }
}

impl SettingItem {
    /// A fresh, unmodified node named `name`.
    pub fn new(name: String) -> (r: SettingItem)
        ensures
            sitem_view(r) == fresh_sitem(name@),
    {
        let r = SettingItem {
            name,
            value: Json::Null,
            default_value: Json::Null,
            attribute: Vec::new(),
            children: Vec::new(),
        };
        proof {
            assert(sitem_view(r).attribute =~= Seq::<(Seq<char>, JsonV)>::empty());
            assert(sitem_view(r).children =~= Seq::<SettingV>::empty());
        }
        r
    }

    /// Finds the child named `name`, returning its position.
    pub fn find(&self, name: &str) -> (r: Option<usize>)
        ensures
            match r {
                Some(j) => j < self.children@.len() && sfind(
                    sitem_view(*self).children,
                    name@,
                ) == Some(j as int),
                None => sfind(sitem_view(*self).children, name@) is None,
            },
    {
        proof {
            lemma_sitems_view(self.children@);
        }
        let ghost cs = sitem_view(*self).children;
        let mut i: usize = 0;
        while i < self.children.len()
            invariant
                i <= self.children@.len(),
                cs == sitem_view(*self).children,
                cs.len() == self.children@.len(),
                forall|j: int| 0 <= j < cs.len() ==> cs[j] == sitem_view(self.children@[j]),
                sfind(cs, name@) == sfind_from(cs, name@, i as int),
            decreases self.children@.len() - i,
        {
            if str_eq(self.children[i].name.as_str(), name) {
                return Some(i);
            }
            i = i + 1;
        }
        None
    }

    /// Adds `item` as a child, refusing a duplicate name.
    pub fn create(&mut self, item: SettingItem) -> (r: Result<(), Error>)
        ensures
            match sfind(sitem_view(*old(self)).children, item.name@) {
                Some(_) => {
                    &&& r == Result::<(), Error>::Err(Error::SettingItemExists(item.name))
                    &&& *final(self) == *old(self)
                },
                None => {
                    &&& r is Ok
                    &&& sitem_view(*final(self)) == SettingV {
                        children: sitem_view(*old(self)).children.push(sitem_view(item)),
                        ..sitem_view(*old(self))
                    }
                },
            },
    {
        match self.find(item.name.as_str()) {
            Some(_) => Err(Error::SettingItemExists(item.name)),
            None => {
                let ghost pre = self.children@;
                self.children.push(item);
                proof {
                    lemma_sitems_view(pre);
                    lemma_sitems_view(self.children@);
                    assert(self.children@.drop_last() =~= pre);
                    assert(sitems_view(self.children@) =~= sitems_view(pre).push(
                        sitem_view(item),
                    ));
                }
                Ok(())
            },
        }
    }
}

// ---------------------------------------------------------------------------
// Key joining.
// ---------------------------------------------------------------------------

/// `s` with one leading and one trailing dot removed.
pub open spec fn strip_dots(s: Seq<char>) -> Seq<char> {
    let a = if s.len() > 0 && s[0] == '.' {
        s.subrange(1, s.len() as int)
    } else {
        s
    };
    if a.len() > 0 && a[a.len() - 1] == '.' {
        a.subrange(0, a.len() - 1)
    } else {
        a
    }
}

/// The first `n` keys, stripped of affix dots, with empties dropped,
/// joined with `.`.
pub open spec fn key_join_n(args: Seq<Seq<char>>, n: int) -> Seq<char>
    decreases n,
{
    if n <= 0 {
        Seq::<char>::empty()
    } else {
        let prev = key_join_n(args, n - 1);
        let x = strip_dots(args[n - 1]);
        if x.len() == 0 {
            prev
        } else if prev.len() == 0 {
            x
        } else {
            prev.push('.') + x
        }
    }
}

/// The keys joined with `.`, each stripped of one leading and one trailing
/// dot, empties dropped.
pub open spec fn key_join_v(args: Seq<Seq<char>>) -> Seq<char> {
    key_join_n(args, args.len() as int)
}

fn strip_dots_exec(s: &String) -> (r: String)
    ensures
        r@ == strip_dots(s@),
{
    let st = s.as_str();
    let n = st.unicode_len();
    let from: usize = if n > 0 && st.get_char(0) == '.' {
        1
    } else {
        0
    };
    let to: usize = if n > from && st.get_char(n - 1) == '.' {
        n - 1
    } else {
        n
    };
    let r = st.substring_char(from, to).to_owned();
    proof {
        assert(r@ =~= strip_dots(s@));
    }
    r
}

impl SettingItem {
    /// Joins key fragments with `.`, stripping one leading and one
    /// trailing dot from each and dropping empty fragments.
    pub fn key_join(args: &Vec<String>) -> (r: String)
        ensures
            r@ == key_join_v(args.deep_view()),
    {
        proof {
            crate::strutil::lemma_deep_view_strings(args);
        }
        let mut out = String::new();
        let mut i: usize = 0;
        while i < args.len()
            invariant
                i <= args@.len(),
                args.deep_view().len() == args@.len(),
                forall|j: int| 0 <= j < args@.len() ==> args.deep_view()[j] == args@[j]@,
                out@ == key_join_n(args.deep_view(), i as int),
            decreases args@.len() - i,
        {
            let x = strip_dots_exec(&args[i]);
            if x.as_str().unicode_len() > 0 {
                if out.as_str().unicode_len() == 0 {
                    out = x;
                } else {
                    let ghost pre = out@;
                    out.append(".");
                    out.append(x.as_str());
                    proof {
                        reveal_strlit(".");
                        assert(out@ =~= pre.push('.') + x@);
                    }
                }
            }
            i = i + 1;
        }
        out
    }
}

} // verus!
