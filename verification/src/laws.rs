//! Laws of the namespace models: properties that relate several
//! operations, stated over the same models the executable functions are
//! verified against.

use vstd::prelude::*;
use crate::fcb::FcbV;
use crate::filesystem::{
    append_absent, child_names_of, listdir_m, listdir_sources_m, mount_sources, node_at,
    resolve_m, scan_names,
};
use crate::json::JsonV;
use crate::setting::{
    SEditV, attr_merge, obj_set, obj_union, obj_union_n, pfind_from, screate_m, sedit_at,
    sedit_node, sresolve,
};
use crate::setting_item::{SettingV, sfind, sfind_from};

verus! {

// ---------------------------------------------------------------------------
// Editing a settings node in place: the edited chain still resolves, to
// the edited node.
// ---------------------------------------------------------------------------

/// An edit never renames the edited node or any node on the way to it.
pub proof fn lemma_sedit_same_name(n: SettingV, chain: Seq<Seq<char>>, i: int, e: SEditV)
    ensures
        sedit_at(n, chain, i, e).name == n.name,
    decreases chain.len() - i,
{
}

/// Resolving after an edit at the same chain yields the edited node.
pub proof fn lemma_sresolve_after_edit(n: SettingV, chain: Seq<Seq<char>>, i: int, e: SEditV)
    requires
        sresolve(n, chain, i) is Ok,
    ensures
        sresolve(sedit_at(n, chain, i, e), chain, i) == Result::<SettingV, Seq<char>>::Ok(
            sedit_node(sresolve(n, chain, i)->Ok_0, e),
        ),
    decreases chain.len() - i,
{
    if 0 <= i && i < chain.len() {
        crate::setting::lemma_sfind_some(n.children, chain[i], 0);
        let j = sfind(n.children, chain[i])->Some_0;
        let c1 = sedit_at(n.children[j], chain, i + 1, e);
        lemma_sedit_same_name(n.children[j], chain, i + 1, e);
        crate::setting::lemma_sfind_update(n.children, j, c1, chain[i], 0);
        lemma_sresolve_after_edit(n.children[j], chain, i + 1, e);
    }
}

// ---------------------------------------------------------------------------
// Default/override interaction.
// ---------------------------------------------------------------------------

/// Setting a default on an unmodified (or absent) key leaves the key
/// unmodified, tracking the new default: a later materialization excludes
/// it, since only nodes whose value differs from their default are
/// emitted. A later explicit override with a different value makes the
/// key modified, carrying exactly the overridden value: a later
/// materialization includes it.
///
/// A key that already carried an explicit override is the one input left
/// out: there the default update preserves the override instead.
pub proof fn law_default_override(s: SettingV, segs: Seq<Seq<char>>, v1: JsonV, v2: JsonV)
    requires
        ({
            let created = screate_m(s, segs, 0);
            let n0 = sresolve(created, segs, 0)->Ok_0;
            n0.value == n0.default_value
        }),
        v2 != v1,
    ensures
        ({
            let created = screate_m(s, segs, 0);
            let s1 = sedit_at(created, segs, 0, SEditV::UpdateDefault(v1));
            let n1 = sresolve(s1, segs, 0)->Ok_0;
            &&& sresolve(s1, segs, 0) is Ok
            &&& n1.value == v1
            &&& n1.default_value == v1
            &&& n1.value == n1.default_value
            &&& {
                let s2 = sedit_at(s1, segs, 0, SEditV::Update(v2));
                let n2 = sresolve(s2, segs, 0)->Ok_0;
                &&& sresolve(s2, segs, 0) is Ok
                &&& n2.value == v2
                &&& n2.default_value == v1
                &&& n2.value != n2.default_value
            }
        }),
{
    let created = screate_m(s, segs, 0);
    crate::setting::lemma_screate_resolves(s, segs, 0);
    lemma_sresolve_after_edit(created, segs, 0, SEditV::UpdateDefault(v1));
    let s1 = sedit_at(created, segs, 0, SEditV::UpdateDefault(v1));
    lemma_sresolve_after_edit(s1, segs, 0, SEditV::Update(v2));
}

// ---------------------------------------------------------------------------
// Attribute merging.
// ---------------------------------------------------------------------------

/// Looking a key up after `obj_set` finds the new value for that key and
/// the old value for every other.
pub proof fn lemma_obj_set_lookup(
    x: Seq<(Seq<char>, JsonV)>,
    k: Seq<char>,
    v: JsonV,
    q: Seq<char>,
)
    ensures
        ({
            let r = obj_set(x, k, v);
            &&& (q == k ==> pfind_from(r, q, 0) is Some && r[pfind_from(r, q, 0)->Some_0].1
                == v)
            &&& (q != k ==> (match (pfind_from(r, q, 0), pfind_from(x, q, 0)) {
                (Some(i), Some(j)) => r[i] == x[j],
                (None, None) => true,
                _ => false,
            }))
        }),
{
    lemma_pfind_props(x, k, 0);
    match pfind_from(x, k, 0) {
        Some(i) => {
            let r = x.update(i, (x[i].0, v));
            if q == k {
                lemma_pfind_update_stable(x, i, (x[i].0, v), q, 0);
            } else {
                lemma_pfind_update_stable(x, i, (x[i].0, v), q, 0);
                lemma_pfind_props(x, q, 0);
                lemma_pfind_props(r, q, 0);
            }
        },
        None => {
            let r = x.push((k, v));
            lemma_pfind_push(x, (k, v), q, 0);
            assert(r[x.len() as int] == (k, v));
            if q != k {
                lemma_pfind_props(x, q, 0);
                lemma_pfind_props(r, q, 0);
            }
        },
    }
}

/// A successful field search returns an index in range bearing the key.
pub proof fn lemma_pfind_props(ps: Seq<(Seq<char>, JsonV)>, k: Seq<char>, i: int)
    requires
        0 <= i <= ps.len(),
    ensures
        match pfind_from(ps, k, i) {
            Some(j) => i <= j < ps.len() && ps[j].0 == k,
            None => forall|j: int| i <= j < ps.len() ==> ps[j].0 != k,
        },
    decreases ps.len() - i,
{
    if i < ps.len() {
        lemma_pfind_props(ps, k, i + 1);
    }
}

/// Replacing a field with one of the same key leaves every search where
/// it was.
pub proof fn lemma_pfind_update_stable(
    ps: Seq<(Seq<char>, JsonV)>,
    j: int,
    p: (Seq<char>, JsonV),
    k: Seq<char>,
    i: int,
)
    requires
        0 <= j < ps.len(),
        p.0 == ps[j].0,
        0 <= i <= ps.len(),
    ensures
        pfind_from(ps.update(j, p), k, i) == pfind_from(ps, k, i),
    decreases ps.len() - i,
{
    if i < ps.len() {
        lemma_pfind_update_stable(ps, j, p, k, i + 1);
    }
}

/// Appending a field extends a failed search to find it.
pub proof fn lemma_pfind_push(
    ps: Seq<(Seq<char>, JsonV)>,
    p: (Seq<char>, JsonV),
    k: Seq<char>,
    i: int,
)
    requires
        0 <= i <= ps.len(),
    ensures
        pfind_from(ps.push(p), k, i) == (match pfind_from(ps, k, i) {
            Some(j) => Some(j),
            None => if p.0 == k {
                Some(ps.len() as int)
            } else {
                None
            },
        }),
    decreases ps.len() - i,
{
    if i == ps.len() {
        assert(ps.push(p)[i] == p);
    } else {
        lemma_pfind_push(ps, p, k, i + 1);
    }
}

/// Later fields win: looking a key up in a shallow union takes it from
/// `y` where `y` has it, else from `x`. `y`'s keys must be distinct, as
/// the keys of a parsed JSON object are.
pub proof fn law_obj_union_later_wins(
    x: Seq<(Seq<char>, JsonV)>,
    y: Seq<(Seq<char>, JsonV)>,
    q: Seq<char>,
)
    requires
        forall|a: int, b: int| 0 <= a < b < y.len() ==> y[a].0 != y[b].0,
    ensures
        ({
            let u = obj_union(x, y);
            match pfind_from(y, q, 0) {
                Some(j) => pfind_from(u, q, 0) is Some && u[pfind_from(u, q, 0)->Some_0].1
                    == y[j].1,
                None => match (pfind_from(u, q, 0), pfind_from(x, q, 0)) {
                    (Some(i), Some(j)) => u[i] == x[j],
                    (None, None) => true,
                    _ => false,
                },
            }
        }),
{
    law_obj_union_n_later_wins(x, y, q, y.len() as int);
    assert(y.take(y.len() as int) =~= y);
}

proof fn law_obj_union_n_later_wins(
    x: Seq<(Seq<char>, JsonV)>,
    y: Seq<(Seq<char>, JsonV)>,
    q: Seq<char>,
    n: int,
)
    requires
        forall|a: int, b: int| 0 <= a < b < y.len() ==> y[a].0 != y[b].0,
        0 <= n <= y.len(),
    ensures
        ({
            let u = obj_union_n(x, y, n);
            match pfind_from(y.take(n), q, 0) {
                Some(j) => pfind_from(u, q, 0) is Some && u[pfind_from(u, q, 0)->Some_0].1
                    == y[j].1,
                None => match (pfind_from(u, q, 0), pfind_from(x, q, 0)) {
                    (Some(i), Some(j)) => u[i] == x[j],
                    (None, None) => true,
                    _ => false,
                },
            }
        }),
    decreases n,
{
    if n == 0 {
        assert(y.take(0).len() == 0);
    } else {
        law_obj_union_n_later_wins(x, y, q, n - 1);
        let u0 = obj_union_n(x, y, n - 1);
        lemma_obj_set_lookup(u0, y[n - 1].0, y[n - 1].1, q);
        lemma_pfind_take(y, q, n);
        lemma_pfind_props(y.take(n), q, 0);
        lemma_pfind_props(y.take(n - 1), q, 0);
    }
}

/// A search among the first `n` fields either stays within the first
/// `n - 1` or finds exactly the `n`-th.
proof fn lemma_pfind_take(y: Seq<(Seq<char>, JsonV)>, q: Seq<char>, n: int)
    requires
        0 < n <= y.len(),
    ensures
        pfind_from(y.take(n), q, 0) == (match pfind_from(y.take(n - 1), q, 0) {
            Some(j) => Some(j),
            None => if y[n - 1].0 == q {
                Some(n - 1)
            } else {
                None
            },
        }),
{
    assert(y.take(n) =~= y.take(n - 1).push(y[n - 1]));
    lemma_pfind_push(y.take(n - 1), y[n - 1], q, 0);
}

/// Two object attribute updates to one name union their keys, the later
/// update winning on conflicts; two array updates concatenate in call
/// order. Both are stated for an attribute set for the first time, then
/// merged once.
pub proof fn law_attribute_merge(
    ps: Seq<(Seq<char>, JsonV)>,
    name: Seq<char>,
    x: Seq<(Seq<char>, JsonV)>,
    y: Seq<(Seq<char>, JsonV)>,
    xs: Seq<JsonV>,
    ys: Seq<JsonV>,
)
    requires
        pfind_from(ps, name, 0) is None,
    ensures
        ({
            let once = attr_merge(ps, name, JsonV::Obj(x));
            let twice = attr_merge(once, name, JsonV::Obj(y));
            &&& pfind_from(twice, name, 0) is Some
            &&& twice[pfind_from(twice, name, 0)->Some_0].1 == JsonV::Obj(obj_union(x, y))
        }),
        ({
            let once = attr_merge(ps, name, JsonV::Arr(xs));
            let twice = attr_merge(once, name, JsonV::Arr(ys));
            &&& pfind_from(twice, name, 0) is Some
            &&& twice[pfind_from(twice, name, 0)->Some_0].1 == JsonV::Arr(xs + ys)
        }),
{
    let once_o = ps.push((name, JsonV::Obj(x)));
    lemma_pfind_push(ps, (name, JsonV::Obj(x)), name, 0);
    lemma_pfind_props(once_o, name, 0);
    let once_a = ps.push((name, JsonV::Arr(xs)));
    lemma_pfind_push(ps, (name, JsonV::Arr(xs)), name, 0);
    lemma_pfind_props(once_a, name, 0);
    let i_o = pfind_from(once_o, name, 0)->Some_0;
    lemma_pfind_update_stable(once_o, i_o, (name, JsonV::Obj(obj_union(x, y))), name, 0);
    let i_a = pfind_from(once_a, name, 0)->Some_0;
    lemma_pfind_update_stable(once_a, i_a, (name, JsonV::Arr(xs + ys)), name, 0);
}

// ---------------------------------------------------------------------------
// Materialized output: which keys the flat object carries.
// ---------------------------------------------------------------------------

/// Whether a key holds a dot: every descendant deeper than one level
/// does, so such keys cannot collide with a plain child name.
pub open spec fn has_dot(s: Seq<char>) -> bool {
    exists|i: int| 0 <= i < s.len() && s[i] == '.'
}

/// Whether a level entry's node is emitted: modified and not null.
pub open spec fn is_emitted(c: SettingV) -> bool {
    c.value != c.default_value && !(c.value is Null)
}

/// A search over a region of fields bearing other keys finds nothing.
proof fn lemma_pfind_none_region(s: Seq<(Seq<char>, JsonV)>, key: Seq<char>, i: int)
    requires
        0 <= i <= s.len(),
        forall|j: int| i <= j < s.len() ==> (#[trigger] s[j]).0 != key,
    ensures
        pfind_from(s, key, i) is None,
    decreases s.len() - i,
{
    if i < s.len() {
        lemma_pfind_none_region(s, key, i + 1);
    }
}

/// When the appended region holds no field of the key, a search over the
/// concatenation is the search over the front.
proof fn lemma_pfind_concat(
    a: Seq<(Seq<char>, JsonV)>,
    b: Seq<(Seq<char>, JsonV)>,
    key: Seq<char>,
    i: int,
)
    requires
        0 <= i <= a.len(),
        forall|j: int| 0 <= j < b.len() ==> (#[trigger] b[j]).0 != key,
    ensures
        match pfind_from(a, key, i) {
            Some(j) => pfind_from(a + b, key, i) == Some(j) && i <= j < a.len() && (a + b)[j]
                == a[j],
            None => pfind_from(a + b, key, i) is None,
        },
    decreases a.len() - i,
{
    lemma_pfind_props(a, key, i);
    if i == a.len() {
        lemma_pfind_none_region(a + b, key, i);
    } else {
        assert((a + b)[i] == a[i]);
        if a[i].0 != key {
            lemma_pfind_concat(a, b, key, i + 1);
        }
    }
}

/// A first-match search passes over every earlier candidate.
proof fn lemma_sfind_first(cs: Seq<SettingV>, name: Seq<char>, k: int)
    requires
        0 <= k <= cs.len(),
    ensures
        match sfind_from(cs, name, k) {
            Some(j) => forall|i: int| k <= i < j ==> (#[trigger] cs[i]).name != name,
            None => forall|i: int| k <= i < cs.len() ==> (#[trigger] cs[i]).name != name,
        },
    decreases cs.len() - k,
{
    if k < cs.len() {
        lemma_sfind_first(cs, name, k + 1);
    }
}

/// What the first level of a materialization emits under one sibling
/// name: with sibling names unique, at most one entry bears it, holding
/// that child's value, present exactly when the child is emitted.
proof fn lemma_emit_level_presence(n: SettingV, name: Seq<char>, k: int)
    requires
        forall|a: int, b: int|
            0 <= a < b < n.children.len() ==> (#[trigger] n.children[a]).name != (
            #[trigger] n.children[b]).name,
        0 <= k <= n.children.len(),
    ensures
        ({
            let level = crate::setting::child_entries(Seq::<char>::empty(), n);
            let out = crate::setting::emit_n(level, k);
            match crate::setting_item::sfind(n.children, name) {
                Some(j) => {
                    if j < k && is_emitted(n.children[j]) {
                        &&& pfind_from(out, name, 0) is Some
                        &&& out[pfind_from(out, name, 0)->Some_0].1 == n.children[j].value
                        &&& pfind_from(out, name, pfind_from(out, name, 0)->Some_0 + 1) is None
                    } else {
                        pfind_from(out, name, 0) is None
                    }
                },
                None => pfind_from(out, name, 0) is None,
            }
        }),
    decreases k,
{
    crate::setting::lemma_sfind_some(n.children, name, 0);
    lemma_sfind_first(n.children, name, 0);
    if k > 0 {
        lemma_emit_level_presence(n, name, k - 1);
        let level = crate::setting::child_entries(Seq::<char>::empty(), n);
        let prev = crate::setting::emit_n(level, k - 1);
        let out = crate::setting::emit_n(level, k);
        assert(level[k - 1].0 == n.children[k - 1].name);
        if is_emitted(n.children[k - 1]) {
            assert(out == prev.push((n.children[k - 1].name, n.children[k - 1].value)));
            lemma_pfind_push(prev, (n.children[k - 1].name, n.children[k - 1].value), name, 0);
            match crate::setting_item::sfind(n.children, name) {
                Some(j) => {
                    if j == k - 1 && is_emitted(n.children[j]) {
                        lemma_pfind_props(out, name, 0);
                        let p = pfind_from(out, name, 0)->Some_0;
                        assert(p == prev.len());
                        lemma_pfind_none_region(out, name, p + 1);
                    } else if j < k - 1 && is_emitted(n.children[j]) {
                        let p = pfind_from(prev, name, 0)->Some_0;
                        lemma_pfind_props(prev, name, 0);
                        lemma_pfind_push(
                            prev,
                            (n.children[k - 1].name, n.children[k - 1].value),
                            name,
                            p + 1,
                        );
                    }
                },
                None => {},
            }
        } else {
            assert(out == prev);
        }
    }
}

/// Every key of a deeper level carries a dot, so nothing a deeper level
/// emits can collide with a plain child name.
proof fn lemma_expand_keys_dotted(level: Seq<(Seq<char>, SettingV)>, k: int)
    requires
        0 <= k <= level.len(),
        forall|j: int| 0 <= j < level.len() ==> (#[trigger] level[j].0).len() > 0,
    ensures
        forall|q: int|
            0 <= q < crate::setting::expand_n(level, k).len() ==> has_dot(
                (#[trigger] crate::setting::expand_n(level, k)[q]).0,
            ),
    decreases k,
{
    if k > 0 {
        lemma_expand_keys_dotted(level, k - 1);
        let prev = crate::setting::expand_n(level, k - 1);
        let ce = crate::setting::child_entries(level[k - 1].0, level[k - 1].1);
        let cur = crate::setting::expand_n(level, k);
        assert forall|q: int| 0 <= q < cur.len() implies has_dot((#[trigger] cur[q]).0) by {
            if q < prev.len() {
                assert(cur[q] == prev[q]);
            } else {
                assert(cur[q] == ce[q - prev.len()]);
                let prefix = level[k - 1].0;
                assert(cur[q].0 == prefix.push('.') + level[k - 1].1.children[q
                    - prev.len()].name);
                assert(cur[q].0[prefix.len() as int] == '.');
            }
        }
    }
}

/// A level whose keys all carry dots emits only dotted keys, level after
/// level.
proof fn lemma_bfs_keys_dotted(level: Seq<(Seq<char>, SettingV)>)
    requires
        forall|j: int| 0 <= j < level.len() ==> has_dot((#[trigger] level[j]).0),
    ensures
        forall|q: int|
            0 <= q < crate::setting::bfs_m(level).len() ==> has_dot(
                (#[trigger] crate::setting::bfs_m(level)[q]).0,
            ),
    decreases crate::setting::level_size(level, level.len() as int),
{
    if level.len() > 0 {
        crate::setting::lemma_expand_size(level, level.len() as int);
        let emit = crate::setting::emit_n(level, level.len() as int);
        let expand = crate::setting::expand_n(level, level.len() as int);
        lemma_emit_keys_dotted(level, level.len() as int);
        assert forall|j: int| 0 <= j < level.len() implies (#[trigger] level[j].0).len() > 0 by {
            let w = choose|i: int| 0 <= i < level[j].0.len() && level[j].0[i] == '.';
        }
        lemma_expand_keys_dotted(level, level.len() as int);
        lemma_bfs_keys_dotted(expand);
        let out = crate::setting::bfs_m(level);
        assert forall|q: int| 0 <= q < out.len() implies has_dot((#[trigger] out[q]).0) by {
            if q < emit.len() {
                assert(out[q] == emit[q]);
            } else {
                assert(out[q] == crate::setting::bfs_m(expand)[q - emit.len()]);
            }
        }
    }
}

/// The keys a level emits are among its own keys.
proof fn lemma_emit_keys_dotted(level: Seq<(Seq<char>, SettingV)>, k: int)
    requires
        0 <= k <= level.len(),
        forall|j: int| 0 <= j < level.len() ==> has_dot((#[trigger] level[j]).0),
    ensures
        forall|q: int|
            0 <= q < crate::setting::emit_n(level, k).len() ==> has_dot(
                (#[trigger] crate::setting::emit_n(level, k)[q]).0,
            ),
    decreases k,
{
    if k > 0 {
        lemma_emit_keys_dotted(level, k - 1);
        let prev = crate::setting::emit_n(level, k - 1);
        let cur = crate::setting::emit_n(level, k);
        assert forall|q: int| 0 <= q < cur.len() implies has_dot((#[trigger] cur[q]).0) by {
            if q < prev.len() {
                assert(cur[q] == prev[q]);
            } else {
                assert(cur[q] == (level[k - 1].0, level[k - 1].1.value));
            }
        }
    }
}

/// What the materialized object of a node says about one direct child:
/// at most one entry bears the child's name, holding exactly the child's
/// value, and it is present exactly when the child's value differs from
/// its default and is not null. So a key set by `addOrUpdateDefault`
/// alone is absent from the output, and one overridden to a different,
/// non-null value is present with the override. Sibling names must be
/// unique and non-empty, and the name dot-free, so dotted descendant
/// keys cannot collide with it.
pub proof fn law_materialized_direct_child(n: SettingV, name: Seq<char>)
    requires
        forall|a: int, b: int|
            0 <= a < b < n.children.len() ==> (#[trigger] n.children[a]).name != (
            #[trigger] n.children[b]).name,
        forall|j: int| 0 <= j < n.children.len() ==> (#[trigger] n.children[j]).name.len() > 0,
        !has_dot(name),
    ensures
        ({
            let out = crate::setting::bfs_m(
                crate::setting::child_entries(Seq::<char>::empty(), n),
            );
            match crate::setting_item::sfind(n.children, name) {
                Some(j) => {
                    if is_emitted(n.children[j]) {
                        &&& pfind_from(out, name, 0) is Some
                        &&& out[pfind_from(out, name, 0)->Some_0].1 == n.children[j].value
                        &&& pfind_from(out, name, pfind_from(out, name, 0)->Some_0 + 1) is None
                    } else {
                        pfind_from(out, name, 0) is None
                    }
                },
                None => pfind_from(out, name, 0) is None,
            }
        }),
{
    let level = crate::setting::child_entries(Seq::<char>::empty(), n);
    let len = level.len() as int;
    let emit = crate::setting::emit_n(level, len);
    let expand = crate::setting::expand_n(level, len);
    let rest = crate::setting::bfs_m(expand);
    let out = crate::setting::bfs_m(level);
    crate::setting::lemma_sfind_some(n.children, name, 0);
    lemma_emit_level_presence(n, name, len);
    if level.len() > 0 {
        assert forall|j: int| 0 <= j < level.len() implies (#[trigger] level[j].0).len() > 0 by {
            assert(level[j].0 == n.children[j].name);
        }
        lemma_expand_keys_dotted(level, len);
        lemma_bfs_keys_dotted(expand);
    }
    assert forall|j: int| 0 <= j < rest.len() implies (#[trigger] rest[j]).0 != name by {
        assert(has_dot(rest[j].0));
    }
    assert(out == emit + rest);
    lemma_pfind_concat(emit, rest, name, 0);
    match crate::setting_item::sfind(n.children, name) {
        Some(j) => {
            if is_emitted(n.children[j]) {
                let p = pfind_from(emit, name, 0)->Some_0;
                lemma_pfind_props(emit, name, 0);
                lemma_pfind_concat(emit, rest, name, p + 1);
            }
        },
        None => {},
    }
}

/// Default/override interaction, carried to the materialized output,
/// for a key one level under the materialized node: after
/// `addOrUpdateDefault` on an unmodified (or absent) key the output has
/// no entry for it; after a later explicit override with a different,
/// non-null value the output carries exactly that value under the key,
/// once. The child names must be unique and non-empty and the key
/// dot-free, so no descendant's dotted key can collide with it; a null
/// override stays excluded, as the materialization drops nulls.
pub proof fn law_default_override_materialized(
    s: SettingV,
    name: Seq<char>,
    v1: JsonV,
    v2: JsonV,
)
    requires
        forall|a: int, b: int|
            0 <= a < b < s.children.len() ==> (#[trigger] s.children[a]).name != (
            #[trigger] s.children[b]).name,
        forall|j: int| 0 <= j < s.children.len() ==> (#[trigger] s.children[j]).name.len() > 0,
        name.len() > 0,
        !has_dot(name),
        match sfind(s.children, name) {
            Some(j) => s.children[j].value == s.children[j].default_value,
            None => true,
        },
        v2 != v1,
        !(v2 is Null),
    ensures
        ({
            let s1 = sedit_at(
                screate_m(s, seq![name], 0),
                seq![name],
                0,
                SEditV::UpdateDefault(v1),
            );
            let out1 = crate::setting::bfs_m(
                crate::setting::child_entries(Seq::<char>::empty(), s1),
            );
            &&& pfind_from(out1, name, 0) is None
            &&& ({
                let s2 = sedit_at(s1, seq![name], 0, SEditV::Update(v2));
                let out2 = crate::setting::bfs_m(
                    crate::setting::child_entries(Seq::<char>::empty(), s2),
                );
                &&& pfind_from(out2, name, 0) is Some
                &&& out2[pfind_from(out2, name, 0)->Some_0].1 == v2
                &&& pfind_from(out2, name, pfind_from(out2, name, 0)->Some_0 + 1) is None
            })
        }),
{
    let segs = seq![name];
    assert(segs.len() == 1 && segs[0] == name);
    let created = screate_m(s, segs, 0);
    crate::setting::lemma_sfind_some(s.children, name, 0);
    lemma_sfind_first(s.children, name, 0);
    match sfind(s.children, name) {
        Some(j) => {
            assert(screate_m(s.children[j], segs, 1) == s.children[j]);
            assert(created == SettingV { children: s.children.update(j, s.children[j]), ..s });
            crate::setting::lemma_sfind_update(s.children, j, s.children[j], name, 0);
            assert(sfind(created.children, name) == Some(j));
            assert(created.children[j] == s.children[j]);
            assert(sresolve(created.children[j], segs, 1) == Result::<SettingV, Seq<char>>::Ok(
                created.children[j],
            ));
            assert(sresolve(created, segs, 0) == Result::<SettingV, Seq<char>>::Ok(
                s.children[j],
            ));
        },
        None => {
            assert(screate_m(crate::setting_item::fresh_sitem(name), segs, 1)
                == crate::setting_item::fresh_sitem(name));
            assert(created == SettingV {
                children: s.children.push(crate::setting_item::fresh_sitem(name)),
                ..s
            });
            crate::setting::lemma_sfind_push(
                s.children,
                crate::setting_item::fresh_sitem(name),
                name,
                0,
            );
            assert(sfind(created.children, name) == Some(s.children.len() as int));
            assert(created.children[s.children.len() as int]
                == crate::setting_item::fresh_sitem(name));
            assert(sresolve(created.children[s.children.len() as int], segs, 1) == Result::<
                SettingV,
                Seq<char>,
            >::Ok(created.children[s.children.len() as int]));
            assert(sresolve(created, segs, 0) == Result::<SettingV, Seq<char>>::Ok(
                crate::setting_item::fresh_sitem(name),
            ));
        },
    }
    law_default_override(s, segs, v1, v2);
    let s1 = sedit_at(created, segs, 0, SEditV::UpdateDefault(v1));
    let s2 = sedit_at(s1, segs, 0, SEditV::Update(v2));
    // The three trees hold the same child names: creation appends at
    // most the key itself, and edits rename nothing.
    crate::setting::lemma_screate_resolves(s, segs, 0);
    lemma_sresolve_after_edit(created, segs, 0, SEditV::UpdateDefault(v1));
    lemma_sresolve_after_edit(s1, segs, 0, SEditV::Update(v2));
    crate::setting::lemma_sfind_some(created.children, name, 0);
    let jc = sfind(created.children, name)->Some_0;
    assert(sedit_at(created.children[jc], segs, 1, SEditV::UpdateDefault(v1)) == sedit_node(
        created.children[jc],
        SEditV::UpdateDefault(v1),
    ));
    assert(s1.children == created.children.update(
        jc,
        sedit_node(created.children[jc], SEditV::UpdateDefault(v1)),
    ));
    crate::setting::lemma_sfind_update(
        created.children,
        jc,
        sedit_node(created.children[jc], SEditV::UpdateDefault(v1)),
        name,
        0,
    );
    crate::setting::lemma_sfind_some(s1.children, name, 0);
    let j1 = sfind(s1.children, name)->Some_0;
    assert(sedit_at(s1.children[j1], segs, 1, SEditV::Update(v2)) == sedit_node(
        s1.children[j1],
        SEditV::Update(v2),
    ));
    assert(s2.children == s1.children.update(
        j1,
        sedit_node(s1.children[j1], SEditV::Update(v2)),
    ));
    crate::setting::lemma_sfind_update(
        s1.children,
        j1,
        sedit_node(s1.children[j1], SEditV::Update(v2)),
        name,
        0,
    );
    // Unique, non-empty names carry over to both edited trees.
    assert forall|a: int, b: int|
        0 <= a < b < created.children.len() implies (#[trigger] created.children[a]).name != (
        #[trigger] created.children[b]).name by {
        match sfind(s.children, name) {
            Some(_) => {},
            None => {
                if b == created.children.len() - 1 {
                    assert(created.children[b].name == name);
                    assert(created.children[a] == s.children[a]);
                }
            },
        }
    }
    assert forall|j: int|
        0 <= j < created.children.len() implies (#[trigger] created.children[j]).name.len()
        > 0 by {
        match sfind(s.children, name) {
            Some(_) => {},
            None => {
                if j == created.children.len() - 1 {
                    assert(created.children[j].name == name);
                }
            },
        }
    }
    assert forall|a: int, b: int|
        0 <= a < b < s1.children.len() implies (#[trigger] s1.children[a]).name != (
        #[trigger] s1.children[b]).name by {
        assert(s1.children[a].name == created.children[a].name);
        assert(s1.children[b].name == created.children[b].name);
    }
    assert forall|j: int|
        0 <= j < s1.children.len() implies (#[trigger] s1.children[j]).name.len() > 0 by {
        assert(s1.children[j].name == created.children[j].name);
    }
    assert forall|a: int, b: int|
        0 <= a < b < s2.children.len() implies (#[trigger] s2.children[a]).name != (
        #[trigger] s2.children[b]).name by {
        assert(s2.children[a].name == s1.children[a].name);
        assert(s2.children[b].name == s1.children[b].name);
    }
    assert forall|j: int|
        0 <= j < s2.children.len() implies (#[trigger] s2.children[j]).name.len() > 0 by {
        assert(s2.children[j].name == s1.children[j].name);
    }
    // The edited nodes' states decide their presence in the output.
    law_materialized_direct_child(s1, name);
    law_materialized_direct_child(s2, name);
    assert(sresolve(s1.children[j1], segs, 1) == Result::<SettingV, Seq<char>>::Ok(
        s1.children[j1],
    ));
    assert(s1.children[j1] == sresolve(s1, segs, 0)->Ok_0);
    assert(!is_emitted(s1.children[j1]));
    crate::setting::lemma_sfind_some(s2.children, name, 0);
    let j2 = sfind(s2.children, name)->Some_0;
    assert(sresolve(s2.children[j2], segs, 1) == Result::<SettingV, Seq<char>>::Ok(
        s2.children[j2],
    ));
    assert(s2.children[j2] == sresolve(s2, segs, 0)->Ok_0);
    assert(is_emitted(s2.children[j2]));
}

// ---------------------------------------------------------------------------
// Overlay union and order.
// ---------------------------------------------------------------------------

/// Listing a directory with two overlay sources mounted at it yields the
/// deduplicated union in layer order: native and already-materialized
/// entries first, then the first source's own listing, then the second's.
pub proof fn law_overlay_union_order(
    root: FcbV,
    mv: Seq<(Seq<char>, Seq<Seq<char>>)>,
    dv: Seq<(Seq<char>, Seq<Seq<char>>)>,
    segs: Seq<Seq<char>>,
    a: Seq<char>,
    b: Seq<char>,
    fuel: nat,
)
    requires
        fuel > 0,
        resolve_m(root, mv, dv, Seq::<Seq<char>>::empty(), segs, 0, false, fuel).1 is Ok,
        ({
            let (r1, res) = resolve_m(root, mv, dv, Seq::<Seq<char>>::empty(), segs, 0, false, fuel);
            &&& node_at(r1, res->Ok_0, 0) is Some
            &&& mount_sources(mv, node_at(r1, res->Ok_0, 0)->Some_0.path) == seq![a, b]
        }),
    ensures
        ({
            let (r1, res) = resolve_m(root, mv, dv, Seq::<Seq<char>>::empty(), segs, 0, false, fuel);
            let n = node_at(r1, res->Ok_0, 0)->Some_0;
            let base = append_absent(scan_names(dv, n.backing), child_names_of(n));
            let (r2, la) = listdir_m(r1, mv, dv, crate::strutil::split_segs(a, false), (fuel
                - 1) as nat);
            let with_a = match la {
                Result::Ok(names_a) => append_absent(base, names_a),
                Result::Err(_) => base,
            };
            let (r3, lb) = listdir_m(r2, mv, dv, crate::strutil::split_segs(b, false), (fuel
                - 1) as nat);
            let with_b = match lb {
                Result::Ok(names_b) => append_absent(with_a, names_b),
                Result::Err(_) => with_a,
            };
            listdir_m(root, mv, dv, segs, fuel) == (r3, Result::<
                Seq<Seq<char>>,
                Seq<char>,
            >::Ok(with_b))
        }),
{
    let (r1, res) = resolve_m(root, mv, dv, Seq::<Seq<char>>::empty(), segs, 0, false, fuel);
    let n = node_at(r1, res->Ok_0, 0)->Some_0;
    let sources = mount_sources(mv, n.path);
    let base = append_absent(scan_names(dv, n.backing), child_names_of(n));
    assert(sources[0] == a && sources[1] == b && sources.len() == 2);
    let (r2, la) = listdir_m(r1, mv, dv, crate::strutil::split_segs(a, false), (fuel - 1) as nat);
    let acc1 = match la {
        Result::Ok(names_a) => append_absent(base, names_a),
        Result::Err(_) => base,
    };
    let (r3, lb) = listdir_m(r2, mv, dv, crate::strutil::split_segs(b, false), (fuel - 1) as nat);
    let acc2 = match lb {
        Result::Ok(names_b) => append_absent(acc1, names_b),
        Result::Err(_) => acc1,
    };
    assert(listdir_sources_m(r1, mv, dv, sources, 0, base, fuel) == listdir_sources_m(
        r2,
        mv,
        dv,
        sources,
        1,
        acc1,
        fuel,
    ));
    assert(listdir_sources_m(r2, mv, dv, sources, 1, acc1, fuel) == listdir_sources_m(
        r3,
        mv,
        dv,
        sources,
        2,
        acc2,
        fuel,
    ));
    assert(listdir_sources_m(r3, mv, dv, sources, 2, acc2, fuel) == (r3, acc2));
}

// ---------------------------------------------------------------------------
// Mount/unmount round trip.
// ---------------------------------------------------------------------------

/// An edit never renames the edited node, nor moves it.
pub proof fn lemma_edit_same_name(n: FcbV, chain: Seq<Seq<char>>, i: int, e: EditV)
    ensures
        edit_at(n, chain, i, e).name == n.name,
        edit_at(n, chain, i, e).path == n.path,
    decreases chain.len() - i,
{
}

/// Reading a chain after an edit at that same chain yields the edited
/// node.
pub proof fn lemma_node_at_after_edit(n: FcbV, chain: Seq<Seq<char>>, i: int, e: EditV)
    requires
        node_at(n, chain, i) is Some,
    ensures
        node_at(edit_at(n, chain, i, e), chain, i) == Some(
            crate::filesystem::edit_node(node_at(n, chain, i)->Some_0, e),
        ),
    decreases chain.len() - i,
{
    if 0 <= i && i < chain.len() {
        crate::fcb::lemma_find_idx_some(n.children, chain[i], 0);
        let j = crate::fcb::find_idx(n.children, chain[i])->Some_0;
        let c1 = edit_at(n.children[j], chain, i + 1, e);
        lemma_edit_same_name(n.children[j], chain, i + 1, e);
        crate::fcb::lemma_find_idx_update(n.children, j, c1, chain[i], 0);
        lemma_node_at_after_edit(n.children[j], chain, i + 1, e);
    }
}

/// A string absent from a list is not found in it.
proof fn lemma_index_of_absent(b: Seq<Seq<char>>, p: Seq<char>, k: int)
    requires
        0 <= k <= b.len(),
        !crate::strutil::seq_contains_string(b, p),
    ensures
        crate::strutil::index_of_string_from(b, p, k) is None,
    decreases b.len() - k,
{
    if k < b.len() {
        assert(b[k] != p);
        lemma_index_of_absent(b, p, k + 1);
    }
}

/// Appending a string extends a failed search to find it at the end.
proof fn lemma_index_of_push(b: Seq<Seq<char>>, p: Seq<char>, k: int)
    requires
        0 <= k <= b.len(),
        crate::strutil::index_of_string_from(b, p, k) is None,
    ensures
        crate::strutil::index_of_string_from(b.push(p), p, k) == Some(b.len() as int),
    decreases b.len() - k,
{
    if k == b.len() {
        assert(b.push(p)[k] == p);
    } else {
        lemma_index_of_push(b, p, k + 1);
    }
}

/// Adding a native backing location and then removing it restores the
/// node's backing set exactly, and the final unloading leaves no cached
/// children: a later listing reflects only the remaining backing
/// locations. The one input left out is a location already present
/// before the mount: there the addition is a no-op but the removal is
/// not.
pub proof fn law_mount_native_roundtrip(root: FcbV, chain: Seq<Seq<char>>, p: Seq<char>)
    requires
        node_at(root, chain, 0) is Some,
        !crate::strutil::seq_contains_string(node_at(root, chain, 0)->Some_0.backing, p),
    ensures
        ({
            let n = node_at(root, chain, 0)->Some_0;
            let r1 = edit_at(root, chain, 0, EditV::AddBacking(p));
            let r2 = edit_at(
                edit_at(r1, chain, 0, EditV::RemoveBacking(p)),
                chain,
                0,
                EditV::ClearChildren,
            );
            &&& node_at(r1, chain, 0) == Some(FcbV { backing: n.backing.push(p), ..n })
            &&& node_at(r2, chain, 0) == Some(
                FcbV {
                    name: n.name,
                    path: n.path,
                    backing: n.backing,
                    children: Seq::<FcbV>::empty(),
                },
            )
        }),
{
    let n = node_at(root, chain, 0)->Some_0;
    let r1 = edit_at(root, chain, 0, EditV::AddBacking(p));
    lemma_node_at_after_edit(root, chain, 0, EditV::AddBacking(p));
    let n1 = node_at(r1, chain, 0)->Some_0;
    lemma_node_at_after_edit(r1, chain, 0, EditV::RemoveBacking(p));
    let r15 = edit_at(r1, chain, 0, EditV::RemoveBacking(p));
    lemma_index_of_absent(n.backing, p, 0);
    lemma_index_of_push(n.backing, p, 0);
    assert(n.backing.push(p).remove(n.backing.len() as int) =~= n.backing);
    lemma_node_at_after_edit(r15, chain, 0, EditV::ClearChildren);
}

// ---------------------------------------------------------------------------
// Unique sibling creation.
// ---------------------------------------------------------------------------

use crate::fcb::{find_idx, wf_names, wf_node};
use crate::filesystem::{EditV, edit_at, edit_node, try_sources_m};

/// Every edit preserves the tree invariant; a new child must itself be
/// well-formed, and is dropped when its name is already taken.
pub proof fn lemma_edit_wf(n: FcbV, chain: Seq<Seq<char>>, i: int, e: EditV)
    requires
        wf_node(n),
        e is AddChild ==> wf_node(e->AddChild_0),
    ensures
        wf_node(edit_at(n, chain, i, e)),
    decreases chain.len() - i,
{
    if i < 0 || i >= chain.len() {
        match e {
            EditV::AddChild(c) => {
                if find_idx(n.children, c.name) is Some {
                } else {
                    crate::fcb::lemma_find_idx_from_exists(n.children, c.name, 0);
                    let cs2 = n.children.push(c);
                    assert forall|a: int, b: int| 0 <= a < b < cs2.len() implies cs2[a].name
                        != cs2[b].name by {
                        if b == cs2.len() - 1 {
                            assert(cs2[b] == c);
                            assert(cs2[a] == n.children[a]);
                        }
                    }
                    assert forall|k: int| 0 <= k < cs2.len() implies wf_node(
                        #[trigger] cs2[k],
                    ) by {
                        if k < n.children.len() {
                            assert(cs2[k] == n.children[k]);
                        } else {
                            assert(cs2[k] == c);
                        }
                    }
                }
            },
            EditV::ClearChildren => {
                assert(wf_names(Seq::<FcbV>::empty()));
            },
            _ => {
                assert(edit_node(n, e).children == n.children);
            },
        }
    } else {
        match find_idx(n.children, chain[i]) {
            Some(j) => {
                crate::fcb::lemma_find_idx_some(n.children, chain[i], 0);
                let c1 = edit_at(n.children[j], chain, i + 1, e);
                lemma_edit_same_name(n.children[j], chain, i + 1, e);
                lemma_edit_wf(n.children[j], chain, i + 1, e);
                let cs2 = n.children.update(j, c1);
                assert forall|a: int, b: int| 0 <= a < b < cs2.len() implies cs2[a].name
                    != cs2[b].name by {
                    assert(cs2[a].name == n.children[a].name);
                    assert(cs2[b].name == n.children[b].name);
                }
                assert forall|k: int| 0 <= k < cs2.len() implies wf_node(#[trigger] cs2[k]) by {
                    if k != j {
                        assert(cs2[k] == n.children[k]);
                    }
                }
            },
            None => {
            },
        }
    }
}

/// Resolution preserves the tree invariant: however many connections
/// resolve-or-create the same new sibling name (their commands are
/// serialized by the tree's lock), there is only ever one node of that
/// name — a later call finds the node the earlier call made, and a
/// duplicate is never created.
pub proof fn law_resolve_preserves_unique_siblings(
    root: FcbV,
    mv: Seq<(Seq<char>, Seq<Seq<char>>)>,
    dv: Seq<(Seq<char>, Seq<Seq<char>>)>,
    cur: Seq<Seq<char>>,
    segs: Seq<Seq<char>>,
    i: int,
    create: bool,
    fuel: nat,
)
    requires
        wf_node(root),
    ensures
        wf_node(resolve_m(root, mv, dv, cur, segs, i, create, fuel).0),
    decreases fuel, 1int, segs.len() - i, 0int,
{
    match node_at(root, cur, 0) {
        Option::None => {},
        Option::Some(node) => {
            if i < 0 || i >= segs.len() {
            } else {
                let seg = segs[i];
                let ms = crate::filesystem::scan_matches(dv, node.backing, seg);
                if find_idx(node.children, seg) is Some {
                    let root1 = edit_at(root, cur.push(seg), 0, EditV::MergeBacking(ms));
                    lemma_edit_wf(root, cur.push(seg), 0, EditV::MergeBacking(ms));
                    law_resolve_preserves_unique_siblings(
                        root1,
                        mv,
                        dv,
                        cur.push(seg),
                        segs,
                        i + 1,
                        create,
                        fuel,
                    );
                } else if ms.len() > 0 {
                    let child = FcbV {
                        name: seg,
                        path: crate::strutil::path_join(node.path, seg),
                        backing: ms,
                        children: Seq::<FcbV>::empty(),
                    };
                    assert(wf_node(child));
                    lemma_edit_wf(root, cur, 0, EditV::AddChild(child));
                    law_resolve_preserves_unique_siblings(
                        edit_at(root, cur, 0, EditV::AddChild(child)),
                        mv,
                        dv,
                        cur.push(seg),
                        segs,
                        i + 1,
                        create,
                        fuel,
                    );
                } else {
                    let sources = mount_sources(mv, node.path);
                    lemma_try_preserves_unique_siblings(root, mv, dv, sources, 0, seg, fuel);
                    let probed = try_sources_m(root, mv, dv, sources, 0, seg, fuel);
                    match probed.1 {
                        Option::Some(chain) => {
                            law_resolve_preserves_unique_siblings(
                                probed.0,
                                mv,
                                dv,
                                chain,
                                segs,
                                i + 1,
                                create,
                                fuel,
                            );
                        },
                        Option::None => {
                            if create {
                                let child = FcbV {
                                    name: seg,
                                    path: crate::strutil::path_join(node.path, seg),
                                    backing: crate::filesystem::join_all(node.backing, seg),
                                    children: Seq::<FcbV>::empty(),
                                };
                                assert(wf_node(child));
                                lemma_edit_wf(probed.0, cur, 0, EditV::AddChild(child));
                                law_resolve_preserves_unique_siblings(
                                    edit_at(probed.0, cur, 0, EditV::AddChild(child)),
                                    mv,
                                    dv,
                                    cur.push(seg),
                                    segs,
                                    i + 1,
                                    create,
                                    fuel,
                                );
                            }
                        },
                    }
                }
            }
        },
    }
}

proof fn lemma_try_preserves_unique_siblings(
    root: FcbV,
    mv: Seq<(Seq<char>, Seq<Seq<char>>)>,
    dv: Seq<(Seq<char>, Seq<Seq<char>>)>,
    sources: Seq<Seq<char>>,
    k: int,
    seg: Seq<char>,
    fuel: nat,
)
    requires
        wf_node(root),
    ensures
        wf_node(try_sources_m(root, mv, dv, sources, k, seg, fuel).0),
    decreases fuel, 0int, 0int, sources.len() - k,
{
    if k < 0 || k >= sources.len() || fuel == 0 {
    } else {
        let probe_segs = crate::strutil::split_segs(sources[k], false).push(seg);
        law_resolve_preserves_unique_siblings(
            root,
            mv,
            dv,
            Seq::<Seq<char>>::empty(),
            probe_segs,
            0,
            false,
            (fuel - 1) as nat,
        );
        let probed = resolve_m(
            root,
            mv,
            dv,
            Seq::<Seq<char>>::empty(),
            probe_segs,
            0,
            false,
            (fuel - 1) as nat,
        );
        match probed.1 {
            Result::Ok(_) => {},
            Result::Err(_) => {
                lemma_try_preserves_unique_siblings(probed.0, mv, dv, sources, k + 1, seg, fuel);
            },
        }
    }
}

// ---------------------------------------------------------------------------
// Idempotent reads, for a filesystem without overlay mounts.
// ---------------------------------------------------------------------------

/// A first-match search reads only names: two children lists with the
/// same names give the same result.
proof fn lemma_find_by_names(c1: Seq<FcbV>, c2: Seq<FcbV>, name: Seq<char>, k: int)
    requires
        c1.len() == c2.len(),
        forall|j: int| 0 <= j < c1.len() ==> c1[j].name == c2[j].name,
        0 <= k <= c1.len(),
    ensures
        crate::fcb::find_idx_from(c1, name, k) == crate::fcb::find_idx_from(c2, name, k),
    decreases c1.len() - k,
{
    if k < c1.len() {
        lemma_find_by_names(c1, c2, name, k + 1);
    }
}

/// Appending a child extends a failed first-match search to find it.
proof fn lemma_find_idx_push(cs: Seq<FcbV>, c: FcbV, name: Seq<char>, k: int)
    requires
        0 <= k <= cs.len(),
        crate::fcb::find_idx_from(cs, name, k) is None,
    ensures
        crate::fcb::find_idx_from(cs.push(c), name, k) == (if c.name == name {
            Some(cs.len() as int)
        } else {
            Option::<int>::None
        }),
    decreases cs.len() - k,
{
    if k == cs.len() {
        assert(cs.push(c)[k] == c);
    } else {
        lemma_find_idx_push(cs, c, name, k + 1);
    }
}

/// What `add_if_absent` holds: everything it held before, and the new
/// entry.
proof fn lemma_add_if_absent_contains(
    b: Seq<Seq<char>>,
    p: Seq<char>,
    x: Seq<char>,
)
    requires
        crate::strutil::seq_contains_string(b, x) || x == p,
    ensures
        crate::strutil::seq_contains_string(crate::filesystem::add_if_absent(b, p), x),
{
    if crate::strutil::seq_contains_string(b, p) {
    } else {
        if x == p {
            assert(b.push(p)[b.len() as int] == p);
        } else {
            let w = choose|i: int| 0 <= i < b.len() && b[i] == x;
            assert(b.push(p)[w] == x);
        }
    }
}

/// `append_absent` keeps what was there and absorbs everything appended.
proof fn lemma_append_absent_superset(acc: Seq<Seq<char>>, xs: Seq<Seq<char>>, n: int)
    requires
        0 <= n <= xs.len(),
    ensures
        forall|x: Seq<char>|
            crate::strutil::seq_contains_string(acc, x) ==> #[trigger] crate::strutil::seq_contains_string(
                crate::filesystem::append_absent_n(acc, xs, n),
                x,
            ),
        forall|j: int|
            0 <= j < n ==> crate::strutil::seq_contains_string(
                crate::filesystem::append_absent_n(acc, xs, n),
                #[trigger] xs[j],
            ),
    decreases n,
{
    if n > 0 {
        lemma_append_absent_superset(acc, xs, n - 1);
        let prev = crate::filesystem::append_absent_n(acc, xs, n - 1);
        assert forall|x: Seq<char>|
            crate::strutil::seq_contains_string(prev, x) implies #[trigger] crate::strutil::seq_contains_string(
            crate::filesystem::append_absent_n(acc, xs, n),
            x,
        ) by {
            lemma_add_if_absent_contains(prev, xs[n - 1], x);
        }
        lemma_add_if_absent_contains(prev, xs[n - 1], xs[n - 1]);
    }
}

/// Merging backing locations that are all already present changes
/// nothing.
proof fn lemma_append_absent_noop(b: Seq<Seq<char>>, ms: Seq<Seq<char>>, n: int)
    requires
        0 <= n <= ms.len(),
        forall|j: int| 0 <= j < ms.len() ==> crate::strutil::seq_contains_string(b, #[trigger] ms[j]),
    ensures
        crate::filesystem::append_absent_n(b, ms, n) == b,
    decreases n,
{
    if n > 0 {
        lemma_append_absent_noop(b, ms, n - 1);
    }
}

/// A merge whose locations the target already holds leaves the whole
/// tree untouched.
proof fn lemma_merge_noop(n: FcbV, chain: Seq<Seq<char>>, i: int, ms: Seq<Seq<char>>)
    requires
        node_at(n, chain, i) is Some ==> forall|j: int|
            0 <= j < ms.len() ==> crate::strutil::seq_contains_string(
                node_at(n, chain, i)->Some_0.backing,
                #[trigger] ms[j],
            ),
    ensures
        edit_at(n, chain, i, EditV::MergeBacking(ms)) == n,
    decreases chain.len() - i,
{
    if i < 0 || i >= chain.len() {
        lemma_append_absent_noop(n.backing, ms, ms.len() as int);
        assert(edit_node(n, EditV::MergeBacking(ms)) == n);
    } else {
        match find_idx(n.children, chain[i]) {
            Some(j) => {
                crate::fcb::lemma_find_idx_some(n.children, chain[i], 0);
                lemma_merge_noop(n.children[j], chain, i + 1, ms);
                assert(n.children.update(j, n.children[j]) =~= n.children);
            },
            None => {
            },
        }
    }
}

/// Reading one more segment descends into the named child.
proof fn lemma_node_at_snoc(n: FcbV, c: Seq<Seq<char>>, s: Seq<char>, i: int)
    requires
        0 <= i <= c.len(),
    ensures
        node_at(n, c.push(s), i) == (match node_at(n, c, i) {
            Option::Some(m) => match find_idx(m.children, s) {
                Option::Some(j) => Option::Some(m.children[j]),
                Option::None => Option::<FcbV>::None,
            },
            Option::None => Option::<FcbV>::None,
        }),
    decreases c.len() - i,
{
    let cp = c.push(s);
    if i >= c.len() {
        assert(cp[i] == s) by {
            assert(i == c.len());
        }
        match find_idx(n.children, s) {
            Option::Some(j) => {
                crate::fcb::lemma_find_idx_some(n.children, s, 0);
                assert(node_at(n.children[j], cp, i + 1) == Some(n.children[j]));
            },
            Option::None => {},
        }
    } else {
        assert(cp[i] == c[i]);
        match find_idx(n.children, c[i]) {
            Option::Some(j) => {
                crate::fcb::lemma_find_idx_some(n.children, c[i], 0);
                lemma_node_at_snoc(n.children[j], c, s, i + 1);
            },
            Option::None => {},
        }
    }
}

/// An edit at a chain leaves the node at every strictly shorter prefix
/// in place: same name, path and backing, and the same child names.
proof fn lemma_edit_frame_prefix(n: FcbV, d: Seq<Seq<char>>, i: int, e: EditV, k: int)
    requires
        0 <= i <= k < d.len(),
    ensures
        ({
            let c = d.take(k);
            match node_at(n, c, i) {
                Option::Some(m) => {
                    &&& node_at(edit_at(n, d, i, e), c, i) is Some
                    &&& {
                        let m2 = node_at(edit_at(n, d, i, e), c, i)->Some_0;
                        &&& m2.name == m.name
                        &&& m2.path == m.path
                        &&& m2.backing == m.backing
                        &&& child_names_of(m2) == child_names_of(m)
                    }
                },
                Option::None => node_at(edit_at(n, d, i, e), c, i) is None,
            }
        }),
    decreases k - i,
{
    let c = d.take(k);
    if i == k {
        match find_idx(n.children, d[i]) {
            Option::Some(j) => {
                crate::fcb::lemma_find_idx_some(n.children, d[i], 0);
                let c1 = edit_at(n.children[j], d, i + 1, e);
                lemma_edit_same_name(n.children[j], d, i + 1, e);
                let m2 = edit_at(n, d, i, e);
                assert(child_names_of(m2) =~= child_names_of(n));
            },
            Option::None => {},
        }
    } else {
        assert(c[i] == d[i]);
        match find_idx(n.children, d[i]) {
            Option::Some(j) => {
                crate::fcb::lemma_find_idx_some(n.children, d[i], 0);
                let c1 = edit_at(n.children[j], d, i + 1, e);
                lemma_edit_same_name(n.children[j], d, i + 1, e);
                crate::fcb::lemma_find_idx_update(n.children, j, c1, d[i], 0);
                lemma_edit_frame_prefix(n.children[j], d, i + 1, e, k);
            },
            Option::None => {},
        }
    }
}

/// With no overlay mounts, a resolution leaves the node at its starting
/// chain, and at every prefix of it, with its name, path and backing; at
/// strict prefixes even the child names are untouched, while at the
/// starting chain the old children keep their names and places.
proof fn lemma_resolve_frame(
    root: FcbV,
    mv: Seq<(Seq<char>, Seq<Seq<char>>)>,
    dv: Seq<(Seq<char>, Seq<Seq<char>>)>,
    cur: Seq<Seq<char>>,
    segs: Seq<Seq<char>>,
    i: int,
    create: bool,
    fuel: nat,
    k: int,
)
    requires
        mv.len() == 0,
        0 <= k <= cur.len(),
    ensures
        ({
            let t = resolve_m(root, mv, dv, cur, segs, i, create, fuel).0;
            let c = cur.take(k);
            match node_at(root, c, 0) {
                Option::Some(m) => {
                    &&& node_at(t, c, 0) is Some
                    &&& {
                        let m2 = node_at(t, c, 0)->Some_0;
                        &&& m2.name == m.name
                        &&& m2.path == m.path
                        &&& m2.backing == m.backing
                        &&& m2.children.len() >= m.children.len()
                        &&& forall|j: int|
                            0 <= j < m.children.len() ==> (#[trigger] m2.children[j]).name
                                == m.children[j].name
                        &&& (k < cur.len() ==> child_names_of(m2) == child_names_of(m))
                    }
                },
                Option::None => node_at(t, c, 0) is None,
            }
        }),
    decreases fuel, 1int, segs.len() - i, 1int,
{
    let c = cur.take(k);
    match node_at(root, cur, 0) {
        Option::None => {},
        Option::Some(node) => {
            if i < 0 || i >= segs.len() {
            } else {
                let seg = segs[i];
                let d = cur.push(seg);
                let ms = crate::filesystem::scan_matches(dv, node.backing, seg);
                assert(d.take(k) =~= c);
                assert(d.take(cur.len() as int) =~= cur);
                if find_idx(node.children, seg) is Some {
                    let root1 = edit_at(root, d, 0, EditV::MergeBacking(ms));
                    lemma_edit_frame_prefix(root, d, 0, EditV::MergeBacking(ms), k);
                    lemma_resolve_frame(root1, mv, dv, d, segs, i + 1, create, fuel, k);
                    if k == cur.len() {
                        lemma_edit_frame_prefix(root, d, 0, EditV::MergeBacking(ms), cur.len() as int);
                    }
                    match node_at(root, c, 0) {
                        Option::Some(m) => {
                            let m1 = node_at(root1, c, 0)->Some_0;
                            assert(child_names_of(m1) == child_names_of(m));
                            let t = resolve_m(root1, mv, dv, d, segs, i + 1, create, fuel).0;
                            let m2 = node_at(t, c, 0)->Some_0;
                            assert(child_names_of(m2) == child_names_of(m1));
                            assert(child_names_of(m2).len() == m2.children.len());
                            assert forall|j: int| 0 <= j < m.children.len() implies (
                            #[trigger] m2.children[j]).name == m.children[j].name by {
                                assert(child_names_of(m2)[j] == child_names_of(m)[j]);
                            }
                            assert(child_names_of(m2) =~= child_names_of(m));
                        },
                        Option::None => {},
                    }
                } else if ms.len() > 0 {
                    let child = FcbV {
                        name: seg,
                        path: crate::strutil::path_join(node.path, seg),
                        backing: ms,
                        children: Seq::<FcbV>::empty(),
                    };
                    lemma_addchild_then_frame(root, mv, dv, cur, segs, i, create, fuel, k, child);
                } else {
                    assert(mount_sources(mv, node.path) =~= Seq::<Seq<char>>::empty());
                    let probed = try_sources_m(
                        root,
                        mv,
                        dv,
                        mount_sources(mv, node.path),
                        0,
                        seg,
                        fuel,
                    );
                    assert(probed == (root, Option::<Seq<Seq<char>>>::None));
                    if create {
                        let child = FcbV {
                            name: seg,
                            path: crate::strutil::path_join(node.path, seg),
                            backing: crate::filesystem::join_all(node.backing, seg),
                            children: Seq::<FcbV>::empty(),
                        };
                        lemma_addchild_then_frame(
                            root,
                            mv,
                            dv,
                            cur,
                            segs,
                            i,
                            create,
                            fuel,
                            k,
                            child,
                        );
                    }
                }
            }
        },
    }
}

/// The shared step of the frame argument: one child appended at the
/// starting chain, then the recursion below it.
proof fn lemma_addchild_then_frame(
    root: FcbV,
    mv: Seq<(Seq<char>, Seq<Seq<char>>)>,
    dv: Seq<(Seq<char>, Seq<Seq<char>>)>,
    cur: Seq<Seq<char>>,
    segs: Seq<Seq<char>>,
    i: int,
    create: bool,
    fuel: nat,
    k: int,
    child: FcbV,
)
    requires
        mv.len() == 0,
        0 <= k <= cur.len(),
        0 <= i < segs.len(),
        node_at(root, cur, 0) is Some,
    ensures
        ({
            let d = cur.push(segs[i]);
            let root1 = edit_at(root, cur, 0, EditV::AddChild(child));
            let t = resolve_m(root1, mv, dv, d, segs, i + 1, create, fuel).0;
            let c = cur.take(k);
            match node_at(root, c, 0) {
                Option::Some(m) => {
                    &&& node_at(t, c, 0) is Some
                    &&& {
                        let m2 = node_at(t, c, 0)->Some_0;
                        &&& m2.name == m.name
                        &&& m2.path == m.path
                        &&& m2.backing == m.backing
                        &&& m2.children.len() >= m.children.len()
                        &&& forall|j: int|
                            0 <= j < m.children.len() ==> (#[trigger] m2.children[j]).name
                                == m.children[j].name
                        &&& (k < cur.len() ==> child_names_of(m2) == child_names_of(m))
                    }
                },
                Option::None => node_at(t, c, 0) is None,
            }
        }),
    decreases fuel, 1int, segs.len() - i, 0int,
{
    let seg = segs[i];
    let d = cur.push(seg);
    let c = cur.take(k);
    let root1 = edit_at(root, cur, 0, EditV::AddChild(child));
    assert(d.take(k) =~= c);
    if k < cur.len() {
        lemma_edit_frame_prefix(root, cur, 0, EditV::AddChild(child), k);
    } else {
        assert(c =~= cur);
        match node_at(root, cur, 0) {
            Option::Some(m) => {
                lemma_node_at_after_edit(root, cur, 0, EditV::AddChild(child));
            },
            Option::None => {},
        }
    }
    lemma_resolve_frame(root1, mv, dv, d, segs, i + 1, create, fuel, k);
    match node_at(root, c, 0) {
        Option::Some(m) => {
            let m1 = node_at(root1, c, 0)->Some_0;
            let t = resolve_m(root1, mv, dv, d, segs, i + 1, create, fuel).0;
            let m2 = node_at(t, c, 0)->Some_0;
            assert(child_names_of(m2) == child_names_of(m1));
            if k < cur.len() {
                assert forall|j: int| 0 <= j < m.children.len() implies (
                #[trigger] m2.children[j]).name == m.children[j].name by {
                    assert(child_names_of(m2)[j] == child_names_of(m)[j]);
                }
                assert(child_names_of(m2) =~= child_names_of(m));
            } else {
                assert forall|j: int| 0 <= j < m.children.len() implies (
                #[trigger] m2.children[j]).name == m.children[j].name by {
                    assert(child_names_of(m2)[j] == child_names_of(m1)[j]);
                    if find_idx(m.children, child.name) is None {
                        assert(m1.children[j] == m.children[j]);
                    }
                }
            }
        },
        Option::None => {},
    }
}

/// Idempotent read, for a filesystem without overlay mounts: resolving
/// the same path again, right after a resolution that succeeded, changes
/// nothing and returns the same chain — lazy materialization is a cache,
/// and re-reading it neither duplicates nor alters it. Resolutions that
/// consult the mount table are not covered by this proof.
pub proof fn law_idempotent_read(
    root: FcbV,
    mv: Seq<(Seq<char>, Seq<Seq<char>>)>,
    dv: Seq<(Seq<char>, Seq<Seq<char>>)>,
    cur: Seq<Seq<char>>,
    segs: Seq<Seq<char>>,
    i: int,
    create: bool,
    fuel: nat,
)
    requires
        mv.len() == 0,
    ensures
        ({
            let (t, res) = resolve_m(root, mv, dv, cur, segs, i, create, fuel);
            res is Ok ==> resolve_m(t, mv, dv, cur, segs, i, create, fuel) == (t, res)
        }),
    decreases fuel, 1int, segs.len() - i, 1int,
{
    match node_at(root, cur, 0) {
        Option::None => {},
        Option::Some(node) => {
            if i < 0 || i >= segs.len() {
            } else {
                let seg = segs[i];
                let d = cur.push(seg);
                let ms = crate::filesystem::scan_matches(dv, node.backing, seg);
                assert(d.take(cur.len() as int) =~= cur);
                assert(d.take(d.len() as int) =~= d);
                if find_idx(node.children, seg) is Some {
                    let root1 = edit_at(root, d, 0, EditV::MergeBacking(ms));
                    let (t, res) = resolve_m(root1, mv, dv, d, segs, i + 1, create, fuel);
                    if res is Ok {
                        law_idempotent_read(root1, mv, dv, d, segs, i + 1, create, fuel);
                        // The node at `cur` kept its backing and child names.
                        lemma_edit_frame_prefix(root, d, 0, EditV::MergeBacking(ms), cur.len() as int);
                        lemma_resolve_frame(root1, mv, dv, d, segs, i + 1, create, fuel, cur.len() as int);
                        assert(node_at(root1, cur, 0) is Some);
                        let m1 = node_at(root1, cur, 0)->Some_0;
                        assert(child_names_of(m1) == child_names_of(node));
                        assert(node_at(t, cur, 0) is Some);
                        let m2 = node_at(t, cur, 0)->Some_0;
                        assert(child_names_of(m2) == child_names_of(m1));
                        // Same child names at `cur`, so the same child is found.
                        assert(child_names_of(m2).len() == m2.children.len());
                        assert(child_names_of(m1).len() == m1.children.len());
                        assert(child_names_of(node).len() == node.children.len());
                        assert(m2.children.len() == m1.children.len());
                        assert forall|j: int| 0 <= j < m2.children.len() implies (
                        #[trigger] m2.children[j]).name == node.children[j].name by {
                            assert(child_names_of(m2)[j] == child_names_of(m1)[j]);
                            assert(child_names_of(m1)[j] == child_names_of(node)[j]);
                        }
                        lemma_find_by_names(m2.children, node.children, seg, 0);
                        // The child at `d` already absorbed every scan match.
                        crate::fcb::lemma_find_idx_some(node.children, seg, 0);
                        lemma_node_at_snoc(root, cur, seg, 0);
                        lemma_node_at_after_edit(root, d, 0, EditV::MergeBacking(ms));
                        let cb = node_at(root, d, 0)->Some_0.backing;
                        lemma_append_absent_superset(cb, ms, ms.len() as int);
                        lemma_resolve_frame(root1, mv, dv, d, segs, i + 1, create, fuel, d.len() as int);
                        assert forall|j: int| 0 <= j < ms.len() implies crate::strutil::seq_contains_string(
                            node_at(t, d, 0)->Some_0.backing,
                            #[trigger] ms[j],
                        ) by {
                            assert(crate::strutil::seq_contains_string(
                                crate::filesystem::append_absent(cb, ms),
                                ms[j],
                            ));
                        }
                        lemma_merge_noop(t, d, 0, ms);
                        assert(resolve_m(t, mv, dv, cur, segs, i, create, fuel) == (t, res));
                    }
                } else if ms.len() > 0 {
                    let child = FcbV {
                        name: seg,
                        path: crate::strutil::path_join(node.path, seg),
                        backing: ms,
                        children: Seq::<FcbV>::empty(),
                    };
                    lemma_idempotent_after_create(root, mv, dv, cur, segs, i, create, fuel, child);
                } else {
                    assert(mount_sources(mv, node.path) =~= Seq::<Seq<char>>::empty());
                    let probed = try_sources_m(
                        root,
                        mv,
                        dv,
                        mount_sources(mv, node.path),
                        0,
                        seg,
                        fuel,
                    );
                    assert(probed == (root, Option::<Seq<Seq<char>>>::None));
                    if create {
                        let child = FcbV {
                            name: seg,
                            path: crate::strutil::path_join(node.path, seg),
                            backing: crate::filesystem::join_all(node.backing, seg),
                            children: Seq::<FcbV>::empty(),
                        };
                        lemma_idempotent_after_create(
                            root,
                            mv,
                            dv,
                            cur,
                            segs,
                            i,
                            create,
                            fuel,
                            child,
                        );
                    }
                }
            }
        },
    }
}

/// The shared step of the idempotence argument for the two materializing
/// branches: the created child is found on the second pass, and the
/// second pass's merge of the same scan matches changes nothing.
proof fn lemma_idempotent_after_create(
    root: FcbV,
    mv: Seq<(Seq<char>, Seq<Seq<char>>)>,
    dv: Seq<(Seq<char>, Seq<Seq<char>>)>,
    cur: Seq<Seq<char>>,
    segs: Seq<Seq<char>>,
    i: int,
    create: bool,
    fuel: nat,
    child: FcbV,
)
    requires
        mv.len() == 0,
        0 <= i < segs.len(),
        node_at(root, cur, 0) is Some,
        find_idx(node_at(root, cur, 0)->Some_0.children, segs[i]) is None,
        child.name == segs[i],
        child.children == Seq::<FcbV>::empty(),
        forall|j: int|
            0 <= j < crate::filesystem::scan_matches(
                dv,
                node_at(root, cur, 0)->Some_0.backing,
                segs[i],
            ).len() ==> crate::strutil::seq_contains_string(
                child.backing,
                #[trigger] crate::filesystem::scan_matches(
                    dv,
                    node_at(root, cur, 0)->Some_0.backing,
                    segs[i],
                )[j],
            ),
    ensures
        ({
            let root1 = edit_at(root, cur, 0, EditV::AddChild(child));
            let (t, res) = resolve_m(
                root1,
                mv,
                dv,
                cur.push(segs[i]),
                segs,
                i + 1,
                create,
                fuel,
            );
            res is Ok ==> resolve_m(t, mv, dv, cur, segs, i, create, fuel) == (t, res)
        }),
    decreases fuel, 1int, segs.len() - i, 0int,
{
    let node = node_at(root, cur, 0)->Some_0;
    let seg = segs[i];
    let d = cur.push(seg);
    let ms = crate::filesystem::scan_matches(dv, node.backing, seg);
    assert(d.take(cur.len() as int) =~= cur);
    assert(d.take(d.len() as int) =~= d);
    let root1 = edit_at(root, cur, 0, EditV::AddChild(child));
    let (t, res) = resolve_m(root1, mv, dv, d, segs, i + 1, create, fuel);
    if res is Ok {
        law_idempotent_read(root1, mv, dv, d, segs, i + 1, create, fuel);
        // After the edit, the child is the last entry at `cur`.
        lemma_node_at_after_edit(root, cur, 0, EditV::AddChild(child));
        let m1 = node_at(root1, cur, 0)->Some_0;
        crate::fcb::lemma_find_idx_from_exists(node.children, seg, 0);
        lemma_find_idx_push(node.children, child, seg, 0);
        assert(find_idx(m1.children, seg) == Some(node.children.len() as int));
        // The recursion below `d` keeps names and backing at `cur` and `d`.
        lemma_resolve_frame(root1, mv, dv, d, segs, i + 1, create, fuel, cur.len() as int);
        assert(node_at(t, cur, 0) is Some);
        let m2 = node_at(t, cur, 0)->Some_0;
        assert(child_names_of(m2) == child_names_of(m1));
        assert(child_names_of(m2).len() == m2.children.len());
        assert(child_names_of(m1).len() == m1.children.len());
        assert(m2.children.len() == m1.children.len());
        assert forall|j: int| 0 <= j < m2.children.len() implies (
        #[trigger] m2.children[j]).name == m1.children[j].name by {
            assert(child_names_of(m2)[j] == child_names_of(m1)[j]);
        }
        lemma_find_by_names(m2.children, m1.children, seg, 0);
        assert(find_idx(m2.children, seg) is Some);
        // The second pass's merge is a no-op: the child was created
        // holding every scan match.
        lemma_node_at_snoc(root1, cur, seg, 0);
        assert(m1.children[node.children.len() as int] == child);
        assert(node_at(root1, d, 0) == Some(child));
        lemma_resolve_frame(root1, mv, dv, d, segs, i + 1, create, fuel, d.len() as int);
        assert(node_at(t, d, 0)->Some_0.backing == child.backing);
        lemma_merge_noop(t, d, 0, ms);
        assert(resolve_m(t, mv, dv, cur, segs, i, create, fuel) == (t, res));
    }
}

/// Mount/unmount round trip, for a filesystem without overlay mounts:
/// resolving-or-creating a path and adding a native location its node did
/// not hold (the mount), then resolving again (as the unmount does),
/// removing the location and unloading the subtree, restores the node's
/// pre-mount backing set exactly and leaves no cached children: a later
/// listing reflects only the remaining backing locations. The one input
/// left out is a location that was already mounted — there the removal
/// strips the earlier copy instead.
pub proof fn law_mount_unmount_round_trip(
    root: FcbV,
    mv: Seq<(Seq<char>, Seq<Seq<char>>)>,
    dv: Seq<(Seq<char>, Seq<Seq<char>>)>,
    segs: Seq<Seq<char>>,
    fuel: nat,
    p: Seq<char>,
)
    requires
        mv.len() == 0,
        resolve_m(root, mv, dv, Seq::<Seq<char>>::empty(), segs, 0, true, fuel).1 is Ok,
        ({
            let (t, res) = resolve_m(root, mv, dv, Seq::<Seq<char>>::empty(), segs, 0, true, fuel);
            !crate::strutil::seq_contains_string(node_at(t, res->Ok_0, 0)->Some_0.backing, p)
        }),
    ensures
        ({
            let (t, res) = resolve_m(root, mv, dv, Seq::<Seq<char>>::empty(), segs, 0, true, fuel);
            let c = res->Ok_0;
            let n = node_at(t, c, 0)->Some_0;
            let s1 = edit_at(t, c, 0, EditV::AddBacking(p));
            &&& node_at(t, c, 0) is Some
            &&& node_at(s1, c, 0) == Some(FcbV { backing: n.backing.push(p), ..n })
            &&& resolve_m(s1, mv, dv, Seq::<Seq<char>>::empty(), segs, 0, true, fuel) == (
                s1,
                res,
            )
            &&& ({
                let s2 = edit_at(
                    edit_at(s1, c, 0, EditV::RemoveBacking(p)),
                    c,
                    0,
                    EditV::ClearChildren,
                );
                node_at(s2, c, 0) == Some(
                    FcbV {
                        name: n.name,
                        path: n.path,
                        backing: n.backing,
                        children: Seq::<FcbV>::empty(),
                    },
                )
            })
        }),
{
    crate::filesystem::lemma_resolve_ok(
        root,
        mv,
        dv,
        Seq::<Seq<char>>::empty(),
        segs,
        0,
        true,
        fuel,
    );
    let (t, res) = resolve_m(root, mv, dv, Seq::<Seq<char>>::empty(), segs, 0, true, fuel);
    let c = res->Ok_0;
    lemma_resolve_after_add_backing(
        root,
        mv,
        dv,
        Seq::<Seq<char>>::empty(),
        segs,
        0,
        true,
        fuel,
        p,
    );
    law_mount_native_roundtrip(t, c, p);
}

/// `add_if_absent` adds nothing but the one entry.
proof fn lemma_add_if_absent_members(b: Seq<Seq<char>>, p: Seq<char>, x: Seq<char>)
    requires
        crate::strutil::seq_contains_string(crate::filesystem::add_if_absent(b, p), x),
    ensures
        crate::strutil::seq_contains_string(b, x) || x == p,
{
    if !crate::strutil::seq_contains_string(b, p) {
        let r = b.push(p);
        let w = choose|i: int| 0 <= i < r.len() && r[i] == x;
        if w < b.len() {
            assert(b[w] == x);
        }
    }
}

/// `append_absent` adds nothing but the appended entries.
proof fn lemma_append_absent_members(
    acc: Seq<Seq<char>>,
    xs: Seq<Seq<char>>,
    n: int,
    x: Seq<char>,
)
    requires
        0 <= n <= xs.len(),
        crate::strutil::seq_contains_string(
            crate::filesystem::append_absent_n(acc, xs, n),
            x,
        ),
    ensures
        crate::strutil::seq_contains_string(acc, x) || crate::strutil::seq_contains_string(
            xs.take(n),
            x,
        ),
    decreases n,
{
    if n > 0 {
        let prev = crate::filesystem::append_absent_n(acc, xs, n - 1);
        lemma_add_if_absent_members(prev, xs[n - 1], x);
        if crate::strutil::seq_contains_string(prev, x) {
            lemma_append_absent_members(acc, xs, n - 1, x);
            if crate::strutil::seq_contains_string(xs.take(n - 1), x) {
                let w = choose|i: int| 0 <= i < xs.take(n - 1).len() && #[trigger] xs.take(
                    n - 1,
                )[i] == x;
                assert(xs.take(n)[w] == x);
            }
        } else {
            assert(xs.take(n)[n - 1] == x);
        }
    }
}

/// Every name a backing scan yields appears under one of the scanned
/// backing locations.
proof fn lemma_scan_names_members(
    dv: Seq<(Seq<char>, Seq<Seq<char>>)>,
    backing: Seq<Seq<char>>,
    n: int,
    x: Seq<char>,
)
    requires
        0 <= n <= backing.len(),
        crate::strutil::seq_contains_string(
            crate::filesystem::scan_names_n(dv, backing, n),
            x,
        ),
    ensures
        exists|i: int|
            0 <= i < n && crate::strutil::seq_contains_string(
                crate::disk::disk_entries(dv, #[trigger] backing[i]),
                x,
            ),
    decreases n,
{
    if n > 0 {
        let prev = crate::filesystem::scan_names_n(dv, backing, n - 1);
        let entries = crate::disk::disk_entries(dv, backing[n - 1]);
        lemma_append_absent_members(prev, entries, entries.len() as int, x);
        if crate::strutil::seq_contains_string(prev, x) {
            lemma_scan_names_members(dv, backing, n - 1, x);
        } else {
            assert(entries.take(entries.len() as int) =~= entries);
        }
    }
}

/// With no overlay mounts, a listing reflects only what currently backs
/// the node: every listed name appears under one of the node's current
/// backing locations, or names an already-materialized child. After a
/// native mount is undone the backing set is restored and the children
/// unloaded, so nothing scanned only under the unmounted location can
/// appear any more.
pub proof fn law_listdir_reflects_backing(
    root: FcbV,
    mv: Seq<(Seq<char>, Seq<Seq<char>>)>,
    dv: Seq<(Seq<char>, Seq<Seq<char>>)>,
    segs: Seq<Seq<char>>,
    fuel: nat,
)
    requires
        mv.len() == 0,
    ensures
        ({
            let (r1, res) = listdir_m(root, mv, dv, segs, fuel);
            res is Ok ==> {
                let rsv = resolve_m(root, mv, dv, Seq::<Seq<char>>::empty(), segs, 0, false, fuel);
                &&& rsv.1 is Ok
                &&& node_at(rsv.0, rsv.1->Ok_0, 0) is Some
                &&& {
                    let n = node_at(rsv.0, rsv.1->Ok_0, 0)->Some_0;
                    forall|q: int|
                        0 <= q < res->Ok_0.len() ==> (exists|i: int|
                            0 <= i < n.backing.len() && crate::strutil::seq_contains_string(
                                crate::disk::disk_entries(dv, #[trigger] n.backing[i]),
                                #[trigger] res->Ok_0[q],
                            )) || crate::strutil::seq_contains_string(
                            child_names_of(n),
                            res->Ok_0[q],
                        )
                }
            }
        }),
{
    let (r1, res) = listdir_m(root, mv, dv, segs, fuel);
    if res is Ok {
        let rsv = resolve_m(root, mv, dv, Seq::<Seq<char>>::empty(), segs, 0, false, fuel);
        crate::filesystem::lemma_resolve_ok(
            root,
            mv,
            dv,
            Seq::<Seq<char>>::empty(),
            segs,
            0,
            false,
            fuel,
        );
        let n = node_at(rsv.0, rsv.1->Ok_0, 0)->Some_0;
        assert(mount_sources(mv, n.path) =~= Seq::<Seq<char>>::empty());
        let base = scan_names(dv, n.backing);
        let with_children = append_absent(base, child_names_of(n));
        assert(listdir_sources_m(rsv.0, mv, dv, mount_sources(mv, n.path), 0, with_children, fuel)
            == (rsv.0, with_children));
        assert(res->Ok_0 == with_children);
        assert forall|q: int| 0 <= q < res->Ok_0.len() implies (exists|i: int|
            0 <= i < n.backing.len() && crate::strutil::seq_contains_string(
                crate::disk::disk_entries(dv, #[trigger] n.backing[i]),
                #[trigger] res->Ok_0[q],
            )) || crate::strutil::seq_contains_string(child_names_of(n), res->Ok_0[q]) by {
            let x = res->Ok_0[q];
            assert(crate::strutil::seq_contains_string(with_children, x));
            lemma_append_absent_members(
                base,
                child_names_of(n),
                child_names_of(n).len() as int,
                x,
            );
            if crate::strutil::seq_contains_string(base, x) {
                lemma_scan_names_members(dv, n.backing, n.backing.len() as int, x);
            } else {
                assert(child_names_of(n).take(child_names_of(n).len() as int) =~= child_names_of(
                    n,
                ));
            }
        }
    }
}

/// With no overlay mounts, a successful resolution's chain is the
/// starting chain followed by the remaining segments.
proof fn lemma_chain_shape(
    root: FcbV,
    mv: Seq<(Seq<char>, Seq<Seq<char>>)>,
    dv: Seq<(Seq<char>, Seq<Seq<char>>)>,
    cur: Seq<Seq<char>>,
    segs: Seq<Seq<char>>,
    i: int,
    create: bool,
    fuel: nat,
)
    requires
        mv.len() == 0,
        0 <= i,
    ensures
        ({
            let (t, res) = resolve_m(root, mv, dv, cur, segs, i, create, fuel);
            res is Ok ==> res->Ok_0 == cur + segs.skip(if i <= segs.len() {
                i
            } else {
                segs.len() as int
            })
        }),
    decreases fuel, 1int, segs.len() - i, 0int,
{
    match node_at(root, cur, 0) {
        Option::None => {},
        Option::Some(node) => {
            if i >= segs.len() {
                assert(cur + segs.skip(segs.len() as int) =~= cur);
            } else {
                let seg = segs[i];
                let d = cur.push(seg);
                let ms = crate::filesystem::scan_matches(dv, node.backing, seg);
                assert(d + segs.skip(i + 1) =~= cur + segs.skip(i));
                if find_idx(node.children, seg) is Some {
                    let root1 = edit_at(root, d, 0, EditV::MergeBacking(ms));
                    lemma_chain_shape(root1, mv, dv, d, segs, i + 1, create, fuel);
                } else if ms.len() > 0 {
                    let child = FcbV {
                        name: seg,
                        path: crate::strutil::path_join(node.path, seg),
                        backing: ms,
                        children: Seq::<FcbV>::empty(),
                    };
                    let root1 = edit_at(root, cur, 0, EditV::AddChild(child));
                    lemma_chain_shape(root1, mv, dv, d, segs, i + 1, create, fuel);
                } else {
                    assert(mount_sources(mv, node.path) =~= Seq::<Seq<char>>::empty());
                    let probed = try_sources_m(
                        root,
                        mv,
                        dv,
                        mount_sources(mv, node.path),
                        0,
                        seg,
                        fuel,
                    );
                    assert(probed == (root, Option::<Seq<Seq<char>>>::None));
                    if create {
                        let child = FcbV {
                            name: seg,
                            path: crate::strutil::path_join(node.path, seg),
                            backing: crate::filesystem::join_all(node.backing, seg),
                            children: Seq::<FcbV>::empty(),
                        };
                        let root1 = edit_at(root, cur, 0, EditV::AddChild(child));
                        lemma_chain_shape(root1, mv, dv, d, segs, i + 1, create, fuel);
                    }
                }
            }
        },
    }
}

/// With no overlay mounts, adding a backing location to the node a
/// resolution returned does not disturb a repeated resolution: the same
/// chain comes back and the tree is left alone. This is the step between
/// mounting a native path and unmounting it again.
pub proof fn lemma_resolve_after_add_backing(
    root: FcbV,
    mv: Seq<(Seq<char>, Seq<Seq<char>>)>,
    dv: Seq<(Seq<char>, Seq<Seq<char>>)>,
    cur: Seq<Seq<char>>,
    segs: Seq<Seq<char>>,
    i: int,
    create: bool,
    fuel: nat,
    p: Seq<char>,
)
    requires
        mv.len() == 0,
        0 <= i,
    ensures
        ({
            let (t, res) = resolve_m(root, mv, dv, cur, segs, i, create, fuel);
            res is Ok ==> {
                let x = edit_at(t, res->Ok_0, 0, EditV::AddBacking(p));
                resolve_m(x, mv, dv, cur, segs, i, create, fuel) == (x, res)
            }
        }),
    decreases fuel, 1int, segs.len() - i, 1int,
{
    match node_at(root, cur, 0) {
        Option::None => {},
        Option::Some(node) => {
            if i >= segs.len() {
                lemma_node_at_after_edit(root, cur, 0, EditV::AddBacking(p));
            } else {
                let seg = segs[i];
                let d = cur.push(seg);
                let ms = crate::filesystem::scan_matches(dv, node.backing, seg);
                assert(d.take(cur.len() as int) =~= cur);
                assert(d.take(d.len() as int) =~= d);
                if find_idx(node.children, seg) is Some {
                    let root1 = edit_at(root, d, 0, EditV::MergeBacking(ms));
                    let (t, res) = resolve_m(root1, mv, dv, d, segs, i + 1, create, fuel);
                    if res is Ok {
                        let c = res->Ok_0;
                        lemma_chain_shape(root1, mv, dv, d, segs, i + 1, create, fuel);
                        assert(cur.len() < c.len() && d.len() <= c.len()) by {
                            assert(c == d + segs.skip(i + 1));
                        }
                        assert(c.take(cur.len() as int) =~= cur);
                        assert(c.take(d.len() as int) =~= d);
                        let x = edit_at(t, c, 0, EditV::AddBacking(p));
                        lemma_resolve_after_add_backing(
                            root1, mv, dv, d, segs, i + 1, create, fuel, p,
                        );
                        // The node at `cur` reads the same in `x`.
                        lemma_edit_frame_prefix(root, d, 0, EditV::MergeBacking(ms), cur.len() as int);
                        lemma_resolve_frame(root1, mv, dv, d, segs, i + 1, create, fuel, cur.len() as int);
                        lemma_edit_frame_prefix(t, c, 0, EditV::AddBacking(p), cur.len() as int);
                        let m1 = node_at(root1, cur, 0)->Some_0;
                        let m2 = node_at(t, cur, 0)->Some_0;
                        let mx = node_at(x, cur, 0)->Some_0;
                        assert(child_names_of(m1) == child_names_of(node));
                        assert(child_names_of(m2) == child_names_of(m1));
                        assert(child_names_of(mx) == child_names_of(m2));
                        assert(child_names_of(mx).len() == mx.children.len());
                        assert(child_names_of(node).len() == node.children.len());
                        assert(mx.children.len() == node.children.len());
                        assert forall|j: int| 0 <= j < mx.children.len() implies (
                        #[trigger] mx.children[j]).name == node.children[j].name by {
                            assert(child_names_of(mx)[j] == child_names_of(node)[j]);
                        }
                        lemma_find_by_names(mx.children, node.children, seg, 0);
                        // The second pass's merge changes nothing in `x`.
                        crate::fcb::lemma_find_idx_some(node.children, seg, 0);
                        lemma_node_at_snoc(root, cur, seg, 0);
                        lemma_node_at_after_edit(root, d, 0, EditV::MergeBacking(ms));
                        let cb = node_at(root, d, 0)->Some_0.backing;
                        lemma_append_absent_superset(cb, ms, ms.len() as int);
                        lemma_resolve_frame(root1, mv, dv, d, segs, i + 1, create, fuel, d.len() as int);
                        if d.len() == c.len() {
                            assert(d =~= c);
                            lemma_node_at_after_edit(t, c, 0, EditV::AddBacking(p));
                            assert forall|j: int| 0 <= j < ms.len() implies crate::strutil::seq_contains_string(
                                node_at(x, d, 0)->Some_0.backing,
                                #[trigger] ms[j],
                            ) by {
                                assert(crate::strutil::seq_contains_string(
                                    node_at(t, d, 0)->Some_0.backing,
                                    ms[j],
                                ));
                                lemma_add_if_absent_contains(
                                    node_at(t, d, 0)->Some_0.backing,
                                    p,
                                    ms[j],
                                );
                            }
                        } else {
                            lemma_edit_frame_prefix(t, c, 0, EditV::AddBacking(p), d.len() as int);
                        }
                        lemma_merge_noop(x, d, 0, ms);
                        assert(resolve_m(x, mv, dv, cur, segs, i, create, fuel) == (x, res));
                    }
                } else if ms.len() > 0 {
                    let child = FcbV {
                        name: seg,
                        path: crate::strutil::path_join(node.path, seg),
                        backing: ms,
                        children: Seq::<FcbV>::empty(),
                    };
                    lemma_readd_after_create(root, mv, dv, cur, segs, i, create, fuel, p, child);
                } else {
                    assert(mount_sources(mv, node.path) =~= Seq::<Seq<char>>::empty());
                    let probed = try_sources_m(
                        root,
                        mv,
                        dv,
                        mount_sources(mv, node.path),
                        0,
                        seg,
                        fuel,
                    );
                    assert(probed == (root, Option::<Seq<Seq<char>>>::None));
                    if create {
                        let child = FcbV {
                            name: seg,
                            path: crate::strutil::path_join(node.path, seg),
                            backing: crate::filesystem::join_all(node.backing, seg),
                            children: Seq::<FcbV>::empty(),
                        };
                        lemma_readd_after_create(
                            root, mv, dv, cur, segs, i, create, fuel, p, child,
                        );
                    }
                }
            }
        },
    }
}

/// The materializing half of the re-resolution argument, after a backing
/// location was added to the final node.
proof fn lemma_readd_after_create(
    root: FcbV,
    mv: Seq<(Seq<char>, Seq<Seq<char>>)>,
    dv: Seq<(Seq<char>, Seq<Seq<char>>)>,
    cur: Seq<Seq<char>>,
    segs: Seq<Seq<char>>,
    i: int,
    create: bool,
    fuel: nat,
    p: Seq<char>,
    child: FcbV,
)
    requires
        mv.len() == 0,
        0 <= i < segs.len(),
        node_at(root, cur, 0) is Some,
        find_idx(node_at(root, cur, 0)->Some_0.children, segs[i]) is None,
        child.name == segs[i],
        child.children == Seq::<FcbV>::empty(),
        forall|j: int|
            0 <= j < crate::filesystem::scan_matches(
                dv,
                node_at(root, cur, 0)->Some_0.backing,
                segs[i],
            ).len() ==> crate::strutil::seq_contains_string(
                child.backing,
                #[trigger] crate::filesystem::scan_matches(
                    dv,
                    node_at(root, cur, 0)->Some_0.backing,
                    segs[i],
                )[j],
            ),
    ensures
        ({
            let root1 = edit_at(root, cur, 0, EditV::AddChild(child));
            let (t, res) = resolve_m(
                root1,
                mv,
                dv,
                cur.push(segs[i]),
                segs,
                i + 1,
                create,
                fuel,
            );
            res is Ok ==> {
                let x = edit_at(t, res->Ok_0, 0, EditV::AddBacking(p));
                resolve_m(x, mv, dv, cur, segs, i, create, fuel) == (x, res)
            }
        }),
    decreases fuel, 1int, segs.len() - i, 0int,
{
    let node = node_at(root, cur, 0)->Some_0;
    let seg = segs[i];
    let d = cur.push(seg);
    let ms = crate::filesystem::scan_matches(dv, node.backing, seg);
    assert(d.take(cur.len() as int) =~= cur);
    assert(d.take(d.len() as int) =~= d);
    let root1 = edit_at(root, cur, 0, EditV::AddChild(child));
    let (t, res) = resolve_m(root1, mv, dv, d, segs, i + 1, create, fuel);
    if res is Ok {
        let c = res->Ok_0;
        lemma_chain_shape(root1, mv, dv, d, segs, i + 1, create, fuel);
        assert(cur.len() < c.len() && d.len() <= c.len()) by {
            assert(c == d + segs.skip(i + 1));
        }
        assert(c.take(cur.len() as int) =~= cur);
        assert(c.take(d.len() as int) =~= d);
        let x = edit_at(t, c, 0, EditV::AddBacking(p));
        lemma_resolve_after_add_backing(root1, mv, dv, d, segs, i + 1, create, fuel, p);
        // After the edit, the child is the last entry at `cur`, and it
        // stays found through the recursion and the backing addition.
        lemma_node_at_after_edit(root, cur, 0, EditV::AddChild(child));
        let m1 = node_at(root1, cur, 0)->Some_0;
        crate::fcb::lemma_find_idx_from_exists(node.children, seg, 0);
        lemma_find_idx_push(node.children, child, seg, 0);
        assert(find_idx(m1.children, seg) == Some(node.children.len() as int));
        lemma_resolve_frame(root1, mv, dv, d, segs, i + 1, create, fuel, cur.len() as int);
        lemma_edit_frame_prefix(t, c, 0, EditV::AddBacking(p), cur.len() as int);
        let m2 = node_at(t, cur, 0)->Some_0;
        let mx = node_at(x, cur, 0)->Some_0;
        assert(child_names_of(m2) == child_names_of(m1));
        assert(child_names_of(mx) == child_names_of(m2));
        assert(child_names_of(mx).len() == mx.children.len());
        assert(child_names_of(m1).len() == m1.children.len());
        assert(mx.children.len() == m1.children.len());
        assert forall|j: int| 0 <= j < mx.children.len() implies (
        #[trigger] mx.children[j]).name == m1.children[j].name by {
            assert(child_names_of(mx)[j] == child_names_of(m1)[j]);
        }
        lemma_find_by_names(mx.children, m1.children, seg, 0);
        assert(find_idx(mx.children, seg) is Some);
        // The second pass's merge changes nothing in `x`.
        lemma_node_at_snoc(root1, cur, seg, 0);
        assert(m1.children[node.children.len() as int] == child);
        assert(node_at(root1, d, 0) == Some(child));
        lemma_resolve_frame(root1, mv, dv, d, segs, i + 1, create, fuel, d.len() as int);
        assert(node_at(t, d, 0)->Some_0.backing == child.backing);
        if d.len() == c.len() {
            assert(d =~= c);
            lemma_node_at_after_edit(t, c, 0, EditV::AddBacking(p));
            assert forall|j: int| 0 <= j < ms.len() implies crate::strutil::seq_contains_string(
                node_at(x, d, 0)->Some_0.backing,
                #[trigger] ms[j],
            ) by {
                lemma_add_if_absent_contains(node_at(t, d, 0)->Some_0.backing, p, ms[j]);
            }
        } else {
            lemma_edit_frame_prefix(t, c, 0, EditV::AddBacking(p), d.len() as int);
        }
        lemma_merge_noop(x, d, 0, ms);
        assert(resolve_m(x, mv, dv, cur, segs, i, create, fuel) == (x, res));
    }
}

} // verus!
