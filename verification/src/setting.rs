//! The settings namespace: traversal by dot-separated keys, explicit
//! creation, default/override value layering, attribute merging, and
//! breadth-first flat JSON materialization.

use vstd::prelude::*;
use crate::disk::Disk;
use crate::error::Error;
use crate::json::{Json, JsonV, json_clone, json_eq, jview};
use crate::setting_item::{
    SettingItem, SettingV, attrs_view, fresh_sitem, lemma_sitems_view, sfind, sfind_from,
    sitem_view, sitems_view,
};
use crate::strutil::{lemma_deep_view_strings, split_segments, split_segs, str_eq};

verus! {

// ---------------------------------------------------------------------------
// Traversal and creation: the model.
// ---------------------------------------------------------------------------

/// The node reached by `chain[i..]`, or the first unresolved name.
pub open spec fn sresolve(n: SettingV, chain: Seq<Seq<char>>, i: int) -> Result<
    SettingV,
    Seq<char>,
>
    decreases chain.len() - i,
{
    if i < 0 || i >= chain.len() {
        Result::Ok(n)
    } else {
        match sfind(n.children, chain[i]) {
            Some(j) => sresolve(n.children[j], chain, i + 1),
            None => Result::Err(chain[i]),
        }
    }
}

/// The tree with every node along `segs[i..]` created where missing.
pub open spec fn screate_m(n: SettingV, segs: Seq<Seq<char>>, i: int) -> SettingV
    decreases segs.len() - i,
{
    if i < 0 || i >= segs.len() {
        n
    } else {
        match sfind(n.children, segs[i]) {
            Some(j) => SettingV {
                children: n.children.update(j, screate_m(n.children[j], segs, i + 1)),
                ..n
            },
            None => SettingV {
                children: n.children.push(screate_m(fresh_sitem(segs[i]), segs, i + 1)),
                ..n
            },
        }
    }
}

/// A first-match search only reads names: updating an entry to one with
/// the same name leaves it unchanged.
pub proof fn lemma_sfind_update(cs: Seq<SettingV>, j: int, c: SettingV, name: Seq<char>, k: int)
    requires
        0 <= j < cs.len(),
        c.name == cs[j].name,
        0 <= k <= cs.len(),
    ensures
        sfind_from(cs.update(j, c), name, k) == sfind_from(cs, name, k),
    decreases cs.len() - k,
{
    if k < cs.len() {
        lemma_sfind_update(cs, j, c, name, k + 1);
    }
}

/// Appending a node extends a failed first-match search to find it.
pub proof fn lemma_sfind_push(cs: Seq<SettingV>, c: SettingV, name: Seq<char>, k: int)
    requires
        0 <= k <= cs.len(),
        sfind_from(cs, name, k) is None,
    ensures
        sfind_from(cs.push(c), name, k) == (if c.name == name {
            Some(cs.len() as int)
        } else {
            Option::<int>::None
        }),
    decreases cs.len() - k,
{
    if k == cs.len() {
        assert(cs.push(c)[k] == c);
    } else {
        lemma_sfind_push(cs, c, name, k + 1);
    }
}

/// A successful first-match search returns an index in range whose node
/// has the name searched for.
pub proof fn lemma_sfind_some(cs: Seq<SettingV>, name: Seq<char>, k: int)
    requires
        0 <= k <= cs.len(),
    ensures
        match sfind_from(cs, name, k) {
            Some(j) => k <= j < cs.len() && cs[j].name == name,
            None => true,
        },
    decreases cs.len() - k,
{
    if k < cs.len() {
        lemma_sfind_some(cs, name, k + 1);
    }
}

/// Creation only grows children lists; it never renames a node.
pub proof fn lemma_screate_same_node(n: SettingV, segs: Seq<Seq<char>>, i: int)
    ensures
        screate_m(n, segs, i).name == n.name,
        screate_m(n, segs, i).value == n.value,
        screate_m(n, segs, i).default_value == n.default_value,
        screate_m(n, segs, i).attribute == n.attribute,
    decreases segs.len() - i,
{
}

/// After creation, the whole chain resolves.
pub proof fn lemma_screate_resolves(n: SettingV, segs: Seq<Seq<char>>, i: int)
    ensures
        sresolve(screate_m(n, segs, i), segs, i) is Ok,
    decreases segs.len() - i,
{
    if 0 <= i && i < segs.len() {
        lemma_sfind_some(n.children, segs[i], 0);
        match sfind(n.children, segs[i]) {
            Some(j) => {
                let c1 = screate_m(n.children[j], segs, i + 1);
                lemma_screate_same_node(n.children[j], segs, i + 1);
                lemma_sfind_update(n.children, j, c1, segs[i], 0);
                lemma_screate_resolves(n.children[j], segs, i + 1);
            },
            None => {
                let c1 = screate_m(fresh_sitem(segs[i]), segs, i + 1);
                lemma_screate_same_node(fresh_sitem(segs[i]), segs, i + 1);
                lemma_sfind_push(n.children, c1, segs[i], 0);
                lemma_screate_resolves(fresh_sitem(segs[i]), segs, i + 1);
            },
        }
    }
}

// ---------------------------------------------------------------------------
// Edits: the model.
// ---------------------------------------------------------------------------

/// The first attribute index at or after `i` named `k`.
pub open spec fn pfind_from(ps: Seq<(Seq<char>, JsonV)>, k: Seq<char>, i: int) -> Option<int>
    decreases ps.len() - i,
{
    if i < 0 || i >= ps.len() {
        None
    } else if ps[i].0 == k {
        Some(i)
    } else {
        pfind_from(ps, k, i + 1)
    }
}

/// `x` with the field `k` set to `v`: replaced in place, or appended.
pub open spec fn obj_set(
    x: Seq<(Seq<char>, JsonV)>,
    k: Seq<char>,
    v: JsonV,
) -> Seq<(Seq<char>, JsonV)> {
    match pfind_from(x, k, 0) {
        Some(i) => x.update(i, (x[i].0, v)),
        None => x.push((k, v)),
    }
}

/// The first `n` fields of `y` folded into `x`: a shallow key union where
/// later fields win on conflicts.
pub open spec fn obj_union_n(
    x: Seq<(Seq<char>, JsonV)>,
    y: Seq<(Seq<char>, JsonV)>,
    n: int,
) -> Seq<(Seq<char>, JsonV)>
    decreases n,
{
    if n <= 0 {
        x
    } else {
        obj_set(obj_union_n(x, y, n - 1), y[n - 1].0, y[n - 1].1)
    }
}

/// The shallow key union of two objects; `y` wins on conflicts.
pub open spec fn obj_union(
    x: Seq<(Seq<char>, JsonV)>,
    y: Seq<(Seq<char>, JsonV)>,
) -> Seq<(Seq<char>, JsonV)> {
    obj_union_n(x, y, y.len() as int)
}

/// The attribute list after one update of `name`: two objects take their
/// shallow key union (new keys win), two arrays concatenate, and any other
/// combination replaces the attribute.
pub open spec fn attr_merge(
    ps: Seq<(Seq<char>, JsonV)>,
    name: Seq<char>,
    v: JsonV,
) -> Seq<(Seq<char>, JsonV)> {
    match pfind_from(ps, name, 0) {
        Some(i) => {
            let merged = match (ps[i].1, v) {
                (JsonV::Obj(x), JsonV::Obj(y)) => JsonV::Obj(obj_union(x, y)),
                (JsonV::Arr(x), JsonV::Arr(y)) => JsonV::Arr(x + y),
                _ => v,
            };
            ps.update(i, (ps[i].0, merged))
        },
        None => ps.push((name, v)),
    }
}

/// One local edit of a settings node.
pub enum SettingEdit {
    /// Sets the current value: an explicit override.
    Update(Json),
    /// Sets the default; an unmodified node keeps tracking it.
    UpdateDefault(Json),
    /// Merges one attribute.
    UpdateAttr(String, Json),
}

/// The shape of a settings edit.
pub enum SEditV {
    Update(JsonV),
    UpdateDefault(JsonV),
    UpdateAttr(Seq<char>, JsonV),
}

pub open spec fn sedit_view(e: SettingEdit) -> SEditV {
    match e {
        SettingEdit::Update(v) => SEditV::Update(jview(v)),
        SettingEdit::UpdateDefault(v) => SEditV::UpdateDefault(jview(v)),
        SettingEdit::UpdateAttr(k, v) => SEditV::UpdateAttr(k@, jview(v)),
    }
}

/// One edit applied to a node itself.
pub open spec fn sedit_node(n: SettingV, e: SEditV) -> SettingV {
    match e {
        SEditV::Update(v) => SettingV { value: v, ..n },
        SEditV::UpdateDefault(v) => {
            if n.value == n.default_value {
                SettingV { value: v, default_value: v, ..n }
            } else {
                SettingV { default_value: v, ..n }
            }
        },
        SEditV::UpdateAttr(k, v) => SettingV { attribute: attr_merge(n.attribute, k, v), ..n },
    }
}

/// One edit applied at the node reached by `chain[i..]`; a chain that does
/// not resolve leaves the tree unchanged.
pub open spec fn sedit_at(n: SettingV, chain: Seq<Seq<char>>, i: int, e: SEditV) -> SettingV
    decreases chain.len() - i,
{
    if i < 0 || i >= chain.len() {
        sedit_node(n, e)
    } else {
        match sfind(n.children, chain[i]) {
            Some(j) => SettingV {
                children: n.children.update(j, sedit_at(n.children[j], chain, i + 1, e)),
                ..n
            },
            None => n,
        }
    }
}

// ---------------------------------------------------------------------------
// Traversal and creation: executable.
// ---------------------------------------------------------------------------

/// Creates every node along `segs[i..]` that is missing.
fn screate(node: &mut SettingItem, segs: &Vec<String>, i: usize)
    requires
        i <= segs@.len(),
    ensures
        sitem_view(*final(node)) == screate_m(sitem_view(*old(node)), segs.deep_view(), i as int),
    decreases segs@.len() - i,
{
    proof {
        lemma_deep_view_strings(segs);
    }
    if i == segs.len() {
        return ;
    }
    let r = node.find(segs[i].as_str());
    match r {
        Some(j) => {
            proof {
                lemma_sitems_view(node.children@);
            }
            let ghost pre = node.children@;
            let mut child = node.children.remove(j);
            screate(&mut child, segs, i + 1);
            node.children.insert(j, child);
            proof {
                lemma_sitems_view(pre);
                lemma_sitems_view(node.children@);
                assert(node.children@ =~= pre.update(j as int, node.children@[j as int]));
                assert(sitems_view(node.children@) =~= sitems_view(pre).update(
                    j as int,
                    sitem_view(node.children@[j as int]),
                ));
            }
        },
        None => {
            let mut child = SettingItem::new(segs[i].clone());
            screate(&mut child, segs, i + 1);
            let ghost pre = node.children@;
            node.children.push(child);
            proof {
                lemma_sitems_view(pre);
                lemma_sitems_view(node.children@);
                assert(node.children@.drop_last() =~= pre);
                assert(sitems_view(node.children@) =~= sitems_view(pre).push(
                    sitem_view(node.children@.last()),
                ));
            }
        },
    }
}

/// Applies one edit at the node reached by `segs[i..]`.
fn sapply_at(node: &mut SettingItem, segs: &Vec<String>, i: usize, e: SettingEdit)
    requires
        i <= segs@.len(),
    ensures
        sitem_view(*final(node)) == sedit_at(
            sitem_view(*old(node)),
            segs.deep_view(),
            i as int,
            sedit_view(e),
        ),
    decreases segs@.len() - i,
{
    proof {
        lemma_deep_view_strings(segs);
    }
    if i == segs.len() {
        let ghost n0 = sitem_view(*old(node));
        match e {
            SettingEdit::Update(v) => {
                node.value = v;
            },
            SettingEdit::UpdateDefault(v) => {
                if json_eq(&node.value, &node.default_value) {
                    node.value = json_clone(&v);
                    node.default_value = v;
                } else {
                    node.default_value = v;
                }
            },
            SettingEdit::UpdateAttr(name, v) => {
                let ghost ps0 = attrs_view(node.attribute@);
                let found = find_pair(&node.attribute, &name);
                match found {
                    Some(pi) => {
                        let mut pair = node.attribute.remove(pi);
                        let merged = merge_attr_value(pair.1, v);
                        pair.1 = merged;
                        node.attribute.insert(pi, pair);
                        proof {
                            assert(attrs_view(node.attribute@) =~= attr_merge(
                                ps0,
                                name@,
                                jview(v),
                            ));
                        }
                    },
                    None => {
                        node.attribute.push((name, v));
                        proof {
                            assert(attrs_view(node.attribute@) =~= attr_merge(
                                ps0,
                                name@,
                                jview(v),
                            ));
                        }
                    },
                }
            },
        }
    } else {
        let r = node.find(segs[i].as_str());
        match r {
            Some(j) => {
                proof {
                    lemma_sitems_view(node.children@);
                }
                let ghost pre = node.children@;
                let mut child = node.children.remove(j);
                sapply_at(&mut child, segs, i + 1, e);
                node.children.insert(j, child);
                proof {
                    lemma_sitems_view(pre);
                    lemma_sitems_view(node.children@);
                    assert(node.children@ =~= pre.update(j as int, node.children@[j as int]));
                    assert(sitems_view(node.children@) =~= sitems_view(pre).update(
                        j as int,
                        sitem_view(node.children@[j as int]),
                    ));
                }
            },
            None => {
            },
        }
    }
}

/// Finds the first attribute named `k`.
fn find_pair(ps: &Vec<(String, Json)>, k: &String) -> (r: Option<usize>)
    ensures
        match r {
            Some(i) => i < ps@.len() && pfind_from(attrs_view(ps@), k@, 0) == Some(i as int),
            None => pfind_from(attrs_view(ps@), k@, 0) is None,
        },
{
    let ghost pv = attrs_view(ps@);
    let mut i: usize = 0;
    while i < ps.len()
        invariant
            i <= ps@.len(),
            pv == attrs_view(ps@),
            pv.len() == ps@.len(),
            pfind_from(pv, k@, 0) == pfind_from(pv, k@, i as int),
        decreases ps@.len() - i,
    {
        if str_eq(ps[i].0.as_str(), k.as_str()) {
            return Some(i);
        }
        i = i + 1;
    }
    None
}

/// Merges one attribute value into an existing one: object with object,
/// array with array, otherwise replacement.
fn merge_attr_value(old_v: Json, new_v: Json) -> (r: Json)
    ensures
        jview(r) == (match (jview(old_v), jview(new_v)) {
            (JsonV::Obj(x), JsonV::Obj(y)) => JsonV::Obj(obj_union(x, y)),
            (JsonV::Arr(x), JsonV::Arr(y)) => JsonV::Arr(x + y),
            _ => jview(new_v),
        }),
{
    match (old_v, new_v) {
        (Json::Obj(x), Json::Obj(y)) => {
            proof {
                crate::json::lemma_jviews_obj(x@);
                crate::json::lemma_jviews_obj(y@);
            }
            let merged = obj_union_exec(x, y);
            Json::Obj(merged)
        },
        (Json::Arr(mut x), Json::Arr(y)) => {
            proof {
                crate::json::lemma_jviews(x@);
                crate::json::lemma_jviews(y@);
            }
            let ghost x0 = x@;
            let ghost y0 = y@;
            let mut y = y;
            x.append(&mut y);
            proof {
                crate::json::lemma_jviews(x@);
                assert(crate::json::jviews(x@) =~= crate::json::jviews(x0) + crate::json::jviews(
                    y0,
                ));
            }
            Json::Arr(x)
        },
        (_, v) => v,
    }
}

/// The shallow key union of two field lists; `y` wins on conflicts.
fn obj_union_exec(x: Vec<(String, Json)>, y: Vec<(String, Json)>) -> (r: Vec<(String, Json)>)
    ensures
        crate::json::jviews_obj(r@) == obj_union(
            crate::json::jviews_obj(x@),
            crate::json::jviews_obj(y@),
        ),
{
    proof {
        crate::json::lemma_jviews_obj(x@);
        crate::json::lemma_jviews_obj(y@);
    }
    let ghost xv = crate::json::jviews_obj(x@);
    let ghost yv = crate::json::jviews_obj(y@);
    let mut out = x;
    let mut k: usize = 0;
    while k < y.len()
        invariant
            k <= y@.len(),
            yv == crate::json::jviews_obj(y@),
            yv.len() == y@.len(),
            forall|j: int| 0 <= j < y@.len() ==> yv[j] == (y@[j].0@, jview(y@[j].1)),
            crate::json::jviews_obj(out@) == obj_union_n(xv, yv, k as int),
        decreases y@.len() - k,
    {
        let ghost prev = crate::json::jviews_obj(out@);
        proof {
            crate::json::lemma_jviews_obj(out@);
        }
        let key = y[k].0.clone();
        let val = json_clone(&y[k].1);
        match find_pair_obj(&out, key.as_str()) {
            Some(i) => {
                let mut pair = out.remove(i);
                pair.1 = val;
                out.insert(i, pair);
                proof {
                    crate::json::lemma_jviews_obj(out@);
                    assert(crate::json::jviews_obj(out@) =~= obj_set(prev, key@, yv[k as int].1));
                }
            },
            None => {
                out.push((key, val));
                proof {
                    crate::json::lemma_jviews_obj(out@);
                    assert(crate::json::jviews_obj(out@) =~= obj_set(prev, key@, yv[k as int].1));
                }
            },
        }
        k = k + 1;
    }
    out
}

// ---------------------------------------------------------------------------
// Reads and the public operations.
// ---------------------------------------------------------------------------

/// The plain content of one settings node, as reported to clients.
#[derive(Debug)]
pub struct SettingData {
    pub name: String,
    pub value: Json,
    pub default_value: Json,
    pub attribute: Vec<(String, Json)>,
    pub child_names: Vec<String>,
}

/// The names of a node's children, in order.
pub open spec fn schild_names(n: SettingV) -> Seq<Seq<char>> {
    Seq::new(n.children.len(), |i: int| n.children[i].name)
}

/// Whether `d` reports exactly the content of `n`.
pub open spec fn reports_setting(d: SettingData, n: SettingV) -> bool {
    &&& d.name@ == n.name
    &&& jview(d.value) == n.value
    &&& jview(d.default_value) == n.default_value
    &&& attrs_view(d.attribute@) == n.attribute
    &&& d.child_names.deep_view() == schild_names(n)
}

/// Reads a copy of the node reached by `segs[i..]`, or the first
/// unresolved name.
fn sread(node: &SettingItem, segs: &Vec<String>, i: usize) -> (r: Result<SettingData, String>)
    requires
        i <= segs@.len(),
    ensures
        ({
            let res = sresolve(sitem_view(*node), segs.deep_view(), i as int);
            match r {
                Result::Ok(d) => res is Ok && reports_setting(d, res->Ok_0),
                Result::Err(name) => res is Err && name@ == res->Err_0,
            }
        }),
    decreases segs@.len() - i,
{
    proof {
        lemma_deep_view_strings(segs);
    }
    if i == segs.len() {
        let ghost n = sitem_view(*node);
        let mut attribute: Vec<(String, Json)> = Vec::new();
        let mut k: usize = 0;
        while k < node.attribute.len()
            invariant
                k <= node.attribute@.len(),
                n == sitem_view(*node),
                attribute@.len() == k,
                forall|j: int| 0 <= j < k ==> (attribute@[j].0@, jview(attribute@[j].1))
                    == n.attribute[j],
            decreases node.attribute@.len() - k,
        {
            let key = node.attribute[k].0.clone();
            let val = json_clone(&node.attribute[k].1);
            attribute.push((key, val));
            k = k + 1;
        }
        let mut child_names: Vec<String> = Vec::new();
        proof {
            lemma_sitems_view(node.children@);
        }
        let mut k2: usize = 0;
        while k2 < node.children.len()
            invariant
                k2 <= node.children@.len(),
                n == sitem_view(*node),
                n.children.len() == node.children@.len(),
                forall|j: int| 0 <= j < node.children@.len() ==> n.children[j] == sitem_view(
                    node.children@[j],
                ),
                child_names@.len() == k2,
                forall|j: int| 0 <= j < k2 ==> child_names@[j]@ == n.children[j].name,
            decreases node.children@.len() - k2,
        {
            child_names.push(node.children[k2].name.clone());
            k2 = k2 + 1;
        }
        let d = SettingData {
            name: node.name.clone(),
            value: json_clone(&node.value),
            default_value: json_clone(&node.default_value),
            attribute,
            child_names,
        };
        proof {
            lemma_deep_view_strings(&d.child_names);
            assert(d.child_names.deep_view() =~= schild_names(n));
            assert(attrs_view(d.attribute@) =~= n.attribute);
        }
        Ok(d)
    } else {
        let r = node.find(segs[i].as_str());
        match r {
            Some(j) => {
                proof {
                    lemma_sitems_view(node.children@);
                }
                sread(&node.children[j], segs, i + 1)
            },
            None => Err(segs[i].clone()),
        }
    }
}

/// Reads the settings node at `key`, failing with the first unresolved
/// name when absent.
pub fn get_settingitem(parent: &SettingItem, key: &String) -> (r: Result<SettingData, Error>)
    ensures
        ({
            let res = sresolve(sitem_view(*parent), split_segs(key@, true), 0);
            match r {
                Result::Ok(d) => res is Ok && reports_setting(d, res->Ok_0),
                Result::Err(e) => {
                    &&& res is Err
                    &&& e == Error::SettingNotExists(r->Err_0->SettingNotExists_0, *key)
                    &&& e->SettingNotExists_0@ == res->Err_0
                },
            }
        }),
{
    let segs = split_segments(key.as_str(), true);
    proof {
        lemma_deep_view_strings(&segs);
    }
    match sread(parent, &segs, 0) {
        Ok(d) => Ok(d),
        Err(name) => Err(Error::SettingNotExists(name, key.clone())),
    }
}

/// Resolves `key`, creating every missing node along it, and reports the
/// resolved node's content. Creation never fails.
pub fn get_or_create_settingitem(parent: &mut SettingItem, key: &String) -> (r: Result<
    SettingData,
    Error,
>)
    ensures
        sitem_view(*final(parent)) == screate_m(
            sitem_view(*old(parent)),
            split_segs(key@, true),
            0,
        ),
        r is Ok,
        ({
            let res = sresolve(sitem_view(*final(parent)), split_segs(key@, true), 0);
            res is Ok && reports_setting(r->Ok_0, res->Ok_0)
        }),
{
    let segs = split_segments(key.as_str(), true);
    proof {
        lemma_deep_view_strings(&segs);
    }
    screate(parent, &segs, 0);
    proof {
        lemma_screate_resolves(sitem_view(*old(parent)), segs.deep_view(), 0);
    }
    match sread(parent, &segs, 0) {
        Ok(d) => Ok(d),
        Err(name) => {
            proof {
                assert(false);
            }
            Err(Error::SettingNotExists(name, key.clone()))
        },
    }
}

/// The names of the children of the node at `key`.
pub fn list_children(parent: &SettingItem, key: &String) -> (r: Result<Vec<String>, Error>)
    ensures
        ({
            let res = sresolve(sitem_view(*parent), split_segs(key@, true), 0);
            match r {
                Result::Ok(names) => res is Ok && names.deep_view() == schild_names(res->Ok_0),
                Result::Err(e) => {
                    &&& res is Err
                    &&& e == Error::SettingNotExists(r->Err_0->SettingNotExists_0, *key)
                    &&& e->SettingNotExists_0@ == res->Err_0
                },
            }
        }),
{
    match get_settingitem(parent, key) {
        Ok(d) => Ok(d.child_names),
        Err(e) => Err(e),
    }
}

/// Resolves-or-creates `key` and sets its default value; a node whose
/// value still equals its default takes the new value too, staying
/// unmodified, while an explicit override is preserved.
pub fn add_or_update_default_setting(parent: &mut SettingItem, key: &String, value: Json) -> (r:
    Result<(), Error>)
    ensures
        r is Ok,
        sitem_view(*final(parent)) == sedit_at(
            screate_m(sitem_view(*old(parent)), split_segs(key@, true), 0),
            split_segs(key@, true),
            0,
            SEditV::UpdateDefault(jview(value)),
        ),
{
    let segs = split_segments(key.as_str(), true);
    proof {
        lemma_deep_view_strings(&segs);
    }
    screate(parent, &segs, 0);
    sapply_at(parent, &segs, 0, SettingEdit::UpdateDefault(value));
    Ok(())
}

/// Resolves-or-creates `key` and sets its current value: an explicit
/// override, which breaks the unmodified link unless it equals the
/// default.
pub fn add_or_update_setting(parent: &mut SettingItem, key: &String, value: Json) -> (r: Result<
    (),
    Error,
>)
    ensures
        r is Ok,
        sitem_view(*final(parent)) == sedit_at(
            screate_m(sitem_view(*old(parent)), split_segs(key@, true), 0),
            split_segs(key@, true),
            0,
            SEditV::Update(jview(value)),
        ),
{
    let segs = split_segments(key.as_str(), true);
    proof {
        lemma_deep_view_strings(&segs);
    }
    screate(parent, &segs, 0);
    sapply_at(parent, &segs, 0, SettingEdit::Update(value));
    Ok(())
}

/// Resolves-or-creates `key` and merges the attribute `attr_name`: two
/// objects take their shallow key union (new keys win), two arrays
/// concatenate in call order, anything else replaces the attribute.
pub fn add_or_update_attr(
    parent: &mut SettingItem,
    key: &String,
    attr_name: &String,
    attr: Json,
) -> (r: Result<(), Error>)
    ensures
        r is Ok,
        sitem_view(*final(parent)) == sedit_at(
            screate_m(sitem_view(*old(parent)), split_segs(key@, true), 0),
            split_segs(key@, true),
            0,
            SEditV::UpdateAttr(attr_name@, jview(attr)),
        ),
{
    let segs = split_segments(key.as_str(), true);
    proof {
        lemma_deep_view_strings(&segs);
    }
    screate(parent, &segs, 0);
    sapply_at(parent, &segs, 0, SettingEdit::UpdateAttr(attr_name.clone(), attr));
    Ok(())
}

// ---------------------------------------------------------------------------
// Flat JSON materialization: a breadth-first walk over the descendants,
// one level at a time.
// ---------------------------------------------------------------------------

/// The dotted key of a child under `prefix`.
pub open spec fn child_key(prefix: Seq<char>, name: Seq<char>) -> Seq<char> {
    if prefix.len() == 0 {
        name
    } else {
        prefix.push('.') + name
    }
}

/// The number of nodes in a subtree: the measure a breadth-first walk
/// shrinks.
pub open spec fn ssize(n: SettingV) -> nat
    decreases n, 0int,
{
    1 + ssum(n.children, n.children.len() as int)
}

/// The number of nodes in the first `k` subtrees.
pub open spec fn ssum(cs: Seq<SettingV>, k: int) -> nat
    decreases cs, k,
{
    if k <= 0 || k > cs.len() {
        0
    } else {
        proof {
            assert(decreases_to!(cs => cs[k - 1]));
        }
        ssum(cs, k - 1) + ssize(cs[k - 1])
    }
}

/// The children of `n`, each keyed under `key`: one breadth-first level
/// entry per child.
pub open spec fn child_entries(key: Seq<char>, n: SettingV) -> Seq<(Seq<char>, SettingV)> {
    Seq::new(n.children.len(), |i: int| (child_key(key, n.children[i].name), n.children[i]))
}

/// The entries the first `k` nodes of a level emit: one per node whose
/// value differs from its default and is not null.
pub open spec fn emit_n(level: Seq<(Seq<char>, SettingV)>, k: int) -> Seq<(Seq<char>, JsonV)>
    decreases k,
{
    if k <= 0 {
        Seq::<(Seq<char>, JsonV)>::empty()
    } else {
        let prev = emit_n(level, k - 1);
        let e = level[k - 1];
        if e.1.value != e.1.default_value && !(e.1.value is Null) {
            prev.push((e.0, e.1.value))
        } else {
            prev
        }
    }
}

/// The next level: the children of the first `k` nodes, in order.
pub open spec fn expand_n(level: Seq<(Seq<char>, SettingV)>, k: int) -> Seq<
    (Seq<char>, SettingV),
>
    decreases k,
{
    if k <= 0 {
        Seq::<(Seq<char>, SettingV)>::empty()
    } else {
        expand_n(level, k - 1) + child_entries(level[k - 1].0, level[k - 1].1)
    }
}

/// The number of nodes at or below the first `k` entries of a level.
pub open spec fn level_size(level: Seq<(Seq<char>, SettingV)>, k: int) -> nat
    decreases k,
{
    if k <= 0 {
        0nat
    } else {
        level_size(level, k - 1) + ssize(level[k - 1].1)
    }
}

/// A level's size reads only its first `k` entries.
pub proof fn lemma_level_size_prefix(
    a: Seq<(Seq<char>, SettingV)>,
    b: Seq<(Seq<char>, SettingV)>,
    k: int,
)
    requires
        0 <= k <= a.len(),
        k <= b.len(),
        forall|j: int| 0 <= j < k ==> a[j] == b[j],
    ensures
        level_size(a, k) == level_size(b, k),
    decreases k,
{
    if k > 0 {
        lemma_level_size_prefix(a, b, k - 1);
    }
}

/// Sizes add over level concatenation.
pub proof fn lemma_level_size_add(a: Seq<(Seq<char>, SettingV)>, b: Seq<(Seq<char>, SettingV)>)
    ensures
        level_size(a + b, (a + b).len() as int) == level_size(a, a.len() as int) + level_size(
            b,
            b.len() as int,
        ),
    decreases b.len(),
{
    if b.len() == 0 {
        assert(a + b =~= a);
        lemma_level_size_prefix(a + b, a, a.len() as int);
    } else {
        let b0 = b.drop_last();
        lemma_level_size_add(a, b0);
        assert(a + b =~= (a + b0).push(b.last()));
        lemma_level_size_prefix(a + b, a + b0, (a + b0).len() as int);
        lemma_level_size_prefix(b, b0, b0.len() as int);
    }
}

/// A node's children hold one node fewer than the node itself.
pub proof fn lemma_child_entries_size(key: Seq<char>, n: SettingV, k: int)
    requires
        0 <= k <= n.children.len(),
    ensures
        level_size(child_entries(key, n), k) == ssum(n.children, k),
    decreases k,
{
    if k > 0 {
        lemma_child_entries_size(key, n, k - 1);
    }
}

/// Expanding a level trades each entry for its children: the total size
/// drops by exactly the number of entries expanded.
pub proof fn lemma_expand_size(level: Seq<(Seq<char>, SettingV)>, k: int)
    requires
        0 <= k <= level.len(),
    ensures
        level_size(expand_n(level, k), expand_n(level, k).len() as int) + k == level_size(
            level,
            k,
        ),
    decreases k,
{
    if k > 0 {
        lemma_expand_size(level, k - 1);
        let prev = expand_n(level, k - 1);
        let ce = child_entries(level[k - 1].0, level[k - 1].1);
        lemma_level_size_add(prev, ce);
        lemma_child_entries_size(level[k - 1].0, level[k - 1].1, ce.len() as int);
    }
}

/// The breadth-first materialization of a level: what its nodes emit, in
/// level order, then everything the next level emits.
pub open spec fn bfs_m(level: Seq<(Seq<char>, SettingV)>) -> Seq<(Seq<char>, JsonV)>
    decreases level_size(level, level.len() as int),
{
    if level.len() == 0 {
        Seq::<(Seq<char>, JsonV)>::empty()
    } else {
        proof {
            lemma_expand_size(level, level.len() as int);
        }
        emit_n(level, level.len() as int) + bfs_m(expand_n(level, level.len() as int))
    }
}

/// The shape of one executable level.
pub open spec fn slevel_view(lv: Seq<(String, SettingItem)>) -> Seq<(Seq<char>, SettingV)> {
    Seq::new(lv.len(), |i: int| (lv[i].0@, sitem_view(lv[i].1)))
}

/// A deep copy of a settings node.
fn sitem_clone(n: &SettingItem) -> (r: SettingItem)
    ensures
        sitem_view(r) == sitem_view(*n),
    decreases *n,
{
    let ghost nv = sitem_view(*n);
    let mut attribute: Vec<(String, Json)> = Vec::new();
    let mut k: usize = 0;
    while k < n.attribute.len()
        invariant
            k <= n.attribute@.len(),
            nv == sitem_view(*n),
            attribute@.len() == k,
            forall|j: int| 0 <= j < k ==> (attribute@[j].0@, jview(attribute@[j].1))
                == nv.attribute[j],
        decreases n.attribute@.len() - k,
    {
        let key = n.attribute[k].0.clone();
        let val = json_clone(&n.attribute[k].1);
        attribute.push((key, val));
        k = k + 1;
    }
    let mut children: Vec<SettingItem> = Vec::new();
    proof {
        lemma_sitems_view(n.children@);
    }
    let mut k2: usize = 0;
    while k2 < n.children.len()
        invariant
            k2 <= n.children@.len(),
            nv == sitem_view(*n),
            nv.children.len() == n.children@.len(),
            forall|j: int| 0 <= j < n.children@.len() ==> nv.children[j] == sitem_view(
                n.children@[j],
            ),
            children@.len() == k2,
            forall|j: int| 0 <= j < k2 ==> sitem_view(children@[j]) == nv.children[j],
        decreases n.children@.len() - k2,
    {
        proof {
            assert(decreases_to!(*n => n.children));
            assert(decreases_to!(n.children => n.children@[k2 as int]));
        }
        let c = sitem_clone(&n.children[k2]);
        children.push(c);
        k2 = k2 + 1;
    }
    let r = SettingItem {
        name: n.name.clone(),
        value: json_clone(&n.value),
        default_value: json_clone(&n.default_value),
        attribute,
        children,
    };
    proof {
        lemma_sitems_view(r.children@);
        assert(attrs_view(r.attribute@) =~= nv.attribute);
        assert(sitems_view(r.children@) =~= nv.children);
    }
    r
}

/// Materializes the descendants of `node` breadth first: each level
/// emits its modified, non-null nodes in order, then its children form
/// the next level.
fn materialize(node: &SettingItem) -> (r: Vec<(String, Json)>)
    ensures
        attrs_view(r@) == bfs_m(child_entries(Seq::<char>::empty(), sitem_view(*node))),
{
    let ghost n = sitem_view(*node);
    let mut level: Vec<(String, SettingItem)> = Vec::new();
    proof {
        lemma_sitems_view(node.children@);
    }
    let mut k0: usize = 0;
    while k0 < node.children.len()
        invariant
            k0 <= node.children@.len(),
            n == sitem_view(*node),
            n.children.len() == node.children@.len(),
            forall|j: int| 0 <= j < node.children@.len() ==> n.children[j] == sitem_view(
                node.children@[j],
            ),
            level@.len() == k0,
            forall|j: int| 0 <= j < k0 ==> (level@[j].0@, sitem_view(level@[j].1)) == (
                n.children[j].name,
                n.children[j],
            ),
        decreases node.children@.len() - k0,
    {
        let key = node.children[k0].name.clone();
        let copy = sitem_clone(&node.children[k0]);
        level.push((key, copy));
        k0 = k0 + 1;
    }
    let ghost init = child_entries(Seq::<char>::empty(), n);
    proof {
        assert(slevel_view(level@) =~= init);
    }
    let mut out: Vec<(String, Json)> = Vec::new();
    while level.len() > 0
        invariant
            attrs_view(out@) + bfs_m(slevel_view(level@)) == bfs_m(init),
        decreases level_size(slevel_view(level@), slevel_view(level@).len() as int),
    {
        let ghost lv = slevel_view(level@);
        let ghost out_pre = attrs_view(out@);
        let mut next: Vec<(String, SettingItem)> = Vec::new();
        let mut k: usize = 0;
        while k < level.len()
            invariant
                k <= level@.len(),
                lv == slevel_view(level@),
                lv.len() == level@.len(),
                forall|j: int| 0 <= j < level@.len() ==> lv[j] == (
                    level@[j].0@,
                    sitem_view(level@[j].1),
                ),
                attrs_view(out@) == out_pre + emit_n(lv, k as int),
                slevel_view(next@) == expand_n(lv, k as int),
            decreases level@.len() - k,
        {
            let ghost pre_out = attrs_view(out@);
            let is_null = match &level[k].1.value {
                Json::Null => true,
                _ => false,
            };
            if !json_eq(&level[k].1.value, &level[k].1.default_value) && !is_null {
                let key = level[k].0.clone();
                let val = json_clone(&level[k].1.value);
                out.push((key, val));
                proof {
                    assert(attrs_view(out@) =~= pre_out.push((lv[k as int].0, lv[k as int].1.value)));
                }
            } else {
                proof {
                    assert(attrs_view(out@) =~= pre_out);
                }
            }
            let ghost pre_next = slevel_view(next@);
            let ghost ce = child_entries(lv[k as int].0, lv[k as int].1);
            proof {
                lemma_sitems_view(level[k as int].1.children@);
            }
            let mut j: usize = 0;
            while j < level[k].1.children.len()
                invariant
                    k < level@.len(),
                    j <= level@[k as int].1.children@.len(),
                    lv == slevel_view(level@),
                    lv.len() == level@.len(),
                    forall|q: int| 0 <= q < level@.len() ==> lv[q] == (
                        level@[q].0@,
                        sitem_view(level@[q].1),
                    ),
                    ce == child_entries(lv[k as int].0, lv[k as int].1),
                    ce.len() == level@[k as int].1.children@.len(),
                    forall|q: int| 0 <= q < level@[k as int].1.children@.len() ==> lv[
                        k as int
                    ].1.children[q] == sitem_view(level@[k as int].1.children@[q]),
                    slevel_view(next@) =~= pre_next + ce.take(j as int),
                decreases level@[k as int].1.children@.len() - j,
            {
                let ghost pre2 = slevel_view(next@);
                let key2: String = if level[k].0.as_str().unicode_len() == 0 {
                    level[k].1.children[j].name.clone()
                } else {
                    crate::strutil::join_dotted(
                        level[k].0.as_str(),
                        level[k].1.children[j].name.as_str(),
                    )
                };
                proof {
                    assert(key2@ == child_key(lv[k as int].0, lv[k as int].1.children[j as int].name));
                }
                let copy = sitem_clone(&level[k].1.children[j]);
                next.push((key2, copy));
                proof {
                    assert(slevel_view(next@) =~= pre2.push(ce[j as int]));
                    assert(pre2.push(ce[j as int]) =~= pre_next + ce.take(j + 1));
                }
                j = j + 1;
            }
            proof {
                assert(ce.take(ce.len() as int) =~= ce);
                assert(slevel_view(next@) =~= expand_n(lv, k as int + 1));
            }
            k = k + 1;
        }
        proof {
            lemma_expand_size(lv, lv.len() as int);
            assert(bfs_m(lv) == emit_n(lv, lv.len() as int) + bfs_m(expand_n(lv, lv.len() as int)));
            assert(attrs_view(out@) + bfs_m(slevel_view(next@)) =~= out_pre + bfs_m(lv));
        }
        level = next;
    }
    proof {
        assert(bfs_m(slevel_view(level@)) =~= Seq::<(Seq<char>, JsonV)>::empty());
        assert(attrs_view(out@) =~= attrs_view(out@) + bfs_m(slevel_view(level@)));
    }
    out
}

/// Materializes the descendants of the node at `key` into one flat field
/// list, keyed by dotted paths relative to that node, in breadth-first
/// order. Only nodes whose value differs from their default and is not
/// null are emitted; a node and its descendants are emitted
/// independently.
pub fn generate_setting_json(parent: &SettingItem, key: &String) -> (r: Result<
    Vec<(String, Json)>,
    Error,
>)
    ensures
        ({
            let res = sresolve(sitem_view(*parent), split_segs(key@, true), 0);
            match r {
                Result::Ok(fields) => res is Ok && attrs_view(fields@) == bfs_m(
                    child_entries(Seq::<char>::empty(), res->Ok_0),
                ),
                Result::Err(e) => {
                    &&& res is Err
                    &&& e == Error::SettingNotExists(r->Err_0->SettingNotExists_0, *key)
                    &&& e->SettingNotExists_0@ == res->Err_0
                },
            }
        }),
{
    let segs = split_segments(key.as_str(), true);
    proof {
        lemma_deep_view_strings(&segs);
    }
    let node = match sgoto(parent, &segs, 0) {
        Ok(node) => node,
        Err(name) => {
            return Err(Error::SettingNotExists(name, key.clone()));
        },
    };
    Ok(materialize(node))
}

/// Borrows the node reached by `segs[i..]`, or reports the first
/// unresolved name.
fn sgoto<'a>(node: &'a SettingItem, segs: &Vec<String>, i: usize) -> (r: Result<
    &'a SettingItem,
    String,
>)
    requires
        i <= segs@.len(),
    ensures
        ({
            let res = sresolve(sitem_view(*node), segs.deep_view(), i as int);
            match r {
                Result::Ok(m) => res is Ok && sitem_view(*m) == res->Ok_0,
                Result::Err(name) => res is Err && name@ == res->Err_0,
            }
        }),
    decreases segs@.len() - i,
{
    proof {
        lemma_deep_view_strings(segs);
    }
    if i == segs.len() {
        Ok(node)
    } else {
        let r = node.find(segs[i].as_str());
        match r {
            Some(j) => {
                proof {
                    lemma_sitems_view(node.children@);
                }
                sgoto(&node.children[j], segs, i + 1)
            },
            None => Err(segs[i].clone()),
        }
    }
}

// ---------------------------------------------------------------------------
// The save plan.
// ---------------------------------------------------------------------------

/// The shape of a save plan: pairs of a native file path and the flat
/// fields to write there.
pub open spec fn plan_view(p: Seq<(String, Vec<(String, Json)>)>) -> Seq<
    (Seq<char>, Seq<(Seq<char>, JsonV)>),
> {
    Seq::new(p.len(), |i: int| (p[i].0@, attrs_view(p[i].1@)))
}

/// The save plan of the top-level categories `cs[k..]`: for each category
/// whose own value is a string, that string resolved-or-created in the
/// virtual filesystem and its first backing location taken as the file to
/// write; categories without a string value, without a resolvable path or
/// without a backing location are skipped, not fatal to the others.
pub open spec fn save_plan_m(
    cs: Seq<SettingV>,
    k: int,
    rootv: crate::fcb::FcbV,
    mv: Seq<(Seq<char>, Seq<Seq<char>>)>,
    dv: Seq<(Seq<char>, Seq<Seq<char>>)>,
) -> (crate::fcb::FcbV, Seq<(Seq<char>, Seq<(Seq<char>, JsonV)>)>)
    decreases cs.len() - k,
{
    if k < 0 || k >= cs.len() {
        (rootv, Seq::<(Seq<char>, Seq<(Seq<char>, JsonV)>)>::empty())
    } else {
        let c = cs[k];
        match c.value {
            JsonV::Str(path) => {
                let flat = bfs_m(child_entries(Seq::<char>::empty(), c));
                let (root1, res) = crate::filesystem::vfs_resolve(rootv, mv, dv, path, true);
                match res {
                    Result::Ok(chain) => {
                        let n = crate::filesystem::node_at(root1, chain, 0);
                        if n is Some && n->Some_0.backing.len() > 0 {
                            let rec = save_plan_m(cs, k + 1, root1, mv, dv);
                            (rec.0, seq![(n->Some_0.backing[0], flat)] + rec.1)
                        } else {
                            save_plan_m(cs, k + 1, root1, mv, dv)
                        }
                    },
                    Result::Err(_) => save_plan_m(cs, k + 1, root1, mv, dv),
                }
            },
            _ => save_plan_m(cs, k + 1, rootv, mv, dv),
        }
    }
}

/// Builds the save plan for every top-level settings category: each
/// category with a string value becomes one file to write, holding its
/// flat materialization.
pub fn save_settings_plan(root: &SettingItem, vfs: &mut crate::filesystem::Vfs, disk: &Disk) -> (r:
    Vec<(String, Vec<(String, Json)>)>)
    ensures
        ({
            let rec = save_plan_m(
                sitem_view(*root).children,
                0,
                crate::fcb::fcb_view(old(vfs).root),
                crate::filesystem::mounts_view(old(vfs).mounts),
                crate::disk::disk_view(*disk),
            );
            &&& crate::fcb::fcb_view(final(vfs).root) == rec.0
            &&& final(vfs).mounts == old(vfs).mounts
            &&& plan_view(r@) == rec.1
        }),
{
    save_plan_from(root, 0, vfs, disk)
}

fn save_plan_from(node: &SettingItem, k: usize, vfs: &mut crate::filesystem::Vfs, disk: &Disk) -> (r:
    Vec<(String, Vec<(String, Json)>)>)
    requires
        k <= node.children@.len(),
    ensures
        ({
            let rec = save_plan_m(
                sitem_view(*node).children,
                k as int,
                crate::fcb::fcb_view(old(vfs).root),
                crate::filesystem::mounts_view(old(vfs).mounts),
                crate::disk::disk_view(*disk),
            );
            &&& crate::fcb::fcb_view(final(vfs).root) == rec.0
            &&& final(vfs).mounts == old(vfs).mounts
            &&& plan_view(r@) == rec.1
        }),
    decreases node.children@.len() - k,
{
    proof {
        lemma_sitems_view(node.children@);
    }
    let ghost cs = sitem_view(*node).children;
    if k == node.children.len() {
        let out: Vec<(String, Vec<(String, Json)>)> = Vec::new();
        proof {
            assert(plan_view(out@) =~= Seq::<(Seq<char>, Seq<(Seq<char>, JsonV)>)>::empty());
        }
        return out;
    }
    let c = &node.children[k];
    let is_str_path: Option<String> = match &c.value {
        Json::Str(p) => Some(p.clone()),
        _ => None,
    };
    match is_str_path {
        Some(p) => {
            let flat = materialize(c);
            proof {
                assert(attrs_view(flat@) == bfs_m(
                    child_entries(Seq::<char>::empty(), cs[k as int]),
                ));
            }
            match crate::filesystem::get_or_create_fcb(vfs, disk, &p) {
                Ok(nd) => {
                    proof {
                        lemma_deep_view_strings(&nd.native_paths);
                    }
                    if nd.native_paths.len() > 0 {
                        let target = nd.native_paths[0].clone();
                        let mut rest = save_plan_from(node, k + 1, vfs, disk);
                        let mut out: Vec<(String, Vec<(String, Json)>)> = Vec::new();
                        out.push((target, flat));
                        let ghost head = plan_view(out@);
                        let ghost restv = plan_view(rest@);
                        out.append(&mut rest);
                        proof {
                            assert(plan_view(out@) =~= head + restv);
                            assert(head =~= seq![
                                (
                                    target@,
                                    bfs_m(child_entries(Seq::<char>::empty(), cs[k as int])),
                                ),
                            ]);
                        }
                        out
                    } else {
                        save_plan_from(node, k + 1, vfs, disk)
                    }
                },
                Err(_) => save_plan_from(node, k + 1, vfs, disk),
            }
        },
        None => save_plan_from(node, k + 1, vfs, disk),
    }
}

/// Finds the first field named `k` in an object's field list.
pub(crate) fn find_pair_obj(ps: &Vec<(String, Json)>, k: &str) -> (r: Option<usize>)
    ensures
        match r {
            Some(i) => i < ps@.len() && pfind_from(crate::json::jviews_obj(ps@), k@, 0) == Some(
                i as int,
            ),
            None => pfind_from(crate::json::jviews_obj(ps@), k@, 0) is None,
        },
{
    proof {
        crate::json::lemma_jviews_obj(ps@);
    }
    let ghost pv = crate::json::jviews_obj(ps@);
    let mut i: usize = 0;
    while i < ps.len()
        invariant
            i <= ps@.len(),
            pv == crate::json::jviews_obj(ps@),
            pv.len() == ps@.len(),
            forall|j: int| 0 <= j < ps@.len() ==> pv[j] == (ps@[j].0@, jview(ps@[j].1)),
            pfind_from(pv, k@, 0) == pfind_from(pv, k@, i as int),
        decreases ps@.len() - i,
    {
        if str_eq(ps[i].0.as_str(), k) {
            return Some(i);
        }
        i = i + 1;
    }
    None
}

} // verus!
