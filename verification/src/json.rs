//! The JSON value model used by the settings namespace and the wire
//! responses. Numbers are carried as their decimal text so that values of
//! any magnitude or precision compare and round-trip exactly.

use vstd::prelude::*;

verus! {

/// One JSON document.
#[derive(Debug)]
pub enum Json {
    Null,
    Bool(bool),
    /// A number, held as its literal decimal text.
    Num(String),
    Str(String),
    Arr(Vec<Json>),
    Obj(Vec<(String, Json)>),
}

/// The mathematical shape of a JSON document.
pub enum JsonV {
    Null,
    Bool(bool),
    Num(Seq<char>),
    Str(Seq<char>),
    Arr(Seq<JsonV>),
    Obj(Seq<(Seq<char>, JsonV)>),
}

/// The shape of one document.
pub open spec fn jview(j: Json) -> JsonV
    decreases j,
{
    match j {
        Json::Null => JsonV::Null,
        Json::Bool(b) => JsonV::Bool(b),
        Json::Num(s) => JsonV::Num(s@),
        Json::Str(s) => JsonV::Str(s@),
        Json::Arr(v) => JsonV::Arr(jviews(v@)),
        Json::Obj(v) => JsonV::Obj(jviews_obj(v@)),
    }
}

/// The shapes of a sequence of documents.
pub open spec fn jviews(v: Seq<Json>) -> Seq<JsonV>
    decreases v,
{
    if v.len() == 0 {
        Seq::<JsonV>::empty()
    } else {
        jviews(v.drop_last()).push(jview(v.last()))
    }
}

/// The shapes of an object's fields.
pub open spec fn jviews_obj(v: Seq<(String, Json)>) -> Seq<(Seq<char>, JsonV)>
    decreases v,
{
    if v.len() == 0 {
        Seq::<(Seq<char>, JsonV)>::empty()
    } else {
        jviews_obj(v.drop_last()).push((v.last().0@, jview(v.last().1)))
    }
}

pub proof fn lemma_jviews(v: Seq<Json>)
    ensures
        jviews(v).len() == v.len(),
        forall|i: int| 0 <= i < v.len() ==> jviews(v)[i] == jview(v[i]),
    decreases v,
{
    if v.len() > 0 {
        lemma_jviews(v.drop_last());
    }
}

pub proof fn lemma_jviews_obj(v: Seq<(String, Json)>)
    ensures
        jviews_obj(v).len() == v.len(),
        forall|i: int|
            0 <= i < v.len() ==> jviews_obj(v)[i] == (v[i].0@, jview(v[i].1)),
    decreases v,
{
    if v.len() > 0 {
        lemma_jviews_obj(v.drop_last());
    }
}

/// Deep structural equality of two documents.
pub fn json_eq(a: &Json, b: &Json) -> (r: bool)
    ensures
        r == (jview(*a) == jview(*b)),
    decreases *a,
{
    match (a, b) {
        (Json::Null, Json::Null) => true,
        (Json::Bool(x), Json::Bool(y)) => x == y,
        (Json::Num(x), Json::Num(y)) => x.eq(y),
        (Json::Str(x), Json::Str(y)) => x.eq(y),
        (Json::Arr(x), Json::Arr(y)) => {
            proof {
                lemma_jviews(x@);
                lemma_jviews(y@);
            }
            if x.len() != y.len() {
                return false;
            }
            let mut i: usize = 0;
            while i < x.len()
                invariant
                    i <= x@.len(),
                    x@.len() == y@.len(),
                    jviews(x@).len() == x@.len(),
                    jviews(y@).len() == y@.len(),
                    forall|j: int| 0 <= j < x@.len() ==> jviews(x@)[j] == jview(x@[j]),
                    forall|j: int| 0 <= j < y@.len() ==> jviews(y@)[j] == jview(y@[j]),
                    forall|j: int| 0 <= j < i ==> jviews(x@)[j] == jviews(y@)[j],
                    *a == Json::Arr(*x),
                    *b == Json::Arr(*y),
                    jview(*a) == JsonV::Arr(jviews(x@)),
                    jview(*b) == JsonV::Arr(jviews(y@)),
                decreases x@.len() - i,
            {
                proof {
                    assert(decreases_to!(*a => *x));
                    assert(decreases_to!(*x => (*x)[i as int]));
                }
                if !json_eq(&x[i], &y[i]) {
                    proof {
                        assert(jviews(x@)[i as int] != jviews(y@)[i as int]);
                    }
                    return false;
                }
                i = i + 1;
            }
            proof {
                assert(jviews(x@) =~= jviews(y@));
            }
            true
        },
        (Json::Obj(x), Json::Obj(y)) => {
            proof {
                lemma_jviews_obj(x@);
                lemma_jviews_obj(y@);
            }
            if x.len() != y.len() {
                return false;
            }
            let mut i: usize = 0;
            while i < x.len()
                invariant
                    i <= x@.len(),
                    x@.len() == y@.len(),
                    jviews_obj(x@).len() == x@.len(),
                    jviews_obj(y@).len() == y@.len(),
                    forall|j: int|
                        0 <= j < x@.len() ==> jviews_obj(x@)[j] == (x@[j].0@, jview(x@[j].1)),
                    forall|j: int|
                        0 <= j < y@.len() ==> jviews_obj(y@)[j] == (y@[j].0@, jview(y@[j].1)),
                    forall|j: int| 0 <= j < i ==> jviews_obj(x@)[j] == jviews_obj(y@)[j],
                    *a == Json::Obj(*x),
                    *b == Json::Obj(*y),
                    jview(*a) == JsonV::Obj(jviews_obj(x@)),
                    jview(*b) == JsonV::Obj(jviews_obj(y@)),
                decreases x@.len() - i,
            {
                if !x[i].0.eq(&y[i].0) {
                    proof {
                        assert(jviews_obj(x@)[i as int] != jviews_obj(y@)[i as int]);
                    }
                    return false;
                }
                proof {
                    assert(decreases_to!(*a => *x));
                    assert(decreases_to!(*x => (*x)[i as int]));
                    assert(decreases_to!((*x)[i as int] => (*x)[i as int].1));
                }
                if !json_eq(&x[i].1, &y[i].1) {
                    proof {
                        assert(jviews_obj(x@)[i as int] != jviews_obj(y@)[i as int]);
                    }
                    return false;
                }
                i = i + 1;
            }
            proof {
                assert(jviews_obj(x@) =~= jviews_obj(y@));
            }
            true
        },
        _ => {
            proof {
                assert(jview(*a) != jview(*b));
            }
            false
        },
    }
}

/// A deep copy of a document.
pub fn json_clone(src: &Json) -> (r: Json)
    ensures
        jview(r) == jview(*src),
    decreases *src,
{
    match src {
        Json::Null => Json::Null,
        Json::Bool(b) => Json::Bool(*b),
        Json::Num(s) => Json::Num(s.clone()),
        Json::Str(s) => Json::Str(s.clone()),
        Json::Arr(x) => {
            let mut out: Vec<Json> = Vec::new();
            let mut i: usize = 0;
            proof {
                lemma_jviews(x@);
            }
            while i < x.len()
                invariant
                    *src == Json::Arr(*x),
                    i <= x@.len(),
                    out@.len() == i,
                    jviews(x@).len() == x@.len(),
                    forall|k: int| 0 <= k < x@.len() ==> jviews(x@)[k] == jview(x@[k]),
                    forall|k: int| 0 <= k < i ==> jview(out@[k]) == jviews(x@)[k],
                decreases x@.len() - i,
            {
                proof {
                    assert(src->Arr_0 == *x);
                    assert(decreases_to!(*src => src->Arr_0));
                    assert(decreases_to!(*x => (*x)[i as int]));
                }
                let c = json_clone(&x[i]);
                out.push(c);
                i = i + 1;
            }
            proof {
                lemma_jviews(out@);
                assert(jviews(out@) =~= jviews(x@));
            }
            Json::Arr(out)
        },
        Json::Obj(x) => {
            let mut out: Vec<(String, Json)> = Vec::new();
            let mut i: usize = 0;
            proof {
                lemma_jviews_obj(x@);
            }
            while i < x.len()
                invariant
                    *src == Json::Obj(*x),
                    i <= x@.len(),
                    out@.len() == i,
                    jviews_obj(x@).len() == x@.len(),
                    forall|k: int|
                        0 <= k < x@.len() ==> jviews_obj(x@)[k] == (x@[k].0@, jview(x@[k].1)),
                    forall|k: int|
                        0 <= k < i ==> (out@[k].0@, jview(out@[k].1)) == jviews_obj(x@)[k],
                decreases x@.len() - i,
            {
                proof {
                    assert(src->Obj_0 == *x);
                    assert(decreases_to!(*src => src->Obj_0));
                    assert(decreases_to!(*x => (*x)[i as int]));
                    assert(decreases_to!((*x)[i as int] => (*x)[i as int].1));
                }
                let k = x[i].0.clone();
                let v = json_clone(&x[i].1);
                out.push((k, v));
                i = i + 1;
            }
            proof {
                lemma_jviews_obj(out@);
                assert(jviews_obj(out@) =~= jviews_obj(x@));
            }
            Json::Obj(out)
        },
    }
}

} // verus!
