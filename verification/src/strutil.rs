//! String helpers shared by the namespace trees: splitting a path or a
//! settings key into segments, and joining segments back together.

use vstd::prelude::*;

verus! {

/// A path separator: both `/` and `\` are accepted in virtual paths and
/// normalized to `/`.
pub open spec fn is_path_sep(c: char) -> bool {
    c == '/' || c == '\\'
}

/// The separator test used when splitting: dots for settings keys,
/// slashes for virtual paths.
pub open spec fn is_sep(c: char, dots: bool) -> bool {
    if dots {
        c == '.'
    } else {
        is_path_sep(c)
    }
}

/// One step of the splitting fold: a separator closes the pending segment
/// (dropping it when empty), any other character extends it.
pub open spec fn split_step(
    acc: (Seq<Seq<char>>, Seq<char>),
    c: char,
    dots: bool,
) -> (Seq<Seq<char>>, Seq<char>) {
    if is_sep(c, dots) {
        if acc.1.len() > 0 {
            (acc.0.push(acc.1), Seq::<char>::empty())
        } else {
            acc
        }
    } else {
        (acc.0, acc.1.push(c))
    }
}

/// The splitting fold over the first `n` characters of `s`.
pub open spec fn split_fold(s: Seq<char>, n: int, dots: bool) -> (Seq<Seq<char>>, Seq<char>)
    decreases n,
{
    if n <= 0 {
        (Seq::<Seq<char>>::empty(), Seq::<char>::empty())
    } else {
        split_step(split_fold(s, n - 1, dots), s[n - 1], dots)
    }
}

/// The non-empty segments of `s`, split on separators.
pub open spec fn split_segs(s: Seq<char>, dots: bool) -> Seq<Seq<char>> {
    let (args, cur) = split_fold(s, s.len() as int, dots);
    if cur.len() > 0 {
        args.push(cur)
    } else {
        args
    }
}

/// Splits `s` into its non-empty segments: on `.` when `dots` is set,
/// otherwise on `/` and `\`.
pub fn split_segments(s: &str, dots: bool) -> (r: Vec<String>)
    ensures
        r.deep_view() == split_segs(s@, dots),
{
    let n = s.unicode_len();
    let mut args: Vec<String> = Vec::new();
    let mut cur: Vec<char> = Vec::new();
    let mut i: usize = 0;
    while i < n
        invariant
            n == s@.len(),
            i <= n,
            (args.deep_view(), cur@) == split_fold(s@, i as int, dots),
        decreases n - i,
    {
        let c = s.get_char(i);
        if (!dots && (c == '/' || c == '\\')) || (dots && c == '.') {
            if cur.len() > 0 {
                let seg = chars_to_string(&cur);
                args.push(seg);
                cur = Vec::new();
            }
        } else {
            cur.push(c);
        }
        i = i + 1;
    }
    if cur.len() > 0 {
        let seg = chars_to_string(&cur);
        args.push(seg);
    }
    args
}

/// Relies on `core::iter::Iterator::collect`: collects the characters in
/// order into an owned string.
#[verifier::external_body]
pub(crate) fn chars_to_string(v: &Vec<char>) -> (r: String)
    ensures
        r@ == v@,
{
    v.iter().collect()
}

/// `parent` and `name` joined with a single `/`.
pub open spec fn path_join(parent: Seq<char>, name: Seq<char>) -> Seq<char> {
    parent.push('/') + name
}

/// Joins a parent path and a child name with `/`.
pub fn join_path(parent: &str, name: &str) -> (r: String)
    ensures
        r@ == path_join(parent@, name@),
{
    let mut r = parent.to_owned();
    r.append("/");
    r.append(name);
    proof {
        reveal_strlit("/");
        assert(r@ =~= path_join(parent@, name@));
    }
    r
}

/// `a` and `b` joined with a single `.`.
pub open spec fn dot_join(a: Seq<char>, b: Seq<char>) -> Seq<char> {
    a.push('.') + b
}

/// Joins two settings keys with `.`.
pub fn join_dotted(a: &str, b: &str) -> (r: String)
    ensures
        r@ == dot_join(a@, b@),
{
    let mut r = a.to_owned();
    r.append(".");
    r.append(b);
    proof {
        reveal_strlit(".");
        assert(r@ =~= dot_join(a@, b@));
    }
    r
}

/// Relates the deep view of a string vector to the views of its elements.
pub proof fn lemma_deep_view_strings(v: &Vec<String>)
    ensures
        v.deep_view().len() == v@.len(),
        forall|i: int| 0 <= i < v@.len() ==> v.deep_view()[i] == v@[i]@,
{
}

/// The views of a sequence of strings.
pub open spec fn strs_view(s: Seq<String>) -> Seq<Seq<char>> {
    Seq::new(s.len(), |i: int| s[i]@)
}

/// A vector's deep view is the view sequence of its elements.
pub proof fn lemma_strs_view(v: &Vec<String>)
    ensures
        v.deep_view() == strs_view(v@),
{
    lemma_deep_view_strings(v);
    assert(v.deep_view() =~= strs_view(v@));
}

/// Whether `v` holds a string whose characters equal `s`.
pub open spec fn seq_contains_string(v: Seq<Seq<char>>, s: Seq<char>) -> bool {
    exists|i: int| 0 <= i < v.len() && v[i] == s
}

/// Whether one of the strings of `v` equals `s`.
pub fn contains_string(v: &Vec<String>, s: &String) -> (r: bool)
    ensures
        r == seq_contains_string(v.deep_view(), s@),
{
    proof {
        lemma_deep_view_strings(v);
    }
    let mut i: usize = 0;
    while i < v.len()
        invariant
            i <= v.len(),
            v.deep_view().len() == v@.len(),
            forall|j: int| 0 <= j < v@.len() ==> v.deep_view()[j] == v@[j]@,
            forall|j: int| 0 <= j < i ==> v.deep_view()[j] != s@,
        decreases v.len() - i,
    {
        if v[i].eq(s) {
            assert(v.deep_view()[i as int] == s@);
            return true;
        }
        i = i + 1;
    }
    false
}

/// The first index at or after `i` whose string equals `s`, if any.
pub open spec fn index_of_string_from(v: Seq<Seq<char>>, s: Seq<char>, i: int) -> Option<int>
    decreases v.len() - i,
{
    if i < 0 || i >= v.len() {
        None
    } else if v[i] == s {
        Some(i)
    } else {
        index_of_string_from(v, s, i + 1)
    }
}

/// The first index of `v` whose string equals `s`, if any.
pub open spec fn index_of_string(v: Seq<Seq<char>>, s: Seq<char>) -> Option<int> {
    index_of_string_from(v, s, 0)
}

/// Finds the first string of `v` equal to `s`.
pub fn find_string(v: &Vec<String>, s: &String) -> (r: Option<usize>)
    ensures
        match r {
            Some(i) => i < v@.len() && index_of_string(strs_view(v@), s@) == Some(i as int),
            None => index_of_string(strs_view(v@), s@) is None,
        },
{
    proof {
        lemma_strs_view(v);
        lemma_deep_view_strings(v);
    }
    let ghost b = strs_view(v@);
    let mut i: usize = 0;
    while i < v.len()
        invariant
            i <= v@.len(),
            b == strs_view(v@),
            b.len() == v@.len(),
            forall|j: int| 0 <= j < b.len() ==> b[j] == v@[j]@,
            index_of_string(b, s@) == index_of_string_from(b, s@, i as int),
        decreases v@.len() - i,
    {
        if v[i].eq(s) {
            return Some(i);
        }
        i = i + 1;
    }
    None
}

/// Compares two string slices character by character.
pub fn str_eq(a: &str, b: &str) -> (r: bool)
    ensures
        r == (a@ == b@),
{
    let na = a.unicode_len();
    let nb = b.unicode_len();
    if na != nb {
        return false;
    }
    let mut i: usize = 0;
    while i < na
        invariant
            na == a@.len(),
            a@.len() == b@.len(),
            i <= na,
            forall|j: int| 0 <= j < i ==> a@[j] == b@[j],
        decreases na - i,
    {
        if a.get_char(i) != b.get_char(i) {
            return false;
        }
        i = i + 1;
    }
    proof {
        assert(a@ =~= b@);
    }
    true
}

/// The character for one decimal digit.
pub open spec fn digit_char(d: nat) -> char {
    if d == 0 {
        '0'
    } else if d == 1 {
        '1'
    } else if d == 2 {
        '2'
    } else if d == 3 {
        '3'
    } else if d == 4 {
        '4'
    } else if d == 5 {
        '5'
    } else if d == 6 {
        '6'
    } else if d == 7 {
        '7'
    } else if d == 8 {
        '8'
    } else {
        '9'
    }
}

/// The decimal rendering of `n`, most significant digit first.
pub open spec fn dec_str_of(n: nat) -> Seq<char>
    decreases n,
{
    if n < 10 {
        seq![digit_char(n)]
    } else {
        dec_str_of(n / 10).push(digit_char(n % 10))
    }
}

fn digit_to_char(d: u64) -> (c: char)
    requires
        d < 10,
    ensures
        c == digit_char(d as nat),
{
    if d == 0 {
        '0'
    } else if d == 1 {
        '1'
    } else if d == 2 {
        '2'
    } else if d == 3 {
        '3'
    } else if d == 4 {
        '4'
    } else if d == 5 {
        '5'
    } else if d == 6 {
        '6'
    } else if d == 7 {
        '7'
    } else if d == 8 {
        '8'
    } else {
        '9'
    }
}

/// Renders `n` in decimal.
pub fn u64_to_string(n: u64) -> (r: String)
    ensures
        r@ == dec_str_of(n as nat),
{
    if n == 0 {
        let r = "0".to_owned();
        proof {
            reveal_strlit("0");
            assert(r@ =~= dec_str_of(0));
        }
        return r;
    }
    let mut digits: Vec<char> = Vec::new();
    let mut m: u64 = n;
    while m > 0
        invariant
            dec_str_of(n as nat) =~= (if m == 0 {
                digits@.reverse()
            } else {
                dec_str_of(m as nat) + digits@.reverse()
            }),
        decreases m,
    {
        let ghost pre = digits@;
        let ghost m0 = m as nat;
        let c = digit_to_char(m % 10);
        digits.push(c);
        m = m / 10;
        proof {
            assert(digits@.reverse() =~= seq![c] + pre.reverse());
            if m0 >= 10 {
                assert(dec_str_of(m0) == dec_str_of(m0 / 10).push(digit_char(m0 % 10)));
                assert(dec_str_of(m0 / 10) + digits@.reverse() =~= dec_str_of(m0) + pre.reverse());
            } else {
                assert(dec_str_of(m0) =~= seq![c]);
                assert(digits@.reverse() =~= dec_str_of(m0) + pre.reverse());
            }
        }
    }
    let mut rev: Vec<char> = Vec::new();
    let mut j: usize = digits.len();
    while j > 0
        invariant
            j <= digits@.len(),
            rev@.len() == digits@.len() - j,
            forall|k: int| 0 <= k < rev@.len() ==> rev@[k] == digits@[digits@.len() - 1 - k],
        decreases j,
    {
        j = j - 1;
        rev.push(digits[j]);
    }
    proof {
        assert(rev@ =~= digits@.reverse());
    }
    chars_to_string(&rev)
}

/// Copies a vector of strings.
pub fn clone_strings(v: &Vec<String>) -> (r: Vec<String>)
    ensures
        r.deep_view() == v.deep_view(),
{
    let mut r: Vec<String> = Vec::new();
    let mut i: usize = 0;
    while i < v.len()
        invariant
            i <= v.len(),
            r@.len() == i,
            forall|j: int| 0 <= j < i ==> r@[j]@ == v@[j]@,
        decreases v.len() - i,
    {
        r.push(v[i].clone());
        i = i + 1;
    }
    proof {
        lemma_deep_view_strings(v);
        lemma_deep_view_strings(&r);
        assert(r.deep_view() =~= v.deep_view());
    }
    r
}

} // verus!
