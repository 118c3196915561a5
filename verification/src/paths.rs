//! Paths as sequences of components, and the component-wise prefix
//! relation that the relationship resolver is built on.

use vstd::prelude::*;

verus! {

/// A usable path component: nonempty, free of `/`, and not one of the
/// relative markers `.` and `..` through which a path could escape its
/// root.
pub open spec fn valid_component(c: Seq<char>) -> bool {
    &&& c.len() > 0
    &&& !c.contains('/')
    &&& c != seq!['.']
    &&& c != seq!['.', '.']
}

/// Every component of `p` is valid.
pub open spec fn valid_path(p: Seq<Seq<char>>) -> bool {
    forall|i: int| 0 <= i < p.len() ==> valid_component(#[trigger] p[i])
}

/// `a` is a component-wise prefix of `b` (possibly all of it).
pub open spec fn is_prefix_of(a: Seq<Seq<char>>, b: Seq<Seq<char>>) -> bool {
    a.len() <= b.len() && a == b.subrange(0, a.len() as int)
}

/// `a` is a proper component-wise prefix of `b`: `b` lies strictly
/// beneath the directory `a`.
pub open spec fn is_strict_prefix_of(a: Seq<Seq<char>>, b: Seq<Seq<char>>) -> bool {
    is_prefix_of(a, b) && a.len() < b.len()
}

/// Two prefixes of one path are ordered: the shorter is a prefix of the
/// longer.
pub proof fn lemma_prefixes_comparable(a: Seq<Seq<char>>, b: Seq<Seq<char>>, c: Seq<Seq<char>>)
    requires
        is_prefix_of(a, c),
        is_prefix_of(b, c),
    ensures
        a.len() <= b.len() ==> is_prefix_of(a, b),
        b.len() <= a.len() ==> is_prefix_of(b, a),
{
    if a.len() <= b.len() {
        assert(a =~= b.subrange(0, a.len() as int));
    }
    if b.len() <= a.len() {
        assert(b =~= a.subrange(0, b.len() as int));
    }
}

/// Appending components keeps the base as a prefix.
pub proof fn lemma_append_prefix(a: Seq<Seq<char>>, b: Seq<Seq<char>>)
    ensures
        is_prefix_of(a, a + b),
{
    assert(a =~= (a + b).subrange(0, a.len() as int));
}

/// Checks one component for validity.
pub fn component_ok(c: &String) -> (r: bool)
    ensures
        r == valid_component(c@),
{
    let s = c.as_str();
    let n = s.unicode_len();
    if n == 0 {
        return false;
    }
    let mut i: usize = 0;
    while i < n
        invariant
            i <= n,
            n == s@.len(),
            s@ == c@,
            forall|j: int| 0 <= j < i ==> s@[j] != '/',
        decreases n - i,
    {
        let ch = s.get_char(i);
        if ch == '/' {
            proof {
                assert(c@[i as int] == '/');
                assert(c@.contains('/'));
            }
            return false;
        }
        i = i + 1;
    }
    if n == 1 && s.get_char(0) == '.' {
        proof {
            assert(c@ =~= seq!['.']);
        }
        return false;
    }
    if n == 2 && s.get_char(0) == '.' && s.get_char(1) == '.' {
        proof {
            assert(c@ =~= seq!['.', '.']);
        }
        return false;
    }
    proof {
        if c@ == seq!['.'] {
            assert(c@.len() == 1 && c@[0] == '.');
        }
        if c@ == seq!['.', '.'] {
            assert(c@.len() == 2 && c@[0] == '.' && c@[1] == '.');
        }
    }
    true
}

/// Checks every component of a path for validity.
pub fn components_ok(p: &Vec<String>) -> (r: bool)
    ensures
        r == valid_path(p.deep_view()),
{
    let mut i: usize = 0;
    while i < p.len()
        invariant
            i <= p.len(),
            forall|j: int| 0 <= j < i ==> valid_component(#[trigger] p.deep_view()[j]),
        decreases p.len() - i,
    {
        if !component_ok(&p[i]) {
            proof {
                assert(!valid_component(p.deep_view()[i as int]));
            }
            return false;
        }
        i = i + 1;
    }
    true
}

/// Does `b` begin with all of `a`, component for component?
pub fn starts_with(b: &Vec<String>, a: &Vec<String>) -> (r: bool)
    ensures
        r == is_prefix_of(a.deep_view(), b.deep_view()),
{
    if a.len() > b.len() {
        return false;
    }
    let mut i: usize = 0;
    while i < a.len()
        invariant
            i <= a.len() <= b.len(),
            forall|j: int| 0 <= j < i ==> a.deep_view()[j] == b.deep_view()[j],
        decreases a.len() - i,
    {
        if !a[i].eq(&b[i]) {
            proof {
                assert(a.deep_view()[i as int] != b.deep_view().subrange(
                    0,
                    a.len() as int,
                )[i as int]);
            }
            return false;
        }
        i = i + 1;
    }
    proof {
        assert(a.deep_view() =~= b.deep_view().subrange(0, a.len() as int));
    }
    true
}

/// Does `b` lie strictly beneath the directory `a`?
pub fn starts_strictly_with(b: &Vec<String>, a: &Vec<String>) -> (r: bool)
    ensures
        r == is_strict_prefix_of(a.deep_view(), b.deep_view()),
{
    a.len() < b.len() && starts_with(b, a)
}

/// The components of `b` below the directory `a`, or `None` when `b`
/// does not lie under `a`.
pub fn strip_prefix(b: &Vec<String>, a: &Vec<String>) -> (r: Option<Vec<String>>)
    ensures
        match r {
            Some(s) => is_prefix_of(a.deep_view(), b.deep_view()) && s.deep_view()
                == b.deep_view().subrange(a.len() as int, b.len() as int),
            None => !is_prefix_of(a.deep_view(), b.deep_view()),
        },
{
    if !starts_with(b, a) {
        return None;
    }
    let mut s: Vec<String> = Vec::new();
    let mut i: usize = a.len();
    while i < b.len()
        invariant
            a.len() <= i <= b.len(),
            s.deep_view() =~= b.deep_view().subrange(a.len() as int, i as int),
        decreases b.len() - i,
    {
        let ghost old_s = s.deep_view();
        s.push(b[i].clone());
        proof {
            assert(s.deep_view() =~= old_s.push(b.deep_view()[i as int]));
            assert(s.deep_view() =~= b.deep_view().subrange(a.len() as int, i + 1));
        }
        i = i + 1;
    }
    Some(s)
}

/// Are the two paths the same, component for component?
pub fn path_eq(a: &Vec<String>, b: &Vec<String>) -> (r: bool)
    ensures
        r == (a.deep_view() == b.deep_view()),
{
    if a.len() != b.len() {
        proof {
            assert(a.deep_view().len() != b.deep_view().len());
        }
        return false;
    }
    let mut i: usize = 0;
    while i < a.len()
        invariant
            i <= a.len() == b.len(),
            forall|j: int| 0 <= j < i ==> a.deep_view()[j] == b.deep_view()[j],
        decreases a.len() - i,
    {
        if !a[i].eq(&b[i]) {
            proof {
                assert(a.deep_view()[i as int] != b.deep_view()[i as int]);
            }
            return false;
        }
        i = i + 1;
    }
    proof {
        assert(a.deep_view() =~= b.deep_view());
    }
    true
}

/// First index at which `name` occurs in `p`, if any.
pub fn find_component(p: &Vec<String>, name: &String) -> (r: Option<usize>)
    ensures
        match r {
            Some(i) => i < p.len() && p.deep_view()[i as int] == name@ && forall|j: int|
                0 <= j < i ==> p.deep_view()[j] != name@,
            None => forall|j: int| 0 <= j < p.len() ==> p.deep_view()[j] != name@,
        },
{
    let mut i: usize = 0;
    while i < p.len()
        invariant
            i <= p.len(),
            forall|j: int| 0 <= j < i ==> p.deep_view()[j] != name@,
        decreases p.len() - i,
    {
        if p[i].eq(name) {
            return Some(i);
        }
        i = i + 1;
    }
    None
}

/// Concatenates two component paths.
pub fn concat_paths(a: &Vec<String>, b: &Vec<String>) -> (r: Vec<String>)
    ensures
        r.deep_view() == a.deep_view() + b.deep_view(),
{
    let mut r: Vec<String> = Vec::new();
    let mut i: usize = 0;
    proof {
        assert(r.deep_view() =~= a.deep_view().subrange(0, 0));
    }
    while i < a.len()
        invariant
            i <= a.len(),
            r.deep_view() =~= a.deep_view().subrange(0, i as int),
        decreases a.len() - i,
    {
        let ghost old_r = r.deep_view();
        r.push(a[i].clone());
        proof {
            assert(r.deep_view() =~= old_r.push(a.deep_view()[i as int]));
            assert(r.deep_view() =~= a.deep_view().subrange(0, i + 1));
        }
        i = i + 1;
    }
    proof {
        assert(r.deep_view() =~= a.deep_view());
    }
    let mut j: usize = 0;
    while j < b.len()
        invariant
            j <= b.len(),
            r.deep_view() =~= a.deep_view() + b.deep_view().subrange(0, j as int),
        decreases b.len() - j,
    {
        let ghost old_r = r.deep_view();
        r.push(b[j].clone());
        proof {
            assert(r.deep_view() =~= old_r.push(b.deep_view()[j as int]));
            assert(r.deep_view() =~= a.deep_view() + b.deep_view().subrange(0, j + 1));
        }
        j = j + 1;
    }
    proof {
        assert(r.deep_view() =~= a.deep_view() + b.deep_view());
    }
    r
}

} // verus!
