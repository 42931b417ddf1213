//! Paths as component lists.
//!
//! The engine keys every record by an absolute canonical path, modelled here
//! as the list of its components below the filesystem root. The empty list
//! stands for the root itself. In specifications a path is its deep view,
//! a `Seq<Seq<char>>`.

use vstd::prelude::*;

verus! {

/// Whether `p` lies at or below `root`: `root` is a component-wise prefix.
pub open spec fn spec_starts_with(p: Seq<Seq<char>>, root: Seq<Seq<char>>) -> bool {
    root.len() <= p.len() && p.subrange(0, root.len() as int) == root
}

/// The parent path: the path with its last component dropped.
pub open spec fn spec_parent(p: Seq<Seq<char>>) -> Seq<Seq<char>>
    recommends
        p.len() > 0,
{
    p.drop_last()
}

/// Component-wise path equality.
pub fn path_eq(a: &Vec<String>, b: &Vec<String>) -> (r: bool)
    ensures
        r == (a.deep_view() == b.deep_view()),
{
    if a.len() != b.len() {
        assert(a.deep_view().len() != b.deep_view().len());
        return false;
    }
    let n = a.len();
    for i in 0..n
        invariant
            n == a.len() == b.len(),
            forall|j: int| 0 <= j < i ==> a.deep_view()[j] == b.deep_view()[j],
    {
        if !a[i].eq(&b[i]) {
            assert(a.deep_view()[i as int] != b.deep_view()[i as int]);
            return false;
        }
    }
    proof {
        assert(a.deep_view() =~= b.deep_view());
    }
    true
}

/// Whether `p` is at or below `root`.
pub fn path_starts_with(p: &Vec<String>, root: &Vec<String>) -> (r: bool)
    ensures
        r == spec_starts_with(p.deep_view(), root.deep_view()),
{
    if p.len() < root.len() {
        return false;
    }
    let n = root.len();
    for i in 0..n
        invariant
            n == root.len() <= p.len(),
            forall|j: int| 0 <= j < i ==> p.deep_view()[j] == root.deep_view()[j],
    {
        if !p[i].eq(&root[i]) {
            assert(p.deep_view()[i as int] != root.deep_view()[i as int]);
            assert(!spec_starts_with(p.deep_view(), root.deep_view())) by {
                if spec_starts_with(p.deep_view(), root.deep_view()) {
                    assert(p.deep_view().subrange(0, n as int)[i as int]
                        == p.deep_view()[i as int]);
                }
            }
            return false;
        }
    }
    proof {
        assert(p.deep_view().subrange(0, n as int) =~= root.deep_view());
    }
    true
}

/// A clone of the path, equal to it element by element.
pub fn path_clone(p: &Vec<String>) -> (r: Vec<String>)
    ensures
        r@ == p@,
        r.deep_view() == p.deep_view(),
{
    let r = p.clone();
    proof {
        assert forall|i: int| 0 <= i < p.len() implies r@[i] == p@[i] by {
            assert(cloned::<String>(p@[i], r@[i]));
        }
        assert(r@ =~= p@);
    }
    r
}

/// The parent path, or `None` for the root.
pub fn parent_of(p: &Vec<String>) -> (r: Option<Vec<String>>)
    ensures
        p.len() == 0 ==> r is None,
        p.len() > 0 ==> r is Some && r->0.deep_view() == spec_parent(p.deep_view()),
{
    if p.len() == 0 {
        return None;
    }
    let mut r = path_clone(p);
    let ghost full = r@;
    r.pop();
    proof {
        assert(r@ =~= full.drop_last());
        assert(r.deep_view() =~= spec_parent(p.deep_view()));
    }
    Some(r)
}

/// The display name of a path: its last component, or a placeholder for the
/// root, which has none.
pub fn name_of(p: &Vec<String>) -> (r: String)
    ensures
        p.len() > 0 ==> r@ == p.deep_view().last(),
        p.len() == 0 ==> r@ == "unknown"@,
{
    if p.len() == 0 {
        "unknown".to_owned()
    } else {
        p[p.len() - 1].clone()
    }
}

/// The path extended by one component.
pub fn path_push(p: Vec<String>, c: String) -> (r: Vec<String>)
    ensures
        r.deep_view() == p.deep_view().push(c@),
{
    let ghost pv = p.deep_view();
    let ghost cv = c@;
    let mut r = p;
    r.push(c);
    proof {
        assert forall|j: int| 0 <= j < r.deep_view().len() implies r.deep_view()[j] == pv.push(
            cv,
        )[j] by {
            if j < pv.len() {
                assert(pv[j] == r@[j].deep_view());
            } else {
                assert(r.deep_view()[j] == cv);
            }
        }
        assert(r.deep_view() =~= pv.push(cv));
    }
    r
}

} // verus!
