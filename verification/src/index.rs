//! The background indexer: lookup tables over the flat record list, built
//! once per scan so that later subtree queries need no per-query sort.
//!
//! The path index maps each record's path to its position in the list; the
//! children index maps each directory path at or below the scan root to
//! the positions of its immediate children, largest first.

use vstd::prelude::*;

use crate::paths::spec_parent;
use crate::paths::spec_starts_with;
use crate::project::set_percents;
use crate::project::spec_build;
use crate::project::spec_virtual_node;
use crate::project::with_percent;
use crate::record::AggregateRecord;
use crate::record::RecordV;
use crate::tree::TreeNode;
use crate::tree::TreeV;
use crate::tree::spec_insert_desc;
use crate::tree::spec_sort_desc;
use crate::tree::tree_children_view;

verus! {

/// Whether an entry is listed in the bucket of `parent`: it has a parent,
/// that parent is `parent`, and the parent lies at or below the scan root.
pub open spec fn in_bucket(e: RecordV, scope: Seq<Seq<char>>, parent: Seq<Seq<char>>) -> bool {
    e.path.len() > 0 && spec_parent(e.path) == parent && spec_starts_with(parent, scope)
}

/// The positions of the children of `parent`, in table order.
pub open spec fn spec_bucket(
    entries: Seq<RecordV>,
    scope: Seq<Seq<char>>,
    parent: Seq<Seq<char>>,
) -> Seq<usize>
    decreases entries.len(),
{
    if entries.len() == 0 {
        Seq::empty()
    } else {
        let rest = spec_bucket(entries.drop_last(), scope, parent);
        if in_bucket(entries.last(), scope, parent) {
            rest.push((entries.len() - 1) as usize)
        } else {
            rest
        }
    }
}

/// The size recorded at a position; zero when the position is out of
/// range.
pub open spec fn idx_size(entries: Seq<RecordV>, j: usize) -> u64 {
    if j < entries.len() {
        entries[j as int].size_bytes
    } else {
        0u64
    }
}

/// Where a position belongs among positions already sorted by recorded
/// size: after every position at least as large.
pub open spec fn spec_insert_idx(entries: Seq<RecordV>, s: Seq<usize>, x: usize) -> Seq<usize>
    decreases s.len(),
{
    if s.len() == 0 {
        seq![x]
    } else if idx_size(entries, s.last()) >= idx_size(entries, x) {
        s.push(x)
    } else {
        spec_insert_idx(entries, s.drop_last(), x).push(s.last())
    }
}

/// Positions sorted by recorded size, largest first, equals keeping their
/// order.
pub open spec fn spec_sort_idx(entries: Seq<RecordV>, s: Seq<usize>) -> Seq<usize>
    decreases s.len(),
{
    if s.len() == 0 {
        Seq::empty()
    } else {
        spec_insert_idx(entries, spec_sort_idx(entries, s.drop_last()), s.last())
    }
}

/// The bucket stored under `key` in the children index: the value of its
/// first pair with that key.
pub open spec fn spec_lookup_children_from(
    pairs: Seq<(Seq<Seq<char>>, Seq<usize>)>,
    key: Seq<Seq<char>>,
    i: int,
) -> Option<Seq<usize>>
    decreases pairs.len() - i,
{
    if i < 0 || i >= pairs.len() {
        Option::None
    } else if pairs[i].0 == key {
        Option::Some(pairs[i].1)
    } else {
        spec_lookup_children_from(pairs, key, i + 1)
    }
}

/// The bucket stored under `key` in the children index.
pub open spec fn spec_lookup_children(
    pairs: Seq<(Seq<Seq<char>>, Seq<usize>)>,
    key: Seq<Seq<char>>,
) -> Option<Seq<usize>> {
    spec_lookup_children_from(pairs, key, 0)
}

/// The position stored under `key` in the path index: the value of its
/// first pair with that key.
pub open spec fn spec_lookup_pos_from(
    pairs: Seq<(Seq<Seq<char>>, usize)>,
    key: Seq<Seq<char>>,
    i: int,
) -> Option<usize>
    decreases pairs.len() - i,
{
    if i < 0 || i >= pairs.len() {
        Option::None
    } else if pairs[i].0 == key {
        Option::Some(pairs[i].1)
    } else {
        spec_lookup_pos_from(pairs, key, i + 1)
    }
}

/// The position stored under `key` in the path index.
pub open spec fn spec_lookup_pos(
    pairs: Seq<(Seq<Seq<char>>, usize)>,
    key: Seq<Seq<char>>,
) -> Option<usize> {
    spec_lookup_pos_from(pairs, key, 0)
}

/// The model of the children index: each pair's key as component
/// sequences and its bucket as a position sequence.
pub open spec fn kid_view(s: Seq<(Vec<String>, Vec<usize>)>) -> Seq<(Seq<Seq<char>>, Seq<usize>)> {
    Seq::new(s.len(), |j: int| (s[j].0.deep_view(), s[j].1@))
}

/// Insert a position among positions sorted by recorded size.
fn insert_idx(entries: &Vec<AggregateRecord>, v: &mut Vec<usize>, x: usize)
    ensures
        final(v)@ == spec_insert_idx(entries.deep_view(), old(v)@, x),
    decreases old(v)@.len(),
{
    let ghost ev = entries.deep_view();
    let ghost orig = old(v)@;
    let n = v.len();
    let xs = if x < entries.len() {
        proof {
            assert(ev[x as int] == entries@[x as int]@);
        }
        entries[x].size_bytes
    } else {
        0
    };
    proof {
        assert(xs == idx_size(ev, x));
    }
    if n == 0 {
        v.push(x);
        proof {
            assert(v@ =~= seq![x]);
        }
    } else {
        let lastpos = v[n - 1];
        let ls = if lastpos < entries.len() {
            proof {
                assert(ev[lastpos as int] == entries@[lastpos as int]@);
            }
            entries[lastpos].size_bytes
        } else {
            0
        };
        proof {
            assert(ls == idx_size(ev, orig.last()));
        }
        if ls >= xs {
            v.push(x);
            proof {
                assert(v@ =~= orig.push(x));
            }
        } else {
            let popped = match v.pop() {
                Option::Some(p) => p,
                Option::None => vstd::pervasive::unreached(),
            };
            proof {
                assert(v@ =~= orig.drop_last());
                assert(popped == orig.last());
            }
            insert_idx(entries, v, x);
            v.push(popped);
            proof {
                assert(v@ =~= spec_insert_idx(ev, orig.drop_last(), x).push(orig.last()));
            }
        }
    }
}

/// Build the two lookup tables over the flat record list for scans rooted
/// at `scope_root`: each record's position under its path, and under each
/// directory path in scope the positions of its immediate children,
/// largest first, equals in table order, with each directory listed once
/// and only when it has children.
#[verifier::rlimit(100)]
pub fn build_indices(entries: &Vec<AggregateRecord>, scope_root: &Vec<String>) -> (r: (
    Vec<(Vec<String>, usize)>,
    Vec<(Vec<String>, Vec<usize>)>,
))
    ensures
        r.0.deep_view().len() == entries@.len(),
        forall|i: int|
            0 <= i < entries@.len() ==> #[trigger] r.0.deep_view()[i] == (
                entries.deep_view()[i].path,
                i as usize,
            ),
        forall|j1: int, j2: int|
            0 <= j1 < kid_view(r.1@).len() && 0 <= j2 < kid_view(r.1@).len() && j1 != j2
                ==> kid_view(r.1@)[j1].0 != kid_view(r.1@)[j2].0,
        forall|j: int|
            0 <= j < kid_view(r.1@).len() ==> #[trigger] kid_view(r.1@)[j].1 == spec_sort_idx(
                entries.deep_view(),
                spec_bucket(entries.deep_view(), scope_root.deep_view(), kid_view(r.1@)[j].0),
            ),
        forall|p: Seq<Seq<char>>|
            spec_bucket(entries.deep_view(), scope_root.deep_view(), p).len() > 0 ==> exists|j: int|
                0 <= j < kid_view(r.1@).len() && #[trigger] kid_view(r.1@)[j].0 == p,
        forall|j: int|
            0 <= j < kid_view(r.1@).len() ==> spec_bucket(
                entries.deep_view(),
                scope_root.deep_view(),
                #[trigger] kid_view(r.1@)[j].0,
            ).len() > 0,
{
    let ghost ev = entries.deep_view();
    let ghost sv = scope_root.deep_view();
    let n = entries.len();
    let mut path_pairs: Vec<(Vec<String>, usize)> = Vec::new();
    for i in 0..n
        invariant
            n == entries@.len(),
            ev == entries.deep_view(),
            path_pairs@.len() == i,
            forall|j: int|
                0 <= j < i ==> #[trigger] path_pairs.deep_view()[j] == (ev[j].path, j as usize),
    {
        proof {
            assert(ev[i as int] == entries@[i as int]@);
        }
        let ghost oldpp = path_pairs@;
        let ghost oldppdv = path_pairs.deep_view();
        let pair = (crate::paths::path_clone(&entries[i].path), i);
        path_pairs.push(pair);
        proof {
            assert forall|j: int| 0 <= j < i + 1 implies #[trigger] path_pairs.deep_view()[j] == (
                ev[j].path,
                j as usize,
            ) by {
                assert(path_pairs.deep_view()[j] == path_pairs@[j].deep_view());
                if j < i {
                    assert(path_pairs@[j] == oldpp[j]);
                    assert(oldppdv[j] == oldpp[j].deep_view());
                }
            }
        }
    }
    let mut kid_pairs: Vec<(Vec<String>, Vec<usize>)> = Vec::new();
    let ghost mut keydir: Map<Seq<Seq<char>>, int> = Map::empty();
    let mut i: usize = 0;
    while i < n
        invariant
            i <= n,
            n == entries@.len(),
            ev == entries.deep_view(),
            sv == scope_root.deep_view(),
            forall|j1: int, j2: int|
                0 <= j1 < kid_view(kid_pairs@).len() && 0 <= j2 < kid_view(kid_pairs@).len()
                    && j1 != j2 ==> kid_view(kid_pairs@)[j1].0 != kid_view(kid_pairs@)[j2].0,
            forall|j: int|
                0 <= j < kid_view(kid_pairs@).len() ==> #[trigger] kid_view(kid_pairs@)[j].1
                    == spec_sort_idx(
                    ev,
                    spec_bucket(ev.subrange(0, i as int), sv, kid_view(kid_pairs@)[j].0),
                ),
            forall|j: int|
                0 <= j < kid_view(kid_pairs@).len() ==> spec_bucket(
                    ev.subrange(0, i as int),
                    sv,
                    #[trigger] kid_view(kid_pairs@)[j].0,
                ).len() > 0,
            forall|p: Seq<Seq<char>>|
                #![trigger spec_bucket(ev.subrange(0, i as int), sv, p)]
                spec_bucket(ev.subrange(0, i as int), sv, p).len() > 0 ==> keydir.contains_key(p)
                    && 0 <= keydir[p] < kid_view(kid_pairs@).len() && kid_view(
                    kid_pairs@,
                )[keydir[p]].0 == p,
        decreases n - i,
    {
        let ghost pre = ev.subrange(0, i as int);
        let ghost post = ev.subrange(0, i as int + 1);
        proof {
            assert(post.drop_last() =~= pre);
            assert(post.last() == ev[i as int]);
            assert(ev[i as int] == entries@[i as int]@);
        }
        let e = &entries[i];
        let mut admitted: Option<Vec<String>> = Option::None;
        match crate::paths::parent_of(&e.path) {
            Option::None => {},
            Option::Some(par) => {
                if crate::paths::path_starts_with(&par, scope_root) {
                    admitted = Option::Some(par);
                }
            },
        };
        let parent = match admitted {
            Option::None => {
                proof {
                    assert forall|p: Seq<Seq<char>>| spec_bucket(post, sv, p) =~= spec_bucket(
                        pre,
                        sv,
                        p,
                    ) by {
                        assert(!in_bucket(ev[i as int], sv, p));
                    }
                    assert forall|p: Seq<Seq<char>>| spec_bucket(post, sv, p).len() > 0
                        implies spec_bucket(ev.subrange(0, i as int), sv, p).len() > 0 by {
                        assert(spec_bucket(post, sv, p) =~= spec_bucket(pre, sv, p));
                    }
                }
                Option::None
            },
            Option::Some(par) => Option::Some(par),
        };
        if let Option::Some(parent) = parent {
            let ghost pv = parent.deep_view();
            proof {
                assert(in_bucket(ev[i as int], sv, pv));
                assert forall|p: Seq<Seq<char>>| p != pv implies spec_bucket(post, sv, p)
                    =~= spec_bucket(pre, sv, p) by {
                    assert(!in_bucket(ev[i as int], sv, p));
                }
                assert(spec_bucket(post, sv, pv) =~= spec_bucket(pre, sv, pv).push(i));
            }
            let mut found: Option<usize> = Option::None;
            let m = kid_pairs.len();
            for j in 0..m
                invariant
                    m == kid_pairs@.len(),
                    pv == parent.deep_view(),
                    match found {
                        Option::None => forall|j2: int|
                            0 <= j2 < j ==> #[trigger] kid_view(kid_pairs@)[j2].0 != pv,
                        Option::Some(f) => f < m && kid_view(kid_pairs@)[f as int].0 == pv,
                    },
            {
                proof {
                    assert(kid_view(kid_pairs@)[j as int].0 == kid_pairs@[j as int].0.deep_view());
                }
                if found.is_none() && crate::paths::path_eq(&kid_pairs[j].0, &parent) {
                    found = Option::Some(j);
                }
            }
            let ghost oldpairs = kid_view(kid_pairs@);
            let ghost oldvec = kid_pairs@;
            match found {
                Option::Some(j) => {
                    let pair = vstd::std_specs::vec::vec_index_mut(&mut kid_pairs, j);
                    insert_idx(entries, &mut pair.1, i);
                    proof {
                        let newdv = kid_view(kid_pairs@);
                        assert(kid_pairs@ == oldvec.update(j as int, kid_pairs@[j as int]));
                        assert forall|j2: int| 0 <= j2 < newdv.len() implies #[trigger] newdv[j2]
                            == if j2 == j {
                            (oldpairs[j as int].0, spec_insert_idx(ev, oldpairs[j as int].1, i))
                        } else {
                            oldpairs[j2]
                        } by {
                            assert(newdv[j2] == (kid_pairs@[j2].0.deep_view(), kid_pairs@[j2].1@));
                            if j2 != j {
                                assert(kid_pairs@[j2] == oldvec[j2]);
                                assert(oldpairs[j2] == (oldvec[j2].0.deep_view(), oldvec[j2].1@));
                            }
                        }
                        let bpre = spec_bucket(pre, sv, pv);
                        assert(oldpairs[j as int].1 == spec_sort_idx(ev, bpre));
                        assert(spec_bucket(post, sv, pv).drop_last() =~= bpre);
                        assert(spec_bucket(post, sv, pv).last() == i as usize);
                        assert(spec_sort_idx(ev, spec_bucket(post, sv, pv)) == spec_insert_idx(
                            ev,
                            spec_sort_idx(ev, bpre),
                            i,
                        ));
                        assert forall|j2: int| 0 <= j2 < newdv.len() implies #[trigger] newdv[j2].1
                            == spec_sort_idx(ev, spec_bucket(post, sv, newdv[j2].0)) by {
                            if j2 == j {
                            } else {
                                assert(newdv[j2].0 != pv);
                                assert(!in_bucket(ev[i as int], sv, newdv[j2].0));
                                assert(spec_bucket(post, sv, newdv[j2].0) =~= spec_bucket(
                                    pre,
                                    sv,
                                    newdv[j2].0,
                                ));
                            }
                        }
                        assert forall|j2: int| 0 <= j2 < newdv.len() implies spec_bucket(
                            post,
                            sv,
                            #[trigger] newdv[j2].0,
                        ).len() > 0 by {
                            if j2 != j {
                                assert(!in_bucket(ev[i as int], sv, newdv[j2].0));
                                assert(spec_bucket(post, sv, newdv[j2].0) =~= spec_bucket(
                                    pre,
                                    sv,
                                    newdv[j2].0,
                                ));
                                assert(spec_bucket(ev.subrange(0, i as int), sv, newdv[j2].0).len()
                                    > 0);
                            }
                        }
                        assert forall|p: Seq<Seq<char>>|
                            spec_bucket(post, sv, p).len() > 0 implies keydir.contains_key(p) && 0
                            <= keydir[p] < newdv.len() && newdv[keydir[p]].0 == p by {
                            assert(spec_bucket(ev.subrange(0, i as int), sv, p).len() > 0
                                ==> keydir.contains_key(p) && 0 <= keydir[p] < oldpairs.len()
                                && oldpairs[keydir[p]].0 == p);
                            if p == pv {
                                assert(spec_bucket(ev.subrange(0, i as int), sv, pv).len() > 0)
                                    by {
                                    assert(spec_bucket(
                                        ev.subrange(0, i as int),
                                        sv,
                                        oldpairs[j as int].0,
                                    ).len() > 0);
                                }
                            } else {
                                assert(spec_bucket(post, sv, p) =~= spec_bucket(pre, sv, p));
                                assert(spec_bucket(ev.subrange(0, i as int), sv, p).len() > 0);
                            }
                            assert(newdv[keydir[p]].0 == oldpairs[keydir[p]].0);
                        }
                    }
                },
                Option::None => {
                    let mut bucket: Vec<usize> = Vec::new();
                    bucket.push(i);
                    proof {
                        assert(bucket@ =~= seq![i as usize]);
                        let bpre = spec_bucket(pre, sv, pv);
                        if bpre.len() > 0 {
                            assert(spec_bucket(ev.subrange(0, i as int), sv, pv).len() > 0
                                ==> keydir.contains_key(pv) && 0 <= keydir[pv] < oldpairs.len()
                                && oldpairs[keydir[pv]].0 == pv);
                            assert(spec_bucket(ev.subrange(0, i as int), sv, pv).len() > 0);
                            let j0 = keydir[pv];
                            assert(oldpairs[j0].0 == pv);
                            assert(oldpairs[j0].0 != pv);
                        }
                        assert(bpre.len() == 0);
                        assert(spec_bucket(post, sv, pv) =~= seq![i as usize]);
                        assert(spec_bucket(post, sv, pv).drop_last() =~= Seq::<usize>::empty());
                        assert(spec_bucket(post, sv, pv).last() == i as usize);
                        assert(spec_sort_idx(ev, Seq::<usize>::empty()) =~= Seq::<usize>::empty());
                        assert(spec_insert_idx(ev, Seq::<usize>::empty(), i) =~= seq![i as usize]);
                        assert(spec_sort_idx(ev, spec_bucket(post, sv, pv)) =~= seq![i as usize]);
                    }
                    let newpair = (parent, bucket);
                    kid_pairs.push(newpair);
                    proof {
                        let oldkeydir = keydir;
                        keydir = keydir.insert(pv, oldpairs.len() as int);
                        let newdv = kid_view(kid_pairs@);
                        assert forall|j2: int| 0 <= j2 < newdv.len() implies #[trigger] newdv[j2]
                            == if j2 < oldpairs.len() {
                            oldpairs[j2]
                        } else {
                            (pv, seq![i as usize])
                        } by {
                            assert(newdv[j2] == (kid_pairs@[j2].0.deep_view(), kid_pairs@[j2].1@));
                            if j2 < oldpairs.len() {
                                assert(kid_pairs@[j2] == oldvec[j2]);
                                assert(oldpairs[j2] == (oldvec[j2].0.deep_view(), oldvec[j2].1@));
                            }
                        }
                        assert forall|j2: int| 0 <= j2 < newdv.len() implies #[trigger] newdv[j2].1
                            == spec_sort_idx(ev, spec_bucket(post, sv, newdv[j2].0)) by {
                            if j2 < oldpairs.len() {
                                assert(newdv[j2].0 != pv);
                                assert(!in_bucket(ev[i as int], sv, newdv[j2].0));
                                assert(spec_bucket(post, sv, newdv[j2].0) =~= spec_bucket(
                                    pre,
                                    sv,
                                    newdv[j2].0,
                                ));
                            }
                        }
                        assert forall|j2: int| 0 <= j2 < newdv.len() implies spec_bucket(
                            post,
                            sv,
                            #[trigger] newdv[j2].0,
                        ).len() > 0 by {
                            if j2 < oldpairs.len() {
                                assert(!in_bucket(ev[i as int], sv, newdv[j2].0));
                                assert(spec_bucket(post, sv, newdv[j2].0) =~= spec_bucket(
                                    pre,
                                    sv,
                                    newdv[j2].0,
                                ));
                                assert(spec_bucket(ev.subrange(0, i as int), sv, newdv[j2].0).len()
                                    > 0);
                            }
                        }
                        assert forall|p: Seq<Seq<char>>|
                            spec_bucket(post, sv, p).len() > 0 implies keydir.contains_key(p) && 0
                            <= keydir[p] < newdv.len() && newdv[keydir[p]].0 == p by {
                            if p == pv {
                                assert(keydir[pv] == oldpairs.len() as int);
                                assert(newdv[oldpairs.len() as int].0 == pv);
                            } else {
                                assert(spec_bucket(ev.subrange(0, i as int), sv, p).len() > 0
                                    ==> oldkeydir.contains_key(p) && 0 <= oldkeydir[p]
                                    < oldpairs.len() && oldpairs[oldkeydir[p]].0 == p);
                                assert(spec_bucket(post, sv, p) =~= spec_bucket(pre, sv, p));
                                assert(spec_bucket(ev.subrange(0, i as int), sv, p).len() > 0);
                                assert(keydir[p] == oldkeydir[p]);
                                assert(newdv[keydir[p]].0 == oldpairs[keydir[p]].0);
                            }
                        }
                    }
                },
            }
        }
        i = i + 1;
    }
    proof {
        assert(ev.subrange(0, n as int) =~= ev);
        assert forall|p: Seq<Seq<char>>| spec_bucket(ev, sv, p).len() > 0 implies exists|j: int|
            0 <= j < kid_view(kid_pairs@).len() && #[trigger] kid_view(kid_pairs@)[j].0 == p by {
            assert(spec_bucket(ev.subrange(0, n as int), sv, p).len() > 0);
            let j0 = keydir[p];
            assert(0 <= j0 < kid_view(kid_pairs@).len() && kid_view(kid_pairs@)[j0].0 == p);
        }
    }
    (path_pairs, kid_pairs)
}

/// The records at a list of positions, in order, positions out of range
/// left out.
pub open spec fn recs_of(entries: Seq<RecordV>, idxs: Seq<usize>) -> Seq<RecordV>
    decreases idxs.len(),
{
    if idxs.len() == 0 {
        Seq::empty()
    } else {
        let rest = recs_of(entries, idxs.drop_last());
        if idxs.last() < entries.len() {
            rest.push(entries[idxs.last() as int])
        } else {
            rest
        }
    }
}

/// The childless display nodes of the records at a list of positions.
pub open spec fn spec_idx_nodes(
    entries: Seq<RecordV>,
    focus: Seq<Seq<char>>,
    idxs: Seq<usize>,
) -> Seq<TreeV>
    decreases idxs.len(),
{
    if idxs.len() == 0 {
        Seq::empty()
    } else {
        let rest = spec_idx_nodes(entries, focus, idxs.drop_last());
        if idxs.last() < entries.len() {
            rest.push(spec_build(entries, focus, entries[idxs.last() as int], 0))
        } else {
            rest
        }
    }
}

/// The positions among `idxs` whose records are real directories.
pub open spec fn spec_dir_idxs(entries: Seq<RecordV>, idxs: Seq<usize>) -> Seq<usize>
    decreases idxs.len(),
{
    if idxs.len() == 0 {
        Seq::empty()
    } else {
        let rest = spec_dir_idxs(entries, idxs.drop_last());
        if idxs.last() < entries.len() && entries[idxs.last() as int].directory_count > 0 {
            rest.push(idxs.last())
        } else {
            rest
        }
    }
}

/// The positions among `idxs` whose records are not directories: the
/// loose children that grouping bundles.
pub open spec fn spec_loose_idxs(entries: Seq<RecordV>, idxs: Seq<usize>) -> Seq<usize>
    decreases idxs.len(),
{
    if idxs.len() == 0 {
        Seq::empty()
    } else {
        let rest = spec_loose_idxs(entries, idxs.drop_last());
        if idxs.last() < entries.len() && entries[idxs.last() as int].directory_count == 0 {
            rest.push(idxs.last())
        } else {
            rest
        }
    }
}

/// The projection served from the prebuilt indices: the node of `target`
/// with one level of children taken from its prebuilt bucket, in bucket
/// order; `None` when `target` is not in the path index. With grouping,
/// the non-directory children are bundled into one synthetic node, as in
/// the full projector.
pub open spec fn spec_project_indexed(
    entries: Seq<RecordV>,
    ppairs: Seq<(Seq<Seq<char>>, usize)>,
    kpairs: Seq<(Seq<Seq<char>>, Seq<usize>)>,
    target: Seq<Seq<char>>,
    depth: nat,
    group: bool,
) -> Option<TreeV> {
    match spec_lookup_pos(ppairs, target) {
        Option::None => Option::None,
        Option::Some(ti) => {
            if ti >= entries.len() {
                Option::None
            } else {
                let root = entries[ti as int];
                let kids: Seq<usize> = match spec_lookup_children(kpairs, target) {
                    Option::Some(k) => k,
                    Option::None => Seq::empty(),
                };
                let base = spec_build(entries, target, root, 0);
                let shown = if depth == 0 {
                    Seq::empty()
                } else {
                    set_percents(spec_idx_nodes(entries, target, kids), root.size_bytes)
                };
                let loosei = spec_loose_idxs(entries, kids);
                if !group || loosei.len() == 0 {
                    Option::Some(
                        TreeV {
                            children: shown,
                            ..base
                        },
                    )
                } else {
                    let diri = spec_dir_idxs(entries, kids);
                    let main_children = if depth == 0 {
                        Seq::empty()
                    } else {
                        set_percents(spec_idx_nodes(entries, target, diri), root.size_bytes)
                    };
                    let vnode = spec_virtual_node(entries, target, root, recs_of(entries, loosei));
                    Option::Some(
                        TreeV {
                            children: set_percents(
                                spec_sort_desc(main_children.push(vnode)),
                                root.size_bytes,
                            ),
                            ..base
                        },
                    )
                }
            }
        },
    }
}

/// The childless display node of the record at one position, bearing its
/// share of a parent of the given size.
fn idx_node(
    entries: &Vec<AggregateRecord>,
    focus: &Vec<String>,
    j: usize,
    parent_size: u64,
) -> (t: TreeNode)
    requires
        j < entries@.len(),
    ensures
        t@ == with_percent(
            spec_build(entries.deep_view(), focus.deep_view(), entries.deep_view()[j as int], 0),
            parent_size,
        ),
{
    proof {
        assert(entries.deep_view()[j as int] == entries@[j as int]@);
    }
    let mut t = crate::project::build_node(entries, focus, &entries[j], 0);
    t.percent_of_parent = crate::tree::percent_of(t.size_bytes, parent_size);
    t
}

/// Project the tree at `target` from the prebuilt indices: its node with
/// one level of children in prebuilt, largest-first order; `None` when
/// `target` is not in the path index. With grouping, the non-directory
/// children are bundled into one synthetic node.
pub fn project_from_indices(
    entries: &Vec<AggregateRecord>,
    path_pairs: &Vec<(Vec<String>, usize)>,
    kid_pairs: &Vec<(Vec<String>, Vec<usize>)>,
    target: &Vec<String>,
    max_depth: usize,
    group_loose_files: bool,
) -> (r: Option<TreeNode>)
    ensures
        match spec_project_indexed(
            entries.deep_view(),
            path_pairs.deep_view(),
            kid_view(kid_pairs@),
            target.deep_view(),
            max_depth as nat,
            group_loose_files,
        ) {
            Option::None => r is None,
            Option::Some(tv) => r matches Some(t) && t@ == tv,
        },
{
    let ghost ev = entries.deep_view();
    let ghost ppv = path_pairs.deep_view();
    let ghost kpv = kid_view(kid_pairs@);
    let ghost tv = target.deep_view();
    let mut pos: Option<usize> = Option::None;
    let np = path_pairs.len();
    for j in 0..np
        invariant
            np == path_pairs@.len(),
            ppv == path_pairs.deep_view(),
            tv == target.deep_view(),
            match pos {
                Option::None => spec_lookup_pos(ppv, tv) == spec_lookup_pos_from(
                    ppv,
                    tv,
                    j as int,
                ),
                Option::Some(x) => spec_lookup_pos(ppv, tv) == Option::Some(x),
            },
    {
        proof {
            assert(ppv[j as int] == path_pairs@[j as int].deep_view());
        }
        if pos.is_none() {
            if crate::paths::path_eq(&path_pairs[j].0, target) {
                pos = Option::Some(path_pairs[j].1);
                proof {
                    assert(spec_lookup_pos_from(ppv, tv, j as int) == Option::Some(
                        path_pairs@[j as int].1,
                    ));
                }
            }
        }
    }
    let ti = match pos {
        Option::None => {
            return Option::None;
        },
        Option::Some(ti) => ti,
    };
    if ti >= entries.len() {
        return Option::None;
    }
    proof {
        assert(ev[ti as int] == entries@[ti as int]@);
    }
    let root_rec = &entries[ti];
    let base = crate::project::build_node(entries, target, root_rec, 0);
    let mut kids_found: Option<usize> = Option::None;
    let nk = kid_pairs.len();
    for j in 0..nk
        invariant
            nk == kid_pairs@.len(),
            kpv == kid_view(kid_pairs@),
            tv == target.deep_view(),
            match kids_found {
                Option::None => spec_lookup_children(kpv, tv) == spec_lookup_children_from(
                    kpv,
                    tv,
                    j as int,
                ),
                Option::Some(f) => f < kid_pairs@.len() && spec_lookup_children(kpv, tv)
                    == Option::Some(kid_pairs@[f as int].1@),
            },
    {
        proof {
            assert(kpv[j as int] == (kid_pairs@[j as int].0.deep_view(), kid_pairs@[j as int].1@));
        }
        if kids_found.is_none() {
            if crate::paths::path_eq(&kid_pairs[j].0, target) {
                kids_found = Option::Some(j);
                proof {
                    assert(spec_lookup_children_from(kpv, tv, j as int) == Option::Some(
                        kid_pairs@[j as int].1@,
                    ));
                }
            }
        }
    }
    let empty_bucket: Vec<usize> = Vec::new();
    let bucket: &Vec<usize> = match kids_found {
        Option::Some(j) => &kid_pairs[j].1,
        Option::None => &empty_bucket,
    };
    let ghost kids = bucket@;
    proof {
        assert(kids == match spec_lookup_children(kpv, tv) {
            Option::Some(k) => k,
            Option::None => Seq::<usize>::empty(),
        });
    }
    let nb = bucket.len();
    let mut shown: Vec<TreeNode> = Vec::new();
    let mut dirs: Vec<TreeNode> = Vec::new();
    let mut loose_count: u64 = 0;
    let mut vsize: u64 = 0;
    let mut valloc: u64 = 0;
    let mut ventry: u64 = 0;
    let mut vfile: u64 = 0;
    let mut loose_nodes: Vec<TreeNode> = Vec::new();
    for k in 0..nb
        invariant
            nb == bucket@.len(),
            kids == bucket@,
            ev == entries.deep_view(),
            tv == target.deep_view(),
            ti < entries@.len(),
            root_rec == &entries@[ti as int],
            loose_count <= k,
            tree_children_view(shown@) =~= set_percents(
                spec_idx_nodes(ev, tv, kids.subrange(0, k as int)),
                ev[ti as int].size_bytes,
            ),
            tree_children_view(dirs@) =~= set_percents(
                spec_idx_nodes(ev, tv, spec_dir_idxs(ev, kids.subrange(0, k as int))),
                ev[ti as int].size_bytes,
            ),
            tree_children_view(loose_nodes@) =~= spec_sort_desc(
                spec_idx_nodes(ev, tv, spec_loose_idxs(ev, kids.subrange(0, k as int))),
            ),
            loose_count == spec_loose_idxs(ev, kids.subrange(0, k as int)).len(),
            vsize == crate::scanner::clip64(
                crate::project::sum_size(
                    recs_of(ev, spec_loose_idxs(ev, kids.subrange(0, k as int))),
                ),
            ),
            valloc == crate::scanner::clip64(
                crate::project::sum_alloc(
                    recs_of(ev, spec_loose_idxs(ev, kids.subrange(0, k as int))),
                ),
            ),
            ventry == crate::scanner::clip64(
                crate::project::sum_entries(
                    recs_of(ev, spec_loose_idxs(ev, kids.subrange(0, k as int))),
                ),
            ),
            vfile == crate::scanner::clip64(
                crate::project::sum_files(
                    recs_of(ev, spec_loose_idxs(ev, kids.subrange(0, k as int))),
                ),
            ),
    {
        let ghost kpre = kids.subrange(0, k as int);
        let ghost kpost = kids.subrange(0, k as int + 1);
        proof {
            assert(kpost.drop_last() =~= kpre);
            assert(kpost.last() == kids[k as int]);
            crate::project::lemma_sums_nonneg(recs_of(ev, spec_loose_idxs(ev, kpre)));
        }
        let j = bucket[k];
        if j < entries.len() {
            proof {
                assert(ev[j as int] == entries@[j as int]@);
            }
            let node = idx_node(entries, target, j, root_rec.size_bytes);
            let ghost lpre = spec_loose_idxs(ev, kpre);
            let ghost lpost = spec_loose_idxs(ev, kpost);
            let ghost dpre = spec_dir_idxs(ev, kpre);
            let ghost dpost = spec_dir_idxs(ev, kpost);
            proof {
                assert(spec_idx_nodes(ev, tv, kpost) == spec_idx_nodes(ev, tv, kpre).push(
                    spec_build(ev, tv, ev[j as int], 0),
                ));
            }
            let ghost oldshown = shown@;
            let ghost oldtcv = tree_children_view(shown@);
            shown.push(node);
            proof {
                assert(shown@.drop_last() =~= oldshown);
                assert(shown@.last() == node);
                assert(tree_children_view(shown@) == oldtcv.push(node@));
                lemma_set_percents_push(
                    spec_idx_nodes(ev, tv, kpre),
                    spec_build(ev, tv, ev[j as int], 0),
                    ev[ti as int].size_bytes,
                );
                assert(tree_children_view(shown@) =~= set_percents(
                    spec_idx_nodes(ev, tv, kpost),
                    ev[ti as int].size_bytes,
                ));
            }
            if entries[j].directory_count > 0 {
                let dnode = idx_node(entries, target, j, root_rec.size_bytes);
                let ghost olddirs = dirs@;
                let ghost oldtcvd = tree_children_view(dirs@);
                dirs.push(dnode);
                proof {
                    assert(dpost == dpre.push(kids[k as int]));
                    assert(dpost.drop_last() =~= dpre);
                    assert(spec_idx_nodes(ev, tv, dpost) == spec_idx_nodes(ev, tv, dpre).push(
                        spec_build(ev, tv, ev[j as int], 0),
                    ));
                    assert(lpost == lpre);
                    assert(dirs@.drop_last() =~= olddirs);
                    assert(dirs@.last() == dnode);
                    assert(tree_children_view(dirs@) == oldtcvd.push(dnode@));
                    lemma_set_percents_push(
                        spec_idx_nodes(ev, tv, dpre),
                        spec_build(ev, tv, ev[j as int], 0),
                        ev[ti as int].size_bytes,
                    );
                    assert(tree_children_view(dirs@) =~= set_percents(
                        spec_idx_nodes(ev, tv, dpost),
                        ev[ti as int].size_bytes,
                    ));
                    assert(recs_of(ev, lpost) == recs_of(ev, lpre));
                }
            } else {
                let lnode = crate::project::build_node(entries, target, &entries[j], 0);
                crate::tree::insert_desc(&mut loose_nodes, lnode);
                vsize = crate::scanner::sat_add(vsize, entries[j].size_bytes);
                valloc = crate::scanner::sat_add(valloc, entries[j].size_allocated_bytes);
                ventry = crate::scanner::sat_add(ventry, entries[j].entry_count);
                vfile = crate::scanner::sat_add(vfile, entries[j].file_count);
                loose_count = loose_count + 1;
                proof {
                    assert(lpost == lpre.push(kids[k as int]));
                    assert(lpost.drop_last() =~= lpre);
                    assert(spec_idx_nodes(ev, tv, lpost) == spec_idx_nodes(ev, tv, lpre).push(
                        spec_build(ev, tv, ev[j as int], 0),
                    ));
                    assert(dpost == dpre);
                    let blist = spec_idx_nodes(ev, tv, lpre);
                    let bnode = spec_build(ev, tv, ev[j as int], 0);
                    assert(blist.push(bnode).drop_last() =~= blist);
                    assert(blist.push(bnode).last() == bnode);
                    assert(spec_sort_desc(blist.push(bnode)) == spec_insert_desc(
                        spec_sort_desc(blist),
                        bnode,
                    ));
                    assert(recs_of(ev, lpost) == recs_of(ev, lpre).push(ev[j as int]));
                    assert(recs_of(ev, lpost).drop_last() =~= recs_of(ev, lpre));
                }
            }
        } else {
            proof {
                assert(spec_idx_nodes(ev, tv, kpost) == spec_idx_nodes(ev, tv, kpre));
                assert(spec_loose_idxs(ev, kpost) == spec_loose_idxs(ev, kpre));
                assert(spec_dir_idxs(ev, kpost) == spec_dir_idxs(ev, kpre));
            }
        }
    }
    proof {
        assert(kids.subrange(0, nb as int) =~= kids);
    }
    let ghost loosei = spec_loose_idxs(ev, kids);
    if !group_loose_files || loose_count == 0 {
        let shown = if max_depth == 0 {
            Vec::new()
        } else {
            shown
        };
        let t = TreeNode {
            path: crate::paths::path_clone(&root_rec.path),
            name: crate::paths::name_of(&root_rec.path),
            size_bytes: root_rec.size_bytes,
            size_allocated_bytes: root_rec.size_allocated_bytes,
            entry_count: root_rec.entry_count,
            file_count: root_rec.file_count,
            directory_count: root_rec.directory_count,
            percent_of_parent: 100,
            last_modified_time: root_rec.last_modified_time,
            owner_name: crate::record::clone_owner(&root_rec.owner_name),
            children: shown,
            is_virtual_directory: false,
        };
        proof {
            let want = spec_project_indexed(ev, ppv, kpv, tv, max_depth as nat, group_loose_files)
                ->0;
            assert(t@ =~~= want);
        }
        return Option::Some(t);
    }
    let loose_sorted = crate::project::apply_percents(loose_nodes, vsize);
    let vname = crate::paths::name_of(target).concat(" Files");
    let vpath = match crate::paths::parent_of(target) {
        Option::Some(par) => crate::paths::path_push(par, vname),
        Option::None => {
            let empty: Vec<String> = Vec::new();
            crate::paths::path_push(empty, vname)
        },
    };
    let mut display = "[".to_owned();
    let numstr = crate::tree::u64_to_string(loose_count);
    display.append(numstr.as_str());
    display.append(" Files]");
    proof {
        assert(loose_count as int == loosei.len());
        assert(loosei.len() == recs_of(ev, loosei).len()) by {
            lemma_loose_idxs_valid(ev, kids);
            lemma_recs_of_len(ev, loosei);
        }
        assert(display@ == "["@ + crate::tree::dec_rep(recs_of(ev, loosei).len() as int)
            + " Files]"@);
    }
    let vnode = TreeNode {
        path: vpath,
        name: display,
        size_bytes: vsize,
        size_allocated_bytes: valloc,
        entry_count: ventry,
        file_count: vfile,
        directory_count: 0,
        percent_of_parent: crate::tree::percent_of(vsize, root_rec.size_bytes),
        last_modified_time: root_rec.last_modified_time,
        owner_name: crate::record::clone_owner(&root_rec.owner_name),
        children: loose_sorted,
        is_virtual_directory: true,
    };
    proof {
        let sv2 = spec_virtual_node(ev, tv, ev[ti as int], recs_of(ev, loosei));
        assert(vnode@.path =~~= sv2.path);
        assert(vnode@.name =~~= sv2.name);
        assert(vnode@.owner_name =~~= sv2.owner_name);
        assert(vnode@.children =~~= sv2.children) by {
            lemma_build_list_idx_nodes(ev, tv, loosei);
        }
        assert(vnode@ =~~= sv2);
    }
    let mut main_children = if max_depth == 0 {
        Vec::new()
    } else {
        dirs
    };
    let ghost mbase = main_children@;
    let ghost mtcv = tree_children_view(main_children@);
    main_children.push(vnode);
    proof {
        assert(main_children@.drop_last() =~= mbase);
        assert(tree_children_view(main_children@) == mtcv.push(
            spec_virtual_node(ev, tv, ev[ti as int], recs_of(ev, loosei)),
        ));
    }
    let sorted = crate::project::sort_desc_vec(main_children);
    let finalkids = crate::project::apply_percents(sorted, root_rec.size_bytes);
    let t = TreeNode {
        path: crate::paths::path_clone(&root_rec.path),
        name: crate::paths::name_of(&root_rec.path),
        size_bytes: root_rec.size_bytes,
        size_allocated_bytes: root_rec.size_allocated_bytes,
        entry_count: root_rec.entry_count,
        file_count: root_rec.file_count,
        directory_count: root_rec.directory_count,
        percent_of_parent: 100,
        last_modified_time: root_rec.last_modified_time,
        owner_name: crate::record::clone_owner(&root_rec.owner_name),
        children: finalkids,
        is_virtual_directory: false,
    };
    proof {
        let want = spec_project_indexed(ev, ppv, kpv, tv, max_depth as nat, group_loose_files)->0;
        assert(t@ =~~= want);
    }
    Option::Some(t)
}

/// Loose positions always point into the record list.
pub proof fn lemma_loose_idxs_valid(entries: Seq<RecordV>, idxs: Seq<usize>)
    ensures
        forall|q: int|
            0 <= q < spec_loose_idxs(entries, idxs).len() ==> #[trigger] spec_loose_idxs(
                entries,
                idxs,
            )[q] < entries.len(),
    decreases idxs.len(),
{
    if idxs.len() > 0 {
        lemma_loose_idxs_valid(entries, idxs.drop_last());
        let rest = spec_loose_idxs(entries, idxs.drop_last());
        assert forall|q: int|
            0 <= q < spec_loose_idxs(entries, idxs).len() implies #[trigger] spec_loose_idxs(
            entries,
            idxs,
        )[q] < entries.len() by {
            if q < rest.len() {
                assert(spec_loose_idxs(entries, idxs)[q] == rest[q]);
            }
        }
    }
}

/// Positions and their records line up in number.
pub proof fn lemma_recs_of_len(entries: Seq<RecordV>, idxs: Seq<usize>)
    ensures
        recs_of(entries, idxs).len() <= idxs.len(),
        (forall|q: int| 0 <= q < idxs.len() ==> idxs[q] < entries.len()) ==> recs_of(
            entries,
            idxs,
        ).len() == idxs.len(),
    decreases idxs.len(),
{
    if idxs.len() > 0 {
        lemma_recs_of_len(entries, idxs.drop_last());
    }
}

/// Over valid positions, the display nodes of the records equal the
/// built nodes of the positions.
pub proof fn lemma_build_list_idx_nodes(
    entries: Seq<RecordV>,
    focus: Seq<Seq<char>>,
    idxs: Seq<usize>,
)
    ensures
        crate::project::spec_build_list(entries, focus, recs_of(entries, idxs), 0)
            =~= spec_idx_nodes(entries, focus, idxs),
    decreases idxs.len(),
{
    if idxs.len() > 0 {
        lemma_build_list_idx_nodes(entries, focus, idxs.drop_last());
        if idxs.last() < entries.len() {
            assert(recs_of(entries, idxs).drop_last() =~= recs_of(entries, idxs.drop_last()));
        }
    }
}

/// Percent assignment distributes over extending a child list.
pub proof fn lemma_set_percents_push(s: Seq<TreeV>, x: TreeV, psize: u64)
    ensures
        set_percents(s.push(x), psize) =~= set_percents(s, psize).push(with_percent(x, psize)),
{
    assert forall|q: int| 0 <= q < s.len() + 1 implies set_percents(s.push(x), psize)[q]
        == set_percents(s, psize).push(with_percent(x, psize))[q] by {
        if q < s.len() {
            assert(s.push(x)[q] == s[q]);
        } else {
            assert(s.push(x)[q] == x);
        }
    }
}

} // verus!
