//! The tree projector: from the flat record table to a size-sorted,
//! depth-limited display tree, with an optional synthetic grouping of a
//! directory's loose files.

use vstd::prelude::*;
use vstd::string::StringExecFns;

use crate::paths::spec_parent;
use crate::record::AggregateRecord;
use crate::record::RecordV;
use crate::scanner::clip64;
use crate::scanner::sat_add;
use crate::tree::TreeNode;
use crate::tree::TreeV;
use crate::tree::dec_rep;
use crate::tree::insert_desc;
use crate::tree::lemma_tree_children_view;
use crate::tree::spec_insert_desc;
use crate::tree::spec_percent;
use crate::tree::spec_sort_desc;
use crate::tree::tree_children_view;
use crate::tree::tree_view;
use crate::tree::percent_of;
use crate::tree::u64_to_string;

verus! {

/// The display name of a path in the model.
pub open spec fn spec_name(p: Seq<Seq<char>>) -> Seq<char> {
    if p.len() > 0 {
        p.last()
    } else {
        "unknown"@
    }
}

/// Whether an entry is listed as a child of `parent` when projecting with
/// `focus` as the tree's root: the focus entry itself never is.
pub open spec fn is_kid(e: RecordV, focus: Seq<Seq<char>>, parent: Seq<Seq<char>>) -> bool {
    e.path != focus && e.path.len() > 0 && spec_parent(e.path) == parent
}

/// The children of `parent` among the entries, in table order.
pub open spec fn spec_kids(
    entries: Seq<RecordV>,
    focus: Seq<Seq<char>>,
    parent: Seq<Seq<char>>,
) -> Seq<RecordV>
    decreases entries.len(),
{
    if entries.len() == 0 {
        Seq::empty()
    } else {
        let rest = spec_kids(entries.drop_last(), focus, parent);
        if is_kid(entries.last(), focus, parent) {
            rest.push(entries.last())
        } else {
            rest
        }
    }
}

/// A node with its share of a parent of the given size.
pub open spec fn with_percent(c: TreeV, parent_size: u64) -> TreeV {
    TreeV {
        path: c.path,
        name: c.name,
        size_bytes: c.size_bytes,
        size_allocated_bytes: c.size_allocated_bytes,
        entry_count: c.entry_count,
        file_count: c.file_count,
        directory_count: c.directory_count,
        percent_of_parent: spec_percent(c.size_bytes, parent_size),
        last_modified_time: c.last_modified_time,
        owner_name: c.owner_name,
        children: c.children,
        is_virtual_directory: c.is_virtual_directory,
    }
}

/// Every node's share of a parent of the given size.
pub open spec fn set_percents(s: Seq<TreeV>, parent_size: u64) -> Seq<TreeV> {
    Seq::new(s.len(), |i: int| with_percent(s[i], parent_size))
}

/// The projected node of one entry: its aggregate numbers, and, down to
/// the depth limit, its children sorted largest first, each bearing its
/// share of this node's size.
pub open spec fn spec_build(
    entries: Seq<RecordV>,
    focus: Seq<Seq<char>>,
    e: RecordV,
    depth: nat,
) -> TreeV
    decreases depth, 0int,
{
    TreeV {
        path: e.path,
        name: spec_name(e.path),
        size_bytes: e.size_bytes,
        size_allocated_bytes: e.size_allocated_bytes,
        entry_count: e.entry_count,
        file_count: e.file_count,
        directory_count: e.directory_count,
        percent_of_parent: 100u64,
        last_modified_time: e.last_modified_time,
        owner_name: e.owner_name,
        children: if depth == 0 {
            Seq::empty()
        } else {
            set_percents(
                spec_sort_desc(
                    spec_build_list(
                        entries,
                        focus,
                        spec_kids(entries, focus, e.path),
                        (depth - 1) as nat,
                    ),
                ),
                e.size_bytes,
            )
        },
        is_virtual_directory: false,
    }
}

/// The projected nodes of a list of entries, in order.
pub open spec fn spec_build_list(
    entries: Seq<RecordV>,
    focus: Seq<Seq<char>>,
    kids: Seq<RecordV>,
    depth: nat,
) -> Seq<TreeV>
    decreases depth, kids.len() + 1,
{
    if kids.len() == 0 {
        Seq::empty()
    } else {
        spec_build_list(entries, focus, kids.drop_last(), depth).push(
            spec_build(entries, focus, kids.last(), depth),
        )
    }
}

/// The first entry with the given path, scanning from the front.
pub open spec fn spec_find_from(entries: Seq<RecordV>, path: Seq<Seq<char>>, i: int) -> Option<int>
    decreases entries.len() - i,
{
    if i < 0 || i >= entries.len() {
        Option::None
    } else if entries[i].path == path {
        Option::Some(i)
    } else {
        spec_find_from(entries, path, i + 1)
    }
}

/// The first entry with the given path.
pub open spec fn spec_find(entries: Seq<RecordV>, path: Seq<Seq<char>>) -> Option<int> {
    spec_find_from(entries, path, 0)
}

/// Find the first entry recorded under `path`.
pub fn find_record(entries: &Vec<AggregateRecord>, path: &Vec<String>) -> (r: Option<usize>)
    ensures
        match r {
            Option::None => spec_find(entries.deep_view(), path.deep_view()) is None,
            Option::Some(i) => i < entries@.len() && spec_find(
                entries.deep_view(),
                path.deep_view(),
            ) == Option::Some(i as int),
        },
{
    let ghost ev = entries.deep_view();
    let n = entries.len();
    for i in 0..n
        invariant
            n == entries@.len(),
            ev == entries.deep_view(),
            spec_find(ev, path.deep_view()) == spec_find_from(ev, path.deep_view(), i as int),
    {
        proof {
            assert(ev[i as int] == entries@[i as int]@);
        }
        if crate::paths::path_eq(&entries[i].path, path) {
            return Option::Some(i);
        }
    }
    Option::None
}

/// Whether an entry is listed as a child of `parent` in a projection
/// rooted at `focus`.
pub fn is_child_of(e: &AggregateRecord, focus: &Vec<String>, parent: &Vec<String>) -> (r: bool)
    ensures
        r == is_kid(e@, focus.deep_view(), parent.deep_view()),
{
    if crate::paths::path_eq(&e.path, focus) {
        return false;
    }
    match crate::paths::parent_of(&e.path) {
        Option::None => false,
        Option::Some(par) => crate::paths::path_eq(&par, parent),
    }
}

/// Give every node its share of a parent of the given size.
pub fn apply_percents(v: Vec<TreeNode>, parent_size: u64) -> (out: Vec<TreeNode>)
    ensures
        tree_children_view(out@) == set_percents(tree_children_view(v@), parent_size),
{
    let ghost orig = tree_children_view(v@);
    proof {
        lemma_tree_children_view(v@);
    }
    let mut rest = v;
    let mut out: Vec<TreeNode> = Vec::new();
    let ghost n = rest@.len();
    while rest.len() > 0
        invariant
            out@.len() + rest@.len() == n,
            orig.len() == n,
            forall|j: int|
                0 <= j < rest@.len() ==> #[trigger] rest@[j]@ == orig[out@.len() + j],
            forall|j: int|
                0 <= j < out@.len() ==> #[trigger] out@[j]@ == with_percent(orig[j], parent_size),
        decreases rest@.len(),
    {
        let ghost k = out@.len();
        let c = rest.remove(0);
        proof {
            assert(c@ == orig[k as int]);
            assert forall|j: int| 0 <= j < rest@.len() implies #[trigger] rest@[j]@ == orig[out@.len()
                + 1 + j] by {}
        }
        let p = percent_of(c.size_bytes, parent_size);
        let node = TreeNode {
            path: c.path,
            name: c.name,
            size_bytes: c.size_bytes,
            size_allocated_bytes: c.size_allocated_bytes,
            entry_count: c.entry_count,
            file_count: c.file_count,
            directory_count: c.directory_count,
            percent_of_parent: p,
            last_modified_time: c.last_modified_time,
            owner_name: c.owner_name,
            children: c.children,
            is_virtual_directory: c.is_virtual_directory,
        };
        proof {
            assert(node@ == with_percent(orig[k as int], parent_size));
        }
        out.push(node);
    }
    proof {
        lemma_tree_children_view(out@);
        assert forall|j: int| 0 <= j < out@.len() implies tree_children_view(out@)[j]
            == set_percents(orig, parent_size)[j] by {
            assert(tree_children_view(out@)[j] == tree_view(out@[j]));
            assert(out@[j]@ == with_percent(orig[j], parent_size));
        }
        assert(tree_children_view(out@) =~= set_percents(orig, parent_size));
    }
    out
}

/// The projected node of one entry, children expanded down to `depth`
/// levels and sorted largest first.
pub fn build_node(
    entries: &Vec<AggregateRecord>,
    focus: &Vec<String>,
    rec: &AggregateRecord,
    depth: usize,
) -> (t: TreeNode)
    ensures
        t@ == spec_build(entries.deep_view(), focus.deep_view(), rec@, depth as nat),
    decreases depth,
{
    let ghost ev = entries.deep_view();
    let ghost fv = focus.deep_view();
    let mut children: Vec<TreeNode> = Vec::new();
    if depth > 0 {
        let n = entries.len();
        for i in 0..n
            invariant
                n == entries@.len(),
                ev == entries.deep_view(),
                fv == focus.deep_view(),
                depth >= 1,
                tree_children_view(children@) == spec_sort_desc(
                    spec_build_list(
                        ev,
                        fv,
                        spec_kids(ev.subrange(0, i as int), fv, rec@.path),
                        (depth - 1) as nat,
                    ),
                ),
        {
            let ghost pre = ev.subrange(0, i as int);
            let ghost post = ev.subrange(0, i as int + 1);
            proof {
                assert(post.drop_last() =~= pre);
                assert(post.last() == ev[i as int]);
                assert(ev[i as int] == entries@[i as int]@);
            }
            let e = &entries[i];
            let ghost d1 = (depth - 1) as nat;
            let ghost kidspre = spec_kids(pre, fv, rec@.path);
            let ghost kidspost = spec_kids(post, fv, rec@.path);
            if is_child_of(e, focus, &rec.path) {
                let node = build_node(entries, focus, e, depth - 1);
                insert_desc(&mut children, node);
                proof {
                    assert(kidspost == kidspre.push(ev[i as int]));
                    assert(kidspost.drop_last() =~= kidspre);
                    assert(kidspost.last() == ev[i as int]);
                    assert(spec_build_list(ev, fv, kidspost, d1) == spec_build_list(
                        ev,
                        fv,
                        kidspre,
                        d1,
                    ).push(spec_build(ev, fv, ev[i as int], d1)));
                    let blist = spec_build_list(ev, fv, kidspre, d1);
                    let bnode = spec_build(ev, fv, ev[i as int], d1);
                    assert(blist.push(bnode).drop_last() =~= blist);
                    assert(blist.push(bnode).last() == bnode);
                    assert(spec_sort_desc(blist.push(bnode)) == spec_insert_desc(
                        spec_sort_desc(blist),
                        bnode,
                    ));
                }
            } else {
                proof {
                    assert(kidspost == kidspre);
                }
            }
        }
        proof {
            assert(ev.subrange(0, n as int) =~= ev);
        }
        children = apply_percents(children, rec.size_bytes);
    }
    let t = TreeNode {
        path: crate::paths::path_clone(&rec.path),
        name: crate::paths::name_of(&rec.path),
        size_bytes: rec.size_bytes,
        size_allocated_bytes: rec.size_allocated_bytes,
        entry_count: rec.entry_count,
        file_count: rec.file_count,
        directory_count: rec.directory_count,
        percent_of_parent: 100,
        last_modified_time: rec.last_modified_time,
        owner_name: crate::record::clone_owner(&rec.owner_name),
        children,
        is_virtual_directory: false,
    };
    t
}

/// The direct children of `focus` that are grouped as loose files: every
/// recorded non-directory child, files and symlinks alike.
pub open spec fn spec_loose(kids: Seq<RecordV>) -> Seq<RecordV>
    decreases kids.len(),
{
    if kids.len() == 0 {
        Seq::empty()
    } else {
        let rest = spec_loose(kids.drop_last());
        if kids.last().directory_count == 0 {
            rest.push(kids.last())
        } else {
            rest
        }
    }
}

/// The summed apparent sizes of a record list.
pub open spec fn sum_size(s: Seq<RecordV>) -> int
    decreases s.len(),
{
    if s.len() == 0 {
        0
    } else {
        sum_size(s.drop_last()) + s.last().size_bytes
    }
}

/// The summed allocated sizes of a record list.
pub open spec fn sum_alloc(s: Seq<RecordV>) -> int
    decreases s.len(),
{
    if s.len() == 0 {
        0
    } else {
        sum_alloc(s.drop_last()) + s.last().size_allocated_bytes
    }
}

/// The summed entry counts of a record list.
pub open spec fn sum_entries(s: Seq<RecordV>) -> int
    decreases s.len(),
{
    if s.len() == 0 {
        0
    } else {
        sum_entries(s.drop_last()) + s.last().entry_count
    }
}

/// The summed file counts of a record list.
pub open spec fn sum_files(s: Seq<RecordV>) -> int
    decreases s.len(),
{
    if s.len() == 0 {
        0
    } else {
        sum_files(s.drop_last()) + s.last().file_count
    }
}

/// The sums of a record list are never negative.
pub proof fn lemma_sums_nonneg(s: Seq<RecordV>)
    ensures
        sum_size(s) >= 0,
        sum_alloc(s) >= 0,
        sum_entries(s) >= 0,
        sum_files(s) >= 0,
    decreases s.len(),
{
    if s.len() > 0 {
        lemma_sums_nonneg(s.drop_last());
    }
}

/// The nodes kept in the normal child list when grouping: the real
/// directories.
pub open spec fn spec_dirs_only(s: Seq<TreeV>) -> Seq<TreeV>
    decreases s.len(),
{
    if s.len() == 0 {
        Seq::empty()
    } else {
        let rest = spec_dirs_only(s.drop_last());
        if s.last().directory_count > 0 {
            rest.push(s.last())
        } else {
            rest
        }
    }
}

/// The synthetic grouping node for the loose children of `focus`: its
/// numbers are the sums over the grouped records, its name a bracketed
/// count, its path a non-colliding sibling of `focus`, and its children
/// the grouped records' nodes, largest first, each with its share of the
/// group's total size.
pub open spec fn spec_virtual_node(
    entries: Seq<RecordV>,
    focus: Seq<Seq<char>>,
    root: RecordV,
    loose: Seq<RecordV>,
) -> TreeV {
    let vsize = clip64(sum_size(loose));
    TreeV {
        path: if focus.len() > 0 {
            spec_parent(focus).push(spec_name(focus) + " Files"@)
        } else {
            seq![spec_name(focus) + " Files"@]
        },
        name: "["@ + dec_rep(loose.len() as int) + " Files]"@,
        size_bytes: vsize,
        size_allocated_bytes: clip64(sum_alloc(loose)),
        entry_count: clip64(sum_entries(loose)),
        file_count: clip64(sum_files(loose)),
        directory_count: 0u64,
        percent_of_parent: spec_percent(vsize, root.size_bytes),
        last_modified_time: root.last_modified_time,
        owner_name: root.owner_name,
        children: set_percents(spec_sort_desc(spec_build_list(entries, focus, loose, 0)), vsize),
        is_virtual_directory: true,
    }
}

/// The projected tree at `focus`: `None` when no entry is recorded under
/// it. Without grouping, or when `focus` has no recorded non-directory
/// child, the node of `focus` itself; with grouping, that node with its
/// loose children replaced by the one synthetic grouping node, the child
/// list re-sorted and re-percented.
pub open spec fn spec_project(
    entries: Seq<RecordV>,
    focus: Seq<Seq<char>>,
    depth: nat,
    group: bool,
) -> Option<TreeV> {
    match spec_find(entries, focus) {
        Option::None => Option::None,
        Option::Some(i) => {
            let root = entries[i];
            let base = spec_build(entries, focus, root, depth);
            let loose = spec_loose(spec_kids(entries, focus, focus));
            if !group || loose.len() == 0 {
                Option::Some(base)
            } else {
                let vnode = spec_virtual_node(entries, focus, root, loose);
                Option::Some(
                    TreeV {
                        path: base.path,
                        name: base.name,
                        size_bytes: base.size_bytes,
                        size_allocated_bytes: base.size_allocated_bytes,
                        entry_count: base.entry_count,
                        file_count: base.file_count,
                        directory_count: base.directory_count,
                        percent_of_parent: base.percent_of_parent,
                        last_modified_time: base.last_modified_time,
                        owner_name: base.owner_name,
                        children: set_percents(
                            spec_sort_desc(spec_dirs_only(base.children).push(vnode)),
                            root.size_bytes,
                        ),
                        is_virtual_directory: base.is_virtual_directory,
                    },
                )
            }
        },
    }
}

/// Keep only the real directories of a child list, in order.
pub fn filter_dirs(v: Vec<TreeNode>) -> (out: Vec<TreeNode>)
    ensures
        tree_children_view(out@) == spec_dirs_only(tree_children_view(v@)),
{
    let ghost orig = tree_children_view(v@);
    proof {
        lemma_tree_children_view(v@);
    }
    let mut rest = v;
    let mut out: Vec<TreeNode> = Vec::new();
    let ghost n = rest@.len();
    let ghost k: int = 0;
    while rest.len() > 0
        invariant
            k + rest@.len() == n,
            orig.len() == n,
            0 <= k,
            forall|j: int| 0 <= j < rest@.len() ==> #[trigger] rest@[j]@ == orig[k + j],
            tree_children_view(out@) == spec_dirs_only(orig.subrange(0, k)),
        decreases rest@.len(),
    {
        let ghost pre = orig.subrange(0, k);
        let ghost post = orig.subrange(0, k + 1);
        let c = rest.remove(0);
        proof {
            assert(c@ == orig[k]);
            assert(post.drop_last() =~= pre);
            assert(post.last() == orig[k]);
        }
        let keep = c.directory_count > 0;
        let ghost oldout = out@;
        if keep {
            out.push(c);
            proof {
                assert(out@.drop_last() =~= oldout);
                assert(tree_children_view(out@) == tree_children_view(oldout).push(orig[k]));
            }
        }
        proof {
            k = k + 1;
        }
    }
    proof {
        assert(orig.subrange(0, n as int) =~= orig);
    }
    out
}

/// Sort a child list largest first, keeping the order of equals.
pub fn sort_desc_vec(v: Vec<TreeNode>) -> (out: Vec<TreeNode>)
    ensures
        tree_children_view(out@) == spec_sort_desc(tree_children_view(v@)),
{
    let ghost orig = tree_children_view(v@);
    proof {
        lemma_tree_children_view(v@);
    }
    let mut rest = v;
    let mut out: Vec<TreeNode> = Vec::new();
    let ghost n = rest@.len();
    let ghost k: int = 0;
    while rest.len() > 0
        invariant
            k + rest@.len() == n,
            orig.len() == n,
            0 <= k,
            forall|j: int| 0 <= j < rest@.len() ==> #[trigger] rest@[j]@ == orig[k + j],
            tree_children_view(out@) == spec_sort_desc(orig.subrange(0, k)),
        decreases rest@.len(),
    {
        let ghost pre = orig.subrange(0, k);
        let ghost post = orig.subrange(0, k + 1);
        let c = rest.remove(0);
        proof {
            assert(c@ == orig[k]);
            assert(post.drop_last() =~= pre);
            assert(post.last() == orig[k]);
        }
        insert_desc(&mut out, c);
        proof {
            k = k + 1;
        }
    }
    proof {
        assert(orig.subrange(0, n as int) =~= orig);
    }
    out
}

/// Project the tree rooted at `focus` from the flat entry list: the node
/// of `focus` with children expanded `max_depth` levels, sorted largest
/// first; `None` when `focus` has no record. With `group_loose_files`,
/// the direct non-directory children are replaced by one synthetic
/// grouping node.
pub fn project_tree(
    entries: &Vec<AggregateRecord>,
    focus: &Vec<String>,
    max_depth: usize,
    group_loose_files: bool,
) -> (r: Option<TreeNode>)
    ensures
        match spec_project(
            entries.deep_view(),
            focus.deep_view(),
            max_depth as nat,
            group_loose_files,
        ) {
            Option::None => r is None,
            Option::Some(tv) => r matches Some(t) && t@ == tv,
        },
{
    let ghost ev = entries.deep_view();
    let ghost fv = focus.deep_view();
    let idx = match find_record(entries, focus) {
        Option::None => {
            return Option::None;
        },
        Option::Some(i) => i,
    };
    proof {
        assert(ev[idx as int] == entries@[idx as int]@);
    }
    let root_rec = &entries[idx];
    let base = build_node(entries, focus, root_rec, max_depth);
    if !group_loose_files {
        return Option::Some(base);
    }
    let mut files: Vec<TreeNode> = Vec::new();
    let mut vsize: u64 = 0;
    let mut valloc: u64 = 0;
    let mut ventry: u64 = 0;
    let mut vfile: u64 = 0;
    let mut count: u64 = 0;
    let n = entries.len();
    for i in 0..n
        invariant
            n == entries@.len(),
            ev == entries.deep_view(),
            fv == focus.deep_view(),
            count <= i,
            count == spec_loose(spec_kids(ev.subrange(0, i as int), fv, fv)).len(),
            vsize == clip64(sum_size(spec_loose(spec_kids(ev.subrange(0, i as int), fv, fv)))),
            valloc == clip64(sum_alloc(spec_loose(spec_kids(ev.subrange(0, i as int), fv, fv)))),
            ventry == clip64(sum_entries(spec_loose(spec_kids(ev.subrange(0, i as int), fv, fv)))),
            vfile == clip64(sum_files(spec_loose(spec_kids(ev.subrange(0, i as int), fv, fv)))),
            tree_children_view(files@) == spec_sort_desc(
                spec_build_list(ev, fv, spec_loose(spec_kids(ev.subrange(0, i as int), fv, fv)), 0),
            ),
    {
        let ghost pre = ev.subrange(0, i as int);
        let ghost post = ev.subrange(0, i as int + 1);
        let ghost kidspre = spec_kids(pre, fv, fv);
        let ghost kidspost = spec_kids(post, fv, fv);
        proof {
            assert(post.drop_last() =~= pre);
            assert(post.last() == ev[i as int]);
            assert(ev[i as int] == entries@[i as int]@);
            lemma_sums_nonneg(spec_loose(kidspre));
        }
        let e = &entries[i];
        if is_child_of(e, focus, focus) && e.directory_count == 0 {
            let node = build_node(entries, focus, e, 0);
            insert_desc(&mut files, node);
            vsize = sat_add(vsize, e.size_bytes);
            valloc = sat_add(valloc, e.size_allocated_bytes);
            ventry = sat_add(ventry, e.entry_count);
            vfile = sat_add(vfile, e.file_count);
            count = count + 1;
            proof {
                assert(kidspost == kidspre.push(ev[i as int]));
                assert(kidspost.drop_last() =~= kidspre);
                assert(spec_loose(kidspost) == spec_loose(kidspre).push(ev[i as int]));
                let lpre = spec_loose(kidspre);
                let lpost = spec_loose(kidspost);
                assert(lpost.drop_last() =~= lpre);
                assert(lpost.last() == ev[i as int]);
                assert(spec_build_list(ev, fv, lpost, 0) == spec_build_list(ev, fv, lpre, 0).push(
                    spec_build(ev, fv, ev[i as int], 0),
                ));
                let blist = spec_build_list(ev, fv, lpre, 0);
                let bnode = spec_build(ev, fv, ev[i as int], 0);
                assert(blist.push(bnode).drop_last() =~= blist);
                assert(blist.push(bnode).last() == bnode);
                assert(spec_sort_desc(blist.push(bnode)) == spec_insert_desc(
                    spec_sort_desc(blist),
                    bnode,
                ));
            }
        } else {
            proof {
                if is_kid(ev[i as int], fv, fv) {
                    assert(kidspost == kidspre.push(ev[i as int]));
                    assert(kidspost.drop_last() =~= kidspre);
                    assert(spec_loose(kidspost) == spec_loose(kidspre));
                } else {
                    assert(kidspost == kidspre);
                }
            }
        }
    }
    proof {
        assert(ev.subrange(0, n as int) =~= ev);
    }
    if count == 0 {
        return Option::Some(base);
    }
    let ghost loose = spec_loose(spec_kids(ev, fv, fv));
    let files = apply_percents(files, vsize);
    let vname = crate::paths::name_of(focus).concat(" Files");
    let vpath = match crate::paths::parent_of(focus) {
        Option::Some(par) => crate::paths::path_push(par, vname),
        Option::None => {
            let empty: Vec<String> = Vec::new();
            crate::paths::path_push(empty, vname)
        },
    };
    let mut display = "[".to_owned();
    let numstr = u64_to_string(count);
    display.append(numstr.as_str());
    display.append(" Files]");
    proof {
        assert(count as int == loose.len());
        assert(display@ == "["@ + dec_rep(loose.len() as int) + " Files]"@);
    }
    let vnode = TreeNode {
        path: vpath,
        name: display,
        size_bytes: vsize,
        size_allocated_bytes: valloc,
        entry_count: ventry,
        file_count: vfile,
        directory_count: 0,
        percent_of_parent: percent_of(vsize, root_rec.size_bytes),
        last_modified_time: root_rec.last_modified_time,
        owner_name: crate::record::clone_owner(&root_rec.owner_name),
        children: files,
        is_virtual_directory: true,
    };
    proof {
        let sv = spec_virtual_node(ev, fv, ev[idx as int], loose);
        assert(vnode@.path =~~= sv.path);
        assert(vnode@.name =~~= sv.name);
        assert(vnode@.size_bytes == sv.size_bytes);
        assert(vnode@.size_allocated_bytes == sv.size_allocated_bytes);
        assert(vnode@.entry_count == sv.entry_count);
        assert(vnode@.file_count == sv.file_count);
        assert(vnode@.percent_of_parent == sv.percent_of_parent);
        assert(vnode@.last_modified_time == sv.last_modified_time);
        assert(vnode@.owner_name =~~= sv.owner_name);
        assert(vnode@.children =~~= sv.children);
        assert(vnode@ =~~= sv);
    }
    let basekids = base.children;
    proof {
        assert(tree_children_view(basekids@) == spec_build(
            ev,
            fv,
            ev[idx as int],
            max_depth as nat,
        ).children);
    }
    let mut retained = filter_dirs(basekids);
    let ghost retv = tree_children_view(retained@);
    let ghost retseq = retained@;
    retained.push(vnode);
    proof {
        assert(retained@.drop_last() =~= retseq);
        assert(retained@.last() == vnode);
        assert(tree_children_view(retained@) == retv.push(vnode@));
    }
    let sorted = sort_desc_vec(retained);
    let finalkids = apply_percents(sorted, root_rec.size_bytes);
    let t = TreeNode {
        path: crate::paths::path_clone(&root_rec.path),
        name: crate::paths::name_of(&root_rec.path),
        size_bytes: root_rec.size_bytes,
        size_allocated_bytes: root_rec.size_allocated_bytes,
        entry_count: root_rec.entry_count,
        file_count: root_rec.file_count,
        directory_count: root_rec.directory_count,
        percent_of_parent: 100,
        last_modified_time: root_rec.last_modified_time,
        owner_name: crate::record::clone_owner(&root_rec.owner_name),
        children: finalkids,
        is_virtual_directory: false,
    };
    proof {
        let tv = spec_project(ev, fv, max_depth as nat, group_loose_files)->0;
        assert(t@ =~~= tv);
    }
    Option::Some(t)
}

/// Idempotent projection: projecting one flat table at one focus with the
/// same depth and grouping flag always yields one and the same tree, with
/// the same child ordering and the same percentages.
pub proof fn lemma_projection_deterministic(
    entries: Seq<RecordV>,
    focus: Seq<Seq<char>>,
    depth: nat,
    group: bool,
    t1: TreeV,
    t2: TreeV,
)
    requires
        spec_project(entries, focus, depth, group) == Option::Some(t1),
        spec_project(entries, focus, depth, group) == Option::Some(t2),
    ensures
        t1 == t2,
{
}

/// Built entry nodes are never synthetic.
pub proof fn lemma_build_list_plain(
    entries: Seq<RecordV>,
    focus: Seq<Seq<char>>,
    kids: Seq<RecordV>,
    depth: nat,
)
    ensures
        crate::tree::all_plain(spec_build_list(entries, focus, kids, depth)),
    decreases kids.len(),
{
    if kids.len() > 0 {
        lemma_build_list_plain(entries, focus, kids.drop_last(), depth);
        let t = spec_build_list(entries, focus, kids.drop_last(), depth);
        let r = spec_build_list(entries, focus, kids, depth);
        assert forall|i: int| 0 <= i < r.len() implies !(#[trigger] r[i]).is_virtual_directory by {
            if i < t.len() {
                assert(r[i] == t[i]);
            } else {
                assert(r[i] == spec_build(entries, focus, kids.last(), depth));
            }
        }
    }
}

/// Percent assignment changes no grouping flag.
pub proof fn lemma_set_percents_plain(s: Seq<TreeV>, parent_size: u64)
    requires
        crate::tree::all_plain(s),
    ensures
        crate::tree::all_plain(set_percents(s, parent_size)),
{
    let r = set_percents(s, parent_size);
    assert forall|i: int| 0 <= i < r.len() implies !(#[trigger] r[i]).is_virtual_directory by {
        assert(r[i] == with_percent(s[i], parent_size));
    }
}

/// What the one synthetic node of a grouped projection carries: the sums
/// over the grouped records, no directory count, and the bracketed count
/// as its name.
pub open spec fn is_group_node(c: TreeV, loose: Seq<RecordV>) -> bool {
    &&& c.is_virtual_directory
    &&& c.size_bytes == clip64(sum_size(loose))
    &&& c.size_allocated_bytes == clip64(sum_alloc(loose))
    &&& c.entry_count == clip64(sum_entries(loose))
    &&& c.file_count == clip64(sum_files(loose))
    &&& c.directory_count == 0
    &&& c.name == "["@ + dec_rep(loose.len() as int) + " Files]"@
}

/// Loose-file grouping: when grouping is on and the focus has loose
/// (non-directory) children, the projected child list is the focus's real
/// directory children plus exactly one synthetic node — one more child
/// than there are directory children — and that node, the only synthetic
/// one, carries the sums over the grouped records and the bracketed count
/// as its name.
pub proof fn lemma_grouping_shape(
    entries: Seq<RecordV>,
    focus: Seq<Seq<char>>,
    depth: nat,
    t: TreeV,
)
    requires
        spec_project(entries, focus, depth, true) == Option::Some(t),
        spec_loose(spec_kids(entries, focus, focus)).len() > 0,
    ensures
        ({
            let root = entries[spec_find(entries, focus)->0];
            let base = spec_build(entries, focus, root, depth);
            let loose = spec_loose(spec_kids(entries, focus, focus));
            &&& t.children.len() == spec_dirs_only(base.children).len() + 1
            &&& exists|q: int|
                0 <= q < t.children.len() && is_group_node(#[trigger] t.children[q], loose)
            &&& forall|q: int|
                0 <= q < t.children.len() && (#[trigger] t.children[q]).is_virtual_directory
                    ==> is_group_node(t.children[q], loose)
        }),
{
    let i = spec_find(entries, focus)->0;
    let root = entries[i];
    let base = spec_build(entries, focus, root, depth);
    let loose = spec_loose(spec_kids(entries, focus, focus));
    let vnode = spec_virtual_node(entries, focus, root, loose);
    let dirs = spec_dirs_only(base.children);
    assert(t.children == set_percents(
        spec_sort_desc(dirs.push(vnode)),
        root.size_bytes,
    ));
    assert(crate::tree::all_plain(base.children)) by {
        if depth == 0 {
        } else {
            lemma_build_list_plain(
                entries,
                focus,
                spec_kids(entries, focus, root.path),
                (depth - 1) as nat,
            );
            crate::tree::lemma_sort_desc_plain(
                spec_build_list(
                    entries,
                    focus,
                    spec_kids(entries, focus, root.path),
                    (depth - 1) as nat,
                ),
            );
            lemma_set_percents_plain(
                crate::tree::spec_sort_desc(
                    spec_build_list(
                        entries,
                        focus,
                        spec_kids(entries, focus, root.path),
                        (depth - 1) as nat,
                    ),
                ),
                root.size_bytes,
            );
        }
    }
    assert(crate::tree::all_plain(dirs)) by {
        lemma_dirs_only_plain(base.children);
    }
    let pushed = dirs.push(vnode);
    assert(pushed.drop_last() =~= dirs);
    assert(pushed.last() == vnode);
    assert(spec_sort_desc(pushed) == spec_insert_desc(spec_sort_desc(dirs), vnode));
    crate::tree::lemma_sort_desc_plain(dirs);
    crate::tree::lemma_insert_one_virtual(spec_sort_desc(dirs), vnode);
    let sorted = spec_insert_desc(spec_sort_desc(dirs), vnode);
    let q0 = choose|q0: int| 0 <= q0 < sorted.len() && #[trigger] sorted[q0] == vnode;
    assert(t.children[q0] == with_percent(vnode, root.size_bytes));
    assert(is_group_node(t.children[q0], loose));
    assert forall|q: int|
        0 <= q < t.children.len() && (#[trigger] t.children[q]).is_virtual_directory
            implies is_group_node(t.children[q], loose) by {
        assert(t.children[q] == with_percent(sorted[q], root.size_bytes));
        assert(sorted[q].is_virtual_directory);
        assert(sorted[q] == vnode);
    }
}

/// Keeping the directory children keeps them plain.
pub proof fn lemma_dirs_only_plain(s: Seq<TreeV>)
    requires
        crate::tree::all_plain(s),
    ensures
        crate::tree::all_plain(spec_dirs_only(s)),
    decreases s.len(),
{
    if s.len() > 0 {
        assert(crate::tree::all_plain(s.drop_last())) by {
            assert forall|i: int| 0 <= i < s.len() - 1 implies !(#[trigger] s.drop_last()[i]).is_virtual_directory by {
                assert(s.drop_last()[i] == s[i]);
            }
        }
        lemma_dirs_only_plain(s.drop_last());
        let t = spec_dirs_only(s.drop_last());
        let r = spec_dirs_only(s);
        assert forall|i: int| 0 <= i < r.len() implies !(#[trigger] r[i]).is_virtual_directory by {
            if i < t.len() {
                assert(r[i] == t[i]);
            } else {
                assert(r[i] == s.last());
            }
        }
    }
}

} // verus!
