//! The tree projector's node type and its building blocks: the size-sorted
//! child order, percentages, and the decimal display name of the synthetic
//! grouping node.

use vstd::prelude::*;
use vstd::string::StringExecFns;

verus! {

/// A node of the projected, display-facing tree. Rebuilt on every query,
/// never persisted.
pub struct TreeNode {
    /// Absolute canonical path, as components; synthetic for a grouping node.
    pub path: Vec<String>,
    /// Display name: the last path component, or a bracketed count for a
    /// grouping node.
    pub name: String,
    /// Total apparent size in bytes.
    pub size_bytes: u64,
    /// Total size allocated on disk in bytes.
    pub size_allocated_bytes: u64,
    /// Total number of entries.
    pub entry_count: u64,
    /// Number of files.
    pub file_count: u64,
    /// Number of directories.
    pub directory_count: u64,
    /// This node's share of its parent's size, 0 to 100.
    pub percent_of_parent: u64,
    /// Last modified time, unix epoch seconds.
    pub last_modified_time: u64,
    /// The owner of the path, when known.
    pub owner_name: Option<String>,
    /// Child nodes, largest first.
    pub children: Vec<TreeNode>,
    /// Whether this node is a synthetic grouping of loose files.
    pub is_virtual_directory: bool,
}

/// The model of a projected tree node.
pub ghost struct TreeV {
    pub path: Seq<Seq<char>>,
    pub name: Seq<char>,
    pub size_bytes: u64,
    pub size_allocated_bytes: u64,
    pub entry_count: u64,
    pub file_count: u64,
    pub directory_count: u64,
    pub percent_of_parent: u64,
    pub last_modified_time: u64,
    pub owner_name: Option<Seq<char>>,
    pub children: Seq<TreeV>,
    pub is_virtual_directory: bool,
}

/// The model of a tree node: its fields, with children modelled in turn.
pub open spec fn tree_view(t: TreeNode) -> TreeV
    decreases t, 1int,
{
    TreeV {
        path: t.path.deep_view(),
        name: t.name@,
        size_bytes: t.size_bytes,
        size_allocated_bytes: t.size_allocated_bytes,
        entry_count: t.entry_count,
        file_count: t.file_count,
        directory_count: t.directory_count,
        percent_of_parent: t.percent_of_parent,
        last_modified_time: t.last_modified_time,
        owner_name: t.owner_name.deep_view(),
        children: tree_children_view(t.children@),
        is_virtual_directory: t.is_virtual_directory,
    }
}

/// The models of a list of tree nodes, in order.
pub open spec fn tree_children_view(s: Seq<TreeNode>) -> Seq<TreeV>
    decreases s, 0int,
{
    if s.len() <= 0 {
        Seq::empty()
    } else {
        tree_children_view(s.drop_last()).push(tree_view(s.last()))
    }
}

/// A node list's model is its nodes' models, elementwise.
pub proof fn lemma_tree_children_view(s: Seq<TreeNode>)
    ensures
        tree_children_view(s).len() == s.len(),
        forall|i: int| 0 <= i < s.len() ==> tree_children_view(s)[i] == tree_view(#[trigger] s[i]),
    decreases s.len(),
{
    if s.len() > 0 {
        lemma_tree_children_view(s.drop_last());
        assert forall|i: int| 0 <= i < s.len() implies tree_children_view(s)[i] == tree_view(
            s[i],
        ) by {
            if i < s.len() - 1 {
                assert(s.drop_last()[i] == s[i]);
                assert(tree_children_view(s)[i] == tree_children_view(s.drop_last())[i]);
            } else {
                assert(tree_children_view(s)[i] == tree_view(s.last()));
            }
        }
    }
}

impl View for TreeNode {
    type V = TreeV;

    open spec fn view(&self) -> TreeV {
        tree_view(*self)
    }
}

impl DeepView for TreeNode {
    type V = TreeV;

    open spec fn deep_view(&self) -> TreeV {
        self.view()
    }
}

/// Where a node belongs among already sorted siblings: after every node at
/// least as large, so that equal sizes keep their discovery order.
pub open spec fn spec_insert_desc(s: Seq<TreeV>, x: TreeV) -> Seq<TreeV>
    decreases s.len(),
{
    if s.len() == 0 {
        seq![x]
    } else if s.last().size_bytes >= x.size_bytes {
        s.push(x)
    } else {
        spec_insert_desc(s.drop_last(), x).push(s.last())
    }
}

/// The stable descending-by-size order of a child list: each node inserted
/// in turn behind its larger or equal predecessors.
pub open spec fn spec_sort_desc(s: Seq<TreeV>) -> Seq<TreeV>
    decreases s.len(),
{
    if s.len() == 0 {
        Seq::empty()
    } else {
        spec_insert_desc(spec_sort_desc(s.drop_last()), s.last())
    }
}

/// Whether a child list is ordered largest first.
pub open spec fn sorted_desc(s: Seq<TreeV>) -> bool {
    forall|i: int, j: int| 0 <= i <= j < s.len() ==> #[trigger] s[i].size_bytes >= #[trigger] s[j].size_bytes
}

/// Inserting into a sorted list keeps it sorted.
pub proof fn lemma_insert_desc_sorted(s: Seq<TreeV>, x: TreeV)
    requires
        sorted_desc(s),
    ensures
        sorted_desc(spec_insert_desc(s, x)),
        spec_insert_desc(s, x).len() == s.len() + 1,
    decreases s.len(),
{
    if s.len() == 0 {
    } else if s.last().size_bytes >= x.size_bytes {
    } else {
        assert(sorted_desc(s.drop_last()));
        lemma_insert_desc_sorted(s.drop_last(), x);
        let r = spec_insert_desc(s.drop_last(), x).push(s.last());
        assert forall|i: int, j: int| 0 <= i <= j < r.len() implies r[i].size_bytes
            >= r[j].size_bytes by {
            if j < r.len() - 1 {
            } else if i < r.len() - 1 {
                let t = spec_insert_desc(s.drop_last(), x);
                if s.len() == 1 {
                    assert(t == seq![x]);
                } else {
                    lemma_insert_desc_last(s.drop_last(), x);
                }
            }
        }
    }
}

/// The last node after an insertion is the smaller of the inserted node
/// and the list's old last node.
pub proof fn lemma_insert_desc_last(s: Seq<TreeV>, x: TreeV)
    requires
        s.len() > 0,
    ensures
        spec_insert_desc(s, x).last() == x || spec_insert_desc(s, x).last() == s.last(),
        spec_insert_desc(s, x).last().size_bytes == if s.last().size_bytes <= x.size_bytes {
            s.last().size_bytes
        } else {
            x.size_bytes
        },
    decreases s.len(),
{
}

/// The stable sort of any child list is ordered largest first.
pub proof fn lemma_sort_desc_sorted(s: Seq<TreeV>)
    ensures
        sorted_desc(spec_sort_desc(s)),
        spec_sort_desc(s).len() == s.len(),
    decreases s.len(),
{
    if s.len() > 0 {
        lemma_sort_desc_sorted(s.drop_last());
        lemma_insert_desc_sorted(spec_sort_desc(s.drop_last()), s.last());
    }
}

/// Whether no node of a child list is a synthetic grouping node.
pub open spec fn all_plain(s: Seq<TreeV>) -> bool {
    forall|i: int| 0 <= i < s.len() ==> !(#[trigger] s[i]).is_virtual_directory
}

/// Inserting a plain node among plain siblings keeps them all plain.
pub proof fn lemma_insert_desc_plain(s: Seq<TreeV>, x: TreeV)
    requires
        all_plain(s),
        !x.is_virtual_directory,
    ensures
        all_plain(spec_insert_desc(s, x)),
        spec_insert_desc(s, x).len() == s.len() + 1,
    decreases s.len(),
{
    if s.len() == 0 {
    } else if s.last().size_bytes >= x.size_bytes {
        let r = s.push(x);
        assert forall|i: int| 0 <= i < r.len() implies !(#[trigger] r[i]).is_virtual_directory by {
            if i < s.len() {
                assert(r[i] == s[i]);
            }
        }
    } else {
        assert(all_plain(s.drop_last())) by {
            assert forall|i: int| 0 <= i < s.len() - 1 implies !(#[trigger] s.drop_last()[i]).is_virtual_directory by {
                assert(s.drop_last()[i] == s[i]);
            }
        }
        lemma_insert_desc_plain(s.drop_last(), x);
        let t = spec_insert_desc(s.drop_last(), x);
        let r = t.push(s.last());
        assert forall|i: int| 0 <= i < r.len() implies !(#[trigger] r[i]).is_virtual_directory by {
            if i < t.len() {
                assert(r[i] == t[i]);
            }
        }
    }
}

/// The sort of a plain child list is plain and of the same length.
pub proof fn lemma_sort_desc_plain(s: Seq<TreeV>)
    requires
        all_plain(s),
    ensures
        all_plain(spec_sort_desc(s)),
        spec_sort_desc(s).len() == s.len(),
    decreases s.len(),
{
    if s.len() > 0 {
        assert(all_plain(s.drop_last())) by {
            assert forall|i: int| 0 <= i < s.len() - 1 implies !(#[trigger] s.drop_last()[i]).is_virtual_directory by {
                assert(s.drop_last()[i] == s[i]);
            }
        }
        lemma_sort_desc_plain(s.drop_last());
        lemma_insert_desc_plain(spec_sort_desc(s.drop_last()), s.last());
    }
}

/// Inserting the one synthetic node among plain siblings: the result is
/// one longer, holds that node somewhere, and holds no other synthetic
/// node.
pub proof fn lemma_insert_one_virtual(s: Seq<TreeV>, x: TreeV)
    requires
        all_plain(s),
        x.is_virtual_directory,
    ensures
        spec_insert_desc(s, x).len() == s.len() + 1,
        exists|q: int|
            0 <= q < spec_insert_desc(s, x).len() && #[trigger] spec_insert_desc(s, x)[q] == x,
        forall|q: int|
            0 <= q < spec_insert_desc(s, x).len() && (#[trigger] spec_insert_desc(s, x)[q]).is_virtual_directory ==> spec_insert_desc(s, x)[q] == x,
    decreases s.len(),
{
    if s.len() == 0 {
        assert(spec_insert_desc(s, x)[0] == x);
    } else if s.last().size_bytes >= x.size_bytes {
        let r = s.push(x);
        assert(r[s.len() as int] == x);
        assert forall|q: int|
            0 <= q < r.len() && (#[trigger] r[q]).is_virtual_directory implies r[q] == x by {
            if q < s.len() {
                assert(r[q] == s[q]);
            }
        }
    } else {
        assert(all_plain(s.drop_last())) by {
            assert forall|i: int| 0 <= i < s.len() - 1 implies !(#[trigger] s.drop_last()[i]).is_virtual_directory by {
                assert(s.drop_last()[i] == s[i]);
            }
        }
        lemma_insert_one_virtual(s.drop_last(), x);
        let t = spec_insert_desc(s.drop_last(), x);
        let r = t.push(s.last());
        let q0 = choose|q0: int| 0 <= q0 < t.len() && #[trigger] t[q0] == x;
        assert(r[q0] == x);
        assert forall|q: int|
            0 <= q < r.len() && (#[trigger] r[q]).is_virtual_directory implies r[q] == x by {
            if q < t.len() {
                assert(r[q] == t[q]);
            } else {
                assert(r[q] == s.last());
            }
        }
    }
}

/// Insert a node among sorted siblings, behind every sibling at least as
/// large.
pub fn insert_desc(v: &mut Vec<TreeNode>, x: TreeNode)
    ensures
        tree_children_view(final(v)@) == spec_insert_desc(tree_children_view(old(v)@), x@),
    decreases old(v)@.len(),
{
    let ghost origs = old(v)@;
    let ghost orig = tree_children_view(old(v)@);
    let n = v.len();
    if n == 0 {
        v.push(x);
        proof {
            assert(v@.drop_last() =~= origs);
            assert(tree_children_view(v@) =~= seq![x@]);
        }
    } else if v[n - 1].size_bytes >= x.size_bytes {
        proof {
            lemma_tree_children_view(origs);
            assert(orig.last().size_bytes >= x@.size_bytes);
        }
        v.push(x);
        proof {
            assert(v@.drop_last() =~= origs);
            assert(tree_children_view(v@) =~= orig.push(x@));
        }
    } else {
        proof {
            lemma_tree_children_view(origs);
            assert(orig.last().size_bytes < x@.size_bytes);
        }
        let last = match v.pop() {
            Option::Some(t) => t,
            Option::None => vstd::pervasive::unreached(),
        };
        proof {
            assert(v@ =~= origs.drop_last());
            assert(tree_children_view(origs).drop_last() =~= tree_children_view(origs.drop_last()))
                by {
                lemma_tree_children_view(origs);
                lemma_tree_children_view(origs.drop_last());
            }
            assert(last@ == orig.last());
        }
        let ghost mid = v@;
        insert_desc(v, x);
        let ghost vrec = v@;
        v.push(last);
        proof {
            assert(mid =~= origs.drop_last());
            assert(v@.drop_last() =~= vrec);
            assert(v@.last() == last);
            assert(tree_children_view(v@) == tree_children_view(vrec).push(last@));
            assert(orig == tree_children_view(origs.drop_last()).push(tree_view(origs.last())));
            assert(orig.drop_last() =~= tree_children_view(origs.drop_last()));
            assert(orig.last() == tree_view(origs.last()));
            assert(last@ == orig.last());
            assert(tree_children_view(v@) == spec_insert_desc(orig, x@));
        }
    }
}

/// A child's share of its parent's size, as a whole percentage: zero when
/// the parent's size is zero, else the exact quotient of `child * 100`
/// and `parent`, clamped to `u64`.
pub open spec fn spec_percent(child: u64, parent: u64) -> u64 {
    if parent == 0 {
        0u64
    } else {
        crate::scanner::clip64((child * 100) / (parent as int))
    }
}

/// A child's share of its parent's size, 0 to 100 for a child no larger
/// than its parent.
pub fn percent_of(child: u64, parent: u64) -> (r: u64)
    ensures
        r == spec_percent(child, parent),
        child <= parent ==> r <= 100,
{
    if parent == 0 {
        0
    } else {
        let wide = (child as u128) * 100 / (parent as u128);
        proof {
            let c = child as int;
            let p = parent as int;
            assert(wide == (c * 100) / p);
            if child <= parent {
                assert((c * 100) / p <= 100) by (nonlinear_arith)
                    requires
                        0 < p,
                        c <= p,
                ;
            }
        }
        if wide > 0xffff_ffff_ffff_ffff {
            u64::MAX
        } else {
            wide as u64
        }
    }
}

/// The digit character of a value below ten.
pub open spec fn digit_char(d: int) -> char {
    if d == 0 {
        '0'
    } else if d == 1 {
        '1'
    } else if d == 2 {
        '2'
    } else if d == 3 {
        '3'
    } else if d == 4 {
        '4'
    } else if d == 5 {
        '5'
    } else if d == 6 {
        '6'
    } else if d == 7 {
        '7'
    } else if d == 8 {
        '8'
    } else {
        '9'
    }
}

/// The decimal digits of a non-negative number, most significant first.
pub open spec fn dec_rep(n: int) -> Seq<char>
    decreases n,
{
    if n < 10 {
        seq![digit_char(n)]
    } else {
        dec_rep(n / 10).push(digit_char(n % 10))
    }
}

/// One decimal digit as a string slice.
fn digit_str(d: u64) -> (r: &'static str)
    requires
        d < 10,
    ensures
        r@ =~= seq![digit_char(d as int)],
{
    proof {
        reveal_strlit("0");
        reveal_strlit("1");
        reveal_strlit("2");
        reveal_strlit("3");
        reveal_strlit("4");
        reveal_strlit("5");
        reveal_strlit("6");
        reveal_strlit("7");
        reveal_strlit("8");
        reveal_strlit("9");
    }
    match d {
        0 => "0",
        1 => "1",
        2 => "2",
        3 => "3",
        4 => "4",
        5 => "5",
        6 => "6",
        7 => "7",
        8 => "8",
        _ => "9",
    }
}

/// The decimal form of a number.
pub fn u64_to_string(n: u64) -> (s: String)
    ensures
        s@ == dec_rep(n as int),
    decreases n,
{
    if n < 10 {
        digit_str(n).to_owned()
    } else {
        let mut s = u64_to_string(n / 10);
        s.append(digit_str(n % 10));
        proof {
            assert(s@ =~= dec_rep(n as int));
        }
        s
    }
}

} // verus!
