//! The aggregation walker.
//!
//! A scan visits each path once, stores a provisional leaf record for it,
//! and, once all of a directory's children are done, rewrites that
//! directory's record as the sum of its own snapshot and every child's
//! contribution. Two dedup sets stop duplicate paths and physical
//! identities (hardlinks, symlink cycles) from being counted twice.

use vstd::prelude::*;

use crate::record::AggregateRecord;
use crate::record::PathInfo;
use crate::record::RecordV;
use crate::record::record_wf;
use crate::record::spec_leaf;
use crate::table::IdSet;
use crate::table::PathSet;
use crate::table::RecordTable;
use crate::table::id_set_insert;
use crate::table::id_set_new;
use crate::table::id_set_view;
use crate::table::path_set_insert;
use crate::table::path_set_new;
use crate::table::path_set_view;
use crate::table::table_get;
use crate::table::table_insert_new;
use crate::table::table_new;
use crate::table::table_view;

verus! {

/// What `begin_visit` decided for a path.
#[derive(Clone, Copy, Debug, PartialEq, Eq, Structural)]
pub enum VisitOutcome {
    /// The path was already taken up earlier; nothing was done.
    AlreadyProcessed,
    /// No snapshot could be produced; the path is skipped silently.
    Unreadable,
    /// The physical object behind the path was already counted under
    /// another path (hardlink or cycle); nothing was recorded.
    DuplicateIdentity,
    /// A leaf record was stored; the path is not to be descended into.
    Leaf,
    /// A provisional record was stored and the path is a real directory:
    /// its children are to be visited, then `finish_directory` called.
    Directory,
}

/// The shared state of one scan.
pub struct ScanState {
    /// One aggregate record per visited path.
    pub table: RecordTable,
    /// Paths already taken up.
    pub processed: PathSet,
    /// Physical identities already counted.
    pub visited: IdSet,
}

impl ScanState {
    /// The records stored so far, keyed by path.
    pub open spec fn records(self) -> Map<Seq<Seq<char>>, RecordV> {
        table_view(self.table)
    }

    /// The paths already taken up.
    pub open spec fn processed_paths(self) -> Set<Seq<Seq<char>>> {
        path_set_view(self.processed)
    }

    /// The identities already counted.
    pub open spec fn visited_ids(self) -> Set<(u64, u64)> {
        id_set_view(self.visited)
    }

    /// Every record sits under its own path, and only processed paths
    /// have records.
    pub open spec fn wf(self) -> bool {
        &&& forall|k: Seq<Seq<char>>|
            self.records().contains_key(k) ==> #[trigger] self.records()[k].path == k
        &&& forall|k: Seq<Seq<char>>|
            #[trigger] self.records().contains_key(k) ==> self.processed_paths().contains(k)
    }

    /// A fresh scan: nothing processed, nothing recorded.
    pub fn new() -> (s: ScanState)
        ensures
            s.wf(),
            s.records() =~= Map::empty(),
            s.processed_paths() =~= Set::empty(),
            s.visited_ids() =~= Set::empty(),
    {
        ScanState { table: table_new(), processed: path_set_new(), visited: id_set_new() }
    }

    /// Take up `path`: run the dedup and cycle checks and, if they pass
    /// and a snapshot is available, store the provisional leaf record.
    ///
    /// `is_symlink` is the walker's own view of the path; a snapshot of a
    /// symlink may describe its target.
    pub fn begin_visit(
        &mut self,
        path: &Vec<String>,
        info: &Option<PathInfo>,
        is_symlink: bool,
    ) -> (o: VisitOutcome)
        requires
            old(self).wf(),
        ensures
            final(self).wf(),
            final(self).processed_paths() == old(self).processed_paths().insert(path.deep_view()),
            match o {
                VisitOutcome::AlreadyProcessed => {
                    &&& old(self).processed_paths().contains(path.deep_view())
                    &&& final(self).records() == old(self).records()
                    &&& final(self).visited_ids() == old(self).visited_ids()
                },
                VisitOutcome::Unreadable => {
                    &&& !old(self).processed_paths().contains(path.deep_view())
                    &&& info is None
                    &&& final(self).records() == old(self).records()
                    &&& final(self).visited_ids() == old(self).visited_ids()
                },
                VisitOutcome::DuplicateIdentity => {
                    &&& !old(self).processed_paths().contains(path.deep_view())
                    &&& info matches Some(pi) && pi.inode_device matches Some(id)
                        && old(self).visited_ids().contains(id)
                    &&& final(self).records() == old(self).records()
                    &&& final(self).visited_ids() == old(self).visited_ids()
                },
                VisitOutcome::Leaf => {
                    &&& !old(self).processed_paths().contains(path.deep_view())
                    &&& info matches Some(pi) && {
                        &&& !(pi.is_dir && !is_symlink)
                        &&& (pi.inode_device matches Some(id2)
                            ==> !old(self).visited_ids().contains(id2))
                        &&& final(self).records() == old(self).records().insert(
                            path.deep_view(),
                            spec_leaf(path.deep_view(), *pi, is_symlink),
                        )
                        &&& visited_after(old(self).visited_ids(), *pi) == final(self).visited_ids()
                    }
                },
                VisitOutcome::Directory => {
                    &&& !old(self).processed_paths().contains(path.deep_view())
                    &&& info matches Some(pi) && {
                        &&& pi.is_dir && !is_symlink
                        &&& (pi.inode_device matches Some(id2)
                            ==> !old(self).visited_ids().contains(id2))
                        &&& final(self).records() == old(self).records().insert(
                            path.deep_view(),
                            spec_leaf(path.deep_view(), *pi, is_symlink),
                        )
                        &&& visited_after(old(self).visited_ids(), *pi) == final(self).visited_ids()
                    }
                },
            },
    {
        if !path_set_insert(&mut self.processed, path) {
            return VisitOutcome::AlreadyProcessed;
        }
        let pi = match info {
            Option::None => {
                return VisitOutcome::Unreadable;
            },
            Option::Some(pi) => pi,
        };
        if let Option::Some(id) = pi.inode_device {
            if !id_set_insert(&mut self.visited, id) {
                return VisitOutcome::DuplicateIdentity;
            }
        }
        let rec = AggregateRecord::leaf(crate::paths::path_clone(path), pi, is_symlink);
        proof {
            assert(!old(self).records().contains_key(path.deep_view()));
        }
        table_insert_new(&mut self.table, rec);
        if pi.is_dir && !is_symlink {
            VisitOutcome::Directory
        } else {
            VisitOutcome::Leaf
        }
    }
}

/// The identity set after a snapshot's identity, if it carries one, has
/// been admitted.
pub open spec fn visited_after(ids: Set<(u64, u64)>, pi: PathInfo) -> Set<(u64, u64)> {
    match pi.inode_device {
        Option::Some(id) => ids.insert(id),
        Option::None => ids,
    }
}

/// One enumerated child of a directory, as seen at rollup time: its path
/// and a fresh reading of what it is.
pub struct ChildRef {
    /// The child's absolute canonical path.
    pub path: Vec<String>,
    /// Whether the child is a regular file.
    pub is_file: bool,
    /// Whether the child is a symlink.
    pub is_symlink: bool,
}

/// The model of an enumerated child.
pub ghost struct ChildV {
    pub path: Seq<Seq<char>>,
    pub is_file: bool,
    pub is_symlink: bool,
}

impl View for ChildRef {
    type V = ChildV;

    open spec fn view(&self) -> ChildV {
        ChildV { path: self.path.deep_view(), is_file: self.is_file, is_symlink: self.is_symlink }
    }
}

impl DeepView for ChildRef {
    type V = ChildV;

    open spec fn deep_view(&self) -> ChildV {
        self.view()
    }
}

/// `x`, clamped to what a `u64` can hold.
pub open spec fn clip64(x: int) -> u64 {
    if x > u64::MAX {
        u64::MAX
    } else {
        x as u64
    }
}

/// Exact running totals of a rollup, as unbounded integers.
pub ghost struct Totals {
    pub size: int,
    pub alloc: int,
    pub entries: int,
    pub files: int,
    pub dirs: int,
}

/// What one child adds to its parent's totals. A child without a record
/// (skipped as unreadable, or deduplicated as a hardlink or cycle) adds
/// nothing at all: a deduplicated object must not be counted again. A
/// recorded child freshly read as a regular, non-symlink file adds its
/// sizes and one file and one entry. A recorded symlink adds its sizes
/// and one entry, never file or directory counts. Any other recorded
/// child adds its full recursive totals.
pub open spec fn child_total(records: Map<Seq<Seq<char>>, RecordV>, c: ChildV) -> Totals {
    let direct_file = c.is_file && !c.is_symlink;
    if records.contains_key(c.path) {
        let r = records[c.path];
        Totals {
            size: r.size_bytes as int,
            alloc: r.size_allocated_bytes as int,
            entries: if c.is_symlink || direct_file {
                1int
            } else {
                r.entry_count as int
            },
            files: if direct_file {
                1int
            } else if c.is_symlink {
                0int
            } else {
                r.file_count as int
            },
            dirs: if c.is_symlink {
                0int
            } else {
                r.directory_count as int
            },
        }
    } else {
        Totals { size: 0, alloc: 0, entries: 0, files: 0, dirs: 0 }
    }
}

/// The summed contributions of a child list.
pub open spec fn rollup(records: Map<Seq<Seq<char>>, RecordV>, children: Seq<ChildV>) -> Totals
    decreases children.len(),
{
    if children.len() == 0 {
        Totals { size: 0, alloc: 0, entries: 0, files: 0, dirs: 0 }
    } else {
        let t = rollup(records, children.drop_last());
        let c = child_total(records, children.last());
        Totals {
            size: t.size + c.size,
            alloc: t.alloc + c.alloc,
            entries: t.entries + c.entries,
            files: t.files + c.files,
            dirs: t.dirs + c.dirs,
        }
    }
}

/// Rollup totals are never negative.
pub proof fn lemma_rollup_nonneg(records: Map<Seq<Seq<char>>, RecordV>, children: Seq<ChildV>)
    ensures
        rollup(records, children).size >= 0,
        rollup(records, children).alloc >= 0,
        rollup(records, children).entries >= 0,
        rollup(records, children).files >= 0,
        rollup(records, children).dirs >= 0,
    decreases children.len(),
{
    if children.len() > 0 {
        lemma_rollup_nonneg(records, children.drop_last());
    }
}

/// A directory's record after rollup: its own values plus the summed
/// contributions of its children, each field clamped to `u64`.
pub open spec fn rolled(
    records: Map<Seq<Seq<char>>, RecordV>,
    own: RecordV,
    children: Seq<ChildV>,
) -> RecordV {
    let t = rollup(records, children);
    RecordV {
        path: own.path,
        size_bytes: clip64(own.size_bytes + t.size),
        size_allocated_bytes: clip64(own.size_allocated_bytes + t.alloc),
        entry_count: clip64(own.entry_count + t.entries),
        file_count: clip64(own.file_count + t.files),
        directory_count: clip64(own.directory_count + t.dirs),
        last_modified_time: own.last_modified_time,
        owner_name: own.owner_name,
    }
}

/// Saturating addition: the exact sum, clamped to `u64`.
pub fn sat_add(a: u64, b: u64) -> (r: u64)
    ensures
        r == clip64(a as int + b as int),
{
    if a > u64::MAX - b {
        u64::MAX
    } else {
        a + b
    }
}

impl ScanState {
    /// Roll a directory up once all its children are done: rewrite its
    /// record as its own provisional values plus every child's current
    /// contribution. This is the single post-insert write to this key.
    pub fn finish_directory(&mut self, path: &Vec<String>, children: &Vec<ChildRef>)
        requires
            old(self).wf(),
            old(self).records().contains_key(path.deep_view()),
        ensures
            final(self).wf(),
            final(self).processed_paths() == old(self).processed_paths(),
            final(self).visited_ids() == old(self).visited_ids(),
            final(self).records() == old(self).records().insert(
                path.deep_view(),
                rolled(
                    old(self).records(),
                    old(self).records()[path.deep_view()],
                    children.deep_view(),
                ),
            ),
    {
        let own = match table_get(&self.table, path) {
            Option::Some(r) => r,
            Option::None => vstd::pervasive::unreached(),
        };
        let mut size: u64 = own.size_bytes;
        let mut alloc: u64 = own.size_allocated_bytes;
        let mut entries: u64 = own.entry_count;
        let mut files: u64 = own.file_count;
        let mut dirs: u64 = own.directory_count;
        let ghost recs = old(self).records();
        let ghost ownv = own@;
        let n = children.len();
        for i in 0..n
            invariant
                n == children.len(),
                *self == *old(self),
                self.wf(),
                ownv == old(self).records()[path.deep_view()],
                size == clip64(ownv.size_bytes + rollup(recs, children.deep_view().subrange(0, i as int)).size),
                alloc == clip64(ownv.size_allocated_bytes + rollup(recs, children.deep_view().subrange(0, i as int)).alloc),
                entries == clip64(ownv.entry_count + rollup(recs, children.deep_view().subrange(0, i as int)).entries),
                files == clip64(ownv.file_count + rollup(recs, children.deep_view().subrange(0, i as int)).files),
                dirs == clip64(ownv.directory_count + rollup(recs, children.deep_view().subrange(0, i as int)).dirs),
                recs == old(self).records(),
        {
            let ghost pre = children.deep_view().subrange(0, i as int);
            let ghost post = children.deep_view().subrange(0, i as int + 1);
            let c = &children[i];
            proof {
                assert(post.drop_last() =~= pre);
                assert(post.last() == c@);
                lemma_rollup_nonneg(recs, pre);
                lemma_rollup_nonneg(recs, post);
            }
            let direct_file = c.is_file && !c.is_symlink;
            match table_get(&self.table, &c.path) {
                Option::Some(cr) => {
                    size = sat_add(size, cr.size_bytes);
                    alloc = sat_add(alloc, cr.size_allocated_bytes);
                    if c.is_symlink {
                        entries = sat_add(entries, 1);
                    } else if direct_file {
                        entries = sat_add(entries, 1);
                        files = sat_add(files, 1);
                        dirs = sat_add(dirs, cr.directory_count);
                    } else {
                        entries = sat_add(entries, cr.entry_count);
                        files = sat_add(files, cr.file_count);
                        dirs = sat_add(dirs, cr.directory_count);
                    }
                },
                Option::None => {},
            }
        }
        proof {
            assert(children.deep_view().subrange(0, n as int) =~= children.deep_view());
        }
        let new_rec = AggregateRecord {
            path: crate::paths::path_clone(path),
            size_bytes: size,
            size_allocated_bytes: alloc,
            entry_count: entries,
            file_count: files,
            directory_count: dirs,
            last_modified_time: own.last_modified_time,
            owner_name: own.owner_name,
        };
        crate::table::table_overwrite(&mut self.table, new_rec);
    }
}

/// Rollup correctness: when the exact totals fit in a `u64`, a rolled-up
/// directory record is exactly the directory's own values plus the summed
/// contributions of its children: a recorded directory contributes its
/// full recursive totals, a recorded file or symlink its own leaf values;
/// symlinks count toward entries only, never files or directories; a
/// child skipped at visit time, as a duplicate or as unreadable,
/// contributes nothing.
pub proof fn lemma_rollup_correctness(
    records: Map<Seq<Seq<char>>, RecordV>,
    own: RecordV,
    children: Seq<ChildV>,
)
    requires
        own.size_bytes + rollup(records, children).size <= u64::MAX,
        own.size_allocated_bytes + rollup(records, children).alloc <= u64::MAX,
        own.entry_count + rollup(records, children).entries <= u64::MAX,
        own.file_count + rollup(records, children).files <= u64::MAX,
        own.directory_count + rollup(records, children).dirs <= u64::MAX,
    ensures
        rolled(records, own, children).size_bytes == own.size_bytes + rollup(
            records,
            children,
        ).size,
        rolled(records, own, children).size_allocated_bytes == own.size_allocated_bytes + rollup(
            records,
            children,
        ).alloc,
        rolled(records, own, children).entry_count == own.entry_count + rollup(
            records,
            children,
        ).entries,
        rolled(records, own, children).file_count == own.file_count + rollup(
            records,
            children,
        ).files,
        rolled(records, own, children).directory_count == own.directory_count + rollup(
            records,
            children,
        ).dirs,
        children.len() > 0 ==> rollup(records, children) == add_totals(
            rollup(records, children.drop_last()),
            child_total(records, children.last()),
        ),
{
    lemma_rollup_nonneg(records, children);
}

/// The counting discipline a rollup needs from each child so that the
/// record invariant survives: a recorded child is itself well-formed, and
/// one freshly read as a plain file has no directories in its record.
pub open spec fn child_counts_ok(records: Map<Seq<Seq<char>>, RecordV>, c: ChildV) -> bool {
    records.contains_key(c.path) ==> {
        &&& record_wf(records[c.path])
        &&& c.is_file && !c.is_symlink ==> records[c.path].directory_count == 0
    }
}

/// Each child's contribution counts no more files and directories than
/// entries, so neither does their sum.
pub proof fn lemma_rollup_counts(records: Map<Seq<Seq<char>>, RecordV>, children: Seq<ChildV>)
    requires
        forall|i: int| 0 <= i < children.len() ==> child_counts_ok(records, #[trigger] children[i]),
    ensures
        rollup(records, children).dirs + rollup(records, children).files <= rollup(
            records,
            children,
        ).entries,
    decreases children.len(),
{
    if children.len() > 0 {
        assert(forall|i: int|
            0 <= i < children.drop_last().len() ==> child_counts_ok(
                records,
                #[trigger] children.drop_last()[i],
            ));
        lemma_rollup_counts(records, children.drop_last());
        assert(child_counts_ok(records, children.last()));
    }
}

/// The record invariant survives a rollup: a directory whose own record is
/// well-formed, whose children meet the counting discipline, and whose
/// entry total fits in a `u64` rolls up to a well-formed record. Symlinks
/// account for any slack, counting toward entries only.
pub proof fn lemma_rolled_wf(
    records: Map<Seq<Seq<char>>, RecordV>,
    own: RecordV,
    children: Seq<ChildV>,
)
    requires
        record_wf(own),
        forall|i: int| 0 <= i < children.len() ==> child_counts_ok(records, #[trigger] children[i]),
        own.entry_count + rollup(records, children).entries <= u64::MAX,
    ensures
        record_wf(rolled(records, own, children)),
{
    lemma_rollup_nonneg(records, children);
    lemma_rollup_counts(records, children);
}

/// The summed apparent sizes of the children's records: a child without
/// a record contributes zero.
pub open spec fn sum_child_sizes(
    records: Map<Seq<Seq<char>>, RecordV>,
    children: Seq<ChildV>,
) -> int
    decreases children.len(),
{
    if children.len() == 0 {
        0
    } else {
        sum_child_sizes(records, children.drop_last()) + if records.contains_key(
            children.last().path,
        ) {
            records[children.last().path].size_bytes as int
        } else {
            0
        }
    }
}

/// The summed allocated sizes of the children's records: a child without
/// a record contributes zero.
pub open spec fn sum_child_allocs(
    records: Map<Seq<Seq<char>>, RecordV>,
    children: Seq<ChildV>,
) -> int
    decreases children.len(),
{
    if children.len() == 0 {
        0
    } else {
        sum_child_allocs(records, children.drop_last()) + if records.contains_key(
            children.last().path,
        ) {
            records[children.last().path].size_allocated_bytes as int
        } else {
            0
        }
    }
}

/// A rollup's size totals are exactly the sums over the children's
/// records.
pub proof fn lemma_rollup_sizes(records: Map<Seq<Seq<char>>, RecordV>, children: Seq<ChildV>)
    ensures
        rollup(records, children).size == sum_child_sizes(records, children),
        rollup(records, children).alloc == sum_child_allocs(records, children),
    decreases children.len(),
{
    if children.len() > 0 {
        lemma_rollup_sizes(records, children.drop_last());
    }
}

/// Size rollup correctness in its own terms: when the sums fit in a
/// `u64`, a rolled-up directory's sizes are its own snapshot sizes plus
/// the sum of its children's record sizes — a recorded directory thereby
/// contributes its full recursive total, a recorded file or symlink its
/// own leaf value, and a child without a record (unreadable, or
/// deduplicated as a hardlink or cycle) contributes zero.
pub proof fn lemma_size_rollup(
    records: Map<Seq<Seq<char>>, RecordV>,
    own: RecordV,
    children: Seq<ChildV>,
)
    requires
        own.size_bytes + sum_child_sizes(records, children) <= u64::MAX,
        own.size_allocated_bytes + sum_child_allocs(records, children) <= u64::MAX,
    ensures
        rolled(records, own, children).size_bytes == own.size_bytes + sum_child_sizes(
            records,
            children,
        ),
        rolled(records, own, children).size_allocated_bytes == own.size_allocated_bytes
            + sum_child_allocs(records, children),
{
    lemma_rollup_sizes(records, children);
    lemma_rollup_nonneg(records, children);
}

/// The field-wise sum of two totals.
pub open spec fn add_totals(a: Totals, b: Totals) -> Totals {
    Totals {
        size: a.size + b.size,
        alloc: a.alloc + b.alloc,
        entries: a.entries + b.entries,
        files: a.files + b.files,
        dirs: a.dirs + b.dirs,
    }
}

/// One node of an in-memory snapshot of a directory tree, the input the
/// scan driver walks. Children point further down the node list, so a
/// snapshot is finite by construction; filesystem cycles show up as
/// repeated identities, not as back edges.
pub struct FsNode {
    /// The node's absolute canonical path.
    pub path: Vec<String>,
    /// The node's metadata snapshot; `None` when it was unreadable.
    pub info: Option<PathInfo>,
    /// Whether the path itself is a symlink.
    pub is_symlink: bool,
    /// Indices of the node's direct children, each greater than the
    /// node's own index.
    pub children: Vec<usize>,
}

/// The model of a snapshot node.
pub ghost struct FsNodeV {
    pub path: Seq<Seq<char>>,
    pub info: Option<PathInfo>,
    pub is_symlink: bool,
    pub children: Seq<usize>,
}

impl View for FsNode {
    type V = FsNodeV;

    open spec fn view(&self) -> FsNodeV {
        FsNodeV {
            path: self.path.deep_view(),
            info: self.info,
            is_symlink: self.is_symlink,
            children: self.children@,
        }
    }
}

impl DeepView for FsNode {
    type V = FsNodeV;

    open spec fn deep_view(&self) -> FsNodeV {
        self.view()
    }
}

/// A snapshot is well-formed when every child index points past its
/// parent and into the node list.
pub open spec fn fs_wf(fs: Seq<FsNodeV>) -> bool {
    forall|i: int, k: int|
        0 <= i < fs.len() && 0 <= k < fs[i].children.len() ==> i < #[trigger] fs[i].children[k]
            < fs.len()
}

/// The model of a whole scan state.
pub ghost struct ScanModel {
    pub records: Map<Seq<Seq<char>>, RecordV>,
    pub processed: Set<Seq<Seq<char>>>,
    pub visited: Set<(u64, u64)>,
}

impl ScanState {
    /// The model of the state: its three collections.
    pub open spec fn model(self) -> ScanModel {
        ScanModel {
            records: self.records(),
            processed: self.processed_paths(),
            visited: self.visited_ids(),
        }
    }
}

/// What `begin_visit` does to the model: the path is marked processed;
/// when it is new, readable and its identity unseen, its leaf record is
/// stored and its identity marked.
pub open spec fn spec_visit(
    m: ScanModel,
    path: Seq<Seq<char>>,
    info: Option<PathInfo>,
    is_symlink: bool,
) -> ScanModel {
    let processed = m.processed.insert(path);
    if m.processed.contains(path) {
        ScanModel { records: m.records, processed, visited: m.visited }
    } else {
        match info {
            Option::None => ScanModel { records: m.records, processed, visited: m.visited },
            Option::Some(pi) => {
                let blocked = match pi.inode_device {
                    Option::Some(id) => m.visited.contains(id),
                    Option::None => false,
                };
                if blocked {
                    ScanModel { records: m.records, processed, visited: m.visited }
                } else {
                    ScanModel {
                        records: m.records.insert(path, spec_leaf(path, pi, is_symlink)),
                        processed,
                        visited: visited_after(m.visited, pi),
                    }
                }
            },
        }
    }
}

/// Whether a visit of this path descends into children: it is new, its
/// snapshot is readable with an unseen identity, and it is a real
/// directory, not a symlink to one.
pub open spec fn spec_recurse(
    m: ScanModel,
    path: Seq<Seq<char>>,
    info: Option<PathInfo>,
    is_symlink: bool,
) -> bool {
    &&& !m.processed.contains(path)
    &&& info matches Some(pi) && {
        &&& (pi.inode_device matches Some(id) ==> !m.visited.contains(id))
        &&& pi.is_dir
        &&& !is_symlink
    }
}

/// A child's rollup-time reading, derived from its snapshot node: a fresh
/// stat follows symlinks, so an unreadable child reads as no file.
pub open spec fn spec_child_of(n: FsNodeV) -> ChildV {
    ChildV {
        path: n.path,
        is_file: match n.info {
            Option::Some(pi) => pi.is_file,
            Option::None => false,
        },
        is_symlink: n.is_symlink,
    }
}

/// The rollup-time readings of a node's children.
pub open spec fn spec_children_of(fs: Seq<FsNodeV>, idx: int) -> Seq<ChildV> {
    fs[idx].children.map_values(|j: usize| spec_child_of(fs[j as int]))
}

/// What the walk of the subtree rooted at `idx` does to the model:
/// visit the node; when the visit says to descend, walk each child in
/// order, then roll the directory up.
pub open spec fn spec_walk(fs: Seq<FsNodeV>, idx: int, m: ScanModel) -> ScanModel
    recommends
        fs_wf(fs),
        0 <= idx < fs.len(),
    decreases fs.len() - idx, fs[idx].children.len() + 1,
        when 0 <= idx < fs.len() && fs_wf(fs)
{
    let node = fs[idx];
    let m1 = spec_visit(m, node.path, node.info, node.is_symlink);
    if spec_recurse(m, node.path, node.info, node.is_symlink) {
        let m2 = spec_walk_prefix(fs, idx, node.children.len() as int, m1);
        ScanModel {
            records: m2.records.insert(
                node.path,
                rolled(m2.records, m2.records[node.path], spec_children_of(fs, idx)),
            ),
            processed: m2.processed,
            visited: m2.visited,
        }
    } else {
        m1
    }
}

/// The model after the first `k` children of node `idx` have been walked.
pub open spec fn spec_walk_prefix(fs: Seq<FsNodeV>, idx: int, k: int, m: ScanModel) -> ScanModel
    recommends
        fs_wf(fs),
        0 <= idx < fs.len(),
        0 <= k <= fs[idx].children.len(),
    decreases fs.len() - idx, k,
        when 0 <= idx < fs.len() && 0 <= k <= fs[idx].children.len() && fs_wf(fs)
{
    if k <= 0 {
        m
    } else {
        spec_walk(fs, fs[idx].children[k - 1] as int, spec_walk_prefix(fs, idx, k - 1, m))
    }
}

/// A walk never drops a stored record.
pub proof fn lemma_walk_keeps_records(fs: Seq<FsNodeV>, idx: int, m: ScanModel, key: Seq<Seq<char>>)
    requires
        fs_wf(fs),
        0 <= idx < fs.len(),
        m.records.contains_key(key),
    ensures
        spec_walk(fs, idx, m).records.contains_key(key),
    decreases fs.len() - idx, fs[idx].children.len() + 1,
{
    let node = fs[idx];
    let m1 = spec_visit(m, node.path, node.info, node.is_symlink);
    if spec_recurse(m, node.path, node.info, node.is_symlink) {
        lemma_walk_prefix_keeps_records(fs, idx, node.children.len() as int, m1, key);
    }
}

/// Walking any prefix of a node's children never drops a stored record.
pub proof fn lemma_walk_prefix_keeps_records(
    fs: Seq<FsNodeV>,
    idx: int,
    k: int,
    m: ScanModel,
    key: Seq<Seq<char>>,
)
    requires
        fs_wf(fs),
        0 <= idx < fs.len(),
        0 <= k <= fs[idx].children.len(),
        m.records.contains_key(key),
    ensures
        spec_walk_prefix(fs, idx, k, m).records.contains_key(key),
    decreases fs.len() - idx, k,
{
    if k > 0 {
        lemma_walk_prefix_keeps_records(fs, idx, k - 1, m, key);
        lemma_walk_keeps_records(
            fs,
            fs[idx].children[k - 1] as int,
            spec_walk_prefix(fs, idx, k - 1, m),
            key,
        );
    }
}

/// A child's rollup-time reading.
pub fn child_ref_of(node: &FsNode) -> (c: ChildRef)
    ensures
        c@ == spec_child_of(node@),
{
    ChildRef {
        path: crate::paths::path_clone(&node.path),
        is_file: match &node.info {
            Option::Some(pi) => pi.is_file,
            Option::None => false,
        },
        is_symlink: node.is_symlink,
    }
}

/// Walk the subtree rooted at `idx`: visit the node and, for a real,
/// newly seen directory, walk every child and roll the directory up once
/// they are all done.
pub fn walk(fs: &Vec<FsNode>, idx: usize, state: &mut ScanState)
    requires
        fs_wf(fs.deep_view()),
        idx < fs.len(),
        old(state).wf(),
    ensures
        final(state).wf(),
        final(state).model() == spec_walk(fs.deep_view(), idx as int, old(state).model()),
    decreases fs.len() - idx,
{
    let ghost fsv = fs.deep_view();
    let ghost m0 = state.model();
    let node = &fs[idx];
    proof {
        assert(fsv[idx as int] == node@);
    }
    let o = state.begin_visit(&node.path, &node.info, node.is_symlink);
    proof {
        assert(state.model() =~~= spec_visit(m0, node@.path, node@.info, node@.is_symlink));
    }
    if o == VisitOutcome::Directory {
        proof {
            assert(spec_recurse(m0, node@.path, node@.info, node@.is_symlink));
        }
        let ghost m1 = state.model();
        let mut kids: Vec<ChildRef> = Vec::new();
        let nk = node.children.len();
        for k in 0..nk
            invariant
                fs_wf(fsv),
                fsv == fs.deep_view(),
                idx < fs.len(),
                node == &fs[idx as int],
                nk == node.children.len(),
                state.wf(),
                state.model() == spec_walk_prefix(fsv, idx as int, k as int, m1),
                kids@.len() == k,
                forall|j2: int|
                    0 <= j2 < k ==> #[trigger] kids@[j2]@ == spec_children_of(
                        fsv,
                        idx as int,
                    )[j2],
        {
            let j = node.children[k];
            proof {
                assert(fsv[idx as int].children[k as int] == j);
            }
            walk(fs, j, state);
            let kid = child_ref_of(&fs[j]);
            proof {
                assert(fsv[j as int] == fs@[j as int]@);
                assert(spec_children_of(fsv, idx as int)[k as int] == spec_child_of(
                    fsv[j as int],
                ));
            }
            kids.push(kid);
        }
        proof {
            assert forall|j2: int| 0 <= j2 < nk implies kids.deep_view()[j2] == spec_children_of(
                fsv,
                idx as int,
            )[j2] by {
                assert(kids.deep_view()[j2] == kids@[j2]@);
            }
            assert(kids.deep_view() =~= spec_children_of(fsv, idx as int));
            assert(m1.records.contains_key(node@.path));
            if nk > 0 {
                lemma_walk_prefix_keeps_records(fsv, idx as int, nk as int, m1, node@.path);
            }
        }
        state.finish_directory(&node.path, &kids);
        proof {
            assert(state.model() =~~= spec_walk(fsv, idx as int, m0));
        }
    } else {
        proof {
            assert(!spec_recurse(m0, node@.path, node@.info, node@.is_symlink));
            assert(state.model() =~~= spec_walk(fsv, idx as int, m0));
        }
    }
}

/// Whether a snapshot node freshly reads as a regular, non-symlink file.
pub open spec fn reads_plain_file(n: FsNodeV) -> bool {
    &&& n.info matches Some(pi) && pi.is_file
    &&& !n.is_symlink
}

/// A consistent snapshot of one tree: no node is both a directory and a
/// regular file, and no two nodes share a path.
pub open spec fn fs_consistent(fs: Seq<FsNodeV>) -> bool {
    &&& forall|j: int|
        0 <= j < fs.len() ==> (#[trigger] fs[j].info matches Some(pi) ==> !(pi.is_dir
            && pi.is_file))
    &&& forall|i: int, j: int|
        0 <= i < fs.len() && 0 <= j < fs.len() && #[trigger] fs[i].path == #[trigger] fs[j].path
            ==> i == j
}

/// Every stored record is well-formed, and the record of a node that
/// freshly reads as a plain file counts no directory.
pub open spec fn records_wf(fs: Seq<FsNodeV>, m: ScanModel) -> bool {
    &&& forall|k: Seq<Seq<char>>|
        #[trigger] m.records.contains_key(k) ==> record_wf(m.records[k])
    &&& forall|j: int|
        #![trigger reads_plain_file(fs[j])]
        0 <= j < fs.len() && m.records.contains_key(fs[j].path) && reads_plain_file(fs[j])
            ==> m.records[fs[j].path].directory_count == 0
}

/// Whether no rollup along the walk of `idx` saturates its entry total:
/// at each directory, the provisional record's entry count plus the
/// children's summed entries fits in a `u64`.
pub open spec fn walk_counts_fit(fs: Seq<FsNodeV>, idx: int, m: ScanModel) -> bool
    recommends
        fs_wf(fs),
        0 <= idx < fs.len(),
    decreases fs.len() - idx, fs[idx].children.len() + 1,
        when 0 <= idx < fs.len() && fs_wf(fs)
{
    let node = fs[idx];
    let m1 = spec_visit(m, node.path, node.info, node.is_symlink);
    if spec_recurse(m, node.path, node.info, node.is_symlink) {
        let m2 = spec_walk_prefix(fs, idx, node.children.len() as int, m1);
        &&& prefix_counts_fit(fs, idx, node.children.len() as int, m1)
        &&& m2.records[node.path].entry_count + rollup(
            m2.records,
            spec_children_of(fs, idx),
        ).entries <= u64::MAX
    } else {
        true
    }
}

/// Whether no rollup saturates while walking the first `k` children of
/// node `idx`.
pub open spec fn prefix_counts_fit(fs: Seq<FsNodeV>, idx: int, k: int, m: ScanModel) -> bool
    recommends
        fs_wf(fs),
        0 <= idx < fs.len(),
        0 <= k <= fs[idx].children.len(),
    decreases fs.len() - idx, k,
        when 0 <= idx < fs.len() && 0 <= k <= fs[idx].children.len() && fs_wf(fs)
{
    if k <= 0 {
        true
    } else {
        &&& prefix_counts_fit(fs, idx, k - 1, m)
        &&& walk_counts_fit(
            fs,
            fs[idx].children[k - 1] as int,
            spec_walk_prefix(fs, idx, k - 1, m),
        )
    }
}

/// A walk of a consistent snapshot keeps every stored record well-formed,
/// as long as no rollup saturates its entry total.
pub proof fn lemma_walk_wf(fs: Seq<FsNodeV>, idx: int, m: ScanModel)
    requires
        fs_wf(fs),
        fs_consistent(fs),
        0 <= idx < fs.len(),
        records_wf(fs, m),
        walk_counts_fit(fs, idx, m),
    ensures
        records_wf(fs, spec_walk(fs, idx, m)),
    decreases fs.len() - idx, fs[idx].children.len() + 1,
{
    let node = fs[idx];
    let m1 = spec_visit(m, node.path, node.info, node.is_symlink);
    lemma_visit_wf(fs, idx, m);
    if spec_recurse(m, node.path, node.info, node.is_symlink) {
        let kids = spec_children_of(fs, idx);
        let m2 = spec_walk_prefix(fs, idx, node.children.len() as int, m1);
        lemma_prefix_wf(fs, idx, node.children.len() as int, m1);
        assert(m1.records.contains_key(node.path));
        lemma_walk_prefix_keeps_records(fs, idx, node.children.len() as int, m1, node.path);
        let own = m2.records[node.path];
        assert forall|i: int| 0 <= i < kids.len() implies child_counts_ok(
            m2.records,
            #[trigger] kids[i],
        ) by {
            let j = fs[idx].children[i] as int;
            assert(kids[i] == spec_child_of(fs[j]));
            if m2.records.contains_key(kids[i].path) {
                assert(record_wf(m2.records[kids[i].path]));
                if kids[i].is_file && !kids[i].is_symlink {
                    assert(reads_plain_file(fs[j]));
                }
            }
        }
        lemma_rolled_wf(m2.records, own, kids);
        let rolledrec = rolled(m2.records, own, kids);
        let mfinal = spec_walk(fs, idx, m);
        assert(mfinal.records == m2.records.insert(node.path, rolledrec));
        assert forall|k: Seq<Seq<char>>| #[trigger]
            mfinal.records.contains_key(k) implies record_wf(mfinal.records[k]) by {
            if k != node.path {
                assert(mfinal.records[k] == m2.records[k]);
            }
        }
        assert forall|j: int|
            0 <= j < fs.len() && mfinal.records.contains_key(fs[j].path) && #[trigger]
            reads_plain_file(fs[j]) implies mfinal.records[fs[j].path].directory_count == 0 by {
            if fs[j].path == node.path {
                assert(j == idx);
                assert(node.info matches Some(pi) && pi.is_dir);
                assert(!reads_plain_file(fs[idx]));
            } else {
                assert(mfinal.records[fs[j].path] == m2.records[fs[j].path]);
            }
        }
    }
}

/// Visiting one node of a consistent snapshot keeps every stored record
/// well-formed.
proof fn lemma_visit_wf(fs: Seq<FsNodeV>, idx: int, m: ScanModel)
    requires
        fs_consistent(fs),
        0 <= idx < fs.len(),
        records_wf(fs, m),
    ensures
        records_wf(
            fs,
            spec_visit(m, fs[idx].path, fs[idx].info, fs[idx].is_symlink),
        ),
{
    let node = fs[idx];
    let m1 = spec_visit(m, node.path, node.info, node.is_symlink);
    assert forall|k: Seq<Seq<char>>| #[trigger]
        m1.records.contains_key(k) implies record_wf(m1.records[k]) by {
        if !m.records.contains_key(k) || m1.records[k] != m.records[k] {
            assert(k == node.path);
        }
    }
    assert forall|j: int|
        0 <= j < fs.len() && m1.records.contains_key(fs[j].path) && #[trigger]
        reads_plain_file(fs[j]) implies m1.records[fs[j].path].directory_count == 0 by {
        if !m.records.contains_key(fs[j].path) || m1.records[fs[j].path] != m.records[fs[j].path] {
            assert(fs[j].path == node.path);
            assert(j == idx);
            assert(node.info matches Some(pi) && pi.is_file && !pi.is_dir);
        }
    }
}

/// Walking any prefix of a node's children keeps every stored record
/// well-formed.
pub proof fn lemma_prefix_wf(fs: Seq<FsNodeV>, idx: int, k: int, m: ScanModel)
    requires
        fs_wf(fs),
        fs_consistent(fs),
        0 <= idx < fs.len(),
        0 <= k <= fs[idx].children.len(),
        records_wf(fs, m),
        prefix_counts_fit(fs, idx, k, m),
    ensures
        records_wf(fs, spec_walk_prefix(fs, idx, k, m)),
    decreases fs.len() - idx, k,
{
    if k > 0 {
        lemma_prefix_wf(fs, idx, k - 1, m);
        lemma_walk_wf(fs, fs[idx].children[k - 1] as int, spec_walk_prefix(fs, idx, k - 1, m));
    }
}

/// After a whole scan of a consistent snapshot, every stored record is
/// well-formed: it never counts more files and directories than entries;
/// symlinks, which count toward entries only, account for any slack. The
/// snapshot hypotheses say the walk read one tree (no path twice, nothing
/// both file and directory); the counting hypothesis says no rollup along
/// the walk saturated its entry total.
pub proof fn lemma_scan_records_wf(fs: Seq<FsNodeV>, root: int)
    requires
        fs_wf(fs),
        fs_consistent(fs),
        0 <= root < fs.len(),
        walk_counts_fit(
            fs,
            root,
            ScanModel { records: Map::empty(), processed: Set::empty(), visited: Set::empty() },
        ),
    ensures
        forall|k: Seq<Seq<char>>| #[trigger]
            spec_walk(
                fs,
                root,
                ScanModel { records: Map::empty(), processed: Set::empty(), visited: Set::empty() },
            ).records.contains_key(k) ==> record_wf(
                spec_walk(
                    fs,
                    root,
                    ScanModel {
                        records: Map::empty(),
                        processed: Set::empty(),
                        visited: Set::empty(),
                    },
                ).records[k],
            ),
{
    let m0 = ScanModel { records: Map::empty(), processed: Set::empty(), visited: Set::empty() };
    assert(records_wf(fs, m0));
    lemma_walk_wf(fs, root, m0);
}

/// Scan a snapshot from its root node: the model of the result is exactly
/// the walk of the root on a fresh state, so two scans of one snapshot
/// agree.
pub fn run_scan(fs: &Vec<FsNode>, root: usize) -> (state: ScanState)
    requires
        fs_wf(fs.deep_view()),
        root < fs.len(),
    ensures
        state.wf(),
        state.model() == spec_walk(
            fs.deep_view(),
            root as int,
            ScanModel { records: Map::empty(), processed: Set::empty(), visited: Set::empty() },
        ),
{
    let mut state = ScanState::new();
    proof {
        assert(state.model() =~~= ScanModel {
            records: Map::empty(),
            processed: Set::empty(),
            visited: Set::empty(),
        });
    }
    walk(fs, root, &mut state);
    state
}

} // verus!
