//! The scan cache: a single slot holding the latest completed scan's flat
//! record list and its prebuilt indices, serving later subtree queries.
//!
//! Each scan carries a generation number. Starting a scan empties the slot
//! and advances the generation; a finished index build is installed only
//! if its generation still matches, so a slow build from a superseded scan
//! can never overwrite a newer one.

use vstd::prelude::*;

use crate::index::kid_view;
use crate::index::spec_bucket;
use crate::index::spec_project_indexed;
use crate::index::spec_sort_idx;
use crate::paths::spec_starts_with;
use crate::project::spec_find;
use crate::project::spec_project;
use crate::record::AggregateRecord;
use crate::record::RecordV;
use crate::scanner::clip64;
use crate::scanner::sat_add;
use crate::tree::TreeNode;

verus! {

/// Why a subtree query returned nothing.
#[derive(Clone, Copy, Debug, PartialEq, Eq, Structural)]
pub enum QueryError {
    /// No scan has completed yet.
    NoScanData,
    /// The queried path is not at or below the cached scan root.
    OutOfScope,
    /// The queried path is in scope but has no record.
    NotFound,
}

/// One completed scan's data: the root, the flat record list, and the two
/// prebuilt lookup tables.
pub struct ScanCache {
    /// The scanned root path.
    pub root_path: Vec<String>,
    /// The flat record list.
    pub entries: Vec<AggregateRecord>,
    /// Each record's position under its path.
    pub path_index: Vec<(Vec<String>, usize)>,
    /// Each in-scope directory's child positions, largest first.
    pub children_index: Vec<(Vec<String>, Vec<usize>)>,
}

/// The model of a cached scan.
pub ghost struct CacheV {
    pub root: Seq<Seq<char>>,
    pub entries: Seq<RecordV>,
    pub ppairs: Seq<(Seq<Seq<char>>, usize)>,
    pub kpairs: Seq<(Seq<Seq<char>>, Seq<usize>)>,
}

impl View for ScanCache {
    type V = CacheV;

    open spec fn view(&self) -> CacheV {
        CacheV {
            root: self.root_path.deep_view(),
            entries: self.entries.deep_view(),
            ppairs: self.path_index.deep_view(),
            kpairs: kid_view(self.children_index@),
        }
    }
}

/// Assemble a scan's cache entry: keep the root and records, and build
/// both lookup tables over them.
pub fn make_cache(root_path: Vec<String>, entries: Vec<AggregateRecord>) -> (c: ScanCache)
    ensures
        c@.root == root_path.deep_view(),
        c@.entries == entries.deep_view(),
        c@.ppairs.len() == entries@.len(),
        forall|i: int|
            0 <= i < entries@.len() ==> #[trigger] c@.ppairs[i] == (
                entries.deep_view()[i].path,
                i as usize,
            ),
        forall|j: int|
            0 <= j < c@.kpairs.len() ==> #[trigger] c@.kpairs[j].1 == spec_sort_idx(
                entries.deep_view(),
                spec_bucket(entries.deep_view(), root_path.deep_view(), c@.kpairs[j].0),
            ),
        forall|p: Seq<Seq<char>>|
            spec_bucket(entries.deep_view(), root_path.deep_view(), p).len() > 0 ==> exists|j: int|
                0 <= j < c@.kpairs.len() && #[trigger] c@.kpairs[j].0 == p,
{
    let (path_index, children_index) = crate::index::build_indices(&entries, &root_path);
    ScanCache { root_path, entries, path_index, children_index }
}

/// The process-wide cache slot with its scan generation.
pub struct CacheSlot {
    /// The generation of the scan whose results may be installed.
    pub generation: u64,
    /// The last installed scan, if any.
    pub slot: Option<ScanCache>,
}

impl CacheSlot {
    /// An empty slot at generation zero.
    pub fn new() -> (s: CacheSlot)
        ensures
            s.generation == 0,
            s.slot is None,
    {
        CacheSlot { generation: 0, slot: Option::None }
    }

    /// Start a new scan: drop whatever is cached and advance the
    /// generation, so results of older scans can no longer be installed.
    /// Returns the new scan's generation.
    pub fn begin_scan(&mut self) -> (g: u64)
        ensures
            final(self).slot is None,
            final(self).generation == clip64(old(self).generation + 1),
            g == final(self).generation,
    {
        self.slot = Option::None;
        self.generation = sat_add(self.generation, 1);
        self.generation
    }

    /// Drop whatever is cached, on demand, and advance the generation so
    /// that no in-flight build can repopulate the slot.
    pub fn clear(&mut self)
        ensures
            final(self).slot is None,
            final(self).generation == clip64(old(self).generation + 1),
    {
        self.slot = Option::None;
        self.generation = sat_add(self.generation, 1);
    }

    /// Install a finished scan's cache, but only if it belongs to the
    /// current generation; a stale build is discarded.
    pub fn install(&mut self, generation: u64, cache: ScanCache) -> (accepted: bool)
        ensures
            accepted == (generation == old(self).generation),
            final(self).generation == old(self).generation,
            accepted ==> (final(self).slot matches Some(c) && c@ == cache@),
            !accepted ==> *final(self) == *old(self),
    {
        if generation == self.generation {
            self.slot = Option::Some(cache);
            true
        } else {
            false
        }
    }

    /// Serve a subtree query from the cache: the one-level, grouped
    /// projection of `path`, from the prebuilt indices where they cover
    /// it, else rebuilt from the flat list. Errors say exactly why not:
    /// nothing cached yet, the path outside the cached root, or no record
    /// under it.
    pub fn query(&self, path: &Vec<String>) -> (r: Result<TreeNode, QueryError>)
        ensures
            match r {
                Result::Err(QueryError::NoScanData) => self.slot is None,
                Result::Err(QueryError::OutOfScope) => self.slot matches Some(c)
                    && !spec_starts_with(path.deep_view(), c@.root),
                Result::Err(QueryError::NotFound) => self.slot matches Some(c) && {
                    &&& spec_starts_with(path.deep_view(), c@.root)
                    &&& spec_project_indexed(
                        c@.entries,
                        c@.ppairs,
                        c@.kpairs,
                        path.deep_view(),
                        1,
                        true,
                    ) is None
                    &&& spec_find(c@.entries, path.deep_view()) is None
                },
                Result::Ok(t) => self.slot matches Some(c) && {
                    &&& spec_starts_with(path.deep_view(), c@.root)
                    &&& match spec_project_indexed(
                        c@.entries,
                        c@.ppairs,
                        c@.kpairs,
                        path.deep_view(),
                        1,
                        true,
                    ) {
                        Option::Some(tv) => t@ == tv,
                        Option::None => spec_project(
                            c@.entries,
                            path.deep_view(),
                            1,
                            true,
                        ) matches Some(tv2) && t@ == tv2,
                    }
                },
            },
    {
        let cache = match &self.slot {
            Option::None => {
                return Result::Err(QueryError::NoScanData);
            },
            Option::Some(cache) => cache,
        };
        if !crate::paths::path_starts_with(path, &cache.root_path) {
            return Result::Err(QueryError::OutOfScope);
        }
        match crate::index::project_from_indices(
            &cache.entries,
            &cache.path_index,
            &cache.children_index,
            path,
            1,
            true,
        ) {
            Option::Some(t) => Result::Ok(t),
            Option::None => {
                match crate::project::find_record(&cache.entries, path) {
                    Option::None => Result::Err(QueryError::NotFound),
                    Option::Some(_) => {
                        match crate::project::project_tree(&cache.entries, path, 1, true) {
                            Option::Some(t) => Result::Ok(t),
                            Option::None => vstd::pervasive::unreached(),
                        }
                    },
                }
            },
        }
    }
}

} // verus!
