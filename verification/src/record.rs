//! Per-path metadata snapshots and aggregate records.

use vstd::prelude::*;

verus! {

/// Complete metadata for one filesystem path, produced by the platform
/// layer and folded into an aggregate record by the scanner.
pub struct PathInfo {
    /// Apparent size in bytes.
    pub size_bytes: u64,
    /// Size allocated on disk in bytes.
    pub size_allocated_bytes: u64,
    /// Inode and device (or file index and volume serial) used only to
    /// detect cycles and hardlinks; `None` when the platform gave none.
    pub inode_device: Option<(u64, u64)>,
    /// Modification, access and creation times, unix epoch seconds.
    pub times: (i64, i64, i64),
    /// Whether the path is a directory.
    pub is_dir: bool,
    /// Whether the path is a regular file.
    pub is_file: bool,
    /// Whether the path itself is a symlink.
    pub is_symlink: bool,
    /// The owner of the path, when known.
    pub owner_name: Option<String>,
}

/// One aggregate record per distinct path. For a leaf it carries the
/// snapshot's own values; for a directory the totals of its subtree.
pub struct AggregateRecord {
    /// Absolute canonical path, as components.
    pub path: Vec<String>,
    /// Total apparent size in bytes.
    pub size_bytes: u64,
    /// Total size allocated on disk in bytes.
    pub size_allocated_bytes: u64,
    /// Total number of entries: files, directories and symlinks.
    pub entry_count: u64,
    /// Number of files.
    pub file_count: u64,
    /// Number of directories.
    pub directory_count: u64,
    /// Last modified time, unix epoch seconds.
    pub last_modified_time: u64,
    /// The owner of the path, when known.
    pub owner_name: Option<String>,
}

/// The mathematical model of an aggregate record: the path and owner as
/// sequences, the statistics as machine integers.
pub ghost struct RecordV {
    pub path: Seq<Seq<char>>,
    pub size_bytes: u64,
    pub size_allocated_bytes: u64,
    pub entry_count: u64,
    pub file_count: u64,
    pub directory_count: u64,
    pub last_modified_time: u64,
    pub owner_name: Option<Seq<char>>,
}

impl View for AggregateRecord {
    type V = RecordV;

    open spec fn view(&self) -> RecordV {
        RecordV {
            path: self.path.deep_view(),
            size_bytes: self.size_bytes,
            size_allocated_bytes: self.size_allocated_bytes,
            entry_count: self.entry_count,
            file_count: self.file_count,
            directory_count: self.directory_count,
            last_modified_time: self.last_modified_time,
            owner_name: self.owner_name.deep_view(),
        }
    }
}

impl DeepView for AggregateRecord {
    type V = RecordV;

    open spec fn deep_view(&self) -> RecordV {
        self.view()
    }
}

/// A record never counts more files and directories than entries;
/// symlinks account for the slack, counting toward entries only.
pub open spec fn record_wf(r: RecordV) -> bool {
    r.directory_count + r.file_count <= r.entry_count
}

/// A leaf contributes one file exactly when it is neither a directory
/// nor a symlink.
pub open spec fn leaf_file_count(is_dir: bool, is_symlink: bool) -> u64 {
    if is_dir || is_symlink {
        0u64
    } else {
        1u64
    }
}

/// A leaf contributes one directory exactly when it is a real directory,
/// not a symlink to one.
pub open spec fn leaf_dir_count(is_dir: bool, is_symlink: bool) -> u64 {
    if is_dir && !is_symlink {
        1u64
    } else {
        0u64
    }
}

/// The model of the provisional record for a freshly visited path.
pub open spec fn spec_leaf(
    path: Seq<Seq<char>>,
    info: PathInfo,
    is_symlink: bool,
) -> RecordV {
    RecordV {
        path: path,
        size_bytes: info.size_bytes,
        size_allocated_bytes: info.size_allocated_bytes,
        entry_count: 1u64,
        file_count: leaf_file_count(info.is_dir, is_symlink),
        directory_count: leaf_dir_count(info.is_dir, is_symlink),
        last_modified_time: info.times.0 as u64,
        owner_name: info.owner_name.deep_view(),
    }
}

/// A clone of an optional owner name.
pub fn clone_owner(o: &Option<String>) -> (r: Option<String>)
    ensures
        r == *o,
{
    match o {
        Option::None => Option::None,
        Option::Some(s) => Option::Some(s.clone()),
    }
}

impl AggregateRecord {
    /// The provisional record for a freshly visited path: the snapshot's
    /// own values, with leaf-level counts. `is_symlink` is the walker's
    /// own view of the path, which decides the counting, since a followed
    /// snapshot of a symlink describes its target.
    pub fn leaf(path: Vec<String>, info: &PathInfo, is_symlink: bool) -> (r: AggregateRecord)
        ensures
            r@ == spec_leaf(path.deep_view(), *info, is_symlink),
            record_wf(r@),
    {
        AggregateRecord {
            path,
            size_bytes: info.size_bytes,
            size_allocated_bytes: info.size_allocated_bytes,
            entry_count: 1,
            file_count: if info.is_dir || is_symlink {
                0
            } else {
                1
            },
            directory_count: if info.is_dir && !is_symlink {
                1
            } else {
                0
            },
            last_modified_time: #[verifier::truncate] (info.times.0 as u64),
            owner_name: clone_owner(&info.owner_name),
        }
    }

    /// A clone of the record, with the same model.
    pub fn duplicate(&self) -> (r: AggregateRecord)
        ensures
            r@ == self@,
    {
        AggregateRecord {
            path: crate::paths::path_clone(&self.path),
            size_bytes: self.size_bytes,
            size_allocated_bytes: self.size_allocated_bytes,
            entry_count: self.entry_count,
            file_count: self.file_count,
            directory_count: self.directory_count,
            last_modified_time: self.last_modified_time,
            owner_name: clone_owner(&self.owner_name),
        }
    }
}

} // verus!
