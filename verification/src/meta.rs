//! Platform metadata helpers: the allocation arithmetic, the attribute
//! heuristic that decides between the cheap and the expensive metadata
//! path, owner-name labelling, and the volume-space lookup.

use vstd::prelude::*;
use vstd::string::StringExecFns;

use crate::paths::spec_starts_with;
use crate::scanner::clip64;
use crate::tree::dec_rep;

verus! {

/// The block unit the platform reports allocation in: every target counts
/// allocated blocks in 512-byte units.
pub fn get_block_size() -> (r: u64)
    ensures
        r == 512,
{
    512
}

/// The allocated size of a file from its block count, clamped to `u64`.
pub fn allocated_from_blocks(blocks: u64) -> (r: u64)
    ensures
        r == clip64(blocks * 512),
{
    let wide = (blocks as u128) * 512;
    if wide > 0xffff_ffff_ffff_ffff {
        u64::MAX
    } else {
        wide as u64
    }
}

/// The attribute bit for an ordinary archive file.
pub open spec fn attr_archive() -> u32 {
    0x20
}

/// The attribute bit for a directory.
pub open spec fn attr_directory() -> u32 {
    0x10
}

/// The attribute word of a plain normal file.
pub open spec fn attr_normal() -> u32 {
    0x80
}

/// The attribute bits masked out before the fast-path test: hidden,
/// read-only and system files are still ordinary.
pub open spec fn attr_ignored() -> u32 {
    0x01u32 | 0x02u32 | 0x04u32
}

/// The attribute bits that mark a sparse, pinned, cloud-placeholder or
/// offline file, whose sizes the cheap metadata cannot be trusted for.
pub open spec fn attr_special() -> u32 {
    0x00000200u32 | 0x00080000u32 | 0x00100000u32 | 0x00040000u32 | 0x00400000u32 | 0x00001000u32
}

/// Whether the metadata already in hand can be trusted for sizes: an
/// ordinary file or directory without any special attribute bits. When
/// this is false the caller must fall back to the expensive handle-based
/// query.
pub open spec fn spec_fast_path_ok(attributes: u32) -> bool {
    let filtered = attributes & !attr_ignored();
    &&& (filtered & attr_archive() != 0 || filtered & attr_directory() != 0 || attributes
        == attr_normal())
    &&& filtered & attr_special() == 0
}

/// Decide from the attribute word alone whether the cheap metadata path
/// may be used.
pub fn fast_path_ok(attributes: u32) -> (r: bool)
    ensures
        r == spec_fast_path_ok(attributes),
{
    let filtered = attributes & !(0x01u32 | 0x02u32 | 0x04u32);
    let special = 0x00000200u32 | 0x00080000u32 | 0x00100000u32 | 0x00040000u32 | 0x00400000u32
        | 0x00001000u32;
    (filtered & 0x20 != 0 || filtered & 0x10 != 0 || attributes == 0x80) && filtered & special == 0
}

/// Relies on users::get_user_by_uid and User::name: the account name the
/// user database gives for the id, if any; what it returns depends on the
/// machine, so nothing more is promised.
#[verifier::external_body]
fn lookup_user_name(uid: u32) -> (r: Option<String>)
{
    users::get_user_by_uid(uid).map(|u| u.name().to_string_lossy().into_owned())
}

/// The owner label for a user id: the account name when the lookup gave
/// one, else an explicit marker naming the deleted user's id.
pub fn owner_label(uid: u32, looked_up: Option<String>) -> (r: Option<String>)
    ensures
        match looked_up {
            Option::Some(name) => r == Option::Some(name),
            Option::None => r matches Some(s) && s@ == "<deleted user "@ + dec_rep(uid as int)
                + ">"@,
        },
{
    match looked_up {
        Option::Some(name) => Option::Some(name),
        Option::None => {
            let mut s = "<deleted user ".to_owned();
            let num = crate::tree::u64_to_string(uid as u64);
            s.append(num.as_str());
            s.append(">");
            Option::Some(s)
        },
    }
}

/// The owner of a path from its uid: always some label.
pub fn owner_name_for_uid(uid: u32) -> (r: Option<String>)
    ensures
        r is Some,
{
    owner_label(uid, lookup_user_name(uid))
}

/// One mounted volume's space figures.
pub struct DiskInfo {
    /// The mount point, as path components.
    pub mount_point: Vec<String>,
    /// Total space in bytes.
    pub total_space: u64,
    /// Available space in bytes.
    pub available_space: u64,
}

/// The model of a mounted volume.
pub ghost struct DiskInfoV {
    pub mount_point: Seq<Seq<char>>,
    pub total_space: u64,
    pub available_space: u64,
}

impl View for DiskInfo {
    type V = DiskInfoV;

    open spec fn view(&self) -> DiskInfoV {
        DiskInfoV {
            mount_point: self.mount_point.deep_view(),
            total_space: self.total_space,
            available_space: self.available_space,
        }
    }
}

impl DeepView for DiskInfo {
    type V = DiskInfoV;

    open spec fn deep_view(&self) -> DiskInfoV {
        self.view()
    }
}

/// Relies on sysinfo::Disks::new_with_refreshed_list and the Disk
/// accessors mount_point, total_space and available_space: the mounted
/// volumes and their space figures as the machine reports them at this
/// moment; nothing more is promised of them.
#[verifier::external_body]
pub fn list_disks() -> (r: Vec<DiskInfo>)
{
    sysinfo::Disks::new_with_refreshed_list().list().iter().map(
        |d| DiskInfo {
            mount_point: d.mount_point().components().map(
                |c| c.as_os_str().to_string_lossy().into_owned(),
            ).collect(),
            total_space: d.total_space(),
            available_space: d.available_space(),
        },
    ).collect()
}

/// The space figures of the first listed volume whose mount point the
/// path lies under: total, available, and used as their difference,
/// clamped at zero.
pub open spec fn spec_select_disk(
    disks: Seq<DiskInfoV>,
    path: Seq<Seq<char>>,
    i: int,
) -> Option<(u64, u64, u64)>
    decreases disks.len() - i,
{
    if i < 0 || i >= disks.len() {
        Option::None
    } else if spec_starts_with(path, disks[i].mount_point) {
        let d = disks[i];
        Option::Some(
            (
                d.total_space,
                d.available_space,
                if d.total_space >= d.available_space {
                    (d.total_space - d.available_space) as u64
                } else {
                    0u64
                },
            ),
        )
    } else {
        spec_select_disk(disks, path, i + 1)
    }
}

/// Match a directory path to its containing volume: the first listed disk
/// whose mount point is a prefix of the path, with used space as total
/// less available.
pub fn select_disk(disks: &Vec<DiskInfo>, dir_path: &Vec<String>) -> (r: Option<(u64, u64, u64)>)
    ensures
        r == spec_select_disk(disks.deep_view(), dir_path.deep_view(), 0),
{
    let ghost dv = disks.deep_view();
    let n = disks.len();
    for i in 0..n
        invariant
            n == disks@.len(),
            dv == disks.deep_view(),
            spec_select_disk(dv, dir_path.deep_view(), 0) == spec_select_disk(
                dv,
                dir_path.deep_view(),
                i as int,
            ),
    {
        proof {
            assert(dv[i as int] == disks@[i as int]@);
        }
        if crate::paths::path_starts_with(dir_path, &disks[i].mount_point) {
            let total = disks[i].total_space;
            let available = disks[i].available_space;
            let used = if total >= available {
                total - available
            } else {
                0
            };
            return Option::Some((total, available, used));
        }
    }
    Option::None
}

/// Space figures for a path: a file is charged to its parent directory's
/// volume, so a file at the root, which has no parent, gets no answer and
/// the machine is never asked. Whatever the machine reported otherwise, a
/// successful answer relates its parts: used is total less available,
/// clamped at zero.
pub fn get_space_info(path: &Vec<String>, is_file: bool) -> (r: Option<(u64, u64, u64)>)
    ensures
        is_file && path@.len() == 0 ==> r is None,
        r matches Some(t) ==> t.2 <= t.0 && t.2 == if t.0 >= t.1 {
            (t.0 - t.1) as u64
        } else {
            0u64
        },
{
    let dir_owned: Vec<String>;
    let dir: &Vec<String> = if is_file {
        match crate::paths::parent_of(path) {
            Option::None => {
                return Option::None;
            },
            Option::Some(par) => {
                dir_owned = par;
                &dir_owned
            },
        }
    } else {
        path
    };
    let disks = list_disks();
    let r = select_disk(&disks, dir);
    proof {
        lemma_select_disk_relates(disks.deep_view(), dir.deep_view(), 0);
    }
    r
}

/// Whatever disks were listed, a selected answer's used figure is its
/// total less its available, clamped at zero.
pub proof fn lemma_select_disk_relates(disks: Seq<DiskInfoV>, path: Seq<Seq<char>>, i: int)
    ensures
        spec_select_disk(disks, path, i) matches Some(t) ==> t.2 <= t.0 && t.2 == if t.0 >= t.1 {
            (t.0 - t.1) as u64
        } else {
            0u64
        },
    decreases disks.len() - i,
{
    if 0 <= i < disks.len() {
        lemma_select_disk_relates(disks, path, i + 1);
    }
}

/// The free space in a volume-space answer: its available figure.
pub fn get_free_space(space: Option<(u64, u64, u64)>) -> (r: Option<u64>)
    ensures
        match space {
            Option::Some(t) => r == Option::Some(t.1),
            Option::None => r is None,
        },
{
    match space {
        Option::Some((_total, available, _used)) => Option::Some(available),
        Option::None => Option::None,
    }
}

} // verus!
