//! The pre-flight capacity check: volume resolution, tree sizing and the
//! comparison of the two.
//!
//! The volumes of the machine are given to the library as a list of mounts
//! with their free space. The destination path is matched to a volume by its
//! first byte, the drive prefix; a destination that matches no volume is
//! fatal for the run, which the contracts state with `None`.

use vstd::prelude::*;

use crate::config::Config;
use crate::snapshot::Snapshot;
use crate::snapshot::SpecFileEntry;
use crate::snapshot::SpecSnapshot;

verus! {

/// One mounted volume: where it is mounted and how many bytes are free on it.
pub struct DiskInfo {
    pub mount_point: Vec<u8>,
    pub available_space: u64,
}

/// The mathematical value of a [`DiskInfo`].
pub struct SpecDiskInfo {
    pub mount_point: Seq<u8>,
    pub available_space: u64,
}

impl View for DiskInfo {
    type V = SpecDiskInfo;

    open spec fn view(&self) -> SpecDiskInfo {
        SpecDiskInfo { mount_point: self.mount_point@, available_space: self.available_space }
    }
}

impl DeepView for DiskInfo {
    type V = SpecDiskInfo;

    open spec fn deep_view(&self) -> SpecDiskInfo {
        self.view()
    }
}

/// The drive prefix of a path: its first byte.
pub open spec fn spec_path_prefix(path: Seq<u8>) -> Option<u8> {
    if path.len() > 0 {
        Some(path[0])
    } else {
        None
    }
}

/// The free space of the first volume at or after position `i` whose mount
/// point starts with the prefix byte.
pub open spec fn spec_space_from(disks: Seq<SpecDiskInfo>, prefix: u8, i: int) -> Option<u64>
    decreases disks.len() - i,
{
    if i < 0 || i >= disks.len() {
        None
    } else if disks[i].mount_point.len() > 0 && disks[i].mount_point[0] == prefix {
        Some(disks[i].available_space)
    } else {
        spec_space_from(disks, prefix, i + 1)
    }
}

/// The free space of the volume a drive prefix names, if one matches.
pub open spec fn spec_remaining_space(disks: Seq<SpecDiskInfo>, prefix: u8) -> Option<u64> {
    spec_space_from(disks, prefix, 0)
}

/// The sum of the sizes of the files at or after position `i`.
pub open spec fn spec_files_bytes(files: Seq<SpecFileEntry>, i: int) -> int
    decreases files.len() - i,
{
    if i < 0 || i >= files.len() {
        0
    } else {
        files[i].size + spec_files_bytes(files, i + 1)
    }
}

/// The total size of the regular files of one snapshot.
pub open spec fn spec_tree_bytes(s: SpecSnapshot) -> int {
    spec_files_bytes(s.files, 0)
}

/// The total size of the snapshots at or after position `i`.
pub open spec fn spec_origins_bytes(origins: Seq<SpecSnapshot>, i: int) -> int
    decreases origins.len() - i,
{
    if i < 0 || i >= origins.len() {
        0
    } else {
        spec_tree_bytes(origins[i]) + spec_origins_bytes(origins, i + 1)
    }
}

/// Whether the destination's volume has room for all the origins together:
/// `None` when the destination has no drive prefix or no volume matches it.
pub open spec fn spec_has_enough_space(
    destination: Seq<u8>,
    origins: Seq<SpecSnapshot>,
    disks: Seq<SpecDiskInfo>,
) -> Option<bool> {
    match spec_path_prefix(destination) {
        None => None,
        Some(p) => match spec_remaining_space(disks, p) {
            None => None,
            Some(space) => Some(spec_origins_bytes(origins, 0) <= space as int),
        },
    }
}

proof fn lemma_files_bytes_nonneg(files: Seq<SpecFileEntry>, i: int)
    ensures
        spec_files_bytes(files, i) >= 0,
    decreases files.len() - i,
{
    if 0 <= i < files.len() {
        lemma_files_bytes_nonneg(files, i + 1);
    }
}

proof fn lemma_origins_bytes_nonneg(origins: Seq<SpecSnapshot>, i: int)
    ensures
        spec_origins_bytes(origins, i) >= 0,
    decreases origins.len() - i,
{
    if 0 <= i < origins.len() {
        lemma_files_bytes_nonneg(origins[i].files, 0);
        lemma_origins_bytes_nonneg(origins, i + 1);
    }
}

/// The drive prefix of a path: its first byte. A path with no first byte
/// names no volume.
pub fn get_path_prefix(path: &Vec<u8>) -> (r: Option<u8>)
    ensures
        r == spec_path_prefix(path@),
{
    if path.len() > 0 {
        Some(path[0])
    } else {
        None
    }
}

/// The free space of the volume whose mount point starts with the given
/// drive prefix; `None` when no mount matches.
pub fn get_remaining_disk_space(drive_prefix: u8, disks: &Vec<DiskInfo>) -> (r: Option<u64>)
    ensures
        r == spec_remaining_space(disks.deep_view(), drive_prefix),
{
    let mut i: usize = 0;
    while i < disks.len()
        invariant
            0 <= i <= disks.len(),
            spec_remaining_space(disks.deep_view(), drive_prefix) == spec_space_from(
                disks.deep_view(),
                drive_prefix,
                i as int,
            ),
        decreases disks.len() - i,
    {
        proof {
            assert(disks.deep_view()[i as int] == disks@[i as int]@);
        }
        if disks[i].mount_point.len() > 0 && disks[i].mount_point[0] == drive_prefix {
            return Some(disks[i].available_space);
        }
        i = i + 1;
    }
    None
}

/// The total size in bytes of the regular files of a snapshot, saturating at
/// the counter's maximum when the true total is beyond it.
pub fn dir_size(dir: &Snapshot) -> (r: u64)
    ensures
        r as int == if spec_tree_bytes(dir@) <= u64::MAX as int {
            spec_tree_bytes(dir@)
        } else {
            u64::MAX as int
        },
{
    let mut total: u64 = 0;
    let mut i: usize = 0;
    while i < dir.files.len()
        invariant
            0 <= i <= dir.files.len(),
            dir@.files.len() == dir.files@.len(),
            total as int == if spec_files_bytes(dir@.files, 0) - spec_files_bytes(
                dir@.files,
                i as int,
            ) <= u64::MAX as int {
                spec_files_bytes(dir@.files, 0) - spec_files_bytes(dir@.files, i as int)
            } else {
                u64::MAX as int
            },
        decreases dir.files.len() - i,
    {
        proof {
            assert(dir@.files[i as int] == dir.files@[i as int]@);
            lemma_files_bytes_nonneg(dir@.files, i + 1);
            lemma_files_bytes_nonneg(dir@.files, i as int);
        }
        let size = dir.files[i].size;
        if size > u64::MAX - total {
            total = u64::MAX;
        } else {
            total = total + size;
        }
        i = i + 1;
    }
    proof {
        lemma_files_bytes_nonneg(dir@.files, dir.files@.len() as int);
    }
    total
}

/// The exact total size of a snapshot's files, or `None` when it does not
/// fit the counter.
fn tree_bytes_checked(dir: &Snapshot) -> (r: Option<u64>)
    ensures
        match r {
            Some(v) => v as int == spec_tree_bytes(dir@),
            None => spec_tree_bytes(dir@) > u64::MAX as int,
        },
{
    let mut total: u64 = 0;
    let mut i: usize = 0;
    while i < dir.files.len()
        invariant
            0 <= i <= dir.files.len(),
            dir@.files.len() == dir.files@.len(),
            total as int == spec_files_bytes(dir@.files, 0) - spec_files_bytes(
                dir@.files,
                i as int,
            ),
        decreases dir.files.len() - i,
    {
        proof {
            assert(dir@.files[i as int] == dir.files@[i as int]@);
            lemma_files_bytes_nonneg(dir@.files, i + 1);
        }
        let size = dir.files[i].size;
        if size > u64::MAX - total {
            return None;
        }
        total = total + size;
        i = i + 1;
    }
    Some(total)
}

/// The shared body of the capacity checks: resolves the destination's
/// volume, sums the origin trees exactly, and compares. A total beyond the
/// counter's range exceeds any volume's free space, so it answers `false`.
pub(crate) fn check_capacity(
    destination: &Vec<u8>,
    origin: &Vec<Snapshot>,
    disks: &Vec<DiskInfo>,
) -> (r: Option<bool>)
    ensures
        r == spec_has_enough_space(destination@, origin.deep_view(), disks.deep_view()),
{
    let prefix = match get_path_prefix(destination) {
        Some(p) => p,
        None => {
            return None;
        },
    };
    let space = match get_remaining_disk_space(prefix, disks) {
        Some(s) => s,
        None => {
            return None;
        },
    };
    let ghost ov = origin.deep_view();
    let mut total: u64 = 0;
    let mut i: usize = 0;
    proof {
        assert(ov.len() == origin@.len());
    }
    while i < origin.len()
        invariant
            0 <= i <= origin.len(),
            ov == origin.deep_view(),
            ov.len() == origin@.len(),
            spec_has_enough_space(destination@, ov, disks.deep_view()) == Some(
                spec_origins_bytes(ov, 0) <= space as int,
            ),
            total as int == spec_origins_bytes(ov, 0) - spec_origins_bytes(ov, i as int),
        decreases origin.len() - i,
    {
        proof {
            assert(ov[i as int] == origin@[i as int]@);
            lemma_origins_bytes_nonneg(ov, i + 1);
            lemma_files_bytes_nonneg(ov[i as int].files, 0);
        }
        let root_bytes = match tree_bytes_checked(&origin[i]) {
            Some(v) => v,
            None => {
                return Some(false);
            },
        };
        if root_bytes > u64::MAX - total {
            proof {
                lemma_origins_bytes_nonneg(ov, i + 1);
            }
            return Some(false);
        }
        total = total + root_bytes;
        i = i + 1;
    }
    Some(total <= space)
}

/// Whether the volume holding the configured destination has room for all
/// the configured origin trees together. `None` means the destination names
/// no volume of the machine, which is fatal for the run.
pub fn disk_has_enough_space(
    config: &Config,
    origin: &Vec<Snapshot>,
    disks: &Vec<DiskInfo>,
) -> (r: Option<bool>)
    ensures
        r == spec_has_enough_space(config@.destination, origin.deep_view(), disks.deep_view()),
{
    check_capacity(&config.destination, origin, disks)
}

} // verus!
