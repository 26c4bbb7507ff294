//! The mirror engine: the per-entry skip/copy decision, the plan of one run,
//! the predicted state of the destination after the run, and the aggregated
//! copy statistics.
//!
//! The engine works on snapshots. Deciding and copying are separate: the
//! engine returns a plan — the directories to create and the files to copy,
//! in order — and the caller executes it against the real file system,
//! feeding each attempt and each success back into [`CopyInfo`].

use vstd::prelude::*;

use crate::config::Config;
use crate::config::SpecConfig;
use crate::snapshot::FileEntry;
use crate::snapshot::Snapshot;
use crate::snapshot::SpecFileEntry;
use crate::snapshot::SpecSnapshot;
use crate::snapshot::bytes_eq;
use crate::snapshot::clone_bytes;
use crate::snapshot::clone_path;
use crate::snapshot::contains_dir;
use crate::snapshot::entry_exists;
use crate::snapshot::extension_of;
use crate::snapshot::find_file;
use crate::snapshot::find_file_from;
use crate::snapshot::has_dir;
use crate::snapshot::lookup_file;
use crate::snapshot::snap_wf;
use crate::snapshot::spec_extension;
use crate::snapshot::token_listed;

verus! {

/// What the engine does with one source file.
#[derive(Clone, Copy, Debug, PartialEq, Eq, Structural)]
pub enum FileAction {
    /// An ignore list rules the file out; it is not an attempt.
    SkipFiltered,
    /// The destination already holds the path and overwriting is off.
    SkipPreexisting,
    /// The destination holds a file with the same content digest.
    SkipUnchanged,
    /// Nothing stands at the destination path: copy.
    CopyNew,
    /// The destination entry differs, or cannot be proved equal: copy over it.
    CopyOverwrite,
}

/// What the engine does with one source directory.
#[derive(Clone, Copy, Debug, PartialEq, Eq, Structural)]
pub enum DirAction {
    /// Its own name or an ancestor's is ignored; nothing under it is copied.
    SkipSubtree,
    /// Nothing stands at the destination path: create the directory there.
    CreateAndRecurse,
    /// The destination already holds the path; do not create it again.
    RecurseOnly,
}

/// Whether some ancestor directory of a file path has an ignored base name.
pub open spec fn file_folder_filtered(path: Seq<Seq<u8>>, folders: Seq<Seq<u8>>) -> bool {
    exists|i: int| 0 <= i < path.len() - 1 && folders.contains(#[trigger] path[i])
}

/// Whether a directory path, or any ancestor of it, has an ignored base name.
pub open spec fn dir_folder_filtered(path: Seq<Seq<u8>>, folders: Seq<Seq<u8>>) -> bool {
    exists|i: int| 0 <= i < path.len() && folders.contains(#[trigger] path[i])
}

/// Whether a file's extension stands on the ignore list. A file with no
/// extension is never ruled out this way.
pub open spec fn ext_filtered(path: Seq<Seq<u8>>, exts: Seq<Seq<u8>>) -> bool {
    path.len() >= 1 && match spec_extension(path.last()) {
        Some(e) => exts.contains(e),
        None => false,
    }
}

/// Whether either ignore list rules a source file out.
pub open spec fn file_filtered(f: SpecFileEntry, cfg: SpecConfig) -> bool {
    file_folder_filtered(f.path, cfg.ignore_folders) || ext_filtered(
        f.path,
        cfg.ignore_extensions,
    )
}

/// The digest of the file a snapshot holds at a path; `None` when it holds
/// none, or holds one whose digest was not computed.
pub open spec fn dst_digest(dst: SpecSnapshot, path: Seq<Seq<u8>>) -> Option<Seq<u8>> {
    match find_file(dst, path) {
        Some(g) => g.digest,
        None => None,
    }
}

/// Whether two digests prove the contents equal: both must be present and
/// equal. A missing digest proves nothing.
pub open spec fn digests_match(a: Option<Seq<u8>>, b: Option<Seq<u8>>) -> bool {
    a is Some && b is Some && a->0 == b->0
}

/// The decision table for one source file against the destination.
pub open spec fn spec_file_action(
    f: SpecFileEntry,
    dst: SpecSnapshot,
    cfg: SpecConfig,
) -> FileAction {
    if file_filtered(f, cfg) {
        FileAction::SkipFiltered
    } else if !entry_exists(dst, f.path) {
        FileAction::CopyNew
    } else if !cfg.overwrite {
        FileAction::SkipPreexisting
    } else if digests_match(f.digest, dst_digest(dst, f.path)) {
        FileAction::SkipUnchanged
    } else {
        FileAction::CopyOverwrite
    }
}

/// Whether a source file reaches the queued state: a copy is attempted.
pub open spec fn spec_queued(f: SpecFileEntry, dst: SpecSnapshot, cfg: SpecConfig) -> bool {
    spec_file_action(f, dst, cfg) == FileAction::CopyNew || spec_file_action(f, dst, cfg)
        == FileAction::CopyOverwrite
}

/// The decision table for one source directory against the destination.
pub open spec fn spec_dir_action(
    path: Seq<Seq<u8>>,
    dst: SpecSnapshot,
    cfg: SpecConfig,
) -> DirAction {
    if dir_folder_filtered(path, cfg.ignore_folders) {
        DirAction::SkipSubtree
    } else if entry_exists(dst, path) {
        DirAction::RecurseOnly
    } else {
        DirAction::CreateAndRecurse
    }
}

/// The directories, from position `i` on, that the run creates: those the
/// decision table answers with create.
pub open spec fn spec_planned_dirs(
    dirs: Seq<Seq<Seq<u8>>>,
    dst: SpecSnapshot,
    cfg: SpecConfig,
    i: int,
) -> Seq<Seq<Seq<u8>>>
    decreases dirs.len() - i,
{
    if i < 0 || i >= dirs.len() {
        Seq::empty()
    } else if spec_dir_action(dirs[i], dst, cfg) == DirAction::CreateAndRecurse {
        seq![dirs[i]] + spec_planned_dirs(dirs, dst, cfg, i + 1)
    } else {
        spec_planned_dirs(dirs, dst, cfg, i + 1)
    }
}

/// The source files, from position `i` on, that reach the queued state, in
/// traversal order.
pub open spec fn spec_queued_files(
    files: Seq<SpecFileEntry>,
    dst: SpecSnapshot,
    cfg: SpecConfig,
    i: int,
) -> Seq<SpecFileEntry>
    decreases files.len() - i,
{
    if i < 0 || i >= files.len() {
        Seq::empty()
    } else if spec_queued(files[i], dst, cfg) {
        seq![files[i]] + spec_queued_files(files, dst, cfg, i + 1)
    } else {
        spec_queued_files(files, dst, cfg, i + 1)
    }
}

/// The source files, from position `i` on, that are copied to paths the
/// destination did not hold.
pub open spec fn spec_new_files(
    files: Seq<SpecFileEntry>,
    dst: SpecSnapshot,
    cfg: SpecConfig,
    i: int,
) -> Seq<SpecFileEntry>
    decreases files.len() - i,
{
    if i < 0 || i >= files.len() {
        Seq::empty()
    } else if spec_file_action(files[i], dst, cfg) == FileAction::CopyNew {
        seq![files[i]] + spec_new_files(files, dst, cfg, i + 1)
    } else {
        spec_new_files(files, dst, cfg, i + 1)
    }
}

/// One destination file after the run: replaced by the source file of the
/// same path when that file is copied over it, and kept as it is otherwise.
pub open spec fn spec_post_file(
    g: SpecFileEntry,
    src: SpecSnapshot,
    dst: SpecSnapshot,
    cfg: SpecConfig,
) -> SpecFileEntry {
    match find_file(src, g.path) {
        Some(sf) => if spec_file_action(sf, dst, cfg) == FileAction::CopyOverwrite {
            SpecFileEntry { path: g.path, size: sf.size, digest: sf.digest }
        } else {
            g
        },
        None => g,
    }
}

/// The destination snapshot a run leaves behind when every planned copy
/// succeeds: the old entries, overwritten where the table says so, followed
/// by the created directories and the newly copied files.
pub open spec fn spec_post(src: SpecSnapshot, dst: SpecSnapshot, cfg: SpecConfig) -> SpecSnapshot {
    SpecSnapshot {
        dirs: dst.dirs + spec_planned_dirs(src.dirs, dst, cfg, 0),
        files: dst.files.map_values(|g: SpecFileEntry| spec_post_file(g, src, dst, cfg))
            + spec_new_files(src.files, dst, cfg, 0),
    }
}

/// Whether two files' digests prove them unchanged since the last run: both
/// digests must be present and equal.
pub fn file_hasnt_changed(file_1: &Option<Vec<u8>>, file_2: &Option<Vec<u8>>) -> (r: bool)
    ensures
        r == digests_match(crate::snapshot::digest_view(*file_1), crate::snapshot::digest_view(*file_2)),
{
    match (file_1, file_2) {
        (Some(a), Some(b)) => bytes_eq(a, b),
        _ => false,
    }
}

/// The decision for one source file, as the decision table gives it.
pub fn file_action(f: &FileEntry, destination: &Snapshot, config: &Config) -> (a: FileAction)
    ensures
        a == spec_file_action(f@, destination@, config@),
{
    // Ancestor directories against the folder ignore list.
    if f.path.len() >= 1 {
        let mut i: usize = 0;
        while i < f.path.len() - 1
            invariant
                0 <= i <= f.path.len() - 1,
                f.path.len() >= 1,
                forall|k: int| 0 <= k < i ==> !config@.ignore_folders.contains(#[trigger] f@.path[k]),
            decreases f.path.len() - 1 - i,
        {
            proof {
                assert(f@.path[i as int] =~= f.path@[i as int]@);
            }
            if token_listed(&config.ignore_folders, &f.path[i]) {
                return FileAction::SkipFiltered;
            }
            i = i + 1;
        }
        proof {
            assert(f@.path.len() == f.path@.len());
            assert(!file_folder_filtered(f@.path, config@.ignore_folders));
        }
        // The file's own name against the extension ignore list.
        match extension_of(&f.path[f.path.len() - 1]) {
            Some(e) => {
                proof {
                    assert(f@.path.last() =~= f.path@[f.path@.len() - 1]@);
                }
                if token_listed(&config.ignore_extensions, &e) {
                    return FileAction::SkipFiltered;
                }
            },
            None => {
                proof {
                    assert(f@.path.last() =~= f.path@[f.path@.len() - 1]@);
                }
            },
        }
    }
    proof {
        assert(!file_filtered(f@, config@));
    }
    let dst_file = lookup_file(destination, &f.path);
    let present = match dst_file {
        Some(_) => true,
        None => contains_dir(destination, &f.path),
    };
    proof {
        assert(f@.path == f.path.deep_view());
        assert(present == entry_exists(destination@, f@.path));
    }
    if !present {
        return FileAction::CopyNew;
    }
    if !config.overwrite {
        return FileAction::SkipPreexisting;
    }
    let unchanged = match dst_file {
        Some(g) => file_hasnt_changed(&f.digest, &g.digest),
        None => false,
    };
    proof {
        assert(unchanged == digests_match(f@.digest, dst_digest(destination@, f@.path)));
    }
    if unchanged {
        FileAction::SkipUnchanged
    } else {
        FileAction::CopyOverwrite
    }
}

/// The decision for one source directory, as the decision table gives it.
pub fn dir_action(path: &Vec<Vec<u8>>, destination: &Snapshot, config: &Config) -> (a: DirAction)
    ensures
        a == spec_dir_action(path.deep_view(), destination@, config@),
{
    let mut i: usize = 0;
    while i < path.len()
        invariant
            0 <= i <= path.len(),
            forall|k: int|
                0 <= k < i ==> !config@.ignore_folders.contains(#[trigger] path.deep_view()[k]),
        decreases path.len() - i,
    {
        proof {
            assert(path.deep_view()[i as int] =~= path@[i as int]@);
        }
        if token_listed(&config.ignore_folders, &path[i]) {
            return DirAction::SkipSubtree;
        }
        i = i + 1;
    }
    proof {
        assert(path.deep_view().len() == path@.len());
        assert(!dir_folder_filtered(path.deep_view(), config@.ignore_folders));
    }
    let present = match lookup_file(destination, path) {
        Some(_) => true,
        None => contains_dir(destination, path),
    };
    proof {
        assert(present == entry_exists(destination@, path.deep_view()));
    }
    if present {
        DirAction::RecurseOnly
    } else {
        DirAction::CreateAndRecurse
    }
}

/// The plan of one run for one source root: the directories to create and
/// the files to copy, each in traversal order. All directory creations
/// precede every copy.
pub struct Plan {
    pub dirs: Vec<Vec<Vec<u8>>>,
    pub copies: Vec<FileEntry>,
}

/// The mathematical value of a [`Plan`].
pub struct SpecPlan {
    pub dirs: Seq<Seq<Seq<u8>>>,
    pub copies: Seq<SpecFileEntry>,
}

impl View for Plan {
    type V = SpecPlan;

    open spec fn view(&self) -> SpecPlan {
        SpecPlan { dirs: self.dirs.deep_view(), copies: self.copies.deep_view() }
    }
}

/// Copies a file entry.
pub fn clone_entry(f: &FileEntry) -> (r: FileEntry)
    ensures
        r@ == f@,
{
    let digest = match &f.digest {
        Some(d) => Some(clone_bytes(d)),
        None => None,
    };
    FileEntry { path: clone_path(&f.path), size: f.size, digest }
}

/// Walks one source root against its landing directory and plans the run:
/// every unfiltered source directory the destination lacks is to be created,
/// and every source file the decision table queues is to be copied. The
/// number of planned copies is exactly the number of files that reach the
/// queued state, which is what the run counts as attempts.
pub fn copy_dirs(origin: &Snapshot, destination: &Snapshot, config: &Config) -> (plan: Plan)
    ensures
        plan@.dirs == spec_planned_dirs(origin@.dirs, destination@, config@, 0),
        plan@.copies == spec_queued_files(origin@.files, destination@, config@, 0),
{
    let ghost dv = destination@;
    let ghost cv = config@;
    let mut dirs: Vec<Vec<Vec<u8>>> = Vec::new();
    let mut i: usize = 0;
    proof {
        assert(dirs.deep_view() + spec_planned_dirs(origin@.dirs, dv, cv, 0)
            =~= spec_planned_dirs(origin@.dirs, dv, cv, 0));
    }
    while i < origin.dirs.len()
        invariant
            0 <= i <= origin.dirs.len(),
            dv == destination@,
            cv == config@,
            origin@.dirs.len() == origin.dirs@.len(),
            spec_planned_dirs(origin@.dirs, dv, cv, 0) == dirs.deep_view() + spec_planned_dirs(
                origin@.dirs,
                dv,
                cv,
                i as int,
            ),
        decreases origin.dirs.len() - i,
    {
        proof {
            assert(origin@.dirs[i as int] =~= origin.dirs@[i as int].deep_view());
        }
        let a = dir_action(&origin.dirs[i], destination, config);
        if a == DirAction::CreateAndRecurse {
            let ghost pre = dirs.deep_view();
            let p = clone_path(&origin.dirs[i]);
            dirs.push(p);
            proof {
                assert(dirs.deep_view() =~= pre.push(origin@.dirs[i as int]));
                assert(pre.push(origin@.dirs[i as int]) =~= pre + seq![origin@.dirs[i as int]]);
                assert((pre + seq![origin@.dirs[i as int]]) + spec_planned_dirs(
                    origin@.dirs,
                    dv,
                    cv,
                    i + 1,
                ) =~= pre + (seq![origin@.dirs[i as int]] + spec_planned_dirs(
                    origin@.dirs,
                    dv,
                    cv,
                    i + 1,
                )));
            }
        } else {
            proof {
                assert(spec_planned_dirs(origin@.dirs, dv, cv, i as int) == spec_planned_dirs(
                    origin@.dirs,
                    dv,
                    cv,
                    i + 1,
                ));
            }
        }
        i = i + 1;
    }
    proof {
        assert(spec_planned_dirs(origin@.dirs, dv, cv, origin@.dirs.len() as int)
            =~= Seq::<Seq<Seq<u8>>>::empty());
        assert(dirs.deep_view() + Seq::<Seq<Seq<u8>>>::empty() =~= dirs.deep_view());
    }
    let mut copies: Vec<FileEntry> = Vec::new();
    let mut j: usize = 0;
    proof {
        assert(copies.deep_view() + spec_queued_files(origin@.files, dv, cv, 0)
            =~= spec_queued_files(origin@.files, dv, cv, 0));
    }
    while j < origin.files.len()
        invariant
            0 <= j <= origin.files.len(),
            dv == destination@,
            cv == config@,
            origin@.files.len() == origin.files@.len(),
            spec_queued_files(origin@.files, dv, cv, 0) == copies.deep_view() + spec_queued_files(
                origin@.files,
                dv,
                cv,
                j as int,
            ),
        decreases origin.files.len() - j,
    {
        proof {
            assert(origin@.files[j as int] == origin.files@[j as int]@);
        }
        let a = file_action(&origin.files[j], destination, config);
        if a == FileAction::CopyNew || a == FileAction::CopyOverwrite {
            let ghost pre = copies.deep_view();
            let e = clone_entry(&origin.files[j]);
            copies.push(e);
            proof {
                assert(copies.deep_view() =~= pre.push(origin@.files[j as int]));
                assert(pre.push(origin@.files[j as int]) =~= pre + seq![origin@.files[j as int]]);
                assert((pre + seq![origin@.files[j as int]]) + spec_queued_files(
                    origin@.files,
                    dv,
                    cv,
                    j + 1,
                ) =~= pre + (seq![origin@.files[j as int]] + spec_queued_files(
                    origin@.files,
                    dv,
                    cv,
                    j + 1,
                )));
            }
        } else {
            proof {
                assert(!spec_queued(origin@.files[j as int], dv, cv));
                assert(spec_queued_files(origin@.files, dv, cv, j as int) == spec_queued_files(
                    origin@.files,
                    dv,
                    cv,
                    j + 1,
                ));
            }
        }
        j = j + 1;
    }
    proof {
        assert(spec_queued_files(origin@.files, dv, cv, origin@.files.len() as int)
            =~= Seq::<SpecFileEntry>::empty());
        assert(copies.deep_view() + Seq::<SpecFileEntry>::empty() =~= copies.deep_view());
    }
    Plan { dirs, copies }
}

/// The destination snapshot the run leaves behind when every planned copy
/// succeeds, built from the snapshots alone: existing entries are kept,
/// overwritten files carry the source's size and digest, and the created
/// directories and newly copied files follow.
pub fn apply_plan(origin: &Snapshot, destination: &Snapshot, config: &Config) -> (r: Snapshot)
    ensures
        r@ == spec_post(origin@, destination@, config@),
{
    let ghost ov = origin@;
    let ghost dv = destination@;
    let ghost cv = config@;
    let mut dirs: Vec<Vec<Vec<u8>>> = Vec::new();
    let mut i: usize = 0;
    while i < destination.dirs.len()
        invariant
            0 <= i <= destination.dirs.len(),
            dv == destination@,
            dv.dirs.len() == destination.dirs@.len(),
            dirs.deep_view() == dv.dirs.subrange(0, i as int),
        decreases destination.dirs.len() - i,
    {
        let ghost pre = dirs.deep_view();
        let p = clone_path(&destination.dirs[i]);
        dirs.push(p);
        proof {
            assert(dv.dirs[i as int] =~= destination.dirs@[i as int].deep_view());
            assert(dirs.deep_view() =~= pre.push(dv.dirs[i as int]));
            assert(dv.dirs.subrange(0, i + 1) =~= dv.dirs.subrange(0, i as int).push(
                dv.dirs[i as int],
            ));
        }
        i = i + 1;
    }
    proof {
        assert(dv.dirs.subrange(0, dv.dirs.len() as int) =~= dv.dirs);
        assert(dirs.deep_view() + spec_planned_dirs(ov.dirs, dv, cv, 0) =~= dv.dirs
            + spec_planned_dirs(ov.dirs, dv, cv, 0));
    }
    let mut j: usize = 0;
    while j < origin.dirs.len()
        invariant
            0 <= j <= origin.dirs.len(),
            ov == origin@,
            dv == destination@,
            cv == config@,
            ov.dirs.len() == origin.dirs@.len(),
            dv.dirs + spec_planned_dirs(ov.dirs, dv, cv, 0) == dirs.deep_view()
                + spec_planned_dirs(ov.dirs, dv, cv, j as int),
        decreases origin.dirs.len() - j,
    {
        proof {
            assert(ov.dirs[j as int] =~= origin.dirs@[j as int].deep_view());
        }
        let a = dir_action(&origin.dirs[j], destination, config);
        if a == DirAction::CreateAndRecurse {
            let ghost pre = dirs.deep_view();
            let p = clone_path(&origin.dirs[j]);
            dirs.push(p);
            proof {
                assert(dirs.deep_view() =~= pre.push(ov.dirs[j as int]));
                assert(pre.push(ov.dirs[j as int]) =~= pre + seq![ov.dirs[j as int]]);
                assert((pre + seq![ov.dirs[j as int]]) + spec_planned_dirs(ov.dirs, dv, cv, j + 1)
                    =~= pre + (seq![ov.dirs[j as int]] + spec_planned_dirs(
                    ov.dirs,
                    dv,
                    cv,
                    j + 1,
                )));
            }
        } else {
            proof {
                assert(spec_planned_dirs(ov.dirs, dv, cv, j as int) == spec_planned_dirs(
                    ov.dirs,
                    dv,
                    cv,
                    j + 1,
                ));
            }
        }
        j = j + 1;
    }
    proof {
        assert(spec_planned_dirs(ov.dirs, dv, cv, ov.dirs.len() as int)
            =~= Seq::<Seq<Seq<u8>>>::empty());
        assert(dirs.deep_view() + Seq::<Seq<Seq<u8>>>::empty() =~= dirs.deep_view());
    }
    let ghost mapped = dv.files.map_values(|g: SpecFileEntry| spec_post_file(g, ov, dv, cv));
    let mut files: Vec<FileEntry> = Vec::new();
    let mut k: usize = 0;
    while k < destination.files.len()
        invariant
            0 <= k <= destination.files.len(),
            ov == origin@,
            dv == destination@,
            cv == config@,
            mapped == dv.files.map_values(|g: SpecFileEntry| spec_post_file(g, ov, dv, cv)),
            dv.files.len() == destination.files@.len(),
            files@.len() == k,
            forall|m: int| 0 <= m < k ==> (#[trigger] files@[m])@ == mapped[m],
        decreases destination.files.len() - k,
    {
        proof {
            assert(dv.files[k as int] == destination.files@[k as int]@);
        }
        let g = &destination.files[k];
        let entry = match lookup_file(origin, &g.path) {
            Some(sf) => {
                let a = file_action(sf, destination, config);
                if a == FileAction::CopyOverwrite {
                    let digest = match &sf.digest {
                        Some(d) => Some(clone_bytes(d)),
                        None => None,
                    };
                    FileEntry { path: clone_path(&g.path), size: sf.size, digest }
                } else {
                    clone_entry(g)
                }
            },
            None => clone_entry(g),
        };
        proof {
            assert(entry@ == spec_post_file(dv.files[k as int], ov, dv, cv));
        }
        files.push(entry);
        k = k + 1;
    }
    proof {
        assert(files@.map_values(|f: FileEntry| f@) =~= mapped);
    }
    let ghost mapped_vec = files@.map_values(|f: FileEntry| f@);
    let mut n: usize = 0;
    proof {
        assert(mapped + spec_new_files(ov.files, dv, cv, 0) =~= files@.map_values(
            |f: FileEntry| f@,
        ) + spec_new_files(ov.files, dv, cv, 0));
    }
    while n < origin.files.len()
        invariant
            0 <= n <= origin.files.len(),
            ov == origin@,
            dv == destination@,
            cv == config@,
            mapped == dv.files.map_values(|g: SpecFileEntry| spec_post_file(g, ov, dv, cv)),
            ov.files.len() == origin.files@.len(),
            mapped + spec_new_files(ov.files, dv, cv, 0) == files@.map_values(|f: FileEntry| f@)
                + spec_new_files(ov.files, dv, cv, n as int),
        decreases origin.files.len() - n,
    {
        proof {
            assert(ov.files[n as int] == origin.files@[n as int]@);
        }
        let a = file_action(&origin.files[n], destination, config);
        if a == FileAction::CopyNew {
            let ghost pre = files@.map_values(|f: FileEntry| f@);
            let e = clone_entry(&origin.files[n]);
            files.push(e);
            proof {
                assert(files@.map_values(|f: FileEntry| f@) =~= pre.push(ov.files[n as int]));
                assert(pre.push(ov.files[n as int]) =~= pre + seq![ov.files[n as int]]);
                assert((pre + seq![ov.files[n as int]]) + spec_new_files(ov.files, dv, cv, n + 1)
                    =~= pre + (seq![ov.files[n as int]] + spec_new_files(ov.files, dv, cv, n + 1)));
            }
        } else {
            proof {
                assert(spec_new_files(ov.files, dv, cv, n as int) == spec_new_files(
                    ov.files,
                    dv,
                    cv,
                    n + 1,
                ));
            }
        }
        n = n + 1;
    }
    proof {
        assert(spec_new_files(ov.files, dv, cv, ov.files.len() as int)
            =~= Seq::<SpecFileEntry>::empty());
        assert(files@.map_values(|f: FileEntry| f@) + Seq::<SpecFileEntry>::empty()
            =~= files@.map_values(|f: FileEntry| f@));
    }
    let r = Snapshot { dirs, files };
    proof {
        assert(r@.dirs == spec_post(ov, dv, cv).dirs);
        assert(r@.files == spec_post(ov, dv, cv).files);
    }
    r
}

/// The aggregated statistics of one run: bytes transferred by successful
/// copies, successful copies, and copy attempts. Counters only ever grow,
/// and the successes never outnumber the attempts.
pub struct CopyInfo {
    bytes_copied: u64,
    files_copied: u32,
    files_total: u32,
}

impl CopyInfo {
    /// The bytes transferred so far.
    pub closed spec fn spec_bytes_copied(self) -> u64 {
        self.bytes_copied
    }

    /// The successful copies so far.
    pub closed spec fn spec_files_copied(self) -> u32 {
        self.files_copied
    }

    /// The copy attempts so far.
    pub closed spec fn spec_files_total(self) -> u32 {
        self.files_total
    }

    /// The invariant of the statistics: a copy succeeds only once attempted,
    /// so the successes never outnumber the attempts.
    pub open spec fn wf(self) -> bool {
        self.spec_files_copied() <= self.spec_files_total()
    }

    /// Fresh statistics: nothing attempted, nothing copied.
    pub fn new() -> (r: CopyInfo)
        ensures
            r.spec_bytes_copied() == 0,
            r.spec_files_copied() == 0,
            r.spec_files_total() == 0,
            r.wf(),
    {
        CopyInfo { bytes_copied: 0, files_copied: 0, files_total: 0 }
    }

    /// The bytes transferred by successful copies.
    pub fn get_bytes_copied(&self) -> (r: u64)
        ensures
            r == self.spec_bytes_copied(),
    {
        self.bytes_copied
    }

    /// The number of successful copies.
    pub fn get_files_copied(&self) -> (r: u32)
        ensures
            r == self.spec_files_copied(),
    {
        self.files_copied
    }

    /// The number of copy attempts: the files that reached the queued state.
    pub fn get_files_total(&self) -> (r: u32)
        ensures
            r == self.spec_files_total(),
    {
        self.files_total
    }

    /// The success rate of the attempts, as a whole percentage rounded down;
    /// zero when nothing was attempted.
    pub fn get_successful_transfers(&self) -> (r: u32)
        requires
            self.wf(),
        ensures
            r as int == if self.spec_files_total() > 0 {
                (self.spec_files_copied() as int * 100) / (self.spec_files_total() as int)
            } else {
                0
            },
    {
        if self.files_total > 0 {
            let p: u64 = (self.files_copied as u64) * 100 / (self.files_total as u64);
            proof {
                vstd::arithmetic::div_mod::lemma_div_is_ordered(
                    self.files_copied as int * 100,
                    self.files_total as int * 100,
                    self.files_total as int,
                );
                vstd::arithmetic::div_mod::lemma_div_multiples_vanish(
                    100,
                    self.files_total as int,
                );
            }
            p as u32
        } else {
            0
        }
    }

    /// Counts one copy attempt: a file reached the queued state.
    pub fn record_attempt(&mut self)
        requires
            old(self).spec_files_total() < u32::MAX,
        ensures
            final(self).spec_files_total() == old(self).spec_files_total() + 1,
            final(self).spec_files_copied() == old(self).spec_files_copied(),
            final(self).spec_bytes_copied() == old(self).spec_bytes_copied(),
            old(self).wf() ==> final(self).wf(),
    {
        self.files_total = self.files_total + 1;
    }

    /// Counts every copy of a plan as an attempt. Together with what
    /// [`copy_dirs`] ensures of the plan, the attempt counter grows by
    /// exactly the number of source files that reached the queued state.
    pub fn record_attempts(&mut self, plan: &Plan)
        requires
            old(self).spec_files_total() + plan@.copies.len() <= u32::MAX,
        ensures
            final(self).spec_files_total() == old(self).spec_files_total()
                + plan@.copies.len(),
            final(self).spec_files_copied() == old(self).spec_files_copied(),
            final(self).spec_bytes_copied() == old(self).spec_bytes_copied(),
            old(self).wf() ==> final(self).wf(),
    {
        proof {
            assert(plan@.copies.len() == plan.copies@.len());
        }
        let mut i: usize = 0;
        while i < plan.copies.len()
            invariant
                0 <= i <= plan.copies.len(),
                plan@.copies.len() == plan.copies@.len(),
                old(self).spec_files_total() + plan@.copies.len() <= u32::MAX,
                self.spec_files_total() == old(self).spec_files_total() + i,
                self.spec_files_copied() == old(self).spec_files_copied(),
                self.spec_bytes_copied() == old(self).spec_bytes_copied(),
            decreases plan.copies.len() - i,
        {
            self.record_attempt();
            i = i + 1;
        }
    }

    /// Counts one successful copy and the bytes it transferred. A success
    /// presupposes an attempt that is not yet accounted a success.
    pub fn record_copy(&mut self, bytes: u64)
        requires
            old(self).spec_files_copied() < old(self).spec_files_total(),
            old(self).spec_bytes_copied() + bytes <= u64::MAX,
        ensures
            final(self).spec_files_copied() == old(self).spec_files_copied() + 1,
            final(self).spec_bytes_copied() == old(self).spec_bytes_copied() + bytes,
            final(self).spec_files_total() == old(self).spec_files_total(),
            final(self).wf(),
    {
        self.bytes_copied = self.bytes_copied + bytes;
        self.files_copied = self.files_copied + 1;
    }

    /// Adds another run's statistics into this one, field by field.
    pub fn merge(&mut self, other: &CopyInfo)
        requires
            old(self).spec_bytes_copied() + other.spec_bytes_copied() <= u64::MAX,
            old(self).spec_files_copied() + other.spec_files_copied() <= u32::MAX,
            old(self).spec_files_total() + other.spec_files_total() <= u32::MAX,
        ensures
            final(self).spec_bytes_copied() == old(self).spec_bytes_copied()
                + other.spec_bytes_copied(),
            final(self).spec_files_copied() == old(self).spec_files_copied()
                + other.spec_files_copied(),
            final(self).spec_files_total() == old(self).spec_files_total()
                + other.spec_files_total(),
            old(self).wf() && other.wf() ==> final(self).wf(),
    {
        self.bytes_copied = self.bytes_copied + other.bytes_copied;
        self.files_copied = self.files_copied + other.files_copied;
        self.files_total = self.files_total + other.files_total;
    }
}

proof fn lemma_find_none_iff(files: Seq<SpecFileEntry>, path: Seq<Seq<u8>>, i: int)
    requires
        0 <= i,
    ensures
        (find_file_from(files, path, i) is None) <==> (forall|k: int|
            i <= k < files.len() ==> (#[trigger] files[k]).path != path),
    decreases files.len() - i,
{
    if i < files.len() {
        lemma_find_none_iff(files, path, i + 1);
    }
}

proof fn lemma_find_some_props(files: Seq<SpecFileEntry>, path: Seq<Seq<u8>>, i: int)
    requires
        0 <= i,
        find_file_from(files, path, i) is Some,
    ensures
        find_file_from(files, path, i)->0.path == path,
        exists|k: int|
            i <= k < files.len() && files[k] == find_file_from(files, path, i)->0,
    decreases files.len() - i,
{
    if i < files.len() {
        if files[i].path == path {
            assert(i <= i < files.len() && files[i] == find_file_from(files, path, i)->0);
        } else {
            lemma_find_some_props(files, path, i + 1);
            let k = choose|k: int|
                i + 1 <= k < files.len() && files[k] == find_file_from(files, path, i + 1)->0;
            assert(i <= k < files.len() && files[k] == find_file_from(files, path, i)->0);
        }
    }
}

proof fn lemma_find_exists(files: Seq<SpecFileEntry>, path: Seq<Seq<u8>>, i: int, k: int)
    requires
        0 <= i <= k < files.len(),
        files[k].path == path,
    ensures
        find_file_from(files, path, i) is Some,
    decreases k - i,
{
    if i < k && files[i].path != path {
        lemma_find_exists(files, path, i + 1, k);
    }
}

proof fn lemma_find_shift(a: Seq<SpecFileEntry>, b: Seq<SpecFileEntry>, path: Seq<Seq<u8>>, j: int)
    requires
        0 <= j <= b.len(),
    ensures
        find_file_from(a + b, path, a.len() + j) == find_file_from(b, path, j),
    decreases b.len() - j,
{
    if j < b.len() {
        assert((a + b)[a.len() + j] == b[j]);
        lemma_find_shift(a, b, path, j + 1);
    }
}

proof fn lemma_find_append(a: Seq<SpecFileEntry>, b: Seq<SpecFileEntry>, path: Seq<Seq<u8>>, i: int)
    requires
        0 <= i <= a.len(),
    ensures
        find_file_from(a + b, path, i) == if find_file_from(a, path, i) is Some {
            find_file_from(a, path, i)
        } else {
            find_file_from(b, path, 0)
        },
    decreases a.len() - i,
{
    if i == a.len() {
        lemma_find_shift(a, b, path, 0);
    } else {
        assert((a + b)[i] == a[i]);
        if a[i].path != path {
            lemma_find_append(a, b, path, i + 1);
        }
    }
}

proof fn lemma_find_mapped(
    files: Seq<SpecFileEntry>,
    src: SpecSnapshot,
    dst: SpecSnapshot,
    cfg: SpecConfig,
    path: Seq<Seq<u8>>,
    i: int,
)
    requires
        0 <= i,
    ensures
        find_file_from(
            files.map_values(|g: SpecFileEntry| spec_post_file(g, src, dst, cfg)),
            path,
            i,
        ) == match find_file_from(files, path, i) {
            Some(g) => Some(spec_post_file(g, src, dst, cfg)),
            None => None::<SpecFileEntry>,
        },
    decreases files.len() - i,
{
    let mapped = files.map_values(|g: SpecFileEntry| spec_post_file(g, src, dst, cfg));
    assert(mapped.len() == files.len());
    if i < files.len() {
        assert(mapped[i] == spec_post_file(files[i], src, dst, cfg));
        assert(spec_post_file(files[i], src, dst, cfg).path == files[i].path);
        if files[i].path != path {
            lemma_find_mapped(files, src, dst, cfg, path, i + 1);
        }
    }
}

proof fn lemma_find_new(
    files: Seq<SpecFileEntry>,
    dst: SpecSnapshot,
    cfg: SpecConfig,
    path: Seq<Seq<u8>>,
    i: int,
)
    requires
        0 <= i,
        forall|k1: int, k2: int|
            i <= k1 < k2 < files.len() ==> files[k1].path != files[k2].path,
    ensures
        find_file_from(spec_new_files(files, dst, cfg, i), path, 0) == match find_file_from(
            files,
            path,
            i,
        ) {
            Some(g) => if spec_file_action(g, dst, cfg) == FileAction::CopyNew {
                Some(g)
            } else {
                None::<SpecFileEntry>
            },
            None => None::<SpecFileEntry>,
        },
    decreases files.len() - i,
{
    if i < files.len() {
        lemma_find_new(files, dst, cfg, path, i + 1);
        let tail = spec_new_files(files, dst, cfg, i + 1);
        if spec_file_action(files[i], dst, cfg) == FileAction::CopyNew {
            let whole = seq![files[i]] + tail;
            assert(spec_new_files(files, dst, cfg, i) == whole);
            assert(whole[0] == files[i]);
            if files[i].path == path {
                assert(find_file_from(whole, path, 0) == Some(files[i]));
            } else {
                lemma_find_shift(seq![files[i]], tail, path, 0);
                assert(find_file_from(whole, path, 1) == find_file_from(tail, path, 0));
            }
        } else {
            if files[i].path == path {
                lemma_find_none_iff(files, path, i + 1);
                assert(forall|k: int|
                    i + 1 <= k < files.len() ==> (#[trigger] files[k]).path != path);
            }
        }
    }
}

proof fn lemma_queued_none(
    files: Seq<SpecFileEntry>,
    dst: SpecSnapshot,
    cfg: SpecConfig,
    i: int,
)
    requires
        0 <= i,
        forall|k: int| i <= k < files.len() ==> !spec_queued(#[trigger] files[k], dst, cfg),
    ensures
        spec_queued_files(files, dst, cfg, i).len() == 0,
    decreases files.len() - i,
{
    if i < files.len() {
        lemma_queued_none(files, dst, cfg, i + 1);
    }
}

proof fn lemma_planned_none(dirs: Seq<Seq<Seq<u8>>>, dst: SpecSnapshot, cfg: SpecConfig, i: int)
    requires
        0 <= i,
        forall|k: int|
            i <= k < dirs.len() ==> spec_dir_action(#[trigger] dirs[k], dst, cfg)
                != DirAction::CreateAndRecurse,
    ensures
        spec_planned_dirs(dirs, dst, cfg, i).len() == 0,
    decreases dirs.len() - i,
{
    if i < dirs.len() {
        lemma_planned_none(dirs, dst, cfg, i + 1);
    }
}

proof fn lemma_planned_dirs_complete(
    dirs: Seq<Seq<Seq<u8>>>,
    dst: SpecSnapshot,
    cfg: SpecConfig,
    i: int,
    k: int,
)
    requires
        0 <= i <= k < dirs.len(),
        spec_dir_action(dirs[k], dst, cfg) == DirAction::CreateAndRecurse,
    ensures
        spec_planned_dirs(dirs, dst, cfg, i).contains(dirs[k]),
    decreases k - i,
{
    let tail = spec_planned_dirs(dirs, dst, cfg, i + 1);
    if i == k {
        let whole = seq![dirs[i]] + tail;
        assert(whole[0] == dirs[i]);
    } else {
        lemma_planned_dirs_complete(dirs, dst, cfg, i + 1, k);
        let j = choose|j: int| 0 <= j < tail.len() && tail[j] == dirs[k];
        if spec_dir_action(dirs[i], dst, cfg) == DirAction::CreateAndRecurse {
            let whole = seq![dirs[i]] + tail;
            assert(whole[1 + j] == dirs[k]);
        }
    }
}

proof fn lemma_contains_append(a: Seq<Seq<Seq<u8>>>, b: Seq<Seq<Seq<u8>>>, x: Seq<Seq<u8>>)
    ensures
        (a + b).contains(x) <==> (a.contains(x) || b.contains(x)),
{
    if a.contains(x) {
        let i = choose|i: int| 0 <= i < a.len() && a[i] == x;
        assert((a + b)[i] == x);
    }
    if b.contains(x) {
        let i = choose|i: int| 0 <= i < b.len() && b[i] == x;
        assert((a + b)[a.len() + i] == x);
    }
    if (a + b).contains(x) {
        let i = choose|i: int| 0 <= i < (a + b).len() && (a + b)[i] == x;
        if i < a.len() {
            assert(a[i] == x);
        } else {
            assert(b[i - a.len()] == x);
        }
    }
}

proof fn lemma_planned_dirs_created(
    dirs: Seq<Seq<Seq<u8>>>,
    dst: SpecSnapshot,
    cfg: SpecConfig,
    i: int,
)
    requires
        0 <= i,
    ensures
        forall|j: int|
            0 <= j < spec_planned_dirs(dirs, dst, cfg, i).len() ==> spec_dir_action(
                #[trigger] spec_planned_dirs(dirs, dst, cfg, i)[j],
                dst,
                cfg,
            ) == DirAction::CreateAndRecurse,
    decreases dirs.len() - i,
{
    if i < dirs.len() {
        lemma_planned_dirs_created(dirs, dst, cfg, i + 1);
        if spec_dir_action(dirs[i], dst, cfg) == DirAction::CreateAndRecurse {
            let tail = spec_planned_dirs(dirs, dst, cfg, i + 1);
            let whole = seq![dirs[i]] + tail;
            assert(forall|j: int| 1 <= j < whole.len() ==> whole[j] == tail[j - 1]);
        }
    }
}

/// In a well formed snapshot, looking a file's own path up finds that file.
proof fn lemma_find_unique(s: SpecSnapshot, k: int)
    requires
        snap_wf(s),
        0 <= k < s.files.len(),
    ensures
        find_file(s, s.files[k].path) == Some(s.files[k]),
{
    let p = s.files[k].path;
    lemma_find_exists(s.files, p, 0, k);
    lemma_find_some_props(s.files, p, 0);
    let g = find_file_from(s.files, p, 0)->0;
    let k2 = choose|k2: int| 0 <= k2 < s.files.len() && s.files[k2] == g;
    if k2 < k {
        assert(s.files[k2].path != s.files[k].path);
    } else if k < k2 {
        assert(s.files[k].path != s.files[k2].path);
    }
}

/// After a run with overwriting on, every source file that neither ignore
/// list rules out is found at its destination path with the source's digest.
/// A source file whose destination path is held by a directory is out: a
/// copy onto a directory cannot succeed.
pub proof fn lemma_backup_copies_content(
    src: SpecSnapshot,
    dst: SpecSnapshot,
    cfg: SpecConfig,
    k: int,
)
    requires
        snap_wf(src),
        cfg.overwrite,
        0 <= k < src.files.len(),
        !file_filtered(src.files[k], cfg),
        !has_dir(dst, src.files[k].path),
    ensures
        find_file(spec_post(src, dst, cfg), src.files[k].path) is Some,
        find_file(spec_post(src, dst, cfg), src.files[k].path)->0.digest == src.files[k].digest,
{
    let f = src.files[k];
    let p = f.path;
    let mapped = dst.files.map_values(|g: SpecFileEntry| spec_post_file(g, src, dst, cfg));
    let new = spec_new_files(src.files, dst, cfg, 0);
    lemma_find_unique(src, k);
    lemma_find_append(mapped, new, p, 0);
    lemma_find_mapped(dst.files, src, dst, cfg, p, 0);
    let a = spec_file_action(f, dst, cfg);
    if a == FileAction::CopyNew {
        lemma_find_new(src.files, dst, cfg, p, 0);
        assert(find_file_from(new, p, 0) == Some(f));
    } else if a == FileAction::SkipUnchanged {
        let g0 = find_file(dst, p)->0;
        lemma_find_some_props(dst.files, p, 0);
        assert(g0.path == p);
        assert(find_file_from(mapped, p, 0) == Some(spec_post_file(g0, src, dst, cfg)));
        assert(spec_post_file(g0, src, dst, cfg) == g0);
        assert(g0.digest == f.digest);
    } else {
        assert(a == FileAction::CopyOverwrite);
        assert(find_file(dst, p) is Some);
        let g0 = find_file(dst, p)->0;
        lemma_find_some_props(dst.files, p, 0);
        assert(g0.path == p);
        assert(spec_post_file(g0, src, dst, cfg) == SpecFileEntry {
            path: g0.path,
            size: f.size,
            digest: f.digest,
        });
    }
}

/// Running the backup again on what a successful run left behind queues no
/// copy: with overwriting on, every unfiltered source file now stands at its
/// destination path unchanged. Files whose digest could not be computed are
/// out, as they can never be proved unchanged; so are source files whose
/// destination path a directory holds, onto which no copy can succeed.
pub proof fn lemma_second_run_copies_nothing(src: SpecSnapshot, dst: SpecSnapshot, cfg: SpecConfig)
    requires
        snap_wf(src),
        cfg.overwrite,
        forall|k: int| 0 <= k < src.files.len() ==> (#[trigger] src.files[k]).digest is Some,
        forall|k: int|
            0 <= k < src.files.len() ==> !has_dir(dst, (#[trigger] src.files[k]).path),
    ensures
        spec_queued_files(src.files, spec_post(src, dst, cfg), cfg, 0).len() == 0,
{
    let post = spec_post(src, dst, cfg);
    assert forall|k: int|
        0 <= k < src.files.len() implies !spec_queued(#[trigger] src.files[k], post, cfg) by {
        let f = src.files[k];
        if !file_filtered(f, cfg) {
            lemma_backup_copies_content(src, dst, cfg, k);
            let g = find_file(post, f.path)->0;
            assert(entry_exists(post, f.path));
            assert(dst_digest(post, f.path) == g.digest);
            assert(digests_match(f.digest, dst_digest(post, f.path)));
            assert(spec_file_action(f, post, cfg) == FileAction::SkipUnchanged);
        }
    }
    lemma_queued_none(src.files, post, cfg, 0);
}

/// Running the backup again on what a run left behind creates no directory:
/// every source directory was either created by the first run, already stood
/// at the destination, or is ruled out by the folder ignore list — and each
/// of those states persists.
pub proof fn lemma_second_run_creates_nothing(src: SpecSnapshot, dst: SpecSnapshot, cfg: SpecConfig)
    ensures
        spec_planned_dirs(src.dirs, spec_post(src, dst, cfg), cfg, 0).len() == 0,
{
    let post = spec_post(src, dst, cfg);
    let mapped = dst.files.map_values(|g: SpecFileEntry| spec_post_file(g, src, dst, cfg));
    let new = spec_new_files(src.files, dst, cfg, 0);
    let planned = spec_planned_dirs(src.dirs, dst, cfg, 0);
    assert forall|k: int|
        0 <= k < src.dirs.len() implies spec_dir_action(#[trigger] src.dirs[k], post, cfg)
        != DirAction::CreateAndRecurse by {
        let d = src.dirs[k];
        if !dir_folder_filtered(d, cfg.ignore_folders) {
            if spec_dir_action(d, dst, cfg) == DirAction::CreateAndRecurse {
                lemma_planned_dirs_complete(src.dirs, dst, cfg, 0, k);
                lemma_contains_append(dst.dirs, planned, d);
                assert(has_dir(post, d));
            } else {
                assert(entry_exists(dst, d));
                if has_dir(dst, d) {
                    lemma_contains_append(dst.dirs, planned, d);
                    assert(has_dir(post, d));
                } else {
                    lemma_find_mapped(dst.files, src, dst, cfg, d, 0);
                    lemma_find_append(mapped, new, d, 0);
                    assert(find_file(post, d) is Some);
                }
            }
        }
    }
    lemma_planned_none(src.dirs, post, cfg, 0);
}

/// A run removes nothing: every file and every directory the destination
/// held before the run is still found after it, though an overwritten file
/// may carry new content.
pub proof fn lemma_run_removes_nothing(src: SpecSnapshot, dst: SpecSnapshot, cfg: SpecConfig)
    ensures
        forall|k: int|
            0 <= k < dst.files.len() ==> find_file(
                spec_post(src, dst, cfg),
                (#[trigger] dst.files[k]).path,
            ) is Some,
        forall|k: int|
            0 <= k < dst.dirs.len() ==> has_dir(spec_post(src, dst, cfg), #[trigger] dst.dirs[k]),
{
    let mapped = dst.files.map_values(|g: SpecFileEntry| spec_post_file(g, src, dst, cfg));
    let new = spec_new_files(src.files, dst, cfg, 0);
    let planned = spec_planned_dirs(src.dirs, dst, cfg, 0);
    assert forall|k: int|
        0 <= k < dst.files.len() implies find_file(
        spec_post(src, dst, cfg),
        (#[trigger] dst.files[k]).path,
    ) is Some by {
        let p = dst.files[k].path;
        assert(mapped[k] == spec_post_file(dst.files[k], src, dst, cfg));
        assert(mapped[k].path == p);
        lemma_find_exists(mapped, p, 0, k);
        lemma_find_append(mapped, new, p, 0);
    }
    assert forall|k: int|
        0 <= k < dst.dirs.len() implies has_dir(spec_post(src, dst, cfg), #[trigger] dst.dirs[k]) by {
        lemma_contains_append(dst.dirs, planned, dst.dirs[k]);
        assert(dst.dirs.contains(dst.dirs[k]));
    }
}

/// A run never reaches below an ignored folder: at a path one of whose
/// ancestor directories is ignored the destination holds, after the run,
/// exactly the file it held before; and a directory path that the folder
/// ignore list rules out is created for no source root.
pub proof fn lemma_ignored_folders_untouched(
    src: SpecSnapshot,
    dst: SpecSnapshot,
    cfg: SpecConfig,
    path: Seq<Seq<u8>>,
)
    requires
        snap_wf(src),
    ensures
        file_folder_filtered(path, cfg.ignore_folders) ==> find_file(
            spec_post(src, dst, cfg),
            path,
        ) == find_file(dst, path),
        dir_folder_filtered(path, cfg.ignore_folders) ==> has_dir(spec_post(src, dst, cfg), path)
            == has_dir(dst, path),
{
    let mapped = dst.files.map_values(|g: SpecFileEntry| spec_post_file(g, src, dst, cfg));
    let new = spec_new_files(src.files, dst, cfg, 0);
    let planned = spec_planned_dirs(src.dirs, dst, cfg, 0);
    if file_folder_filtered(path, cfg.ignore_folders) {
        lemma_find_append(mapped, new, path, 0);
        lemma_find_mapped(dst.files, src, dst, cfg, path, 0);
        match find_file(dst, path) {
            Some(g0) => {
                lemma_find_some_props(dst.files, path, 0);
                assert(g0.path == path);
                if find_file(src, path) is Some {
                    lemma_find_some_props(src.files, path, 0);
                    let sf = find_file(src, path)->0;
                    assert(file_filtered(sf, cfg));
                    assert(spec_post_file(g0, src, dst, cfg) == g0);
                } else {
                    assert(spec_post_file(g0, src, dst, cfg) == g0);
                }
            },
            None => {
                lemma_find_new(src.files, dst, cfg, path, 0);
                if find_file(src, path) is Some {
                    lemma_find_some_props(src.files, path, 0);
                    let sf = find_file(src, path)->0;
                    assert(file_filtered(sf, cfg));
                    assert(spec_file_action(sf, dst, cfg) == FileAction::SkipFiltered);
                }
            },
        }
    }
    if dir_folder_filtered(path, cfg.ignore_folders) {
        lemma_contains_append(dst.dirs, planned, path);
        if planned.contains(path) {
            let j = choose|j: int| 0 <= j < planned.len() && planned[j] == path;
            lemma_planned_dirs_created(src.dirs, dst, cfg, 0);
            assert(spec_dir_action(path, dst, cfg) == DirAction::CreateAndRecurse);
            assert(spec_dir_action(path, dst, cfg) == DirAction::SkipSubtree);
        }
    }
}

} // verus!
