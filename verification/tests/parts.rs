use backup_mirror::config::Config;
use backup_mirror::config::ConfigError;
use backup_mirror::copy::CopyInfo;
use backup_mirror::copy::DirAction;
use backup_mirror::copy::FileAction;
use backup_mirror::copy::dir_action;
use backup_mirror::copy::file_action;
use backup_mirror::copy::file_hasnt_changed;
use backup_mirror::disk::DiskInfo;
use backup_mirror::disk::dir_size;
use backup_mirror::disk::get_path_prefix;
use backup_mirror::disk::get_remaining_disk_space;
use backup_mirror::snapshot::FileEntry;
use backup_mirror::snapshot::Snapshot;
use backup_mirror::snapshot::extension_of;

fn seg(s: &str) -> Vec<u8> {
    s.as_bytes().to_vec()
}

fn path(segs: &[&str]) -> Vec<Vec<u8>> {
    segs.iter().map(|s| seg(s)).collect()
}

fn file(segs: &[&str], size: u64, digest: Option<&str>) -> FileEntry {
    FileEntry { path: path(segs), size, digest: digest.map(|d| seg(d)) }
}

fn cfg(exts: &[&str], folders: &[&str], overwrite: bool) -> Config {
    Config::new(
        vec![seg("/a")],
        seg("/out"),
        exts.iter().map(|s| seg(s)).collect(),
        folders.iter().map(|s| seg(s)).collect(),
        overwrite,
    )
    .expect("configuration should be accepted")
}

#[test]
fn extension_splits_on_final_dot() {
    assert_eq!(extension_of(&seg("x.txt")), Some(seg("txt")));
    assert_eq!(extension_of(&seg("a.b.c")), Some(seg("c")));
    assert_eq!(extension_of(&seg("Makefile")), None);
    assert_eq!(extension_of(&seg(".bashrc")), None);
    assert_eq!(extension_of(&seg("trailing.")), Some(seg("")));
    assert_eq!(extension_of(&seg("")), None);
    assert_eq!(extension_of(&seg(".")), None);
}

#[test]
fn config_rejects_leading_dot_tokens() {
    let r = Config::new(vec![], seg("/out"), vec![seg(".log")], vec![], false);
    assert_eq!(r.err(), Some(ConfigError::ExtensionStartsWithDot));
}

#[test]
fn config_keeps_its_parts() {
    let c = cfg(&["log", "tmp"], &["node_modules"], true);
    assert_eq!(c.origin, vec![seg("/a")]);
    assert_eq!(c.destination, seg("/out"));
    assert_eq!(c.ignore_extensions, vec![seg("log"), seg("tmp")]);
    assert_eq!(c.ignore_folders, vec![seg("node_modules")]);
    assert!(c.overwrite);
}

#[test]
fn digest_comparison_needs_both_digests() {
    assert!(file_hasnt_changed(&Some(seg("d1")), &Some(seg("d1"))));
    assert!(!file_hasnt_changed(&Some(seg("d1")), &Some(seg("d2"))));
    assert!(!file_hasnt_changed(&None, &Some(seg("d1"))));
    assert!(!file_hasnt_changed(&Some(seg("d1")), &None));
    assert!(!file_hasnt_changed(&None, &None));
}

#[test]
fn stats_start_empty_and_accumulate() {
    let mut stats = CopyInfo::new();
    assert_eq!(stats.get_bytes_copied(), 0);
    assert_eq!(stats.get_files_copied(), 0);
    assert_eq!(stats.get_files_total(), 0);
    assert_eq!(stats.get_successful_transfers(), 0);
    stats.record_attempt();
    stats.record_copy(10);
    stats.record_attempt();
    stats.record_copy(20);
    stats.record_attempt();
    assert_eq!(stats.get_bytes_copied(), 30);
    assert_eq!(stats.get_files_copied(), 2);
    assert_eq!(stats.get_files_total(), 3);
    assert_eq!(stats.get_successful_transfers(), 66);
}

#[test]
fn stats_merge_adds_fieldwise() {
    let mut a = CopyInfo::new();
    a.record_attempt();
    a.record_copy(5);
    let mut b = CopyInfo::new();
    b.record_attempt();
    b.record_attempt();
    b.record_copy(7);
    a.merge(&b);
    assert_eq!(a.get_bytes_copied(), 12);
    assert_eq!(a.get_files_copied(), 2);
    assert_eq!(a.get_files_total(), 3);
}

#[test]
fn tree_size_sums_and_saturates() {
    let s = Snapshot {
        dirs: vec![path(&["sub"])],
        files: vec![file(&["x"], 5, None), file(&["sub", "y"], 3, None)],
    };
    assert_eq!(dir_size(&s), 8);
    let huge = Snapshot {
        dirs: vec![],
        files: vec![file(&["a"], u64::MAX, None), file(&["b"], 1, None)],
    };
    assert_eq!(dir_size(&huge), u64::MAX);
}

#[test]
fn volume_lookup_takes_first_matching_mount() {
    assert_eq!(get_path_prefix(&seg("C:\\out")), Some(b'C'));
    assert_eq!(get_path_prefix(&seg("")), None);
    let disks = vec![
        DiskInfo { mount_point: seg("D:\\"), available_space: 1 },
        DiskInfo { mount_point: seg("C:\\"), available_space: 2 },
        DiskInfo { mount_point: seg("C:\\data"), available_space: 3 },
        DiskInfo { mount_point: seg(""), available_space: 4 },
    ];
    assert_eq!(get_remaining_disk_space(b'C', &disks), Some(2));
    assert_eq!(get_remaining_disk_space(b'E', &disks), None);
}

#[test]
fn file_decision_follows_the_table() {
    let dst = Snapshot {
        dirs: vec![path(&["taken"])],
        files: vec![file(&["x.txt"], 5, Some("d-old"))],
    };
    let plain = cfg(&[], &[], false);
    let over = cfg(&[], &[], true);
    let filtered_ext = cfg(&["log"], &[], true);
    let filtered_dir = cfg(&[], &["node_modules"], true);

    let under_ignored = file(&["node_modules", "x.txt"], 5, Some("d"));
    assert_eq!(file_action(&under_ignored, &dst, &filtered_dir), FileAction::SkipFiltered);

    let logfile = file(&["x.log"], 5, Some("d"));
    assert_eq!(file_action(&logfile, &dst, &filtered_ext), FileAction::SkipFiltered);

    let fresh = file(&["new.txt"], 5, Some("d"));
    assert_eq!(file_action(&fresh, &dst, &plain), FileAction::CopyNew);

    let same_path_no_overwrite = file(&["x.txt"], 5, Some("d-new"));
    assert_eq!(file_action(&same_path_no_overwrite, &dst, &plain), FileAction::SkipPreexisting);

    let unchanged = file(&["x.txt"], 5, Some("d-old"));
    assert_eq!(file_action(&unchanged, &dst, &over), FileAction::SkipUnchanged);

    let changed = file(&["x.txt"], 6, Some("d-new"));
    assert_eq!(file_action(&changed, &dst, &over), FileAction::CopyOverwrite);

    let unreadable = file(&["x.txt"], 5, None);
    assert_eq!(file_action(&unreadable, &dst, &over), FileAction::CopyOverwrite);

    let onto_dir = file(&["taken"], 5, Some("d"));
    assert_eq!(file_action(&onto_dir, &dst, &over), FileAction::CopyOverwrite);
    assert_eq!(file_action(&onto_dir, &dst, &plain), FileAction::SkipPreexisting);
}

#[test]
fn dir_decision_follows_the_table() {
    let dst = Snapshot { dirs: vec![path(&["sub"])], files: vec![file(&["f.txt"], 1, None)] };
    let plain = cfg(&[], &[], false);
    let filtered = cfg(&[], &["node_modules"], false);

    assert_eq!(dir_action(&path(&["node_modules"]), &dst, &filtered), DirAction::SkipSubtree);
    assert_eq!(
        dir_action(&path(&["node_modules", "inner"]), &dst, &filtered),
        DirAction::SkipSubtree
    );
    assert_eq!(dir_action(&path(&["sub"]), &dst, &plain), DirAction::RecurseOnly);
    assert_eq!(dir_action(&path(&["f.txt"]), &dst, &plain), DirAction::RecurseOnly);
    assert_eq!(dir_action(&path(&["fresh"]), &dst, &plain), DirAction::CreateAndRecurse);
}
