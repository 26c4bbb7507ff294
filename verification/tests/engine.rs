use backup_mirror::config::Config;
use backup_mirror::copy::CopyInfo;
use backup_mirror::copy::Plan;
use backup_mirror::copy::apply_plan;
use backup_mirror::copy::copy_dirs;
use backup_mirror::disk::DiskInfo;
use backup_mirror::disk::disk_has_enough_space;
use backup_mirror::snapshot::FileEntry;
use backup_mirror::snapshot::Snapshot;

fn seg(s: &str) -> Vec<u8> {
    s.as_bytes().to_vec()
}

fn path(segs: &[&str]) -> Vec<Vec<u8>> {
    segs.iter().map(|s| seg(s)).collect()
}

fn file(segs: &[&str], size: u64, digest: Option<&str>) -> FileEntry {
    FileEntry { path: path(segs), size, digest: digest.map(|d| seg(d)) }
}

fn cfg(exts: &[&str], folders: &[&str], overwrite: bool) -> Config {
    Config::new(
        vec![seg("/a")],
        seg("/out"),
        exts.iter().map(|s| seg(s)).collect(),
        folders.iter().map(|s| seg(s)).collect(),
        overwrite,
    )
    .expect("configuration should be accepted")
}

fn run_stats(plan: &Plan) -> CopyInfo {
    let mut stats = CopyInfo::new();
    for c in plan.copies.iter() {
        assert!(stats.get_files_total() < u32::MAX);
        stats.record_attempt();
        assert!(stats.get_files_copied() < stats.get_files_total());
        assert!(c.size <= u64::MAX - stats.get_bytes_copied());
        stats.record_copy(c.size);
    }
    stats
}

fn fresh_source() -> Snapshot {
    Snapshot {
        dirs: vec![path(&["sub"])],
        files: vec![
            file(&["x.txt"], 5, Some("d-hello")),
            file(&["sub", "y.bin"], 3, Some("d-y")),
        ],
    }
}

fn empty_dest() -> Snapshot {
    Snapshot { dirs: vec![], files: vec![] }
}

#[test]
fn fresh_mirror_copies_everything() {
    let src = fresh_source();
    let dst = empty_dest();
    let c = cfg(&[], &[], false);
    let plan = copy_dirs(&src, &dst, &c);
    assert_eq!(plan.dirs, vec![path(&["sub"])]);
    assert_eq!(plan.copies.len(), 2);
    assert_eq!(plan.copies[0].path, path(&["x.txt"]));
    assert_eq!(plan.copies[1].path, path(&["sub", "y.bin"]));
    let stats = run_stats(&plan);
    assert_eq!(stats.get_bytes_copied(), 8);
    assert_eq!(stats.get_files_copied(), 2);
    assert_eq!(stats.get_files_total(), 2);
    assert_eq!(stats.get_successful_transfers(), 100);
    let post = apply_plan(&src, &dst, &c);
    assert_eq!(post.dirs, vec![path(&["sub"])]);
    assert_eq!(post.files.len(), 2);
    assert_eq!(post.files[0].path, path(&["x.txt"]));
    assert_eq!(post.files[0].digest, Some(seg("d-hello")));
    assert_eq!(post.files[1].path, path(&["sub", "y.bin"]));
}

#[test]
fn second_run_copies_nothing() {
    let src = fresh_source();
    let dst = empty_dest();
    let first = cfg(&[], &[], false);
    let post = apply_plan(&src, &dst, &first);
    let second = cfg(&[], &[], true);
    let plan = copy_dirs(&src, &post, &second);
    assert_eq!(plan.dirs.len(), 0);
    assert_eq!(plan.copies.len(), 0);
    let stats = run_stats(&plan);
    assert_eq!(stats.get_bytes_copied(), 0);
    assert_eq!(stats.get_files_copied(), 0);
    assert_eq!(stats.get_files_total(), 0);
    assert_eq!(stats.get_successful_transfers(), 0);
}

#[test]
fn overwrite_recopies_changed_file() {
    let dst = apply_plan(&fresh_source(), &empty_dest(), &cfg(&[], &[], false));
    let mut src = fresh_source();
    src.files[0] = file(&["x.txt"], 6, Some("d-hello-bang"));
    let c = cfg(&[], &[], true);
    let plan = copy_dirs(&src, &dst, &c);
    assert_eq!(plan.dirs.len(), 0);
    assert_eq!(plan.copies.len(), 1);
    assert_eq!(plan.copies[0].path, path(&["x.txt"]));
    assert_eq!(plan.copies[0].size, 6);
    let stats = run_stats(&plan);
    assert_eq!(stats.get_bytes_copied(), 6);
    assert_eq!(stats.get_files_copied(), 1);
    assert_eq!(stats.get_files_total(), 1);
    assert_eq!(stats.get_successful_transfers(), 100);
    let post = apply_plan(&src, &dst, &c);
    let x = post.files.iter().find(|f| f.path == path(&["x.txt"])).unwrap();
    assert_eq!(x.digest, Some(seg("d-hello-bang")));
    assert_eq!(x.size, 6);
}

#[test]
fn no_overwrite_keeps_changed_file() {
    let dst = apply_plan(&fresh_source(), &empty_dest(), &cfg(&[], &[], false));
    let mut src = fresh_source();
    src.files[0] = file(&["x.txt"], 6, Some("d-hello-bang"));
    let c = cfg(&[], &[], false);
    let plan = copy_dirs(&src, &dst, &c);
    assert_eq!(plan.copies.len(), 0);
    let stats = run_stats(&plan);
    assert_eq!(stats.get_bytes_copied(), 0);
    assert_eq!(stats.get_files_copied(), 0);
    assert_eq!(stats.get_files_total(), 0);
    let post = apply_plan(&src, &dst, &c);
    let x = post.files.iter().find(|f| f.path == path(&["x.txt"])).unwrap();
    assert_eq!(x.digest, Some(seg("d-hello")));
    assert_eq!(x.size, 5);
}

#[test]
fn extension_filter_skips_listed_extension() {
    let src = Snapshot {
        dirs: vec![],
        files: vec![file(&["keep.txt"], 4, Some("d-k")), file(&["drop.log"], 9, Some("d-d"))],
    };
    let c = cfg(&["log"], &[], false);
    let plan = copy_dirs(&src, &empty_dest(), &c);
    assert_eq!(plan.copies.len(), 1);
    assert_eq!(plan.copies[0].path, path(&["keep.txt"]));
    let stats = run_stats(&plan);
    assert_eq!(stats.get_files_total(), 1);
    assert_eq!(stats.get_files_copied(), 1);
    let post = apply_plan(&src, &empty_dest(), &c);
    assert!(post.files.iter().all(|f| f.path != path(&["drop.log"])));
    assert!(post.files.iter().any(|f| f.path == path(&["keep.txt"])));
}

#[test]
fn folder_filter_skips_whole_subtree() {
    let src = Snapshot {
        dirs: vec![path(&["node_modules"]), path(&["src"])],
        files: vec![
            file(&["node_modules", "foo"], 7, Some("d-f")),
            file(&["src", "main"], 2, Some("d-m")),
        ],
    };
    let c = cfg(&[], &["node_modules"], false);
    let plan = copy_dirs(&src, &empty_dest(), &c);
    assert_eq!(plan.dirs, vec![path(&["src"])]);
    assert_eq!(plan.copies.len(), 1);
    assert_eq!(plan.copies[0].path, path(&["src", "main"]));
    let post = apply_plan(&src, &empty_dest(), &c);
    assert!(post.dirs.iter().all(|d| *d != path(&["node_modules"])));
    assert!(post.files.iter().all(|f| f.path != path(&["node_modules", "foo"])));
    assert!(post.files.iter().any(|f| f.path == path(&["src", "main"])));
}

#[test]
fn capacity_guard_rejects_oversized_origin() {
    let origin = vec![Snapshot {
        dirs: vec![],
        files: vec![file(&["big.iso"], 10_000_000_000, None)],
    }];
    let disks = vec![DiskInfo { mount_point: seg("/out"), available_space: 1_000_000_000 }];
    let c = cfg(&[], &[], false);
    assert_eq!(disk_has_enough_space(&c, &origin, &disks), Some(false));
    assert_eq!(
        backup_mirror::config::disk_has_enough_space(&seg("/out"), &origin, &disks),
        Some(false)
    );
}

#[test]
fn capacity_guard_accepts_fitting_origin() {
    let origin = vec![Snapshot {
        dirs: vec![],
        files: vec![file(&["big.iso"], 10_000, None)],
    }];
    let disks = vec![DiskInfo { mount_point: seg("/out"), available_space: 1_000_000_000 }];
    let c = cfg(&[], &[], false);
    assert_eq!(disk_has_enough_space(&c, &origin, &disks), Some(true));
}

#[test]
fn capacity_guard_fails_without_matching_volume() {
    let origin = vec![empty_dest()];
    let disks = vec![DiskInfo { mount_point: seg("X:\\"), available_space: 5 }];
    let c = cfg(&[], &[], false);
    assert_eq!(disk_has_enough_space(&c, &origin, &disks), None);
}

#[test]
fn capacity_guard_handles_overflowing_total() {
    let origin = vec![Snapshot {
        dirs: vec![],
        files: vec![file(&["a"], u64::MAX, None), file(&["b"], u64::MAX, None)],
    }];
    let disks = vec![DiskInfo { mount_point: seg("/out"), available_space: u64::MAX }];
    let c = cfg(&[], &[], false);
    assert_eq!(disk_has_enough_space(&c, &origin, &disks), Some(false));
}

#[test]
fn attempts_count_exactly_the_queued_files() {
    let src = fresh_source();
    let dst = empty_dest();
    let c = cfg(&[], &[], false);
    let plan = copy_dirs(&src, &dst, &c);
    let mut stats = CopyInfo::new();
    assert!((plan.copies.len() as u64) <= u32::MAX as u64);
    stats.record_attempts(&plan);
    assert_eq!(stats.get_files_total(), 2);
    assert_eq!(stats.get_files_copied(), 0);
    assert_eq!(stats.get_bytes_copied(), 0);
    assert_eq!(stats.get_successful_transfers(), 0);
}

#[test]
fn destination_only_files_survive_a_run() {
    let dst = Snapshot {
        dirs: vec![path(&["old"])],
        files: vec![file(&["old", "keep.me"], 1, Some("d-old"))],
    };
    let src = fresh_source();
    let c = cfg(&[], &[], true);
    let post = apply_plan(&src, &dst, &c);
    assert!(post.dirs.iter().any(|d| *d == path(&["old"])));
    let kept = post.files.iter().find(|f| f.path == path(&["old", "keep.me"])).unwrap();
    assert_eq!(kept.size, 1);
    assert_eq!(kept.digest, Some(seg("d-old")));
}
