use std::cell::RefCell;
use std::sync::atomic::AtomicBool;
use std::sync::Arc;

use directory_scanner::mounts::{linux_fallback_paths, parse_mount_table, MountInfo};
use directory_scanner::scanner::{progress_due, DirectoryScanner, NoProgress, ProgressSink, WalkEntry};
use directory_scanner::tree_scan::{TreeScan, TreeStep};
use directory_scanner::{validate_path, IoKind, ScanError, ScannerPresets};

fn entry(path: &str, depth: usize, is_file: bool, size: Option<u64>) -> WalkEntry {
    WalkEntry { path: path.to_string(), depth, is_file, is_dir: !is_file, device_id: None, size }
}

struct Recorder {
    calls: RefCell<Vec<(usize, usize, String)>>,
}

impl ProgressSink for Recorder {
    fn report(&self, done: usize, total: usize, status: String) {
        self.calls.borrow_mut().push((done, total, status));
    }
}

fn plain() -> DirectoryScanner {
    DirectoryScanner::new().skip_virtual_filesystems(false)
}

fn dotfile_walk() -> Vec<WalkEntry> {
    vec![
        entry("root", 0, false, None),
        entry("root/.hidden", 1, false, None),
        entry("root/.hidden/file.txt", 2, true, Some(3)),
        entry("root/visible", 1, false, None),
        entry("root/visible/file.txt", 2, true, Some(5)),
    ]
}

#[test]
fn dotfiles_excluded_by_default() {
    let files = plain().select_files(&dotfile_walk(), &mut None).unwrap();
    assert_eq!(files, vec!["root/visible/file.txt"]);
}

#[test]
fn dotfiles_included_on_request() {
    let files = plain().include_dotfiles(true).select_files(&dotfile_walk(), &mut None).unwrap();
    assert_eq!(files, vec!["root/.hidden/file.txt", "root/visible/file.txt"]);
}

fn deep_walk() -> Vec<WalkEntry> {
    vec![
        entry("root", 0, false, None),
        entry("root/a", 1, false, None),
        entry("root/a/b", 2, false, None),
        entry("root/a/b/file.txt", 3, true, Some(1)),
    ]
}

#[test]
fn depth_limit_excludes_deeper_files() {
    assert!(plain().max_depth(1).select_files(&deep_walk(), &mut None).unwrap().is_empty());
    assert_eq!(
        plain().max_depth(2).select_files(&deep_walk(), &mut None).unwrap(),
        vec!["root/a/b/file.txt"]
    );
}

#[test]
fn files_sorted_by_depth_then_path() {
    let walk = vec![
        entry("r/z/deep.txt", 2, true, None),
        entry("r/b.txt", 1, true, None),
        entry("r/a.txt", 1, true, None),
    ];
    let files = plain().select_files(&walk, &mut None).unwrap();
    assert_eq!(files, vec!["r/a.txt", "r/b.txt", "r/z/deep.txt"]);
}

#[test]
fn selection_is_repeatable() {
    let s = plain().include_dotfiles(true);
    let first = s.select_files(&dotfile_walk(), &mut None).unwrap();
    let second = s.select_files(&dotfile_walk(), &mut None).unwrap();
    assert_eq!(first, second);
}

#[test]
fn cancelled_flag_stops_every_scan_kind() {
    let flag = Arc::new(AtomicBool::new(true));
    let s = plain().cancellation_flag(flag);
    assert!(matches!(s.select_files(&dotfile_walk(), &mut None), Err(ScanError::Cancelled)));
    assert!(matches!(s.plan_children(&dotfile_walk(), &mut None), Err(ScanError::Cancelled)));
    let rec = Recorder { calls: RefCell::new(Vec::new()) };
    assert!(matches!(s.scan_stats_entries(&dotfile_walk(), &mut None, &rec), Err(ScanError::Cancelled)));
    assert!(rec.calls.borrow().is_empty());
}

#[test]
fn unset_flag_lets_scans_finish() {
    let flag = Arc::new(AtomicBool::new(false));
    let s = plain().cancellation_flag(flag);
    assert!(s.select_files(&dotfile_walk(), &mut None).is_ok());
    assert!(!s.is_cancelled());
}

#[test]
fn tree_children_in_case_insensitive_order() {
    let listing = vec![
        entry("d/B", 1, true, None),
        entry("d/a", 1, true, None),
        entry("d/C", 1, true, None),
        entry("d/.git", 1, false, None),
    ];
    let kids = plain().plan_children(&listing, &mut None).unwrap();
    assert_eq!(kids, vec!["d/a", "d/B", "d/C"]);
}

#[test]
fn descending_respects_depth_and_kind() {
    let s = plain().max_depth(2);
    assert!(s.descends_into(true, 2));
    assert!(!s.descends_into(true, 3));
    assert!(!s.descends_into(false, 0));
    assert!(plain().descends_into(true, 1000));
}

#[test]
fn stats_count_and_histogram() {
    let walk = vec![
        entry("r", 0, false, None),
        entry("r/sub", 1, false, None),
        entry("r/empty", 1, true, Some(0)),
        entry("r/small", 1, true, Some(5)),
        entry("r/kb", 1, true, Some(2048)),
        entry("r/unknown", 1, true, None),
        // A file whose size could not be read is not counted.
        entry("r/.hidden", 1, true, Some(100)),
    ];
    let rec = Recorder { calls: RefCell::new(Vec::new()) };
    let st = plain().scan_stats_entries(&walk, &mut None, &rec).unwrap();
    assert_eq!(st.directory_count, 2);
    assert_eq!(st.file_count, 3);
    assert_eq!(st.total_items(), 5);
    let d = st.size_distribution;
    let buckets = d.empty + d.tiny + d.very_small + d.small + d.small_kb + d.medium_kb + d.large_kb
        + d.small_mb + d.medium_mb + d.large_mb + d.small_gb + d.medium_gb + d.huge;
    assert_eq!(buckets, st.file_count);
    assert_eq!(st.total_size, 2053);
    assert_eq!(st.size_distribution.empty, 1);
    assert_eq!(st.size_distribution.tiny, 1);
    assert_eq!(st.size_distribution.small_kb, 1);
    assert_eq!(st.size_distribution.small, 0);
    let calls = rec.calls.borrow();
    assert_eq!(calls.len(), 8);
    assert_eq!(calls[0], (1, 7, "Analyzing: r".to_string()));
    assert_eq!(calls[7], (1, 1, "Analysis completed".to_string()));
    assert_eq!(st.format_size(), "2.0 KB");
}

#[test]
fn stats_file_count_matches_selection() {
    let s = plain();
    let st = s.scan_stats_entries(&dotfile_walk(), &mut None, &NoProgress).unwrap();
    let files = s.select_files(&dotfile_walk(), &mut None).unwrap();
    assert_eq!(st.file_count, files.len());
}

#[test]
fn virtual_mounts_and_fallbacks_are_skipped() {
    let table = "proc /proc proc rw 0 0\n/dev/sda1 / ext4 rw 0 0\ntmpfs /run tmpfs rw 0 0\n";
    let mut mounts = Some(MountInfo::new(Some(7), table, linux_fallback_paths()).unwrap());
    let s = DirectoryScanner::new();
    let walk = vec![
        entry("/proc/1/status", 2, true, None),
        entry("/snap/core/f", 2, true, None),
        entry("/snapshot/a.txt", 1, true, None),
        entry("/tmpx", 1, true, None),
        entry("/home/u/a.txt", 2, true, None),
    ];
    let files = s.select_files(&walk, &mut mounts).unwrap();
    assert_eq!(files, vec!["/tmpx", "/snapshot/a.txt", "/home/u/a.txt"]);
    let skipped = mounts.as_ref().unwrap().get_skipped_paths();
    assert_eq!(skipped, vec!["/proc", "/snap"]);
}

#[test]
fn other_devices_are_left_out_when_staying_on_one() {
    let mut mounts = Some(MountInfo::new(Some(7), "", Vec::new()).unwrap());
    let s = DirectoryScanner::new().stay_on_filesystem(true);
    let mut e = entry("/data/x", 1, true, None);
    e.device_id = Some(8);
    let mut f = entry("/data/y", 1, true, None);
    f.device_id = Some(7);
    let files = s.select_files(&vec![e, f], &mut mounts).unwrap();
    assert_eq!(files, vec!["/data/y"]);
    assert!(mounts.unwrap().get_skipped_paths().is_empty());
}

#[test]
fn mount_table_parsing() {
    let table = "proc /proc proc rw 0 0\n\
                 /dev/sda1 / ext4 rw 0 0\n\
                 cgroup2 /sys/fs/cgroup cgroup2 rw 0 0\n\
                 proc /proc proc rw 0 0\n\
                 short line\n";
    let mut mounts = parse_mount_table(table);
    mounts.sort();
    assert_eq!(mounts, vec!["/proc", "/sys/fs/cgroup"]);
}

#[test]
fn virtual_mounts_under_scan_root() {
    let table = "proc /proc proc rw 0 0\nsysfs /sys sysfs rw 0 0\n";
    let info = MountInfo::new(None, table, linux_fallback_paths()).unwrap();
    let present = vec![true, true, false, true, false, false];
    assert_eq!(info.get_virtual_mounts_under("/", &present), vec!["/proc", "/run", "/sys"]);
    assert_eq!(info.get_virtual_mounts_under("/sys", &present), vec!["/sys"]);
    assert!(info.get_virtual_mounts_under("/home", &present).is_empty());
}

#[test]
fn progress_every_tenth_and_last() {
    assert!(progress_due(10, 25));
    assert!(progress_due(25, 25));
    assert!(!progress_due(11, 25));
    assert!(progress_due(20, 25));
}

#[test]
fn root_validation_errors() {
    assert!(matches!(validate_path(false, false, false), Err(ScanError::PathNotFound)));
    assert!(matches!(validate_path(false, true, false), Err(ScanError::NotADirectory)));
    assert!(matches!(validate_path(true, false, false), Err(ScanError::PermissionDenied)));
    assert!(validate_path(false, true, true).is_ok());
}

#[test]
fn io_errors_map_to_scan_errors() {
    assert!(matches!(ScanError::from_io(IoKind::NotFound, String::new()), ScanError::PathNotFound));
    assert!(matches!(
        ScanError::from_io(IoKind::PermissionDenied, String::new()),
        ScanError::PermissionDenied
    ));
    let e = ScanError::from_io(IoKind::Other, "disk on fire".to_string());
    assert_eq!(e.message(), "IO error: disk on fire");
    assert_eq!(ScanError::Cancelled.message(), "Operation cancelled");
    assert_eq!(ScanError::NotADirectory.message(), "Path is not a directory");
}

#[test]
fn presets_and_defaults() {
    let d = DirectoryScanner::new();
    assert!(d.calculate_sha256 && !d.calculate_md5 && d.skip_virtual_filesystems && !d.stay_on_filesystem);
    assert!(d.needs_mount_table());
    let m = ScannerPresets::minimal();
    assert!(!m.calculate_sha256 && !m.calculate_md5);
    let c = ScannerPresets::complete();
    assert!(c.include_dotfiles && c.follow_symlinks && c.calculate_md5 && c.calculate_sha256);
    assert!(ScannerPresets::defaultmd5().calculate_md5);
    assert!(!ScannerPresets::defaultmd5().calculate_sha256);
    assert!(ScannerPresets::defaultsha256().calculate_sha256);
    assert!(!plain().needs_mount_table());
}

#[test]
fn mount_command_output_parsing() {
    let out = "/dev/disk3s1s1 on / (apfs, sealed, local, read-only, journaled)\n\
               devfs on /dev (devfs, local, nobrowse)\n\
               map auto_home on /System/Volumes/Data/home ( autofs , automounted, nobrowse)\n\
               garbage line\n";
    let mut points = directory_scanner::mounts::parse_mount_command_output(out);
    points.sort();
    assert_eq!(points, vec!["/System/Volumes/Data/home", "/dev"]);
    let info = MountInfo::with_mount_points(Some(3), vec!["/dev".into(), "/dev".into()], Vec::new());
    let mut m = Some(info);
    let files = DirectoryScanner::new().select_files(
        &vec![entry("/dev/null", 1, true, None), entry("/etc/hosts", 1, true, None)],
        &mut m,
    );
    assert_eq!(files.unwrap(), vec!["/etc/hosts"]);
}

fn dir(path: &str, depth: usize) -> WalkEntry {
    entry(path, depth, false, None)
}

#[test]
fn tree_scan_steps_build_a_sorted_tree() {
    use_tree_scan(plain(), 2);
}

fn use_tree_scan(s: DirectoryScanner, expected_children_of_b: usize) {
    let (mut scan, mut step) = TreeScan::start(&s, "r".to_string());
    let mut visited = Vec::new();
    let tree = loop {
        match step {
            TreeStep::Visit { path, depth } => {
                visited.push((path.clone(), depth));
                let (is_dir, listing) = match path.as_str() {
                    "r" => (true, vec![dir("r/b", 1), leaf_entry("r/C.txt", 1), leaf_entry("r/a.txt", 1), dir("r/.git", 1)]),
                    "r/b" => (true, vec![leaf_entry("r/b/Z", 2), leaf_entry("r/b/y", 2)]),
                    _ => (false, vec![]),
                };
                step = scan.answer(&s, is_dir, Ok(listing), &mut None);
            }
            TreeStep::Done(r) => break r.unwrap(),
        }
    };
    let names: Vec<&str> = tree.children.iter().map(|c| c.name.as_str()).collect();
    assert_eq!(names, vec!["a.txt", "b", "C.txt"]);
    assert_eq!(tree.children[1].children.len(), expected_children_of_b);
    if expected_children_of_b == 2 {
        assert_eq!(tree.children[1].children[0].name, "y");
        assert_eq!(tree.children[1].children[1].name, "Z");
    }
    assert!(visited.iter().all(|(_, d)| *d <= 2));
    assert_eq!(visited[0], ("r".to_string(), 0));
}

fn leaf_entry(path: &str, depth: usize) -> WalkEntry {
    entry(path, depth, true, None)
}

#[test]
fn tree_scan_respects_depth_limit() {
    use_tree_scan(plain().max_depth(0), 0);
    use_tree_scan(plain().max_depth(1), 2);
}

#[test]
fn tree_scan_skips_unreadable_directories() {
    let s = plain();
    let (mut scan, step) = TreeScan::start(&s, "r".to_string());
    assert!(matches!(step, TreeStep::Visit { .. }));
    let step = scan.answer(&s, true, Ok(vec![dir("r/locked", 1), leaf_entry("r/f", 1)]), &mut None);
    assert!(matches!(&step, TreeStep::Visit { path, depth: 1 } if path == "r/f"));
    let step = scan.answer(&s, false, Ok(vec![]), &mut None);
    assert!(matches!(&step, TreeStep::Visit { path, depth: 1 } if path == "r/locked"));
    let step = scan.answer(&s, true, Err(ScanError::PermissionDenied), &mut None);
    let skipped = scan.take_skipped();
    assert_eq!(skipped.len(), 1);
    assert_eq!(skipped[0].0, "r/locked");
    match step {
        TreeStep::Done(Ok(t)) => {
            assert_eq!(t.children.len(), 1);
            assert_eq!(t.children[0].name, "f");
        }
        other => panic!("unexpected step {:?}", other),
    }
}

#[test]
fn tree_scan_fails_on_unreadable_root_and_cancellation() {
    let s = plain();
    let (mut scan, _) = TreeScan::start(&s, "r".to_string());
    let step = scan.answer(&s, true, Err(ScanError::PermissionDenied), &mut None);
    assert!(matches!(step, TreeStep::Done(Err(ScanError::PermissionDenied))));
    let c = plain().cancellation_flag(Arc::new(AtomicBool::new(true)));
    let (mut scan, _) = TreeScan::start(&c, "r".to_string());
    let step = scan.answer(&c, true, Ok(vec![]), &mut None);
    assert!(matches!(step, TreeStep::Done(Err(ScanError::Cancelled))));
}
