use dirstat::record::PathInfo;
use dirstat::scanner::FsNode;
use dirstat::scanner::ScanState;
use dirstat::scanner::VisitOutcome;
use dirstat::scanner::run_scan;
use dirstat::table::table_get;
use dirstat::table::table_len;

fn path_of(parts: &[&str]) -> Vec<String> {
    parts.iter().map(|s| s.to_string()).collect()
}

fn info_of(
    size: u64,
    id: Option<(u64, u64)>,
    is_dir: bool,
    is_file: bool,
    is_symlink: bool,
) -> PathInfo {
    PathInfo {
        size_bytes: size,
        size_allocated_bytes: size,
        inode_device: id,
        times: (100, 200, 300),
        is_dir,
        is_file,
        is_symlink,
        owner_name: Some("someone".to_string()),
    }
}

fn dir_node(parts: &[&str], size: u64, id: u64, children: Vec<usize>) -> FsNode {
    FsNode {
        path: path_of(parts),
        info: Some(info_of(size, Some((id, 1)), true, false, false)),
        is_symlink: false,
        children,
    }
}

fn file_node(parts: &[&str], size: u64, id: u64) -> FsNode {
    FsNode {
        path: path_of(parts),
        info: Some(info_of(size, Some((id, 1)), false, true, false)),
        is_symlink: false,
        children: Vec::new(),
    }
}

#[test]
fn test_calculate_size_empty_directory() {
    let fs = vec![dir_node(&["tmp"], 4096, 1, vec![])];
    let state = run_scan(&fs, 0);
    let analytics = table_get(&state.table, &path_of(&["tmp"]))
        .expect("Path should be in the analytics map");
    assert!(
        analytics.size_bytes > 0,
        "Directory should have a size on Unix filesystems"
    );
    assert_eq!(analytics.entry_count, 1, "Should count itself as one entry");
    assert_eq!(analytics.file_count, 0, "Should have 0 files");
    assert_eq!(
        analytics.directory_count, 1,
        "Should count itself as one directory"
    );
}

#[test]
fn test_calculate_size_with_files() {
    let test_data = "Hello, world!";
    let fs = vec![
        dir_node(&["tmp"], 4096, 1, vec![1]),
        file_node(&["tmp", "test_file.txt"], test_data.len() as u64, 2),
    ];
    let state = run_scan(&fs, 0);
    let analytics = table_get(&state.table, &path_of(&["tmp"]))
        .expect("Path should be in the analytics map");
    assert!(
        analytics.size_bytes >= test_data.len() as u64,
        "Directory size should include the file size"
    );
    assert_eq!(analytics.entry_count, 2, "Should count itself and one file");
    assert_eq!(analytics.file_count, 1, "Should have 1 file");
    assert_eq!(
        analytics.directory_count, 1,
        "Should count itself as one directory"
    );
}

#[test]
fn test_calculate_size_with_subdirectories() {
    let test_data = "Hello, nested world!";
    let root_test_data = "Root data";
    let fs = vec![
        dir_node(&["tmp"], 4096, 1, vec![1, 3]),
        dir_node(&["tmp", "subdir"], 4096, 2, vec![2]),
        file_node(&["tmp", "subdir", "test_file.txt"], test_data.len() as u64, 3),
        file_node(&["tmp", "root_file.txt"], root_test_data.len() as u64, 4),
    ];
    let state = run_scan(&fs, 0);
    let root_analytics = table_get(&state.table, &path_of(&["tmp"]))
        .expect("Root path should be in the analytics map");
    let expected_size = (test_data.len() + root_test_data.len()) as u64;
    assert!(
        root_analytics.size_bytes >= expected_size,
        "Directory size should include all files and subdirectories"
    );
    assert_eq!(
        root_analytics.entry_count, 4,
        "Should count root dir, subdir, and 2 files"
    );
    assert_eq!(root_analytics.file_count, 2, "Should have 2 files");
    assert_eq!(
        root_analytics.directory_count, 2,
        "Should count root and subdirectory"
    );
    let subdir_analytics = table_get(&state.table, &path_of(&["tmp", "subdir"]))
        .expect("Subdir path should be in the analytics map");
    assert!(
        subdir_analytics.size_bytes >= test_data.len() as u64,
        "Subdirectory size should include its file size"
    );
    assert_eq!(
        subdir_analytics.entry_count, 2,
        "Should count subdir and its file"
    );
    assert_eq!(subdir_analytics.file_count, 1, "Should have 1 file");
    assert_eq!(
        subdir_analytics.directory_count, 1,
        "Should count itself as one directory"
    );
}

#[test]
fn test_calculate_size_with_symlink() {
    let test_data = "Hello, world!";
    // The symlink is stat-ed through, so its snapshot describes the target
    // file, identity included.
    let fs = vec![
        dir_node(&["tmp"], 4096, 1, vec![1, 2]),
        file_node(&["tmp", "test_file.txt"], test_data.len() as u64, 2),
        FsNode {
            path: path_of(&["tmp", "test_symlink"]),
            info: Some(info_of(test_data.len() as u64, Some((2, 1)), false, true, false)),
            is_symlink: true,
            children: Vec::new(),
        },
    ];
    let state = run_scan(&fs, 0);
    let analytics = table_get(&state.table, &path_of(&["tmp"]))
        .expect("Path should be in the analytics map");
    assert!(
        analytics.entry_count >= 2,
        "Should count at least the directory and file"
    );
    assert_eq!(
        analytics.file_count, 1,
        "Should count only the actual file, not the symlink as a file"
    );
}

#[test]
fn test_cycle_symlink_to_ancestor() {
    // A symlink back to the root: same identity, seen again.
    let fs = vec![
        dir_node(&["r"], 4096, 1, vec![1]),
        FsNode {
            path: path_of(&["r", "loop"]),
            info: Some(info_of(4096, Some((1, 1)), true, false, false)),
            is_symlink: true,
            children: Vec::new(),
        },
    ];
    let state = run_scan(&fs, 0);
    // The walk terminated and the ancestor's contents were not re-counted.
    assert_eq!(table_len(&state.table), 1);
    let root = table_get(&state.table, &path_of(&["r"])).unwrap();
    assert_eq!(root.entry_count, 1);
    assert_eq!(root.directory_count, 1);
    assert_eq!(root.size_bytes, 4096);
}

#[test]
fn test_duplicate_identity_skipped() {
    let mut state = ScanState::new();
    let first = state.begin_visit(
        &path_of(&["r", "a"]),
        &Some(info_of(10, Some((9, 9)), false, true, false)),
        false,
    );
    assert_eq!(first, VisitOutcome::Leaf);
    let second = state.begin_visit(
        &path_of(&["r", "b"]),
        &Some(info_of(10, Some((9, 9)), false, true, false)),
        false,
    );
    assert_eq!(second, VisitOutcome::DuplicateIdentity);
    assert!(table_get(&state.table, &path_of(&["r", "b"])).is_none());
}

#[test]
fn test_hardlinks_counted_once() {
    // Two paths to one physical file: the first keeps a record; the
    // second is deduplicated and contributes nothing, so the totals
    // reflect one copy in size and counts alike.
    let fs = vec![
        dir_node(&["r"], 4096, 1, vec![1, 2]),
        file_node(&["r", "a"], 100, 5),
        file_node(&["r", "b"], 100, 5),
    ];
    let state = run_scan(&fs, 0);
    let root = table_get(&state.table, &path_of(&["r"])).unwrap();
    assert_eq!(root.size_bytes, 4196, "total size reflects one copy");
    assert_eq!(root.file_count, 1, "the object is counted once");
    assert_eq!(root.entry_count, 2);
    assert!(table_get(&state.table, &path_of(&["r", "a"])).is_some());
    assert!(
        table_get(&state.table, &path_of(&["r", "b"])).is_none(),
        "only the first-discovered path retains a record"
    );
}

#[test]
fn test_concrete_scenario_rollup() {
    // Root r holds a.txt (10 bytes) and sub/b.txt (20 bytes).
    let fs = vec![
        dir_node(&["r"], 4096, 1, vec![1, 2]),
        file_node(&["r", "a.txt"], 10, 2),
        dir_node(&["r", "sub"], 4096, 3, vec![3]),
        file_node(&["r", "sub", "b.txt"], 20, 4),
    ];
    let state = run_scan(&fs, 0);
    let sub = table_get(&state.table, &path_of(&["r", "sub"])).unwrap();
    assert!(sub.size_bytes >= 20);
    assert_eq!(sub.entry_count, 2);
    assert_eq!(sub.file_count, 1);
    let root = table_get(&state.table, &path_of(&["r"])).unwrap();
    assert_eq!(root.directory_count, 2);
    assert_eq!(root.file_count, 2);
    assert_eq!(root.entry_count, 4);
    assert_eq!(root.size_bytes, 4096 + 10 + 4096 + 20);
}

#[test]
fn test_unreadable_path_contributes_nothing() {
    let fs = vec![
        dir_node(&["r"], 4096, 1, vec![1, 2]),
        FsNode {
            path: path_of(&["r", "denied"]),
            info: None,
            is_symlink: false,
            children: Vec::new(),
        },
        file_node(&["r", "ok.txt"], 50, 3),
    ];
    let state = run_scan(&fs, 0);
    let root = table_get(&state.table, &path_of(&["r"])).unwrap();
    assert_eq!(root.size_bytes, 4146);
    assert_eq!(root.entry_count, 2);
    assert_eq!(root.file_count, 1);
    assert!(table_get(&state.table, &path_of(&["r", "denied"])).is_none());
}

#[test]
fn test_duplicate_path_skipped() {
    let mut state = ScanState::new();
    let first = state.begin_visit(
        &path_of(&["r", "a"]),
        &Some(info_of(10, Some((9, 9)), false, true, false)),
        false,
    );
    assert_eq!(first, VisitOutcome::Leaf);
    // The same path offered again, even with fresh metadata, is not retaken.
    let again = state.begin_visit(
        &path_of(&["r", "a"]),
        &Some(info_of(99, Some((8, 8)), false, true, false)),
        false,
    );
    assert_eq!(again, VisitOutcome::AlreadyProcessed);
    let rec = table_get(&state.table, &path_of(&["r", "a"])).unwrap();
    assert_eq!(rec.size_bytes, 10, "the first record is kept");
}
