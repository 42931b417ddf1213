use dirstat::paths::name_of;
use dirstat::project::project_tree;
use dirstat::record::AggregateRecord;
use dirstat::tree::TreeNode;
use dirstat::tree::percent_of;
use dirstat::tree::u64_to_string;

fn proj_path(parts: &[&str]) -> Vec<String> {
    parts.iter().map(|s| s.to_string()).collect()
}

fn rec(parts: &[&str], size: u64, entries: u64, files: u64, dirs: u64) -> AggregateRecord {
    AggregateRecord {
        path: proj_path(parts),
        size_bytes: size,
        size_allocated_bytes: size,
        entry_count: entries,
        file_count: files,
        directory_count: dirs,
        last_modified_time: 7,
        owner_name: None,
    }
}

fn sample_entries() -> Vec<AggregateRecord> {
    vec![
        rec(&["r"], 4156, 7, 3, 3),
        rec(&["r", "s1"], 4096, 1, 0, 1),
        rec(&["r", "s2"], 4096, 1, 0, 1),
        rec(&["r", "f1"], 30, 1, 1, 0),
        rec(&["r", "f2"], 10, 1, 1, 0),
        rec(&["r", "f3"], 20, 1, 1, 0),
    ]
}

fn trees_equal(a: &TreeNode, b: &TreeNode) -> bool {
    a.path == b.path && a.name == b.name && a.size_bytes == b.size_bytes
        && a.size_allocated_bytes == b.size_allocated_bytes && a.entry_count == b.entry_count
        && a.file_count == b.file_count && a.directory_count == b.directory_count
        && a.percent_of_parent == b.percent_of_parent
        && a.last_modified_time == b.last_modified_time && a.owner_name == b.owner_name
        && a.is_virtual_directory == b.is_virtual_directory
        && a.children.len() == b.children.len()
        && a.children.iter().zip(b.children.iter()).all(|(x, y)| trees_equal(x, y))
}

#[test]
fn test_loose_file_grouping() {
    let entries = sample_entries();
    let t = project_tree(&entries, &proj_path(&["r"]), 1, true).unwrap();
    assert_eq!(t.children.len(), 3, "2 real directories + 1 synthetic node");
    let virt: Vec<&TreeNode> = t.children.iter().filter(|c| c.is_virtual_directory).collect();
    assert_eq!(virt.len(), 1);
    let v = virt[0];
    assert_eq!(v.name, "[3 Files]");
    assert_eq!(v.size_bytes, 60, "size equals the sum of the 3 files");
    assert_eq!(v.file_count, 3);
    assert_eq!(v.children.len(), 3);
    let sizes: Vec<u64> = v.children.iter().map(|c| c.size_bytes).collect();
    assert_eq!(sizes, vec![30, 20, 10], "grouped files sorted descending");
    assert_eq!(v.path, proj_path(&["r Files"]), "a non-colliding synthetic sibling path");
}

#[test]
fn test_grouping_disabled_five_children() {
    let entries = sample_entries();
    let t = project_tree(&entries, &proj_path(&["r"]), 1, false).unwrap();
    assert_eq!(t.children.len(), 5);
    assert!(t.children.iter().all(|c| !c.is_virtual_directory));
}

#[test]
fn test_grouping_skipped_without_loose_children() {
    let entries = vec![
        rec(&["r"], 8192, 2, 0, 2),
        rec(&["r", "s1"], 4096, 1, 0, 1),
    ];
    let t = project_tree(&entries, &proj_path(&["r"]), 1, true).unwrap();
    assert_eq!(t.children.len(), 1);
    assert!(!t.children[0].is_virtual_directory);
}

#[test]
fn test_projection_idempotent() {
    let entries = sample_entries();
    let t1 = project_tree(&entries, &proj_path(&["r"]), 2, true).unwrap();
    let t2 = project_tree(&entries, &proj_path(&["r"]), 2, true).unwrap();
    assert!(trees_equal(&t1, &t2), "same ordering, same percentages");
}

#[test]
fn test_projection_missing_focus() {
    let entries = sample_entries();
    assert!(project_tree(&entries, &proj_path(&["elsewhere"]), 1, true).is_none());
}

#[test]
fn test_children_sorted_descending_with_percentages() {
    let entries = vec![
        rec(&["r"], 200, 4, 3, 1),
        rec(&["r", "a"], 50, 1, 1, 0),
        rec(&["r", "b"], 100, 1, 1, 0),
        rec(&["r", "c"], 40, 1, 1, 0),
    ];
    let t = project_tree(&entries, &proj_path(&["r"]), 1, false).unwrap();
    let sizes: Vec<u64> = t.children.iter().map(|c| c.size_bytes).collect();
    assert_eq!(sizes, vec![100, 50, 40]);
    let percents: Vec<u64> = t.children.iter().map(|c| c.percent_of_parent).collect();
    assert_eq!(percents, vec![50, 25, 20]);
    assert_eq!(t.percent_of_parent, 100);
    assert_eq!(t.name, "r");
}

#[test]
fn test_sort_stable_on_ties() {
    let entries = vec![
        rec(&["r"], 30, 3, 2, 1),
        rec(&["r", "x"], 10, 1, 1, 0),
        rec(&["r", "y"], 10, 1, 1, 0),
    ];
    let t = project_tree(&entries, &proj_path(&["r"]), 1, false).unwrap();
    let names: Vec<&str> = t.children.iter().map(|c| c.name.as_str()).collect();
    assert_eq!(names, vec!["x", "y"], "equal sizes keep discovery order");
}

#[test]
fn test_depth_limit() {
    let entries = vec![
        rec(&["r"], 100, 3, 1, 2),
        rec(&["r", "s"], 90, 2, 1, 1),
        rec(&["r", "s", "f"], 80, 1, 1, 0),
    ];
    let shallow = project_tree(&entries, &proj_path(&["r"]), 0, false).unwrap();
    assert_eq!(shallow.children.len(), 0, "depth 0 is just the focus node");
    let one = project_tree(&entries, &proj_path(&["r"]), 1, false).unwrap();
    assert_eq!(one.children.len(), 1);
    assert_eq!(one.children[0].children.len(), 0);
    let two = project_tree(&entries, &proj_path(&["r"]), 2, false).unwrap();
    assert_eq!(two.children[0].children.len(), 1);
    assert_eq!(two.children[0].children[0].name, "f");
}

#[test]
fn test_percent_values() {
    assert_eq!(percent_of(50, 200), 25);
    assert_eq!(percent_of(0, 200), 0);
    assert_eq!(percent_of(5, 0), 0);
    assert_eq!(percent_of(1, 3), 33);
    assert_eq!(percent_of(200, 200), 100);
}

#[test]
fn test_decimal_rendering() {
    assert_eq!(u64_to_string(0), "0");
    assert_eq!(u64_to_string(7), "7");
    assert_eq!(u64_to_string(10), "10");
    assert_eq!(u64_to_string(123456789), "123456789");
    assert_eq!(u64_to_string(u64::MAX), "18446744073709551615");
}

#[test]
fn test_name_of_path() {
    assert_eq!(name_of(&proj_path(&["a", "b"])), "b");
    assert_eq!(name_of(&proj_path(&[])), "unknown");
}
