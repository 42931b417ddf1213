use dirstat::cache::CacheSlot;
use dirstat::cache::QueryError;
use dirstat::cache::make_cache;
use dirstat::index::build_indices;
use dirstat::index::project_from_indices;
use dirstat::meta::DiskInfo;
use dirstat::meta::fast_path_ok;
use dirstat::meta::get_block_size;
use dirstat::meta::get_free_space;
use dirstat::meta::get_space_info;
use dirstat::meta::list_disks;
use dirstat::meta::owner_label;
use dirstat::meta::owner_name_for_uid;
use dirstat::meta::select_disk;
use dirstat::ntfs::MftEntry;
use dirstat::ntfs::RecordError;
use dirstat::ntfs::file_record_size;
use dirstat::ntfs::mft_byte_offset;
use dirstat::ntfs::parse_boot_record;
use dirstat::ntfs::parse_file_record;
use dirstat::ntfs::resolve_file_in_records;
use dirstat::ntfs::windows_time_to_unix_time;
use dirstat::project::project_tree;
use dirstat::record::AggregateRecord;

fn cp_path(parts: &[&str]) -> Vec<String> {
    parts.iter().map(|s| s.to_string()).collect()
}

fn cp_rec(parts: &[&str], size: u64, entries: u64, files: u64, dirs: u64) -> AggregateRecord {
    AggregateRecord {
        path: cp_path(parts),
        size_bytes: size,
        size_allocated_bytes: size,
        entry_count: entries,
        file_count: files,
        directory_count: dirs,
        last_modified_time: 7,
        owner_name: None,
    }
}

fn cp_entries() -> Vec<AggregateRecord> {
    vec![
        cp_rec(&["r"], 4156, 7, 3, 3),
        cp_rec(&["r", "s1"], 4096, 1, 0, 1),
        cp_rec(&["r", "s2"], 4097, 1, 0, 1),
        cp_rec(&["r", "f1"], 30, 1, 1, 0),
        cp_rec(&["r", "f2"], 10, 1, 1, 0),
        cp_rec(&["r", "f3"], 20, 1, 1, 0),
    ]
}

#[test]
fn test_build_indices_contents() {
    let entries = cp_entries();
    let (ppairs, kpairs) = build_indices(&entries, &cp_path(&["r"]));
    assert_eq!(ppairs.len(), entries.len());
    for (i, pair) in ppairs.iter().enumerate() {
        assert_eq!(pair.0, entries[i].path);
        assert_eq!(pair.1, i);
    }
    let bucket = kpairs
        .iter()
        .find(|p| p.0 == cp_path(&["r"]))
        .map(|p| p.1.clone())
        .expect("the root must have a child bucket");
    // Children of r, largest first: s2 (4097), s1 (4096), f1 (30), f3 (20), f2 (10).
    assert_eq!(bucket, vec![2, 1, 3, 5, 4]);
}

#[test]
fn test_indexed_projection_matches_full_projection() {
    let entries = cp_entries();
    let (ppairs, kpairs) = build_indices(&entries, &cp_path(&["r"]));
    let a = project_from_indices(&entries, &ppairs, &kpairs, &cp_path(&["r"]), 1, true).unwrap();
    let b = project_tree(&entries, &cp_path(&["r"]), 1, true).unwrap();
    assert_eq!(a.size_bytes, b.size_bytes);
    assert_eq!(a.children.len(), b.children.len());
    for (x, y) in a.children.iter().zip(b.children.iter()) {
        assert_eq!(x.path, y.path);
        assert_eq!(x.size_bytes, y.size_bytes);
        assert_eq!(x.percent_of_parent, y.percent_of_parent);
        assert_eq!(x.is_virtual_directory, y.is_virtual_directory);
    }
}

#[test]
fn test_cache_scope_errors() {
    let mut slot = CacheSlot::new();
    // Before any scan: no data.
    assert!(matches!(slot.query(&cp_path(&["r"])), Err(QueryError::NoScanData)));
    let g = slot.begin_scan();
    let cache = make_cache(cp_path(&["r"]), cp_entries());
    assert!(slot.install(g, cache));
    // A path outside the scanned root is a scope error.
    assert!(matches!(slot.query(&cp_path(&["other"])), Err(QueryError::OutOfScope)));
    // A path in scope with no record is not found.
    assert!(matches!(
        slot.query(&cp_path(&["r", "missing"])),
        Err(QueryError::NotFound)
    ));
    // The root itself is served.
    let t = slot.query(&cp_path(&["r"])).unwrap();
    assert_eq!(t.size_bytes, 4156);
    assert_eq!(t.children.len(), 3);
}

#[test]
fn test_cache_generation_discards_stale() {
    let mut slot = CacheSlot::new();
    let g1 = slot.begin_scan();
    let g2 = slot.begin_scan();
    assert!(g2 > g1);
    let stale = make_cache(cp_path(&["old"]), vec![cp_rec(&["old"], 1, 1, 0, 1)]);
    assert!(!slot.install(g1, stale), "a superseded scan's result is dropped");
    assert!(matches!(slot.query(&cp_path(&["old"])), Err(QueryError::NoScanData)));
    let fresh = make_cache(cp_path(&["new"]), vec![cp_rec(&["new"], 1, 1, 0, 1)]);
    assert!(slot.install(g2, fresh));
    assert!(slot.query(&cp_path(&["new"])).is_ok());
}

#[test]
fn test_clear_scan_cache() {
    let mut slot = CacheSlot::new();
    let g = slot.begin_scan();
    let cache = make_cache(cp_path(&["r"]), cp_entries());
    assert!(slot.install(g, cache));
    assert!(slot.query(&cp_path(&["r"])).is_ok());
    slot.clear();
    assert!(matches!(slot.query(&cp_path(&["r"])), Err(QueryError::NoScanData)));
}

fn put16(b: &mut [u8], off: usize, v: u16) {
    b[off] = (v & 0xff) as u8;
    b[off + 1] = (v >> 8) as u8;
}

fn put32(b: &mut [u8], off: usize, v: u32) {
    put16(b, off, (v & 0xffff) as u16);
    put16(b, off + 2, (v >> 16) as u16);
}

fn put64(b: &mut [u8], off: usize, v: u64) {
    put32(b, off, (v & 0xffff_ffff) as u32);
    put32(b, off + 4, (v >> 32) as u32);
}

#[test]
fn test_parse_boot_record_fields() {
    let mut b = vec![0u8; 512];
    b[3..11].copy_from_slice(b"NTFS    ");
    put16(&mut b, 11, 512);
    b[13] = 8;
    put64(&mut b, 40, 1_000_000);
    put64(&mut b, 48, 4);
    b[64] = (-10i8) as u8;
    put64(&mut b, 72, 0xDEADBEEF);
    let r = parse_boot_record(&b).expect("valid boot sector");
    assert_eq!(r.bytes_per_sector, 512);
    assert_eq!(r.sectors_per_cluster, 8);
    assert_eq!(r.total_sectors, 1_000_000);
    assert_eq!(r.mft_logical_cluster_number, 4);
    assert_eq!(r.clusters_per_file_record_segment, -10);
    assert_eq!(r.volume_serial_number, 0xDEADBEEF);
}

#[test]
fn test_parse_boot_record_rejects() {
    assert!(parse_boot_record(&[0u8; 16]).is_none(), "too short");
    let mut b = vec![0u8; 512];
    b[3..11].copy_from_slice(b"EXFAT   ");
    assert!(parse_boot_record(&b).is_none(), "wrong signature");
}

#[test]
fn test_parse_file_record_fields() {
    let mut b = vec![0u8; 1024];
    b[0..4].copy_from_slice(b"FILE");
    put16(&mut b, 20, 56); // attributes start
    put16(&mut b, 22, 0x0001); // in use, not a directory
    // File-name attribute at 56, resident, content at 56 + 24 = 80.
    put32(&mut b, 56, 0x30);
    put32(&mut b, 60, 112);
    b[64] = 0; // resident
    put16(&mut b, 76, 24);
    put64(&mut b, 80, (7u64 << 48) | 5); // parent: root, with sequence bits
    b[144] = 4; // name length in characters
    let name: [u16; 4] = [0x61, 0x62, 0x63, 0x64];
    for (i, u) in name.iter().enumerate() {
        put16(&mut b, 146 + 2 * i, *u);
    }
    // Resident data attribute at 168 with a 13-byte stream.
    put32(&mut b, 168, 0x80);
    put32(&mut b, 172, 24);
    b[176] = 0; // resident
    put32(&mut b, 184, 13);
    // End marker.
    put32(&mut b, 192, 0xFFFF_FFFF);
    let r = parse_file_record(&b).expect("valid record");
    assert!(!r.is_directory);
    assert!(!r.is_deleted, "the in-use bit is set");
    assert_eq!(r.file_size, 13);
    assert_eq!(r.allocated_size, 13);
    assert_eq!(r.file_name, vec!['a', 'b', 'c', 'd']);
    assert_eq!(r.parent_directory_reference & 0x0000_FFFF_FFFF_FFFF, 5);
}

#[test]
fn test_parse_file_record_bad_signature() {
    let mut b = vec![0u8; 1024];
    b[0..4].copy_from_slice(b"BAAD");
    assert!(matches!(parse_file_record(&b), Err(RecordError::InvalidSignature)));
    assert!(matches!(parse_file_record(&[0u8; 8]), Err(RecordError::InvalidSignature)));
}

fn mft(index: u64, name: &str, parent: u64, is_directory: bool, size: u64) -> MftEntry {
    MftEntry {
        index,
        name: name.chars().collect(),
        parent,
        is_directory,
        file_size: size,
        allocated_size: size + 1,
    }
}

#[test]
fn test_resolve_candidates_by_parent_chain() {
    let recs = vec![
        mft(6, "sub", 5, true, 0),
        mft(7, "other", 5, true, 0),
        mft(40, "x.txt", (3u64 << 48) | 6, false, 111),
        mft(41, "x.txt", (9u64 << 48) | 7, false, 222),
    ];
    let comps: Vec<Vec<char>> = vec!["sub".chars().collect(), "x.txt".chars().collect()];
    assert_eq!(resolve_file_in_records(&recs, &comps), Some((111, 112)));
    let comps2: Vec<Vec<char>> = vec!["other".chars().collect(), "x.txt".chars().collect()];
    assert_eq!(resolve_file_in_records(&recs, &comps2), Some((222, 223)));
    let comps3: Vec<Vec<char>> = vec!["sub".chars().collect(), "y.txt".chars().collect()];
    assert_eq!(resolve_file_in_records(&recs, &comps3), None);
}

#[test]
fn test_resolve_single_candidate_trusted() {
    // With a single candidate, it is returned without walking its chain.
    let recs = vec![
        mft(6, "sub", 5, true, 0),
        mft(50, "only.txt", (1u64 << 48) | 6, false, 333),
    ];
    let comps: Vec<Vec<char>> = vec!["nomatch".chars().collect(), "only.txt".chars().collect()];
    assert_eq!(resolve_file_in_records(&recs, &comps), Some((333, 334)));
}

#[test]
fn test_windows_time_conversion() {
    assert_eq!(windows_time_to_unix_time(0), -11644473600);
    assert_eq!(windows_time_to_unix_time(116444736000000000), 0);
    assert_eq!(windows_time_to_unix_time(116444736010000000), 1);
    assert_eq!(windows_time_to_unix_time(116444735990000000), -1);
}

#[test]
fn test_record_geometry() {
    assert_eq!(file_record_size(-2), 256);
    assert_eq!(file_record_size(-10), 1);
    assert_eq!(file_record_size(1), 1024);
    assert_eq!(file_record_size(2), 2048);
    assert_eq!(mft_byte_offset(4, 4096), 16384);
    assert_eq!(mft_byte_offset(u64::MAX, 2), u64::MAX, "clamped");
}

#[test]
fn test_fast_path_heuristic() {
    assert!(fast_path_ok(0x20), "archive file");
    assert!(fast_path_ok(0x10), "directory");
    assert!(fast_path_ok(0x80), "normal file");
    assert!(fast_path_ok(0x22), "hidden archive file");
    assert!(!fast_path_ok(0x20 | 0x200), "sparse file needs the expensive path");
    assert!(!fast_path_ok(0x10 | 0x1000), "offline directory needs the expensive path");
    assert!(!fast_path_ok(0x40), "unknown attribute word");
}

#[test]
fn test_owner_label() {
    assert_eq!(
        owner_label(7, Some("someone".to_string())),
        Some("someone".to_string())
    );
    assert_eq!(owner_label(7, None), Some("<deleted user 7>".to_string()));
}

#[test]
fn test_owner_lookup_runs() {
    assert_eq!(owner_name_for_uid(0), Some("root".to_string()));
    assert!(owner_name_for_uid(4_000_000_000).is_some());
}

#[test]
fn test_block_size() {
    assert_eq!(get_block_size(), 512);
}

#[test]
fn test_select_disk() {
    let disks = vec![
        DiskInfo { mount_point: cp_path(&["/", "data"]), total_space: 100, available_space: 30 },
        DiskInfo { mount_point: cp_path(&["/"]), total_space: 500, available_space: 400 },
    ];
    assert_eq!(
        select_disk(&disks, &cp_path(&["/", "data", "x"])),
        Some((100, 30, 70))
    );
    assert_eq!(select_disk(&disks, &cp_path(&["/", "home"])), Some((500, 400, 100)));
    assert_eq!(select_disk(&Vec::new(), &cp_path(&["/", "x"])), None);
    assert_eq!(get_free_space(Some((100, 30, 70))), Some(30));
    assert_eq!(get_free_space(None), None);
}

#[test]
fn test_space_info_runs() {
    let disks = list_disks();
    let root: Vec<String> = if disks.is_empty() {
        Vec::new()
    } else {
        disks[0].mount_point.clone()
    };
    if let Some((total, _available, used)) = get_space_info(&root, false) {
        assert!(used <= total);
    }
}
