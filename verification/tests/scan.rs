use disk_cleanup_tool::scanner::{
    add_walk_totals, first_pass, scan_directory, scan_fits, summarize_subtree, DirectoryEntry,
    EntryType, ScanConfig, ScanError, WalkEntry, WalkKind,
};

fn dir(path: &str) -> WalkEntry {
    WalkEntry { path: path.to_string(), kind: WalkKind::Dir, size: None }
}

fn file(path: &str, size: u64) -> WalkEntry {
    WalkEntry { path: path.to_string(), kind: WalkKind::File, size: Some(size) }
}

fn config(root: &str, temp_only: bool) -> ScanConfig {
    ScanConfig { root_path: root.to_string(), temp_only }
}

fn find<'a>(entries: &'a [DirectoryEntry], path: &str) -> &'a DirectoryEntry {
    entries.iter().find(|e| e.path == path).unwrap()
}

#[test]
fn test_scan_simple_directory() {
    let walk = vec![dir("/data/root"), file("/data/root/file1.txt", 5), file("/data/root/file2.txt", 5)];
    let result = scan_directory(&config("/data/root", false), true, &walk, &vec![]).unwrap();

    // Should have at least the root directory
    assert!(!result.is_empty());
    let root_entry = find(&result, "/data/root");
    assert_eq!(root_entry.file_count, 2);
    assert_eq!(root_entry.size_bytes, 10); // "hello" + "world"
    assert_eq!(root_entry.cumulative_file_count, 2);
    assert_eq!(root_entry.cumulative_size_bytes, 10);
    assert_eq!(result.len(), 1);
    assert_eq!(root_entry.entry_type, EntryType::Normal);
}

#[test]
fn test_scan_with_temp_directory() {
    let walk = vec![
        dir("/data/root"),
        file("/data/root/main.js", 4),
        dir("/data/root/node_modules"),
        file("/data/root/node_modules/package.json", 2),
    ];
    let root = "/data/root".to_string();
    let (_, queue) = first_pass(&root, &walk);
    assert_eq!(queue, vec!["/data/root/node_modules".to_string()]);
    let temp_walks =
        vec![vec![dir("/data/root/node_modules"), file("/data/root/node_modules/package.json", 2)]];
    let result = scan_directory(&config("/data/root", false), true, &walk, &temp_walks).unwrap();

    // Find node_modules entry
    let node_modules = result.iter().find(|e| e.path.ends_with("/node_modules"));
    assert!(node_modules.is_some(), "node_modules not found in results");
    let node_modules = node_modules.unwrap();
    assert_eq!(node_modules.entry_type, EntryType::Temp);
    assert_eq!(node_modules.file_count, 1);
    assert_eq!(node_modules.size_bytes, 2);
    assert_eq!(node_modules.cumulative_file_count, 1);
    assert_eq!(node_modules.cumulative_size_bytes, 2);

    // Check root includes temp directory
    let root_entry = find(&result, "/data/root");
    assert_eq!(root_entry.cumulative_file_count, 2); // main.js + package.json
    assert_eq!(root_entry.cumulative_size_bytes, 6); // "code" + "{}"
    assert_eq!(root_entry.file_count, 1);
    assert_eq!(root_entry.size_bytes, 4);
    // largest first
    assert_eq!(result[0].path, "/data/root");
    assert_eq!(result[1].path, "/data/root/node_modules");
}

#[test]
fn test_temp_only_filter() {
    let walk = vec![
        dir("/data/root"),
        dir("/data/root/node_modules"),
        file("/data/root/node_modules/file.js", 1),
        dir("/data/root/src"),
        file("/data/root/src/main.rs", 12),
    ];
    let temp_walks =
        vec![vec![dir("/data/root/node_modules"), file("/data/root/node_modules/file.js", 1)]];
    let result = scan_directory(&config("/data/root", true), true, &walk, &temp_walks).unwrap();

    // Should only have temp directories
    assert!(result.iter().all(|e| matches!(e.entry_type, EntryType::Temp)));
    assert!(result.iter().any(|e| e.path.ends_with("node_modules")));
    assert_eq!(result.len(), 1);

    let all = scan_directory(&config("/data/root", false), true, &walk, &temp_walks).unwrap();
    assert_eq!(all.len(), 3);
    assert!(result.len() <= all.len());
}

#[test]
fn test_nonexistent_path() {
    let result = scan_directory(
        &config("/nonexistent/path/that/does/not/exist", false),
        false,
        &vec![],
        &vec![],
    );
    assert!(matches!(result, Err(ScanError::PathNotFound { .. })));
    match result {
        Err(ScanError::PathNotFound { path }) => {
            assert_eq!(path, "/nonexistent/path/that/does/not/exist")
        }
        _ => panic!("expected PathNotFound"),
    }
}

#[test]
fn nonexistent_root_ignores_any_walk() {
    let walk = vec![dir("/data/root"), file("/data/root/a", 1)];
    let result = scan_directory(&config("/data/root", false), false, &walk, &vec![]);
    assert!(matches!(result, Err(ScanError::PathNotFound { .. })));
}

#[test]
fn root_with_only_a_temp_directory() {
    let walk = vec![
        dir("/data/root"),
        dir("/data/root/node_modules"),
        file("/data/root/node_modules/package.json", 2),
    ];
    let temp_walks =
        vec![vec![dir("/data/root/node_modules"), file("/data/root/node_modules/package.json", 2)]];
    let result = scan_directory(&config("/data/root", false), true, &walk, &temp_walks).unwrap();
    let root_entry = find(&result, "/data/root");
    assert_eq!(root_entry.size_bytes, 0);
    assert_eq!(root_entry.file_count, 0);
    assert_eq!(root_entry.cumulative_size_bytes, 2);
    assert_eq!(root_entry.cumulative_file_count, 1);
    let node_modules = find(&result, "/data/root/node_modules");
    assert_eq!(node_modules.entry_type, EntryType::Temp);
    assert_eq!(node_modules.size_bytes, 2);
    assert_eq!(node_modules.cumulative_size_bytes, 2);
    assert_eq!(node_modules.file_count, 1);
    assert_eq!(node_modules.cumulative_file_count, 1);
}

#[test]
fn empty_root_is_still_an_entry() {
    let walk = vec![dir("/data/root")];
    let result = scan_directory(&config("/data/root", false), true, &walk, &vec![]).unwrap();
    assert_eq!(result.len(), 1);
    assert_eq!(result[0].path, "/data/root");
    assert_eq!(result[0].file_count, 0);
    assert_eq!(result[0].cumulative_size_bytes, 0);
}

#[test]
fn files_count_for_their_immediate_parent_only() {
    let walk = vec![
        dir("/r"),
        file("/r/a.txt", 1),
        dir("/r/x"),
        file("/r/x/b.txt", 10),
        dir("/r/x/y"),
        file("/r/x/y/c.txt", 100),
        file("/r/x/y/d.txt", 1000),
        dir("/r/z"),
    ];
    let result = scan_directory(&config("/r", false), true, &walk, &vec![]).unwrap();
    assert_eq!(result.len(), 4);
    let r = find(&result, "/r");
    let x = find(&result, "/r/x");
    let y = find(&result, "/r/x/y");
    let z = find(&result, "/r/z");
    assert_eq!((r.file_count, r.size_bytes), (1, 1));
    assert_eq!((x.file_count, x.size_bytes), (1, 10));
    assert_eq!((y.file_count, y.size_bytes), (2, 1100));
    assert_eq!((z.file_count, z.size_bytes), (0, 0));
    assert_eq!((y.cumulative_file_count, y.cumulative_size_bytes), (2, 1100));
    assert_eq!((x.cumulative_file_count, x.cumulative_size_bytes), (3, 1110));
    assert_eq!((r.cumulative_file_count, r.cumulative_size_bytes), (4, 1111));
    assert_eq!((z.cumulative_file_count, z.cumulative_size_bytes), (0, 0));
    // ranked by cumulative size, largest first
    let order: Vec<&str> = result.iter().map(|e| e.path.as_str()).collect();
    assert_eq!(order, vec!["/r", "/r/x", "/r/x/y", "/r/z"]);
    // every entry: cumulative = direct + cumulative of its children
    for d in &result {
        let children: u64 = result
            .iter()
            .filter(|c| std::path::Path::new(&c.path).parent() == Some(std::path::Path::new(&d.path)))
            .map(|c| c.cumulative_size_bytes)
            .sum();
        assert_eq!(d.cumulative_size_bytes, d.size_bytes + children);
        assert!(d.cumulative_size_bytes >= d.size_bytes);
        assert!(d.cumulative_file_count >= d.file_count);
    }
}

#[test]
fn unreadable_and_other_entries_do_not_count() {
    let walk = vec![
        dir("/r"),
        WalkEntry { path: "/r/gone".to_string(), kind: WalkKind::File, size: None },
        WalkEntry { path: "/r/link".to_string(), kind: WalkKind::Other, size: Some(7) },
        file("/r/kept", 3),
    ];
    let result = scan_directory(&config("/r", false), true, &walk, &vec![]).unwrap();
    assert_eq!(result.len(), 1);
    assert_eq!((result[0].file_count, result[0].size_bytes), (1, 3));
}

#[test]
fn temp_subtree_is_one_opaque_node() {
    let walk = vec![
        dir("/r"),
        dir("/r/target"),
        file("/r/target/a", 5),
        dir("/r/target/debug"),
        file("/r/target/debug/b", 7),
    ];
    let root = "/r".to_string();
    let (dirs, queue) = first_pass(&root, &walk);
    assert_eq!(queue, vec!["/r/target".to_string()]);
    // files below a temporary directory are not attributed in the first pass
    assert!(dirs.iter().all(|d| d.file_count == 0 && d.size_bytes == 0));
    assert_eq!(dirs.len(), 3);
    let temp_walks = vec![vec![
        dir("/r/target"),
        file("/r/target/a", 5),
        dir("/r/target/debug"),
        file("/r/target/debug/b", 7),
    ]];
    assert_eq!(summarize_subtree(&temp_walks[0]), (2, 12));
    let result = scan_directory(&config("/r", false), true, &walk, &temp_walks).unwrap();
    let target = find(&result, "/r/target");
    assert_eq!(target.entry_type, EntryType::Temp);
    assert_eq!((target.file_count, target.size_bytes), (2, 12));
    assert_eq!((target.cumulative_file_count, target.cumulative_size_bytes), (2, 12));
    let debug = find(&result, "/r/target/debug");
    assert_eq!(debug.entry_type, EntryType::Normal);
    assert_eq!((debug.cumulative_file_count, debug.cumulative_size_bytes), (0, 0));
    let r = find(&result, "/r");
    assert_eq!((r.cumulative_file_count, r.cumulative_size_bytes), (2, 12));
}

#[test]
fn nested_temp_directories_are_each_summed() {
    // a node_modules inside a dist: both are queued, and the inner one's
    // total reaches the outer one once more through the directory between
    let walk = vec![
        dir("/r"),
        dir("/r/dist"),
        file("/r/dist/app.js", 10),
        dir("/r/dist/node_modules"),
        file("/r/dist/node_modules/lib.js", 3),
    ];
    let root = "/r".to_string();
    let (_, queue) = first_pass(&root, &walk);
    assert_eq!(queue, vec!["/r/dist".to_string(), "/r/dist/node_modules".to_string()]);
    let temp_walks = vec![
        vec![
            dir("/r/dist"),
            file("/r/dist/app.js", 10),
            dir("/r/dist/node_modules"),
            file("/r/dist/node_modules/lib.js", 3),
        ],
        vec![dir("/r/dist/node_modules"), file("/r/dist/node_modules/lib.js", 3)],
    ];
    let result = scan_directory(&config("/r", false), true, &walk, &temp_walks).unwrap();
    let inner = find(&result, "/r/dist/node_modules");
    assert_eq!((inner.size_bytes, inner.cumulative_size_bytes), (3, 3));
    let outer = find(&result, "/r/dist");
    assert_eq!(outer.size_bytes, 13);
    assert_eq!(outer.cumulative_size_bytes, 16);
    assert_eq!(outer.cumulative_file_count, 3);
    let r = find(&result, "/r");
    assert_eq!(r.cumulative_size_bytes, 16);
}

#[test]
fn a_temp_directory_without_a_walk_counts_nothing() {
    let walk = vec![dir("/r"), dir("/r/.cache"), file("/r/.cache/blob", 9)];
    let result = scan_directory(&config("/r", false), true, &walk, &vec![]).unwrap();
    let cache = find(&result, "/r/.cache");
    assert_eq!(cache.entry_type, EntryType::Temp);
    assert_eq!((cache.file_count, cache.size_bytes), (0, 0));
}

#[test]
fn a_temp_root_is_not_looked_at_for_its_files() {
    // the search for a temporary ancestor stops at the root
    let walk = vec![dir("/work/target"), dir("/work/target/sub"), file("/work/target/sub/f", 4)];
    let root = "/work/target".to_string();
    let (dirs, queue) = first_pass(&root, &walk);
    assert_eq!(queue, vec!["/work/target".to_string()]);
    let sub = dirs.iter().find(|d| d.path == "/work/target/sub").unwrap();
    assert_eq!((sub.file_count, sub.size_bytes), (1, 4));
}

#[test]
fn entries_of_equal_size_keep_their_order() {
    let walk = vec![
        dir("/r"),
        dir("/r/b"),
        file("/r/b/1", 5),
        dir("/r/a"),
        file("/r/a/1", 5),
        dir("/r/c"),
        file("/r/c/1", 6),
    ];
    let result = scan_directory(&config("/r", false), true, &walk, &vec![]).unwrap();
    let order: Vec<&str> = result.iter().map(|e| e.path.as_str()).collect();
    assert_eq!(order, vec!["/r", "/r/c", "/r/b", "/r/a"]);
}

#[test]
fn sums_that_outgrow_the_machine_are_told() {
    let small = vec![dir("/r"), file("/r/a", 5), file("/r/b", 6)];
    assert_eq!(add_walk_totals((0, 0), &small), Some((2, 11)));
    assert_eq!(add_walk_totals((10, 100), &small), Some((12, 111)));
    assert_eq!(add_walk_totals((0, u64::MAX - 11), &small), Some((2, u64::MAX)));
    assert_eq!(add_walk_totals((0, u64::MAX - 10), &small), None);
    assert_eq!(add_walk_totals((u64::MAX - 1, 0), &small), None);
    let huge = vec![dir("/r"), file("/r/a", u64::MAX)];
    assert!(scan_fits(&huge, &vec![]));
    assert!(scan_fits(&small, &vec![small.clone(), small.clone()]));
    assert!(!scan_fits(&huge, &vec![small.clone()]));
    assert!(!scan_fits(&small, &vec![small.clone(), huge.clone()]));
    assert!(scan_fits(&vec![], &vec![]));
}
