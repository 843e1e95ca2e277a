use disk_scanner::aggregate::aggregate;
use disk_scanner::cli::Args;
use disk_scanner::node::{Node, ScanResult};
use disk_scanner::progress::ProgressSnapshot;
use disk_scanner::scanner::{num_cpus, ScanError, Scanner, FALLBACK_WORKERS};
use disk_scanner::traversal::{get_file_size, ScannedEntry, Traversal, WalkEvent};

fn dir(path: &str, depth: usize) -> WalkEvent {
    WalkEvent::Directory { path: String::from(path), depth }
}

fn file(path: &str, size: u64, depth: usize) -> WalkEvent {
    WalkEvent::File { path: String::from(path), size: Some(size), depth }
}

fn pairs(nodes: &[Node]) -> Vec<(String, u64)> {
    let mut out: Vec<(String, u64)> = nodes.iter().map(|n| (n.path.clone(), n.size)).collect();
    out.sort();
    out
}

fn size_of(result: &ScanResult, path: &str) -> Option<u64> {
    result.nodes.iter().find(|n| n.path == path).map(|n| n.size)
}

fn sample_tree() -> Vec<WalkEvent> {
    vec![
        dir("/r", 0),
        file("/r/a", 5, 1),
        file("/r/b", 10, 1),
        dir("/r/c", 1),
        file("/r/c/d", 20, 2),
    ]
}

#[test]
fn test_scan_empty_dir() {
    let scanner = Scanner::new();
    let result = scanner.scan("/r", vec![dir("/r", 0)]);
    assert_eq!(result.file_count, 0);
}

#[test]
fn scan_of_empty_directory_counts_nothing() {
    let result = Scanner::new().include_files(true).scan("/r", vec![dir("/r", 0)]);
    assert_eq!(result.file_count, 0);
    assert_eq!(result.dir_count, 0);
    assert_eq!(result.total_size, 0);
    assert_eq!(result.error_count, 0);
    assert!(result.nodes.is_empty());
    let nothing = Scanner::new().scan("/r", Vec::new());
    assert_eq!(nothing.file_count, 0);
    assert_eq!(nothing.dir_count, 0);
    assert_eq!(nothing.total_size, 0);
    assert_eq!(nothing.error_count, 0);
    assert!(nothing.nodes.is_empty());
}

#[test]
fn scan_of_small_tree() {
    let result = Scanner::new().scan("/r", sample_tree());
    assert_eq!(result.file_count, 3);
    assert_eq!(result.dir_count, 1);
    assert_eq!(result.total_size, 35);
    assert_eq!(result.error_count, 0);
    assert_eq!(result.nodes.len(), 1);
    assert_eq!(result.nodes[0].path, "/r/c");
    assert_eq!(result.nodes[0].size, 20);
    assert!(result.nodes[0].is_dir);
    assert_eq!(result.nodes[0].depth, 1);
}

#[test]
fn scan_with_files_lists_directories_then_files() {
    let result = Scanner::new().include_files(true).scan("/r", sample_tree());
    assert_eq!(result.file_count, 3);
    assert!(result.total_size > 0);
    let listed: Vec<(String, u64, bool, usize)> = result
        .nodes
        .iter()
        .map(|n| (n.path.clone(), n.size, n.is_dir, n.depth))
        .collect();
    assert_eq!(
        listed,
        vec![
            (String::from("/r/c"), 20, true, 1),
            (String::from("/r/a"), 5, false, 1),
            (String::from("/r/b"), 10, false, 1),
            (String::from("/r/c/d"), 20, false, 2),
        ]
    );
}

#[test]
fn cumulative_sizes_reach_every_ancestor() {
    let events = vec![
        dir("/r", 0),
        dir("/r/a", 1),
        dir("/r/a/b", 2),
        dir("/r/a/b/c", 3),
        file("/r/a/b/c/deep", 7, 4),
        file("/r/a/b/mid", 11, 3),
        file("/r/a/top", 13, 2),
        file("/r/loose", 17, 1),
        dir("/r/empty", 1),
    ];
    let result = Scanner::new().scan("/r", events);
    assert_eq!(size_of(&result, "/r/a"), Some(31));
    assert_eq!(size_of(&result, "/r/a/b"), Some(18));
    assert_eq!(size_of(&result, "/r/a/b/c"), Some(7));
    assert_eq!(size_of(&result, "/r/empty"), Some(0));
    assert_eq!(size_of(&result, "/r"), None);
    assert_eq!(result.total_size, 48);
    assert_eq!(result.dir_count, 4);
    assert_eq!(result.file_count, 4);
}

#[test]
fn aggregation_does_not_depend_on_the_order_of_entries() {
    let files_first = vec![
        file("/r/a/b/f", 3, 3),
        file("/r/a/g", 4, 2),
        dir("/r/a/b", 2),
        dir("/r/a", 1),
        dir("/r", 0),
    ];
    let result = Scanner::new().scan("/r", files_first);
    assert_eq!(size_of(&result, "/r/a"), Some(7));
    assert_eq!(size_of(&result, "/r/a/b"), Some(3));
}

#[test]
fn scan_is_independent_of_event_order() {
    let forward = sample_tree();
    let mut backward = sample_tree();
    backward.reverse();
    let mut rotated = sample_tree();
    rotated.rotate_left(2);
    let scanner = Scanner::new().include_files(true);
    let a = scanner.scan("/r", forward);
    let b = scanner.scan("/r", backward);
    let c = scanner.scan("/r", rotated);
    for other in [&b, &c] {
        assert_eq!(a.file_count, other.file_count);
        assert_eq!(a.dir_count, other.dir_count);
        assert_eq!(a.total_size, other.total_size);
        assert_eq!(a.error_count, other.error_count);
        assert_eq!(pairs(&a.nodes), pairs(&other.nodes));
    }
}

#[test]
fn scan_does_not_depend_on_worker_count() {
    let one = Scanner::new().with_threads(Some(1)).scan("/r", sample_tree());
    let eight = Scanner::new().with_threads(Some(8)).scan("/r", sample_tree());
    assert_eq!(one.file_count, eight.file_count);
    assert_eq!(one.dir_count, eight.dir_count);
    assert_eq!(one.total_size, eight.total_size);
    assert_eq!(pairs(&one.nodes), pairs(&eight.nodes));
}

#[test]
fn unreadable_file_is_counted_and_left_out() {
    let read = Scanner::new().include_files(true).scan("/r", sample_tree());
    let mut events = sample_tree();
    events[2] = WalkEvent::Unreadable;
    let failed = Scanner::new().include_files(true).scan("/r", events);
    assert_eq!(failed.error_count, read.error_count + 1);
    assert_eq!(failed.error_count, 1);
    assert_eq!(failed.file_count, 2);
    assert_eq!(failed.dir_count, 1);
    assert_eq!(failed.total_size, 25);
    assert_eq!(size_of(&failed, "/r/c"), Some(20));
    assert_eq!(size_of(&failed, "/r/a"), Some(5));
    assert_eq!(size_of(&failed, "/r/c/d"), Some(20));
    assert_eq!(size_of(&failed, "/r/b"), None);
}

#[test]
fn unreadable_file_lowers_its_directories_only() {
    let tree = |broken: bool| {
        vec![
            dir("/r", 0),
            dir("/r/x", 1),
            dir("/r/y", 1),
            file("/r/x/one", 100, 2),
            if broken { WalkEvent::Unreadable } else { file("/r/x/two", 50, 2) },
            file("/r/y/three", 25, 2),
        ]
    };
    let read = Scanner::new().scan("/r", tree(false));
    let failed = Scanner::new().scan("/r", tree(true));
    assert_eq!(size_of(&read, "/r/x"), Some(150));
    assert_eq!(size_of(&failed, "/r/x"), Some(100));
    assert_eq!(size_of(&read, "/r/y"), Some(25));
    assert_eq!(size_of(&failed, "/r/y"), Some(25));
    assert_eq!(failed.total_size + 50, read.total_size);
    assert_eq!(failed.error_count, 1);
}

#[test]
fn file_without_size_counts_as_empty() {
    let events = vec![
        dir("/r", 0),
        dir("/r/d", 1),
        WalkEvent::File { path: String::from("/r/d/f"), size: None, depth: 2 },
        file("/r/d/g", 9, 2),
    ];
    let result = Scanner::new().include_files(true).scan("/r", events);
    assert_eq!(result.file_count, 2);
    assert_eq!(result.error_count, 0);
    assert_eq!(result.total_size, 9);
    assert_eq!(size_of(&result, "/r/d"), Some(9));
    assert_eq!(size_of(&result, "/r/d/f"), Some(0));
}

#[test]
fn directory_reported_twice_has_one_node() {
    let events = vec![
        dir("/r", 0),
        dir("/r/d", 1),
        file("/r/d/f", 4, 2),
        dir("/r/d", 1),
    ];
    let result = Scanner::new().scan("/r", events);
    assert_eq!(result.nodes.len(), 1);
    assert_eq!(result.nodes[0].size, 4);
    assert_eq!(result.dir_count, 2);
}

#[test]
fn files_outside_the_root_add_to_nothing_inside() {
    let entries = vec![
        ScannedEntry { path: String::from("/r/d"), size: 0, is_dir: true, depth: 1 },
        ScannedEntry { path: String::from("/elsewhere/d/f"), size: 5, is_dir: false, depth: 2 },
        ScannedEntry { path: String::from("/r/d/f"), size: 6, is_dir: false, depth: 2 },
    ];
    let nodes = aggregate(&entries, "/r");
    assert_eq!(nodes.len(), 1);
    assert_eq!(nodes[0].path, "/r/d");
    assert_eq!(nodes[0].size, 6);
}

#[test]
fn aggregation_stops_at_the_root() {
    let entries = vec![
        ScannedEntry { path: String::from("/"), size: 0, is_dir: true, depth: 1 },
        ScannedEntry { path: String::from("/r"), size: 0, is_dir: true, depth: 1 },
        ScannedEntry { path: String::from("/r/s"), size: 0, is_dir: true, depth: 1 },
        ScannedEntry { path: String::from("/r/s/t"), size: 0, is_dir: true, depth: 2 },
        ScannedEntry { path: String::from("/r/s/t/f"), size: 8, is_dir: false, depth: 3 },
    ];
    let nodes = aggregate(&entries, "/r/s");
    let sizes: Vec<(String, u64)> = nodes.iter().map(|n| (n.path.clone(), n.size)).collect();
    assert_eq!(
        sizes,
        vec![
            (String::from("/"), 0),
            (String::from("/r"), 0),
            (String::from("/r/s"), 8),
            (String::from("/r/s/t"), 8),
        ]
    );
}

#[test]
fn sizes_wrap_around_at_64_bits() {
    let events = vec![
        dir("/r", 0),
        dir("/r/d", 1),
        file("/r/d/big", u64::MAX, 2),
        file("/r/d/more", 3, 2),
    ];
    let result = Scanner::new().scan("/r", events);
    assert_eq!(result.total_size, 2);
    assert_eq!(size_of(&result, "/r/d"), Some(2));
}

#[test]
fn traversal_records_events_one_by_one() {
    let mut walk = Traversal::new();
    assert_eq!(walk.files_scanned(), 0);
    assert_eq!(walk.dirs_scanned(), 0);
    assert_eq!(walk.total_size(), 0);
    assert_eq!(walk.error_count(), 0);
    assert_eq!(walk.current_dir(), "...");
    assert!(walk.entries().is_empty());

    walk.record(dir("/r", 0));
    assert_eq!(walk.dirs_scanned(), 0);
    assert_eq!(walk.current_dir(), "r");
    assert!(walk.entries().is_empty());

    walk.record(dir("/r/photos", 1));
    assert_eq!(walk.dirs_scanned(), 1);
    assert_eq!(walk.current_dir(), "photos");
    assert_eq!(walk.entries().len(), 1);
    assert!(walk.entries()[0].is_dir);
    assert_eq!(walk.entries()[0].size, 0);

    walk.record(file("/r/photos/one.jpg", 300, 2));
    assert_eq!(walk.files_scanned(), 1);
    assert_eq!(walk.total_size(), 300);
    assert_eq!(walk.current_dir(), "photos");
    assert_eq!(walk.entries().len(), 2);
    assert_eq!(walk.entries()[1].path, "/r/photos/one.jpg");
    assert_eq!(walk.entries()[1].size, 300);
    assert_eq!(walk.entries()[1].depth, 2);
    assert!(!walk.entries()[1].is_dir);

    walk.record(WalkEvent::Unreadable);
    assert_eq!(walk.error_count(), 1);
    assert_eq!(walk.files_scanned(), 1);
    assert_eq!(walk.entries().len(), 2);

    walk.record(dir("/", 0));
    assert_eq!(walk.current_dir(), "photos");

    let snapshot = ProgressSnapshot::of(&walk);
    assert_eq!(snapshot.files_scanned, 1);
    assert_eq!(snapshot.dirs_scanned, 1);
    assert_eq!(snapshot.bytes_scanned, 300);
    assert_eq!(snapshot.current_directory_name, "photos");

    let result = Scanner::new().include_files(true).finish("/r", &walk);
    assert_eq!(result.file_count, 1);
    assert_eq!(result.dir_count, 1);
    assert_eq!(result.total_size, 300);
    assert_eq!(result.error_count, 1);
    assert_eq!(size_of(&result, "/r/photos"), Some(300));
    assert_eq!(result.nodes.len(), 2);
}

#[test]
fn file_size_prefers_size_on_disk() {
    assert_eq!(get_file_size(Some(4096), Some(10)), Some(4096));
    assert_eq!(get_file_size(Some(0), Some(10)), Some(0));
    assert_eq!(get_file_size(None, Some(10)), Some(10));
    assert_eq!(get_file_size(Some(4096), None), Some(4096));
    assert_eq!(get_file_size(None, None), None);
}

#[test]
fn scanner_settings() {
    let scanner = Scanner::new();
    assert_eq!(scanner.num_threads, None);
    assert!(!scanner.include_files);
    let by_default = Scanner::default();
    assert_eq!(by_default.num_threads, None);
    assert!(!by_default.include_files);
    let tuned = Scanner::new().with_threads(Some(3)).include_files(true);
    assert_eq!(tuned.num_threads, Some(3));
    assert!(tuned.include_files);
    let back = tuned.with_threads(None).include_files(false);
    assert_eq!(back.num_threads, None);
    assert!(!back.include_files);
}

#[test]
fn worker_count_falls_back() {
    assert_eq!(num_cpus(Some(16)), 16);
    assert_eq!(num_cpus(None), 4);
    assert_eq!(FALLBACK_WORKERS, 4);
    assert_eq!(Scanner::new().worker_count(Some(12)), 12);
    assert_eq!(Scanner::new().worker_count(None), 4);
    assert_eq!(Scanner::new().with_threads(Some(2)).worker_count(Some(12)), 2);
    assert_eq!(Scanner::new().with_threads(Some(2)).worker_count(None), 2);
}

#[test]
fn unresolved_root_fails_the_scan() {
    match Scanner::resolve_root("/nonexistent/path", None) {
        Err(ScanError::RootInaccessible { path }) => assert_eq!(path, "/nonexistent/path"),
        Ok(_) => panic!("a root that was not resolved was accepted"),
    }
    let error = Scanner::resolve_root("missing", None).unwrap_err();
    assert_eq!(error.message(), "Failed to resolve path: missing");
    let resolved = Scanner::resolve_root("./here", Some(String::from("/abs/here")));
    assert_eq!(resolved.unwrap(), "/abs/here");
}

#[test]
fn options_by_default() {
    let args = Args::default();
    assert_eq!(args.path, ".");
    assert_eq!(args.count, 10);
    assert_eq!(args.depth, None);
    assert_eq!(args.threads, None);
    assert!(!args.all);
    assert_eq!(args.scanner().num_threads, None);
    assert!(!args.scanner().include_files);
    assert_eq!(args.display().count, 10);
    assert_eq!(args.display().max_path_width, 60);
}

#[test]
fn options_shape_the_result() {
    let events = vec![
        dir("/r", 0),
        dir("/r/a", 1),
        dir("/r/a/b", 2),
        file("/r/a/b/f", 30, 3),
        file("/r/a/g", 40, 2),
        dir("/r/z", 1),
        file("/r/z/h", 50, 2),
    ];
    let names = |result: &ScanResult| -> Vec<String> { result.nodes.iter().map(|n| n.path.clone()).collect() };

    let mut args = Args::default();
    let mut result = args.scanner().scan("/r", events.clone());
    args.arrange(&mut result);
    assert_eq!(names(&result), vec!["/r/a", "/r/z", "/r/a/b"]);

    args.depth = Some(1);
    let mut result = args.scanner().scan("/r", events.clone());
    args.arrange(&mut result);
    assert_eq!(names(&result), vec!["/r/a", "/r/z"]);

    args.all = true;
    args.depth = Some(2);
    args.threads = Some(4);
    args.count = 3;
    assert_eq!(args.scanner().num_threads, Some(4));
    assert!(args.scanner().include_files);
    assert_eq!(args.display().count, 3);
    let mut result = args.scanner().scan("/r", events.clone());
    args.arrange(&mut result);
    assert_eq!(names(&result), vec!["/r/a", "/r/z", "/r/z/h", "/r/a/g", "/r/a/b"]);
    assert_eq!(result.total_size, 120);
    assert_eq!(result.file_count, 3);
    assert_eq!(result.dir_count, 3);
}

#[test]
fn aggregation_ends_on_unusual_paths() {
    let unusual = [
        "", "/", "a", "a/", "a//b/", "./a", "../..", "a/./b", "/a/../b", "//", "a/b/c/", ".", "..",
        "/é/ü/f", "relative/dir/file",
    ];
    let mut entries: Vec<ScannedEntry> = Vec::new();
    for path in unusual {
        entries.push(ScannedEntry { path: String::from(path), size: 0, is_dir: true, depth: 1 });
    }
    for path in unusual {
        entries.push(ScannedEntry { path: String::from(path), size: 1, is_dir: false, depth: 1 });
    }
    for root in ["", "/", "a", ".", "/nowhere"] {
        let nodes = aggregate(&entries, root);
        assert_eq!(nodes.len(), unusual.len());
        for node in &nodes {
            assert!(node.size <= unusual.len() as u64);
        }
    }
    let nodes = aggregate(&entries, "relative");
    let dir = nodes.iter().find(|n| n.path == "a").unwrap();
    // "a//b/", "a/./b" and "a/b/c/" lie below "a"; "a", "a/" and "./a" do not.
    assert_eq!(dir.size, 3);
}
