use disk_scanner::display::{align_right, repeat, rule, Display};
use disk_scanner::node::{Node, ScanResult};

#[test]
fn test_truncate_path_short() {
    let display = Display::new();
    let path = "short/path";
    assert_eq!(display.truncate_path(path), "short/path");
}

#[test]
fn test_truncate_path_long() {
    let display = Display {
        max_path_width: 20,
        ..Default::default()
    };
    let path = "this/is/a/very/long/path/that/should/be/truncated";
    let truncated = display.truncate_path(path);
    assert!(truncated.starts_with("..."));
    assert!(truncated.len() <= 23); // 20 + "..."
}

#[test]
fn display_settings() {
    let display = Display::new();
    assert_eq!(display.count, 10);
    assert_eq!(display.max_path_width, 60);
    let by_default = Display::default();
    assert_eq!(by_default.count, 10);
    assert_eq!(by_default.max_path_width, 60);
    let three = Display::new().with_count(3);
    assert_eq!(three.count, 3);
    assert_eq!(three.max_path_width, 60);
}

#[test]
fn truncated_path_keeps_the_end() {
    let display = Display { count: 10, max_path_width: 20 };
    assert_eq!(
        display.truncate_path("this/is/a/very/long/path/that/should/be/truncated"),
        "...ould/be/truncated"
    );
    assert_eq!(display.truncate_path("exactly/twenty/chars"), "exactly/twenty/chars");
    assert_eq!(display.truncate_path("exactly/twenty/chars!"), "...tly/twenty/chars!");
    assert_eq!(display.truncate_path(""), "");
}

#[test]
fn truncated_path_with_narrow_widths() {
    let path = "abcdefgh";
    assert_eq!(Display { count: 1, max_path_width: 7 }.truncate_path(path), "...efgh");
    assert_eq!(Display { count: 1, max_path_width: 4 }.truncate_path(path), "...h");
    assert_eq!(Display { count: 1, max_path_width: 3 }.truncate_path(path), "...");
    assert_eq!(Display { count: 1, max_path_width: 2 }.truncate_path(path), "...");
    assert_eq!(Display { count: 1, max_path_width: 0 }.truncate_path(path), "...");
}

#[test]
fn truncated_path_never_splits_a_character() {
    let display = Display { count: 1, max_path_width: 8 };
    // 6 characters of two bytes each: the cut at byte 7 falls inside one.
    assert_eq!(display.truncate_path("éééééé"), "...éé");
    assert_eq!(display.truncate_path("aéééééé"), "...éé");
    assert_eq!(display.truncate_path("éééé"), "éééé");
}

#[test]
fn repeated_and_aligned_text() {
    assert_eq!(repeat('x', 0), "");
    assert_eq!(repeat('x', 3), "xxx");
    assert_eq!(repeat('═', 70).chars().count(), 70);
    assert_eq!(align_right("abc", 5), "  abc");
    assert_eq!(align_right("abc", 3), "abc");
    assert_eq!(align_right("abcdef", 3), "abcdef");
    assert_eq!(align_right("", 2), "  ");
    assert_eq!(align_right("────", 12), format!("{:>12}", "────"));
    assert_eq!(align_right("1.50 KiB", 12), format!("{:>12}", "1.50 KiB"));
}

#[test]
fn rule_is_dimmed() {
    let line = rule('─');
    assert_eq!(line, format!("\x1b[2m{}\x1b[0m", "─".repeat(70)));
}

#[test]
fn entry_line_of_a_directory() {
    let display = Display::new();
    assert_eq!(
        display.entry_line("1.50 KiB", "sub/dir", true),
        "  \x1b[32m    1.50 KiB\x1b[39m  📁 \x1b[1m\x1b[34msub/dir\x1b[39m\x1b[0m"
    );
}

#[test]
fn entry_line_of_a_file() {
    let display = Display { count: 10, max_path_width: 10 };
    assert_eq!(
        display.entry_line("20 B", "some/long/file.txt", false),
        "  \x1b[32m        20 B\x1b[39m  📄 \x1b[37m...ile.txt\x1b[39m"
    );
}

#[test]
fn node_line_shows_size_and_relative_path() {
    let display = Display::new();
    let inside = Node::new(String::from("/r/sub/dir"), 1536, true, 2);
    assert_eq!(
        display.node_line(&inside, "/r"),
        "  \x1b[32m    1.50 KiB\x1b[39m  📁 \x1b[1m\x1b[34msub/dir\x1b[39m\x1b[0m"
    );
    let outside = Node::new(String::from("/elsewhere/f"), 7, false, 1);
    assert_eq!(
        display.node_line(&outside, "/r"),
        "  \x1b[32m         7 B\x1b[39m  📄 \x1b[37m/elsewhere/f\x1b[39m"
    );
}

#[test]
fn header_without_errors() {
    let display = Display::new().with_count(3);
    let lines = display.header("/r", "35 B", 3, 1, 0);
    let rule_double = format!("\x1b[2m{}\x1b[0m", "═".repeat(70));
    let rule_single = format!("\x1b[2m{}\x1b[0m", "─".repeat(70));
    let expected = vec![
        String::new(),
        rule_double.clone(),
        String::from("\x1b[1m Disk Usage Report: /r\x1b[0m"),
        rule_double,
        String::new(),
        String::from("  \x1b[2mTotal size:\x1b[0m \x1b[1m\x1b[32m35 B\x1b[39m\x1b[0m"),
        String::from(
            "  \x1b[2mScanned:\x1b[0m \x1b[36m3\x1b[39m files, \x1b[36m1\x1b[39m directories",
        ),
        String::new(),
        rule_single.clone(),
        String::from("\x1b[1m Top 3 by size:\x1b[0m"),
        rule_single,
        String::new(),
        String::from("  \x1b[1m\x1b[2m        SIZE\x1b[0m\x1b[0m  \x1b[1m\x1b[2mPATH\x1b[0m\x1b[0m"),
        String::from("  \x1b[2m        ────\x1b[0m  \x1b[2m────\x1b[0m"),
    ];
    assert_eq!(lines, expected);
}

#[test]
fn header_with_errors() {
    let display = Display::new();
    let lines = display.header("/r", "0 B", 0, 0, 2);
    assert_eq!(lines.len(), 15);
    assert_eq!(
        lines[7],
        "  \x1b[2mErrors:\x1b[0m \x1b[31m2\x1b[39m (permission denied or inaccessible)"
    );
    assert_eq!(lines[10], "\x1b[1m Top 10 by size:\x1b[0m");
}

#[test]
fn report_of_a_result() {
    let mut result = ScanResult::new();
    result.total_size = 35;
    result.file_count = 3;
    result.dir_count = 1;
    result.nodes = vec![
        Node::new(String::from("/r/c"), 20, true, 1),
        Node::new(String::from("/r/b"), 10, false, 1),
        Node::new(String::from("/r/a"), 5, false, 1),
    ];
    let display = Display::new().with_count(2);
    let lines = display.report(&result, "/r");
    assert_eq!(lines.len(), 14 + 2 + 2);
    assert_eq!(lines[2], "\x1b[1m Disk Usage Report: /r\x1b[0m");
    assert_eq!(lines[5], "  \x1b[2mTotal size:\x1b[0m \x1b[1m\x1b[32m35 B\x1b[39m\x1b[0m");
    assert_eq!(lines[9], "\x1b[1m Top 2 by size:\x1b[0m");
    assert_eq!(
        lines[14],
        "  \x1b[32m        20 B\x1b[39m  📁 \x1b[1m\x1b[34mc\x1b[39m\x1b[0m"
    );
    assert_eq!(lines[15], "  \x1b[32m        10 B\x1b[39m  📄 \x1b[37mb\x1b[39m");
    assert_eq!(lines[16], "");
    assert_eq!(lines[17], format!("\x1b[2m{}\x1b[0m", "═".repeat(70)));
}

#[test]
fn report_of_an_empty_result() {
    let result = ScanResult::new();
    let lines = Display::new().report(&result, "/r");
    assert_eq!(lines.len(), 14 + 1 + 2);
    assert_eq!(lines[14], "  \x1b[2mNo entries found.\x1b[0m");
    let none_shown = Display::new().with_count(0);
    let mut result = ScanResult::new();
    result.nodes = vec![Node::new(String::from("/r/c"), 20, true, 1)];
    let lines = none_shown.report(&result, "/r");
    assert_eq!(lines[14], "  \x1b[2mNo entries found.\x1b[0m");
}

#[test]
fn report_sizes_are_in_binary_units() {
    let mut result = ScanResult::new();
    result.total_size = 5 * 1024 * 1024;
    result.nodes = vec![Node::new(String::from("/r/big"), 3 * 1024 * 1024 * 1024, true, 1)];
    let lines = Display::new().report(&result, "/r");
    assert!(lines[5].contains("5 MiB"));
    assert!(lines[14].contains("3 GiB"));
}
