use disk_scanner::progress::{
    aggregating_message, done_message, format_duration, format_number, format_size_simple,
    progress_due, truncate_str, ProgressSnapshot,
};
use disk_scanner::text::{decimal, head, tail};

#[test]
fn test_format_size_simple() {
    assert_eq!(format_size_simple(500), "500 B");
    assert_eq!(format_size_simple(1024), "1.0 KB");
    assert_eq!(format_size_simple(1536), "1.5 KB");
    assert_eq!(format_size_simple(1048576), "1.0 MB");
    assert_eq!(format_size_simple(1073741824), "1.00 GB");
}

#[test]
fn test_format_number() {
    assert_eq!(format_number(0), "0");
    assert_eq!(format_number(999), "999");
    assert_eq!(format_number(1000), "1,000");
    assert_eq!(format_number(1234567), "1,234,567");
}

#[test]
fn test_truncate_str() {
    assert_eq!(truncate_str("short", 10), "short");
    assert_eq!(truncate_str("this is a long string", 10), "this is...");
}

fn float_size(bytes: u64) -> String {
    const KB: u64 = 1024;
    const MB: u64 = KB * 1024;
    const GB: u64 = MB * 1024;
    const TB: u64 = GB * 1024;
    if bytes >= TB {
        format!("{:.2} TB", bytes as f64 / TB as f64)
    } else if bytes >= GB {
        format!("{:.2} GB", bytes as f64 / GB as f64)
    } else if bytes >= MB {
        format!("{:.1} MB", bytes as f64 / MB as f64)
    } else if bytes >= KB {
        format!("{:.1} KB", bytes as f64 / KB as f64)
    } else {
        format!("{} B", bytes)
    }
}

#[test]
fn size_text_agrees_with_float_formatting_on_small_sizes() {
    for bytes in 0..20000u64 {
        assert_eq!(format_size_simple(bytes), float_size(bytes));
    }
}

#[test]
fn size_text_rounds_half_to_even() {
    assert_eq!(format_size_simple(1280), "1.2 KB");
    assert_eq!(format_size_simple(1280), float_size(1280));
    assert_eq!(format_size_simple(1382), float_size(1382));
    assert_eq!(format_size_simple(1383), float_size(1383));
    assert_eq!(format_size_simple(1384), float_size(1384));
    assert_eq!(format_size_simple(1024 + 768), "1.8 KB");
    assert_eq!(format_size_simple(1024 * 1024 + 256 * 1024), "1.2 MB");
}

#[test]
fn size_text_agrees_with_float_formatting_at_unit_borders() {
    let borders: [u64; 4] = [1 << 10, 1 << 20, 1 << 30, 1 << 40];
    for border in borders {
        for delta in 0..2000u64 {
            assert_eq!(format_size_simple(border - 1 - delta), float_size(border - 1 - delta));
            assert_eq!(format_size_simple(border + delta), float_size(border + delta));
        }
    }
    assert_eq!(format_size_simple(1023), "1023 B");
    assert_eq!(format_size_simple(1048575), "1024.0 KB");
    assert_eq!(format_size_simple(1099511627776), "1.00 TB");
}

#[test]
fn size_text_agrees_with_float_formatting_on_large_sizes() {
    let mut bytes: u64 = 1;
    let mut step: u64 = 1;
    let mut checked = 0u32;
    while checked < 200000 {
        assert_eq!(format_size_simple(bytes), float_size(bytes), "at {}", bytes);
        step = step.wrapping_mul(6364136223846793005).wrapping_add(1442695040888963407);
        bytes = bytes.wrapping_add(step >> (checked % 64));
        checked += 1;
    }
    for bytes in [
        u64::MAX,
        u64::MAX - 1,
        u64::MAX - 1024,
        1 << 53,
        (1 << 53) + 1,
        (1 << 53) + 2,
        (1 << 53) + 3,
        (1 << 54) + 2,
        (1 << 54) + 6,
        (1 << 63) + 1024,
        (1 << 63) + 1025,
        (1 << 63) + 3072,
        (1 << 63) - 512,
    ] {
        assert_eq!(format_size_simple(bytes), float_size(bytes), "at {}", bytes);
    }
}

#[test]
fn size_text_agrees_with_float_formatting_near_halves_of_large_sizes() {
    // Sizes next to a multiple of 2^37 lie next to a tie of the second
    // decimal of the terabytes.
    for k in [25u64, 75, 125, 1025, 4000 * 25 + 25, 100_000 * 25 + 75] {
        let tie = k << 37;
        if tie < (1 << 40) {
            continue;
        }
        for delta in 0..3000u64 {
            if let Some(above) = tie.checked_add(delta) {
                assert_eq!(format_size_simple(above), float_size(above), "at {}", above);
            }
            let below = tie - delta;
            assert_eq!(format_size_simple(below), float_size(below), "at {}", below);
        }
    }
}

#[test]
fn number_text_groups_by_three() {
    assert_eq!(format_number(1), "1");
    assert_eq!(format_number(12), "12");
    assert_eq!(format_number(1001), "1,001");
    assert_eq!(format_number(10000), "10,000");
    assert_eq!(format_number(100000), "100,000");
    assert_eq!(format_number(1000000), "1,000,000");
    assert_eq!(format_number(1002003), "1,002,003");
    assert_eq!(format_number(u64::MAX), "18,446,744,073,709,551,615");
}

#[test]
fn decimal_text_of_numbers() {
    assert_eq!(decimal(0), "0");
    assert_eq!(decimal(9), "9");
    assert_eq!(decimal(10), "10");
    assert_eq!(decimal(1234567890), "1234567890");
    assert_eq!(decimal(u64::MAX), u64::MAX.to_string());
    for n in 0..3000u64 {
        assert_eq!(decimal(n), n.to_string());
    }
}

#[test]
fn duration_text_by_range() {
    assert_eq!(format_duration(0, 0), "0ms");
    assert_eq!(format_duration(0, 7), "7ms");
    assert_eq!(format_duration(0, 999), "999ms");
    assert_eq!(format_duration(1, 0), "1.00s");
    assert_eq!(format_duration(1, 50), "1.05s");
    assert_eq!(format_duration(1, 59), "1.05s");
    assert_eq!(format_duration(12, 340), "12.34s");
    assert_eq!(format_duration(59, 999), "59.99s");
    assert_eq!(format_duration(60, 0), "1m 0s");
    assert_eq!(format_duration(61, 500), "1m 1s");
    assert_eq!(format_duration(3725, 1), "62m 5s");
}

#[test]
fn duration_text_agrees_with_formatting() {
    for secs in [0u64, 1, 2, 9, 10, 59, 60, 61, 119, 120, 3599, 3600, 86400, u64::MAX] {
        for millis in [0u32, 1, 9, 10, 11, 99, 100, 101, 500, 990, 999] {
            let expected = if secs >= 60 {
                format!("{}m {}s", secs / 60, secs % 60)
            } else if secs > 0 {
                format!("{}.{:02}s", secs, millis / 10)
            } else {
                format!("{}ms", millis)
            };
            assert_eq!(format_duration(secs, millis), expected);
        }
    }
}

#[test]
fn truncation_of_text() {
    assert_eq!(truncate_str("", 0), "");
    assert_eq!(truncate_str("abc", 3), "abc");
    assert_eq!(truncate_str("abcd", 3), "...");
    assert_eq!(truncate_str("abcd", 2), "...");
    assert_eq!(truncate_str("abcd", 0), "...");
    assert_eq!(truncate_str("abcdefghij", 9), "abcdef...");
    assert_eq!(truncate_str("abcdefghij", 10), "abcdefghij");
    assert_eq!(truncate_str("a-directory-with-a-long-name", 20), "a-directory-with-...");
}

#[test]
fn truncation_never_splits_a_character() {
    // 'é' takes two bytes: the cut at byte 4 falls inside the second one.
    assert_eq!(truncate_str("aaééééé", 7), "aaé...");
    assert_eq!(truncate_str("ééééé", 10), "ééééé");
    assert_eq!(truncate_str("ééééé", 9), "ééé...");
    assert_eq!(truncate_str("ééééé", 8), "éé...");
    assert_eq!(truncate_str("日本語のディレクトリ", 10), "日本...");
}

#[test]
fn head_and_tail_cut_at_character_boundaries() {
    assert_eq!(head("hello", 0), "");
    assert_eq!(head("hello", 3), "hel");
    assert_eq!(head("hello", 5), "hello");
    assert_eq!(head("héllo", 2), "h");
    assert_eq!(head("héllo", 3), "hé");
    assert_eq!(tail("hello", 0), "hello");
    assert_eq!(tail("hello", 3), "lo");
    assert_eq!(tail("hello", 5), "");
    assert_eq!(tail("hello", 99), "");
    assert_eq!(tail("héllo", 2), "llo");
    assert_eq!(tail("héllo", 1), "éllo");
}

#[test]
fn progress_is_due_after_fifty_milliseconds() {
    assert!(!progress_due(0));
    assert!(!progress_due(49));
    assert!(progress_due(50));
    assert!(progress_due(51));
    assert!(progress_due(u128::MAX));
}

#[test]
fn progress_message_text() {
    let snapshot = ProgressSnapshot {
        files_scanned: 1234,
        dirs_scanned: 56,
        bytes_scanned: 1536,
        current_directory_name: String::from("node_modules"),
    };
    assert_eq!(
        snapshot.message(),
        "Scanning: node_modules | 1,234 files, 56 dirs | 1.5 KB"
    );
    let long = ProgressSnapshot {
        files_scanned: 0,
        dirs_scanned: 0,
        bytes_scanned: 0,
        current_directory_name: String::from("a-directory-with-a-long-name"),
    };
    assert_eq!(
        long.message(),
        "Scanning: a-directory-with-... | 0 files, 0 dirs | 0 B"
    );
}

#[test]
fn closing_messages_text() {
    assert_eq!(
        aggregating_message(12345, 1048576),
        "Calculating directory sizes... (12,345 files, 1.0 MB)"
    );
    assert_eq!(
        done_message(3, 1, 35, 0, 12),
        "Done! 3 files, 1 dirs (35 B) in 12ms"
    );
    assert_eq!(
        done_message(1000, 2000, 1073741824, 75, 0),
        "Done! 1,000 files, 2,000 dirs (1.00 GB) in 1m 15s"
    );
}
