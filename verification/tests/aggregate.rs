use disk_usage::render::output_colored_path;
use disk_usage::{aggregate, Color, Entry, EntryMetadata, RootInput, WalkOptions};

fn options() -> WalkOptions {
    WalkOptions { apparent_size: true, count_hard_links: false, cross_filesystems: true }
}

fn file(inode: u64, len: u64) -> Entry {
    Entry::Metadata(EntryMetadata { is_dir: false, inode, device: 1, len, size_on_disk: Some(len) })
}

fn dir(inode: u64) -> Entry {
    Entry::Metadata(EntryMetadata {
        is_dir: true,
        inode,
        device: 1,
        len: 4096,
        size_on_disk: Some(4096),
    })
}

fn root(path: &str, entries: Vec<Entry>) -> RootInput {
    RootInput { path: path.to_string(), is_file: false, device: Some(1), entries }
}

fn shown(report: &disk_usage::Report) -> Vec<(String, u128, u64)> {
    report.records.iter().map(|r| (r.path.clone(), r.num_bytes, r.num_errors)).collect()
}

#[test]
fn no_entries_reports_smallest_as_zero() {
    let report = aggregate(options(), true, true, &vec![root("a", vec![]), root("b", vec![])]);
    assert_eq!(report.stats.entries_traversed, 0);
    assert_eq!(report.stats.smallest_file_in_bytes, 0);
    assert_eq!(report.stats.largest_file_in_bytes, 0);
    assert_eq!(report.result.num_errors, 0);
}

#[test]
fn no_roots_reports_nothing() {
    let report = aggregate(options(), true, true, &vec![]);
    assert!(report.records.is_empty());
    assert!(report.total.is_none());
    assert_eq!(report.stats.smallest_file_in_bytes, 0);
    assert_eq!(report.result.num_errors, 0);
}

#[test]
fn directories_contribute_nothing() {
    let report = aggregate(options(), false, false, &vec![root("a", vec![dir(1), file(2, 7), dir(3)])]);
    assert_eq!(shown(&report), vec![("a".to_string(), 7, 0)]);
    assert_eq!(report.stats.entries_traversed, 3);
    assert_eq!(report.stats.smallest_file_in_bytes, 0);
    assert_eq!(report.stats.largest_file_in_bytes, 7);
}

#[test]
fn hard_links_are_counted_once_unless_asked_for() {
    let entries = vec![file(5, 10), file(6, 3), file(5, 10)];
    let once = aggregate(options(), false, false, &vec![root("a", entries.clone())]);
    assert_eq!(shown(&once), vec![("a".to_string(), 13, 0)]);
    let each = aggregate(
        WalkOptions { count_hard_links: true, ..options() },
        false,
        false,
        &vec![root("a", entries)],
    );
    assert_eq!(shown(&each), vec![("a".to_string(), 23, 0)]);
}

#[test]
fn hard_links_are_counted_once_across_roots() {
    let report = aggregate(
        options(),
        true,
        false,
        &vec![root("a", vec![file(5, 10)]), root("b", vec![file(5, 10), file(9, 1)])],
    );
    assert_eq!(shown(&report), vec![("a".to_string(), 10, 0), ("b".to_string(), 1, 0)]);
    assert_eq!(report.total.as_ref().map(|t| t.num_bytes), Some(11));
}

#[test]
fn other_devices_are_left_out_when_staying_on_the_filesystem() {
    let far = Entry::Metadata(EntryMetadata {
        is_dir: false,
        inode: 8,
        device: 2,
        len: 100,
        size_on_disk: Some(100),
    });
    let stay = WalkOptions { cross_filesystems: false, ..options() };
    let report = aggregate(stay, false, false, &vec![root("a", vec![far, file(1, 5)])]);
    assert_eq!(shown(&report), vec![("a".to_string(), 5, 0)]);
    assert_eq!(report.result.num_errors, 0);
    let crossing = aggregate(options(), false, false, &vec![root("a", vec![far, file(1, 5)])]);
    assert_eq!(shown(&crossing), vec![("a".to_string(), 105, 0)]);
}

#[test]
fn size_on_disk_is_used_unless_apparent_size_is_asked_for() {
    let sparse = Entry::Metadata(EntryMetadata {
        is_dir: false,
        inode: 1,
        device: 1,
        len: 1000,
        size_on_disk: Some(512),
    });
    let on_disk = WalkOptions { apparent_size: false, ..options() };
    let report = aggregate(on_disk, false, false, &vec![root("a", vec![sparse])]);
    assert_eq!(shown(&report), vec![("a".to_string(), 512, 0)]);
    let apparent = aggregate(options(), false, false, &vec![root("a", vec![sparse])]);
    assert_eq!(shown(&apparent), vec![("a".to_string(), 1000, 0)]);
}

#[test]
fn failed_size_query_is_one_error_and_the_walk_goes_on() {
    let broken = Entry::Metadata(EntryMetadata {
        is_dir: false,
        inode: 1,
        device: 1,
        len: 1000,
        size_on_disk: None,
    });
    let on_disk = WalkOptions { apparent_size: false, ..options() };
    let report = aggregate(on_disk, false, false, &vec![root("a", vec![broken, file(2, 9)])]);
    assert_eq!(shown(&report), vec![("a".to_string(), 9, 1)]);
    assert_eq!(report.result.num_errors, 1);
    assert_eq!(report.stats.entries_traversed, 2);
    assert_eq!(report.stats.smallest_file_in_bytes, 0);
    assert_eq!(report.stats.largest_file_in_bytes, 9);
}

#[test]
fn failed_size_query_of_an_entry_that_does_not_count_is_no_error() {
    let broken_dir = Entry::Metadata(EntryMetadata {
        is_dir: true,
        inode: 1,
        device: 1,
        len: 0,
        size_on_disk: None,
    });
    let on_disk = WalkOptions { apparent_size: false, ..options() };
    let report = aggregate(on_disk, false, false, &vec![root("a", vec![broken_dir])]);
    assert_eq!(shown(&report), vec![("a".to_string(), 0, 0)]);
}

#[test]
fn walker_and_metadata_failures_are_errors_of_their_root() {
    let report = aggregate(
        options(),
        true,
        false,
        &vec![
            root("a", vec![Entry::WalkError, file(1, 4), Entry::MetadataError]),
            root("b", vec![Entry::NoMetadata, file(2, 6)]),
        ],
    );
    assert_eq!(shown(&report), vec![("a".to_string(), 4, 2), ("b".to_string(), 6, 0)]);
    assert_eq!(report.result.num_errors, 2);
    assert_eq!(report.stats.entries_traversed, 5);
    let total = report.total.expect("two roots and a total asked for");
    assert_eq!((total.path.as_str(), total.num_bytes, total.num_errors), ("total", 10, 2));
    assert_eq!(total.path_color, None);
}

#[test]
fn walker_failure_alone_leaves_the_smallest_size_untouched() {
    let report = aggregate(options(), false, false, &vec![root("a", vec![Entry::WalkError])]);
    assert_eq!(report.stats.entries_traversed, 1);
    assert_eq!(report.stats.smallest_file_in_bytes, u128::MAX);
    assert_eq!(report.stats.largest_file_in_bytes, 0);
    assert_eq!(shown(&report), vec![("a".to_string(), 0, 1)]);
}

#[test]
fn unresolved_device_is_one_error_and_the_run_goes_on() {
    let lost = RootInput { path: "x".to_string(), is_file: false, device: None, entries: vec![file(1, 99)] };
    let sorted = aggregate(options(), true, true, &vec![root("a", vec![file(2, 5)]), lost]);
    assert_eq!(shown(&sorted), vec![("x".to_string(), 0, 1), ("a".to_string(), 5, 0)]);
    assert_eq!(sorted.result.num_errors, 1);
    assert_eq!(sorted.stats.entries_traversed, 1);
    let total = sorted.total.expect("two roots and a total asked for");
    assert_eq!((total.num_bytes, total.num_errors), (5, 1));

    let lost = RootInput { path: "x".to_string(), is_file: false, device: None, entries: vec![] };
    let unsorted = aggregate(options(), true, false, &vec![lost, root("a", vec![file(2, 5)])]);
    assert_eq!(shown(&unsorted), vec![("x".to_string(), 0, 1), ("a".to_string(), 5, 0)]);
    assert_eq!(unsorted.result.num_errors, 1);
    let total = unsorted.total.expect("two roots and a total asked for");
    assert_eq!((total.num_bytes, total.num_errors), (5, 1));
}

#[test]
fn unresolved_device_gets_its_line_before_the_next_root() {
    let lost = RootInput {
        path: "lost".to_string(),
        is_file: false,
        device: None,
        entries: vec![file(1, 99)],
    };
    let report = aggregate(options(), false, false, &vec![lost, root("kept", vec![file(2, 7)])]);
    assert_eq!(shown(&report), vec![("lost".to_string(), 0, 1), ("kept".to_string(), 7, 0)]);
    assert_eq!(report.result.num_errors, 1);
    assert_eq!(report.stats.entries_traversed, 1);
    let lines: Vec<String> = report
        .records
        .iter()
        .map(|r| output_colored_path(&format!("{} b", r.num_bytes), 5, &r.path, r.num_errors, r.path_color))
        .collect();
    assert_eq!(
        lines,
        vec![
            "\x1b[32m  0 b\x1b[39m \x1b[36mlost\x1b[39m  <1 IO Error>\n".to_string(),
            "\x1b[32m  7 b\x1b[39m \x1b[36mkept\x1b[39m\n".to_string(),
        ]
    );
}

#[test]
fn every_root_has_one_record() {
    let roots = vec![
        RootInput { path: "x".to_string(), is_file: false, device: None, entries: vec![] },
        root("a", vec![file(1, 3)]),
        RootInput { path: "y".to_string(), is_file: true, device: None, entries: vec![] },
        root("b", vec![]),
    ];
    for sort in [false, true] {
        let report = aggregate(options(), true, sort, &roots);
        assert_eq!(report.records.len(), 4);
        assert_eq!(report.result.num_errors, 2);
        let total = report.total.expect("four roots and a total asked for");
        assert_eq!((total.num_bytes, total.num_errors), (3, 2));
    }
    let unsorted = aggregate(options(), true, false, &roots);
    let paths: Vec<String> = unsorted.records.iter().map(|r| r.path.clone()).collect();
    assert_eq!(paths, vec!["x", "a", "y", "b"]);
    let sorted = aggregate(options(), true, true, &roots);
    let paths: Vec<String> = sorted.records.iter().map(|r| r.path.clone()).collect();
    assert_eq!(paths, vec!["x", "y", "b", "a"]);
}

#[test]
fn sorting_is_ascending_and_keeps_the_order_of_equal_sizes() {
    let roots = vec![
        root("c", vec![file(1, 30)]),
        root("a", vec![file(2, 10)]),
        root("d", vec![file(3, 30)]),
        root("b", vec![file(4, 10)]),
        root("e", vec![file(5, 20)]),
    ];
    let sorted = aggregate(options(), true, true, &roots);
    let paths: Vec<String> = sorted.records.iter().map(|r| r.path.clone()).collect();
    assert_eq!(paths, vec!["a", "b", "e", "c", "d"]);
    let unsorted = aggregate(options(), true, false, &roots);
    let paths: Vec<String> = unsorted.records.iter().map(|r| r.path.clone()).collect();
    assert_eq!(paths, vec!["c", "a", "d", "b", "e"]);
    assert_eq!(sorted.total.as_ref().map(|t| t.num_bytes), Some(100));
    assert_eq!(unsorted.total.as_ref().map(|t| t.num_bytes), Some(100));
}

#[test]
fn total_needs_more_than_one_root_and_the_request() {
    let one = vec![root("a", vec![file(1, 1)])];
    let two = vec![root("a", vec![file(1, 1)]), root("b", vec![file(2, 2)])];
    assert!(aggregate(options(), true, true, &one).total.is_none());
    assert!(aggregate(options(), false, true, &two).total.is_none());
    assert!(aggregate(options(), false, false, &two).total.is_none());
    let with_total = aggregate(options(), true, false, &two);
    assert_eq!(with_total.total.map(|t| (t.path, t.num_bytes)), Some(("total".to_string(), 3)));
}

#[test]
fn two_roots_sorted_with_total_give_three_lines() {
    let roots = vec![root("a", vec![file(1, 100)]), root("b", vec![file(2, 50)])];
    let report = aggregate(options(), true, true, &roots);
    let mut lines = Vec::new();
    for r in report.records.iter().chain(report.total.iter()) {
        let size = format!("{} b", r.num_bytes);
        lines.push(output_colored_path(&size, 12, &r.path, r.num_errors, r.path_color));
    }
    assert_eq!(
        lines,
        vec![
            "\x1b[32m        50 b\x1b[39m \x1b[36mb\x1b[39m\n".to_string(),
            "\x1b[32m       100 b\x1b[39m \x1b[36ma\x1b[39m\n".to_string(),
            "\x1b[32m       150 b\x1b[39m total\n".to_string(),
        ]
    );
    assert_eq!(report.records[0].path_color, Some(Color::Cyan));
}

#[test]
fn plain_file_roots_have_no_color() {
    let plain = RootInput { path: "f".to_string(), is_file: true, device: Some(1), entries: vec![file(1, 2)] };
    let report = aggregate(options(), false, false, &vec![plain]);
    assert_eq!(report.records[0].path_color, None);
}

#[test]
fn counters_stop_at_their_largest_value() {
    let big = file(1, u64::MAX);
    let many = aggregate(
        WalkOptions { count_hard_links: true, ..options() },
        true,
        false,
        &vec![root("a", vec![big, big, big])],
    );
    assert_eq!(many.records[0].num_bytes, 3 * (u64::MAX as u128));
    assert_eq!(many.stats.largest_file_in_bytes, u64::MAX as u128);
}
