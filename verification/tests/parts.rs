use disk_usage::entry::file_size;
use disk_usage::listing::keep_listed;
use disk_usage::sort::sort_by_size;
use disk_usage::{
    AggregateRecord, Aggregator, Color, Contribution, Entry, EntryMetadata, InodeFilter,
    Statistics, ThrottleWriter, WalkOptions, WalkResult,
};

fn record(path: &str, num_bytes: u128, num_errors: u64) -> AggregateRecord {
    AggregateRecord { path: path.to_string(), num_bytes, num_errors, path_color: None }
}

fn order(records: &[AggregateRecord]) -> Vec<(String, u128)> {
    records.iter().map(|r| (r.path.clone(), r.num_bytes)).collect()
}

fn meta(is_dir: bool, inode: u64, device: u64, len: u64, size_on_disk: Option<u64>) -> EntryMetadata {
    EntryMetadata { is_dir, inode, device, len, size_on_disk }
}

#[test]
fn statistics_start_with_the_largest_smallest_size() {
    let stats = Statistics::new();
    assert_eq!(stats.entries_traversed, 0);
    assert_eq!(stats.smallest_file_in_bytes, u128::MAX);
    assert_eq!(stats.largest_file_in_bytes, 0);
    assert_eq!(stats.report().smallest_file_in_bytes, 0);
}

#[test]
fn statistics_default_is_all_zero() {
    let stats = Statistics::default();
    assert_eq!(
        stats,
        Statistics { entries_traversed: 0, smallest_file_in_bytes: 0, largest_file_in_bytes: 0 }
    );
    assert_eq!(WalkResult::default().num_errors, 0);
}

#[test]
fn statistics_keep_the_smallest_and_the_largest() {
    let mut stats = Statistics::new();
    stats.count_entry();
    stats.observe(40);
    stats.count_entry();
    stats.observe(7);
    stats.count_entry();
    stats.observe(1000);
    stats.observe(50);
    assert_eq!(
        stats.report(),
        Statistics { entries_traversed: 3, smallest_file_in_bytes: 7, largest_file_in_bytes: 1000 }
    );
}

#[test]
fn entry_count_stops_at_the_largest_value() {
    let mut stats = Statistics {
        entries_traversed: u64::MAX - 1,
        smallest_file_in_bytes: 1,
        largest_file_in_bytes: 1,
    };
    stats.count_entry();
    assert_eq!(stats.entries_traversed, u64::MAX);
    stats.count_entry();
    assert_eq!(stats.entries_traversed, u64::MAX);
}

#[test]
fn tracker_reports_a_key_as_new_once() {
    let mut inodes = InodeFilter::new();
    assert!(!inodes.contains(4));
    assert!(inodes.add(4));
    assert!(inodes.contains(4));
    assert!(!inodes.add(4));
    assert!(inodes.add(5));
    assert!(!inodes.add(4));
    assert!(!inodes.add(5));
    let fresh = InodeFilter::default();
    assert!(!fresh.contains(4));
}

#[test]
fn file_size_follows_the_policies() {
    let all = WalkOptions { apparent_size: true, count_hard_links: true, cross_filesystems: true };
    let mut inodes = InodeFilter::new();
    let f = meta(false, 3, 1, 10, Some(4096));
    assert_eq!(file_size(&all, &mut inodes, 1, &f), Contribution { bytes: 10, error: false });
    assert_eq!(file_size(&all, &mut inodes, 1, &f), Contribution { bytes: 10, error: false });
    assert!(!inodes.contains(3));

    let once = WalkOptions { count_hard_links: false, apparent_size: false, ..all };
    assert_eq!(file_size(&once, &mut inodes, 1, &f), Contribution { bytes: 4096, error: false });
    assert!(inodes.contains(3));
    assert_eq!(file_size(&once, &mut inodes, 1, &f), Contribution { bytes: 0, error: false });

    let d = meta(true, 9, 1, 10, None);
    assert_eq!(file_size(&once, &mut inodes, 1, &d), Contribution { bytes: 0, error: false });
    assert!(!inodes.contains(9));

    let broken = meta(false, 11, 1, 10, None);
    assert_eq!(file_size(&once, &mut inodes, 1, &broken), Contribution { bytes: 0, error: true });
}

#[test]
fn an_entry_on_another_device_is_still_recorded_by_the_tracker() {
    let stay = WalkOptions { apparent_size: true, count_hard_links: false, cross_filesystems: false };
    let mut inodes = InodeFilter::new();
    let far = meta(false, 3, 2, 10, Some(10));
    assert_eq!(file_size(&stay, &mut inodes, 1, &far), Contribution { bytes: 0, error: false });
    assert!(inodes.contains(3));
    let near = meta(false, 3, 1, 10, Some(10));
    assert_eq!(file_size(&stay, &mut inodes, 1, &near), Contribution { bytes: 0, error: false });
}

#[test]
fn sort_of_nothing_and_of_one() {
    assert!(sort_by_size(vec![]).is_empty());
    assert_eq!(order(&sort_by_size(vec![record("a", 5, 0)])), vec![("a".to_string(), 5)]);
}

#[test]
fn sort_is_ascending_and_stable() {
    let sorted = sort_by_size(vec![
        record("a", 3, 0),
        record("b", 1, 0),
        record("c", 3, 1),
        record("d", 2, 0),
        record("e", 1, 2),
        record("f", 3, 0),
    ]);
    assert_eq!(
        order(&sorted),
        vec![
            ("b".to_string(), 1),
            ("e".to_string(), 1),
            ("d".to_string(), 2),
            ("a".to_string(), 3),
            ("c".to_string(), 3),
            ("f".to_string(), 3),
        ]
    );
    assert_eq!(sorted.iter().map(|r| r.num_bytes).sum::<u128>(), 13);
    assert_eq!(sorted.iter().map(|r| r.num_errors).sum::<u64>(), 3);
}

#[test]
fn sort_agrees_with_the_standard_stable_sort() {
    let mut expected = Vec::new();
    let mut input = Vec::new();
    let mut x: u64 = 12345;
    for i in 0..200 {
        x = x.wrapping_mul(6364136223846793005).wrapping_add(1442695040888963407);
        let bytes = ((x >> 33) % 17) as u128;
        input.push(record(&format!("root{}", i), bytes, 0));
        expected.push((format!("root{}", i), bytes));
    }
    expected.sort_by_key(|&(_, bytes)| bytes);
    assert_eq!(order(&sort_by_size(input)), expected);
}

#[test]
fn sort_of_sorted_and_of_reversed_input() {
    let up = sort_by_size(vec![record("a", 1, 0), record("b", 2, 0), record("c", 3, 0)]);
    assert_eq!(order(&up), vec![("a".to_string(), 1), ("b".to_string(), 2), ("c".to_string(), 3)]);
    let down = sort_by_size(vec![record("c", 3, 0), record("b", 2, 0), record("a", 1, 0)]);
    assert_eq!(order(&down), vec![("a".to_string(), 1), ("b".to_string(), 2), ("c".to_string(), 3)]);
}

#[test]
fn progress_without_a_sink_never_writes() {
    let mut progress = ThrottleWriter::new(false);
    assert!(!progress.throttled());
    progress.raise();
    assert!(!progress.throttled());
    assert!(!progress.unthrottled());
}

#[test]
fn progress_writes_once_for_each_raise() {
    let mut progress = ThrottleWriter::new(true);
    assert!(!progress.throttled());
    progress.raise();
    assert!(progress.throttled());
    assert!(!progress.throttled());
    progress.raise();
    progress.raise();
    assert!(progress.throttled());
    assert!(!progress.throttled());
    assert!(progress.unthrottled());
    assert!(progress.unthrottled());
}

#[test]
fn run_step_by_step_shows_roots_as_they_come() {
    let options = WalkOptions { apparent_size: true, count_hard_links: false, cross_filesystems: true };
    let mut run = Aggregator::new(options, true, false, true);

    let begun = run.begin_root("a".to_string(), false, Some(1));
    assert!(begun.record.is_none());
    let mut a = begun.root.expect("device is known");
    let first = Entry::Metadata(meta(false, 1, 1, 100, None));
    assert_eq!(run.on_entry(&mut a, &first), None);
    run.tick();
    let second = Entry::Metadata(meta(false, 2, 1, 20, None));
    assert_eq!(run.on_entry(&mut a, &second), Some("Enumerating 2 entries\r".to_string()));
    assert_eq!(run.on_entry(&mut a, &Entry::WalkError), None);
    let end = run.finish_root(a);
    assert_eq!(end.clear, Some("\x1b[2K\r".to_string()));
    let shown = end.record.expect("shown at once");
    assert_eq!((shown.path.as_str(), shown.num_bytes, shown.num_errors), ("a", 120, 1));
    assert_eq!(shown.path_color, Some(Color::Cyan));

    let begun = run.begin_root("lost".to_string(), false, None);
    assert!(begun.root.is_none());
    let shown = begun.record.expect("shown at once");
    assert_eq!((shown.path.as_str(), shown.num_bytes, shown.num_errors), ("lost", 0, 1));
    assert_eq!(shown.path_color, Some(Color::Cyan));

    let mut f = run.begin_root("f".to_string(), true, Some(1)).root.expect("device is known");
    assert_eq!(run.on_entry(&mut f, &first), None);
    let end = run.finish_root(f);
    let shown = end.record.expect("shown at once");
    assert_eq!((shown.path.as_str(), shown.num_bytes, shown.num_errors), ("f", 0, 0));
    assert_eq!(shown.path_color, None);

    let summary = run.finish();
    assert!(summary.records.is_empty());
    assert_eq!(summary.result.num_errors, 2);
    assert_eq!(
        summary.stats,
        Statistics { entries_traversed: 4, smallest_file_in_bytes: 0, largest_file_in_bytes: 100 }
    );
    let total = summary.total.expect("three roots and a total asked for");
    assert_eq!((total.path.as_str(), total.num_bytes, total.num_errors), ("total", 120, 2));
}

#[test]
fn run_step_by_step_keeps_roots_for_the_end_when_sorting() {
    let options = WalkOptions { apparent_size: true, count_hard_links: true, cross_filesystems: true };
    let mut run = Aggregator::new(options, false, true, false);
    let begun = run.begin_root("lost".to_string(), true, None);
    assert!(begun.root.is_none());
    assert!(begun.record.is_none());
    for (path, len) in [("big", 9u64), ("small", 1), ("middle", 5)] {
        let mut root = run.begin_root(path.to_string(), false, Some(1)).root.expect("device is known");
        run.tick();
        assert_eq!(run.on_entry(&mut root, &Entry::Metadata(meta(false, 1, 1, len, None))), None);
        let end = run.finish_root(root);
        assert!(end.clear.is_none());
        assert!(end.record.is_none());
    }
    let summary = run.finish();
    assert_eq!(
        order(&summary.records),
        vec![
            ("lost".to_string(), 0),
            ("small".to_string(), 1),
            ("middle".to_string(), 5),
            ("big".to_string(), 9),
        ]
    );
    assert!(summary.total.is_none());
    assert_eq!(summary.result.num_errors, 1);
}

#[test]
fn default_listing_keeps_what_is_on_the_working_device() {
    assert!(keep_listed(true, Some(1), Some(2)));
    assert!(keep_listed(false, Some(1), Some(1)));
    assert!(!keep_listed(false, Some(1), Some(2)));
}

#[test]
fn default_listing_keeps_everything_where_a_device_cannot_be_told() {
    assert!(keep_listed(false, None, Some(2)));
    assert!(keep_listed(false, Some(1), None));
    assert!(keep_listed(false, None, None));
    assert!(keep_listed(true, None, None));
}

#[test]
fn size_on_disk_is_wanted_only_for_entries_that_count() {
    let on_disk = WalkOptions { apparent_size: false, count_hard_links: false, cross_filesystems: false };
    let mut run = Aggregator::new(on_disk, false, false, false);
    let mut root = run.begin_root("a".to_string(), false, Some(1)).root.expect("device is known");
    let f = meta(false, 3, 1, 10, Some(4096));
    assert!(run.wants_size_on_disk(&root, &f));
    assert!(!run.wants_size_on_disk(&root, &meta(true, 4, 1, 10, None)));
    assert!(!run.wants_size_on_disk(&root, &meta(false, 5, 2, 10, None)));
    assert_eq!(run.on_entry(&mut root, &Entry::Metadata(f)), None);
    assert!(!run.wants_size_on_disk(&root, &f));
    let end = run.finish_root(root);
    assert_eq!(end.record.map(|r| r.num_bytes), Some(4096));

    let apparent = WalkOptions { apparent_size: true, ..on_disk };
    let mut run = Aggregator::new(apparent, false, false, false);
    let root = run.begin_root("a".to_string(), false, Some(1)).root.expect("device is known");
    assert!(!run.wants_size_on_disk(&root, &f));
}
