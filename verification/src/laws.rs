//! What holds of every run, proved over the model of a run.

use crate::aggregate::{
    lemma_walk_keeps_roots, root_done, root_record, root_walked, roots_done, roots_records,
    run_walked, RootInputView,
};
use crate::entry::{eligible, Entry, EntryMetadata, WalkOptions};
use crate::model::{effect, total_label, Effect, RootModel, RunModel};
use crate::record::{lemma_totals_push, total_bytes, total_errors};
use crate::stats::Statistics;
use vstd::prelude::*;

verus! {

/// The number `n`, or the largest `u64` where `n` is larger.
pub open spec fn clamp64(n: int) -> u64 {
    if n > u64::MAX {
        u64::MAX
    } else {
        n as u64
    }
}

/// The number `n`, or the largest `u128` where `n` is larger.
pub open spec fn clamp128(n: int) -> u128 {
    if n > u128::MAX {
        u128::MAX
    } else {
        n as u128
    }
}

/// How many entries were met in the roots that were walked.
pub open spec fn entries_met(roots: Seq<RootInputView>) -> nat
    decreases roots.len(),
{
    if roots.len() == 0 {
        0
    } else if roots.last().device is Some {
        entries_met(roots.drop_last()) + roots.last().entries.len()
    } else {
        entries_met(roots.drop_last())
    }
}

/// Every entry that is met is counted, and nothing else is.
pub proof fn lemma_walk_counts_entries(run: RunModel, root_device: u64, entries: Seq<Entry>)
    ensures
        run_walked(run, root_device, entries).stats.entries_traversed == clamp64(
            run.stats.entries_traversed + entries.len(),
        ),
    decreases entries.len(),
{
    if entries.len() > 0 {
        lemma_walk_counts_entries(run, root_device, entries.drop_last());
    }
}

/// The entries counted at the end of a run are those met in the roots that
/// were walked.
pub proof fn lemma_run_counts_entries(run: RunModel, roots: Seq<RootInputView>)
    ensures
        roots_done(run, roots).stats.entries_traversed == clamp64(
            run.stats.entries_traversed + entries_met(roots),
        ),
    decreases roots.len(),
{
    if roots.len() > 0 {
        let before = roots_done(run, roots.drop_last());
        lemma_run_counts_entries(run, roots.drop_last());
        let root = roots.last();
        match root.device {
            Some(id) => {
                lemma_walk_counts_entries(
                    before.root_begun(root.path, root.is_file, root.device),
                    id,
                    root.entries,
                );
            },
            None => {},
        }
    }
}

/// Where no entry is met in any root, the smallest size that is reported is
/// 0, and so is the largest.
pub proof fn lemma_nothing_met_reports_zero(
    options: WalkOptions,
    compute_total: bool,
    sort_by_size_in_bytes: bool,
    has_sink: bool,
    roots: Seq<RootInputView>,
)
    requires
        entries_met(roots) == 0,
    ensures
        roots_done(
            RunModel::initial(options, compute_total, sort_by_size_in_bytes, has_sink),
            roots,
        ).stats.reported() == (Statistics {
            entries_traversed: 0,
            smallest_file_in_bytes: 0,
            largest_file_in_bytes: 0,
        }),
{
    let start = RunModel::initial(options, compute_total, sort_by_size_in_bytes, has_sink);
    lemma_run_counts_entries(start, roots);
    lemma_largest_without_entries(start, roots);
}

/// Where no entry is met in any root, the largest size stays what it was.
proof fn lemma_largest_without_entries(run: RunModel, roots: Seq<RootInputView>)
    requires
        entries_met(roots) == 0,
    ensures
        roots_done(run, roots).stats.largest_file_in_bytes == run.stats.largest_file_in_bytes,
    decreases roots.len(),
{
    if roots.len() > 0 {
        lemma_largest_without_entries(run, roots.drop_last());
        let root = roots.last();
        if root.device is Some {
            assert(root.entries.len() == 0);
        }
    }
}

/// An entry that contributes no bytes and is no error leaves the tallies of
/// its root as they were.
pub proof fn lemma_nothing_added(root: RootModel)
    ensures
        root.add(Effect { bytes: Some(0), error: false }) == root,
{
}

/// A directory leaves the tallies of its root as they were.
pub proof fn lemma_directory_adds_nothing(
    options: WalkOptions,
    seen: Set<u64>,
    root: RootModel,
    entry: Entry,
)
    requires
        entry matches Entry::Metadata(meta) && meta.is_dir,
    ensures
        root.add(effect(options, seen, root.device, entry)) == root,
{
}

/// While other filesystems are left out, an entry on another device than
/// its root leaves the tallies of its root as they were: it adds no bytes
/// and is no error.
pub proof fn lemma_other_device_adds_nothing(
    options: WalkOptions,
    seen: Set<u64>,
    root: RootModel,
    entry: Entry,
)
    requires
        !options.cross_filesystems,
        entry matches Entry::Metadata(meta) && meta.device != root.device,
    ensures
        root.add(effect(options, seen, root.device, entry)) == root,
{
}

/// Where the filesystem cannot say what an entry that counts occupies, the
/// entry adds no bytes to its root and exactly one error.
pub proof fn lemma_failed_size_adds_one_error(
    options: WalkOptions,
    seen: Set<u64>,
    root: RootModel,
    entry: Entry,
)
    requires
        !options.apparent_size,
        entry matches Entry::Metadata(meta) && eligible(
            options,
            seen,
            root.device,
            meta,
        ) && meta.size_on_disk is None,
    ensures
        root.add(effect(options, seen, root.device, entry)).num_bytes == root.num_bytes,
        root.add(effect(options, seen, root.device, entry)).num_errors == clamp64(
            root.num_errors + 1,
        ),
{
}

/// An entry whose size the filesystem cannot say leaves the run as a file of
/// no bytes would: it is counted, its 0 bytes go into the smallest and
/// largest size, and the entries after it are dealt with as after any other.
pub proof fn lemma_failed_size_leaves_run_going(
    run: RunModel,
    root_device: u64,
    meta: EntryMetadata,
)
    requires
        !run.options.apparent_size,
        eligible(run.options, run.seen, root_device, meta),
        meta.size_on_disk is None,
    ensures
        run.entry_met(root_device, Entry::Metadata(meta)) == run.entry_met(
            root_device,
            Entry::Metadata(EntryMetadata { size_on_disk: Some(0), ..meta }),
        ),
        run.entry_met(root_device, Entry::Metadata(meta)).stats == run.stats.counted().observed(0),
{
}

/// An identity key that was met stays met while entries are walked.
pub proof fn lemma_walk_keeps_keys(run: RunModel, root_device: u64, entries: Seq<Entry>, key: u64)
    requires
        run.seen.contains(key),
    ensures
        run_walked(run, root_device, entries).seen.contains(key),
    decreases entries.len(),
{
    if entries.len() > 0 {
        lemma_walk_keeps_keys(run, root_device, entries.drop_last(), key);
    }
}

/// An identity key that was met stays met while roots are dealt with.
pub proof fn lemma_run_keeps_keys(run: RunModel, roots: Seq<RootInputView>, key: u64)
    requires
        run.seen.contains(key),
    ensures
        roots_done(run, roots).seen.contains(key),
    decreases roots.len(),
{
    if roots.len() > 0 {
        lemma_run_keeps_keys(run, roots.drop_last(), key);
        let before = roots_done(run, roots.drop_last());
        let root = roots.last();
        match root.device {
            Some(id) => {
                lemma_walk_keeps_keys(
                    before.root_begun(root.path, root.is_file, root.device),
                    id,
                    root.entries,
                    key,
                );
            },
            None => {},
        }
    }
}

/// While hard links are not counted one by one, of two entries of a walk
/// with the same identity key only the first can contribute: the second adds
/// no bytes to its root and is no error.
pub proof fn lemma_second_link_adds_nothing(
    run: RunModel,
    root: RootModel,
    entries: Seq<Entry>,
    i: int,
    j: int,
)
    requires
        !run.options.count_hard_links,
        0 <= i < j < entries.len(),
        entries[i] matches Entry::Metadata(first) && !first.is_dir && (entries[j] matches Entry::Metadata(
            second,
        ) && first.inode == second.inode),
    ensures
        effect(
            run.options,
            run_walked(run, root.device, entries.take(j)).seen,
            root.device,
            entries[j],
        ) == (Effect { bytes: Some(0), error: false }),
        root_walked(run, root, entries.take(j + 1)) == root_walked(run, root, entries.take(j)),
{
    let key = entries[i]->Metadata_0.inode;
    let upto = entries.take(i + 1);
    assert(upto.drop_last() =~= entries.take(i));
    assert(upto.last() == entries[i]);
    lemma_walk_keeps_roots(run, root.device, entries.take(i));
    assert(run_walked(run, root.device, upto).seen.contains(key));
    let rest = entries.subrange(i + 1, j);
    lemma_walk_joined(run, root.device, upto, rest);
    assert(upto + rest =~= entries.take(j));
    lemma_walk_keeps_keys(run_walked(run, root.device, upto), root.device, rest, key);
    lemma_walk_keeps_roots(run, root.device, entries.take(j));
    assert(entries.take(j + 1).drop_last() =~= entries.take(j));
    assert(entries.take(j + 1).last() == entries[j]);
}

/// Walking two stretches of entries one after the other is walking them
/// joined.
pub proof fn lemma_walk_joined(run: RunModel, root_device: u64, a: Seq<Entry>, b: Seq<Entry>)
    ensures
        run_walked(run, root_device, a + b) == run_walked(
            run_walked(run, root_device, a),
            root_device,
            b,
        ),
    decreases b.len(),
{
    if b.len() == 0 {
        assert(a + b =~= a);
    } else {
        lemma_walk_joined(run, root_device, a, b.drop_last());
        assert((a + b).drop_last() =~= a + b.drop_last());
        assert((a + b).last() == b.last());
    }
}

/// Every root that is begun is counted.
pub proof fn lemma_run_counts_roots(run: RunModel, roots: Seq<RootInputView>)
    ensures
        roots_done(run, roots).num_roots == clamp64(run.num_roots + roots.len()),
        roots_done(run, roots).compute_total == run.compute_total,
        roots_done(run, roots).sort_by_size_in_bytes == run.sort_by_size_in_bytes,
        roots_done(run, roots).options == run.options,
    decreases roots.len(),
{
    if roots.len() > 0 {
        lemma_run_counts_roots(run, roots.drop_last());
        let before = roots_done(run, roots.drop_last());
        let root = roots.last();
        match root.device {
            Some(id) => {
                lemma_walk_keeps_roots(
                    before.root_begun(root.path, root.is_file, root.device),
                    id,
                    root.entries,
                );
            },
            None => {},
        }
    }
}

/// The bytes and the errors of a run are the sums of those of the records of
/// its roots, as far as the counters reach.
pub proof fn lemma_run_sums_records(run: RunModel, roots: Seq<RootInputView>)
    ensures
        roots_done(run, roots).total == clamp128(
            run.total + total_bytes(roots_records(run, roots)),
        ),
        roots_done(run, roots).num_errors == clamp64(
            run.num_errors + total_errors(roots_records(run, roots)),
        ),
    decreases roots.len(),
{
    if roots.len() > 0 {
        lemma_run_sums_records(run, roots.drop_last());
        let before = roots_done(run, roots.drop_last());
        let root = roots.last();
        lemma_totals_push(roots_records(run, roots.drop_last()), root_record(before, root));
        match root.device {
            Some(id) => {
                lemma_walk_keeps_roots(
                    before.root_begun(root.path, root.is_file, root.device),
                    id,
                    root.entries,
                );
            },
            None => {},
        }
    }
}

/// A line that sums up the roots appears if and only if there is more than
/// one root and it was asked for. Its bytes and errors are the sums of those
/// of the records of all roots, as far as the counters reach.
pub proof fn lemma_total_line(
    options: WalkOptions,
    compute_total: bool,
    sort_by_size_in_bytes: bool,
    has_sink: bool,
    roots: Seq<RootInputView>,
)
    ensures
        ({
            let start = RunModel::initial(options, compute_total, sort_by_size_in_bytes, has_sink);
            let end = roots_done(start, roots);
            &&& end.total_record() is Some <==> roots.len() > 1 && compute_total
            &&& end.total_record() matches Some(total) ==> {
                &&& total.num_bytes == clamp128(total_bytes(roots_records(start, roots)) as int)
                &&& total.num_errors == clamp64(total_errors(roots_records(start, roots)) as int)
                &&& total.path == total_label()
                &&& total.path_color is None
            }
        }),
{
    let start = RunModel::initial(options, compute_total, sort_by_size_in_bytes, has_sink);
    lemma_run_counts_roots(start, roots);
    lemma_run_sums_records(start, roots);
}

/// Where the roots are shown in the order of their sizes, the records kept
/// for the end are those of all roots, in the order of the roots.
pub proof fn lemma_sorted_run_keeps_all_records(run: RunModel, roots: Seq<RootInputView>)
    requires
        run.sort_by_size_in_bytes,
    ensures
        roots_done(run, roots).buffer == run.buffer + roots_records(run, roots),
    decreases roots.len(),
{
    if roots.len() == 0 {
        assert(run.buffer + roots_records(run, roots) =~= run.buffer);
    } else {
        lemma_sorted_run_keeps_all_records(run, roots.drop_last());
        lemma_run_counts_roots(run, roots.drop_last());
        let before = roots_done(run, roots.drop_last());
        let root = roots.last();
        match root.device {
            Some(id) => {
                lemma_walk_keeps_roots(
                    before.root_begun(root.path, root.is_file, root.device),
                    id,
                    root.entries,
                );
            },
            None => {},
        }
        assert(roots_done(run, roots).buffer =~= run.buffer + roots_records(run, roots));
    }
}

/// There is one record for each root.
pub proof fn lemma_one_record_for_each_root(run: RunModel, roots: Seq<RootInputView>)
    ensures
        roots_records(run, roots).len() == roots.len(),
    decreases roots.len(),
{
    if roots.len() > 0 {
        lemma_one_record_for_each_root(run, roots.drop_last());
    }
}

/// Where the roots are shown as they come, no record is kept for the end.
pub proof fn lemma_unsorted_run_keeps_no_record(run: RunModel, roots: Seq<RootInputView>)
    requires
        !run.sort_by_size_in_bytes,
    ensures
        roots_done(run, roots).buffer == run.buffer,
    decreases roots.len(),
{
    if roots.len() > 0 {
        lemma_unsorted_run_keeps_no_record(run, roots.drop_last());
        lemma_run_counts_roots(run, roots.drop_last());
        let before = roots_done(run, roots.drop_last());
        let root = roots.last();
        match root.device {
            Some(id) => {
                lemma_walk_keeps_roots(
                    before.root_begun(root.path, root.is_file, root.device),
                    id,
                    root.entries,
                );
            },
            None => {},
        }
    }
}

/// Whether two states of a run differ at most in the order in which the
/// roots are shown and in the records kept for the end.
pub open spec fn same_but_for_order(a: RunModel, b: RunModel) -> bool {
    &&& a.options == b.options
    &&& a.compute_total == b.compute_total
    &&& a.stats == b.stats
    &&& a.num_errors == b.num_errors
    &&& a.total == b.total
    &&& a.num_roots == b.num_roots
    &&& a.seen == b.seen
    &&& a.progress == b.progress
}

/// The order in which the roots are shown has no part in a walk.
proof fn lemma_walk_ignores_order(
    a: RunModel,
    b: RunModel,
    root: RootModel,
    entries: Seq<Entry>,
)
    requires
        same_but_for_order(a, b),
    ensures
        same_but_for_order(
            run_walked(a, root.device, entries),
            run_walked(b, root.device, entries),
        ),
        root_walked(a, root, entries) == root_walked(b, root, entries),
    decreases entries.len(),
{
    if entries.len() > 0 {
        lemma_walk_ignores_order(a, b, root, entries.drop_last());
    }
}

/// The order in which the roots are shown changes neither the bytes nor the
/// errors of a run, nor its statistics, nor the record of any root.
pub proof fn lemma_run_ignores_order(a: RunModel, b: RunModel, roots: Seq<RootInputView>)
    requires
        same_but_for_order(a, b),
    ensures
        same_but_for_order(roots_done(a, roots), roots_done(b, roots)),
        roots_records(a, roots) == roots_records(b, roots),
    decreases roots.len(),
{
    if roots.len() > 0 {
        lemma_run_ignores_order(a, b, roots.drop_last());
        let before_a = roots_done(a, roots.drop_last());
        let before_b = roots_done(b, roots.drop_last());
        let root = roots.last();
        match root.device {
            Some(id) => {
                lemma_walk_ignores_order(
                    before_a.root_begun(root.path, root.is_file, root.device),
                    before_b.root_begun(root.path, root.is_file, root.device),
                    RootModel::begun(root.path, root.is_file, id),
                    root.entries,
                );
            },
            None => {},
        }
    }
}

/// Sorting never changes the grand total: a run that shows its roots in the
/// order of their sizes ends with the same bytes, errors and statistics as
/// one that shows them as they come.
pub proof fn lemma_sorting_keeps_grand_total(
    options: WalkOptions,
    compute_total: bool,
    has_sink: bool,
    roots: Seq<RootInputView>,
)
    ensures
        ({
            let sorted = roots_done(RunModel::initial(options, compute_total, true, has_sink), roots);
            let unsorted = roots_done(
                RunModel::initial(options, compute_total, false, has_sink),
                roots,
            );
            &&& sorted.total == unsorted.total
            &&& sorted.num_errors == unsorted.num_errors
            &&& sorted.stats == unsorted.stats
            &&& sorted.total_record() == unsorted.total_record()
        }),
{
    lemma_run_ignores_order(
        RunModel::initial(options, compute_total, true, has_sink),
        RunModel::initial(options, compute_total, false, has_sink),
        roots,
    );
}

/// A walk records the identity key of every entry for which the tracker is
/// consulted.
pub proof fn lemma_walk_records_key(run: RunModel, root_device: u64, entries: Seq<Entry>, i: int)
    requires
        !run.options.count_hard_links,
        0 <= i < entries.len(),
        entries[i] matches Entry::Metadata(meta) && !meta.is_dir,
    ensures
        run_walked(run, root_device, entries).seen.contains(entries[i]->Metadata_0.inode),
{
    let key = entries[i]->Metadata_0.inode;
    let upto = entries.take(i + 1);
    let rest = entries.subrange(i + 1, entries.len() as int);
    assert(upto.drop_last() =~= entries.take(i));
    assert(upto.last() == entries[i]);
    lemma_walk_keeps_roots(run, root_device, entries.take(i));
    assert(run_walked(run, root_device, upto).seen.contains(key));
    lemma_walk_joined(run, root_device, upto, rest);
    assert(upto + rest =~= entries);
    lemma_walk_keeps_keys(run_walked(run, root_device, upto), root_device, rest, key);
}

/// While hard links are not counted one by one, an entry whose identity key
/// was met under an earlier root of the run adds no bytes to its own root
/// and is no error, whatever roots were dealt with in between.
pub proof fn lemma_link_under_later_root_adds_nothing(
    run: RunModel,
    earlier: RootInputView,
    i: int,
    between: Seq<RootInputView>,
    later: RootInputView,
    j: int,
)
    requires
        !run.options.count_hard_links,
        earlier.device is Some,
        later.device is Some,
        0 <= i < earlier.entries.len(),
        0 <= j < later.entries.len(),
        earlier.entries[i] matches Entry::Metadata(first) && !first.is_dir && (
        later.entries[j] matches Entry::Metadata(second) && first.inode == second.inode),
    ensures
        ({
            let begun = roots_done(root_done(run, earlier), between).root_begun(
                later.path,
                later.is_file,
                later.device,
            );
            let id = later.device->0;
            let tallies = RootModel::begun(later.path, later.is_file, id);
            &&& effect(
                begun.options,
                run_walked(begun, id, later.entries.take(j)).seen,
                id,
                later.entries[j],
            ) == (Effect { bytes: Some(0), error: false })
            &&& root_walked(begun, tallies, later.entries.take(j + 1)) == root_walked(
                begun,
                tallies,
                later.entries.take(j),
            )
        }),
{
    let key = earlier.entries[i]->Metadata_0.inode;
    let first_begun = run.root_begun(earlier.path, earlier.is_file, earlier.device);
    lemma_walk_records_key(first_begun, earlier.device->0, earlier.entries, i);
    lemma_walk_keeps_roots(first_begun, earlier.device->0, earlier.entries);
    let after_earlier = root_done(run, earlier);
    assert(after_earlier.seen.contains(key));
    lemma_run_keeps_keys(after_earlier, between, key);
    lemma_run_counts_roots(after_earlier, between);
    let begun = roots_done(after_earlier, between).root_begun(
        later.path,
        later.is_file,
        later.device,
    );
    let id = later.device->0;
    lemma_walk_keeps_keys(begun, id, later.entries.take(j), key);
    lemma_walk_keeps_roots(begun, id, later.entries.take(j));
    assert(later.entries.take(j + 1).drop_last() =~= later.entries.take(j));
    assert(later.entries.take(j + 1).last() == later.entries[j]);
}

/// A root's bytes are at most the largest size of a file for each of its
/// entries, and its errors at most one for each.
pub proof fn lemma_walk_bounds_tallies(run: RunModel, root: RootModel, entries: Seq<Entry>)
    ensures
        root_walked(run, root, entries).num_bytes <= root.num_bytes + entries.len() * u64::MAX,
        root_walked(run, root, entries).num_errors <= root.num_errors + entries.len(),
        root_walked(run, root, entries).path == root.path,
        root_walked(run, root, entries).path_color == root.path_color,
        root_walked(run, root, entries).device == root.device,
    decreases entries.len(),
{
    if entries.len() > 0 {
        lemma_walk_bounds_tallies(run, root, entries.drop_last());
        let n = entries.len() as int;
        assert((n - 1) * u64::MAX + u64::MAX == n * u64::MAX) by (nonlinear_arith);
    } else {
        assert(entries.len() * u64::MAX == 0) by (nonlinear_arith)
            requires
                entries.len() == 0,
        ;
    }
}

/// The bytes of all records are at most the largest size of a file for each
/// entry that was met, and their errors at most one for each entry and one
/// for each root.
pub proof fn lemma_records_bounded(run: RunModel, roots: Seq<RootInputView>)
    ensures
        total_bytes(roots_records(run, roots)) <= entries_met(roots) * u64::MAX,
        total_errors(roots_records(run, roots)) <= entries_met(roots) + roots.len(),
    decreases roots.len(),
{
    if roots.len() == 0 {
        assert(entries_met(roots) * u64::MAX == 0) by (nonlinear_arith)
            requires
                entries_met(roots) == 0,
        ;
    } else {
        lemma_records_bounded(run, roots.drop_last());
        let before = roots_done(run, roots.drop_last());
        let root = roots.last();
        lemma_totals_push(roots_records(run, roots.drop_last()), root_record(before, root));
        let m = entries_met(roots.drop_last()) as int;
        match root.device {
            Some(id) => {
                lemma_walk_bounds_tallies(
                    before.root_begun(root.path, root.is_file, root.device),
                    RootModel::begun(root.path, root.is_file, id),
                    root.entries,
                );
                let n = root.entries.len() as int;
                assert(m * u64::MAX + n * u64::MAX == (m + n) * u64::MAX) by (nonlinear_arith);
            },
            None => {},
        }
    }
}

/// Where the entries that are met and the roots together can be counted in
/// a `u64`, no counter stops short: the bytes and the errors of the run are
/// exactly the sums over the records of all roots, and so are those of the
/// line that sums up the roots, which bears the label "total", no color, and
/// the errors of the run.
pub proof fn lemma_total_line_sums_exactly(
    options: WalkOptions,
    compute_total: bool,
    sort_by_size_in_bytes: bool,
    has_sink: bool,
    roots: Seq<RootInputView>,
)
    requires
        entries_met(roots) + roots.len() <= u64::MAX,
    ensures
        ({
            let start = RunModel::initial(options, compute_total, sort_by_size_in_bytes, has_sink);
            let end = roots_done(start, roots);
            &&& end.total == total_bytes(roots_records(start, roots))
            &&& end.num_errors == total_errors(roots_records(start, roots))
            &&& end.num_roots == roots.len()
            &&& end.stats.entries_traversed == entries_met(roots)
            &&& end.total_record() is Some <==> roots.len() > 1 && compute_total
            &&& end.total_record() matches Some(total) ==> {
                &&& total.num_bytes == total_bytes(roots_records(start, roots))
                &&& total.num_errors == total_errors(roots_records(start, roots))
                &&& total.num_errors == end.num_errors
                &&& total.path == total_label()
                &&& total.path_color is None
            }
        }),
{
    let start = RunModel::initial(options, compute_total, sort_by_size_in_bytes, has_sink);
    lemma_run_counts_roots(start, roots);
    lemma_run_counts_entries(start, roots);
    lemma_run_sums_records(start, roots);
    lemma_records_bounded(start, roots);
    let m = entries_met(roots) as int;
    assert(m * u64::MAX <= u128::MAX) by (nonlinear_arith)
        requires
            0 <= m <= u64::MAX,
    ;
}

} // verus!
