//! Aggregating roots whose traversals are at hand.

use crate::aggregator::{record_view, Aggregator, RootTotals};
use crate::entry::{Entry, WalkOptions};
use crate::laws::{lemma_one_record_for_each_root, lemma_sorted_run_keeps_all_records};
use crate::model::{effect, failed_record, RootModel, RunModel};
use crate::record::{views, AggregateRecord, RecordView};
use crate::sort::{is_stable_sort_of, lemma_stable_sort_keeps_totals};
use crate::stats::{Statistics, WalkResult};
use vstd::prelude::*;
use vstd::string::*;

verus! {

/// A root and what the walker met below it.
pub struct RootInput {
    /// The root's path, as it is shown.
    pub path: String,
    /// Whether the path is a plain file.
    pub is_file: bool,
    /// The device the root lives on, or `None` where that could not be told.
    pub device: Option<u64>,
    /// What the walker met, in its order.
    pub entries: Vec<Entry>,
}

/// A root and its traversal as a mathematical value.
pub struct RootInputView {
    pub path: Seq<char>,
    pub is_file: bool,
    pub device: Option<u64>,
    pub entries: Seq<Entry>,
}

impl View for RootInput {
    type V = RootInputView;

    open spec fn view(&self) -> RootInputView {
        RootInputView {
            path: self.path@,
            is_file: self.is_file,
            device: self.device,
            entries: self.entries@,
        }
    }
}

/// The roots of `roots` as mathematical values, in the same order.
pub open spec fn input_views(roots: Seq<RootInput>) -> Seq<RootInputView> {
    roots.map_values(|r: RootInput| r@)
}

/// What a run has to show and to report.
pub struct Report {
    /// The records of the roots, in the order in which they are shown.
    pub records: Vec<AggregateRecord>,
    /// The record that sums up all roots, where there is one.
    pub total: Option<AggregateRecord>,
    /// The errors of the run.
    pub result: WalkResult,
    /// The statistics of the run.
    pub stats: Statistics,
}

/// The state of the run after the entries of a root were met in turn.
pub open spec fn run_walked(run: RunModel, root_device: u64, entries: Seq<Entry>) -> RunModel
    decreases entries.len(),
{
    if entries.len() == 0 {
        run
    } else {
        run_walked(run, root_device, entries.drop_last()).entry_met(root_device, entries.last())
    }
}

/// The tallies of a root after its entries were met in turn, in a run that
/// was in state `run` when the walk began.
pub open spec fn root_walked(run: RunModel, root: RootModel, entries: Seq<Entry>) -> RootModel
    decreases entries.len(),
{
    if entries.len() == 0 {
        root
    } else {
        root_walked(run, root, entries.drop_last()).add(
            effect(
                run.options,
                run_walked(run, root.device, entries.drop_last()).seen,
                root.device,
                entries.last(),
            ),
        )
    }
}

/// The tallies of a root at the end of its walk, where it is walked.
pub open spec fn root_tallies(run: RunModel, root: RootInputView) -> Option<RootModel> {
    match root.device {
        Some(id) => Some(
            root_walked(
                run.root_begun(root.path, root.is_file, root.device),
                RootModel::begun(root.path, root.is_file, id),
                root.entries,
            ),
        ),
        None => None,
    }
}

/// The state of the run after a root was dealt with from beginning to end.
pub open spec fn root_done(run: RunModel, root: RootInputView) -> RunModel {
    match root.device {
        Some(id) => run_walked(
            run.root_begun(root.path, root.is_file, root.device),
            id,
            root.entries,
        ).root_ended(root_tallies(run, root)->0),
        None => run.root_begun(root.path, root.is_file, root.device),
    }
}

/// The record of a root: that of its tallies at the end of its walk, or the
/// record without bytes and with one error of a root that could not be
/// walked.
pub open spec fn root_record(run: RunModel, root: RootInputView) -> RecordView {
    match root_tallies(run, root) {
        Some(tallies) => tallies.record(),
        None => failed_record(root.path, root.is_file),
    }
}

/// The state of the run after the roots were dealt with in turn.
pub open spec fn roots_done(run: RunModel, roots: Seq<RootInputView>) -> RunModel
    decreases roots.len(),
{
    if roots.len() == 0 {
        run
    } else {
        root_done(roots_done(run, roots.drop_last()), roots.last())
    }
}

/// The records of all roots, in the order of the roots.
pub open spec fn roots_records(run: RunModel, roots: Seq<RootInputView>) -> Seq<RecordView>
    decreases roots.len(),
{
    if roots.len() == 0 {
        Seq::empty()
    } else {
        roots_records(run, roots.drop_last()).push(
            root_record(roots_done(run, roots.drop_last()), roots.last()),
        )
    }
}

/// Meeting entries changes neither the policies of a run nor what it has
/// gathered of the roots that are done.
pub proof fn lemma_walk_keeps_roots(run: RunModel, root_device: u64, entries: Seq<Entry>)
    ensures
        run_walked(run, root_device, entries).options == run.options,
        run_walked(run, root_device, entries).compute_total == run.compute_total,
        run_walked(run, root_device, entries).sort_by_size_in_bytes == run.sort_by_size_in_bytes,
        run_walked(run, root_device, entries).num_errors == run.num_errors,
        run_walked(run, root_device, entries).total == run.total,
        run_walked(run, root_device, entries).num_roots == run.num_roots,
        run_walked(run, root_device, entries).buffer == run.buffer,
        run_walked(run, root_device, entries).progress.active == run.progress.active,
    decreases entries.len(),
{
    if entries.len() > 0 {
        lemma_walk_keeps_roots(run, root_device, entries.drop_last());
    }
}

/// Copies a text.
fn copy_text(text: &String) -> (copy: String)
    ensures
        copy@ == text@,
{
    text.clone()
}

/// Walks one root of a run through its entries.
fn walk_root(run: &mut Aggregator, root: &mut RootTotals, entries: &Vec<Entry>)
    ensures
        final(run)@ == run_walked(old(run)@, old(root)@.device, entries@),
        final(root)@ == root_walked(old(run)@, old(root)@, entries@),
{
    let mut i: usize = 0;
    while i < entries.len()
        invariant
            i <= entries.len(),
            run@ == run_walked(old(run)@, old(root)@.device, entries@.take(i as int)),
            root@ == root_walked(old(run)@, old(root)@, entries@.take(i as int)),
            root@.device == old(root)@.device,
            run@.options == old(run)@.options,
        decreases entries.len() - i,
    {
        proof {
            assert(entries@.take(i + 1).drop_last() =~= entries@.take(i as int));
            assert(entries@.take(i + 1).last() == entries@[i as int]);
        }
        let _ = run.on_entry(root, &entries[i]);
        i += 1;
    }
    proof {
        assert(entries@.take(i as int) =~= entries@);
    }
}

/// Aggregates the given roots: walks each through its entries, and hands
/// back the records in the order in which they are shown, the record that
/// sums them up where there is one, the errors and the statistics.
///
/// There is one record for each root, also for a root whose device could
/// not be told. Without sorting they come in the order of the roots; with
/// sorting in the order of their sizes, those of equal size in the order of
/// their roots. Counters that reach their largest value stay there.
pub fn aggregate(
    options: WalkOptions,
    compute_total: bool,
    sort_by_size_in_bytes: bool,
    roots: &Vec<RootInput>,
) -> (report: Report)
    ensures
        ({
            let start = RunModel::initial(options, compute_total, sort_by_size_in_bytes, false);
            let end = roots_done(start, input_views(roots@));
            &&& report.stats == end.stats.reported()
            &&& report.result.num_errors == end.num_errors
            &&& record_view(report.total) == end.total_record()
            &&& report.records@.len() == roots@.len()
            &&& sort_by_size_in_bytes ==> is_stable_sort_of(
                views(report.records@),
                roots_records(start, input_views(roots@)),
            )
            &&& !sort_by_size_in_bytes ==> views(report.records@) == roots_records(
                start,
                input_views(roots@),
            )
        }),
{
    let ghost start = RunModel::initial(options, compute_total, sort_by_size_in_bytes, false);
    let ghost inputs = input_views(roots@);
    let mut run = Aggregator::new(options, compute_total, sort_by_size_in_bytes, false);
    let mut shown: Vec<AggregateRecord> = Vec::new();
    let mut i: usize = 0;
    proof {
        assert(views(shown@) =~= Seq::empty());
    }
    while i < roots.len()
        invariant
            i <= roots.len(),
            inputs == input_views(roots@),
            start == RunModel::initial(options, compute_total, sort_by_size_in_bytes, false),
            run@ == roots_done(start, inputs.take(i as int)),
            !sort_by_size_in_bytes ==> views(shown@) == roots_records(start, inputs.take(i as int)),
            run@.sort_by_size_in_bytes == sort_by_size_in_bytes,
        decreases roots.len() - i,
    {
        let ghost before = run@;
        let ghost input = inputs[i as int];
        proof {
            assert(inputs.take(i + 1).drop_last() =~= inputs.take(i as int));
            assert(inputs.take(i + 1).last() == input);
            assert(input == roots@[i as int]@);
        }
        let root = &roots[i];
        let path = copy_text(&root.path);
        let begun = run.begin_root(path, root.is_file, root.device);
        let shown_now = match begun.root {
            Some(mut tallies) => {
                proof {
                    lemma_walk_keeps_roots(run@, tallies@.device, root.entries@);
                }
                walk_root(&mut run, &mut tallies, &root.entries);
                assert(Some(tallies@) == root_tallies(before, input));
                let end = run.finish_root(tallies);
                end.record
            },
            None => begun.record,
        };
        assert(run@ == root_done(before, input));
        match shown_now {
            Some(record) => {
                let ghost shown_before = shown@;
                shown.push(record);
                assert(views(shown@) =~= views(shown_before).push(record@));
            },
            None => {},
        }
        i += 1;
    }
    proof {
        assert(inputs.take(i as int) =~= inputs);
        lemma_one_record_for_each_root(start, inputs);
        if sort_by_size_in_bytes {
            lemma_sorted_run_keeps_all_records(start, inputs);
            assert(start.buffer + roots_records(start, inputs) =~= roots_records(start, inputs));
        }
    }
    let summary = run.finish();
    proof {
        if sort_by_size_in_bytes {
            lemma_stable_sort_keeps_totals(views(summary.records@), roots_records(start, inputs));
        }
    }
    let records = if sort_by_size_in_bytes {
        summary.records
    } else {
        shown
    };
    Report { records, total: summary.total, result: summary.result, stats: summary.stats }
}

} // verus!
