//! The aggregation engine as a state machine: the caller walks the roots and
//! hands in what it meets, and writes out what it is handed back.

use crate::entry::{eligible, file_size, Entry, EntryMetadata, WalkOptions};
use crate::model::{effect, failed_record, total_label, RootModel, RunModel};
use crate::progress::ThrottleWriter;
use crate::record::{path_color_of, views, AggregateRecord, Color, RecordView};
use crate::render::{clear_line, clear_line_text, progress_line, progress_text};
use crate::sort::{is_stable_sort_of, sort_by_size};
use crate::stats::{Statistics, WalkResult};
use crate::tracker::InodeFilter;
use vstd::prelude::*;
use vstd::string::*;

verus! {

/// The tallies of the root that is being walked.
pub struct RootTotals {
    path: String,
    path_color: Option<Color>,
    device: u64,
    num_bytes: u128,
    num_errors: u64,
}

impl View for RootTotals {
    type V = RootModel;

    closed spec fn view(&self) -> RootModel {
        RootModel {
            path: self.path@,
            path_color: self.path_color,
            device: self.device,
            num_bytes: self.num_bytes,
            num_errors: self.num_errors,
        }
    }
}

/// What came of beginning a root.
pub struct RootBegin {
    /// The tallies with which the root is walked, where it is walked.
    pub root: Option<RootTotals>,
    /// The record of a root that is not walked, where it is to be shown at
    /// once.
    pub record: Option<AggregateRecord>,
}

/// What is to be written when a root is done.
pub struct RootEnd {
    /// What erases the progress line, where there is a progress sink.
    pub clear: Option<String>,
    /// The root's record, where it is to be shown at once.
    pub record: Option<AggregateRecord>,
}

/// What is left to be written when all roots are done, and what the run
/// found out.
pub struct Summary {
    /// The records that were kept for the end, in the order of their sizes.
    pub records: Vec<AggregateRecord>,
    /// The record that sums up all roots, where there is one.
    pub total: Option<AggregateRecord>,
    /// The errors of the run.
    pub result: WalkResult,
    /// The statistics of the run.
    pub stats: Statistics,
}

/// The state of a run.
pub struct Aggregator {
    options: WalkOptions,
    compute_total: bool,
    sort_by_size_in_bytes: bool,
    res: WalkResult,
    stats: Statistics,
    total: u128,
    num_roots: u64,
    aggregates: Vec<AggregateRecord>,
    inodes: InodeFilter,
    progress: ThrottleWriter,
}

impl View for Aggregator {
    type V = RunModel;

    closed spec fn view(&self) -> RunModel {
        RunModel {
            options: self.options,
            compute_total: self.compute_total,
            sort_by_size_in_bytes: self.sort_by_size_in_bytes,
            stats: self.stats,
            num_errors: self.res.num_errors,
            total: self.total,
            num_roots: self.num_roots,
            buffer: views(self.aggregates@),
            seen: self.inodes@,
            progress: self.progress,
        }
    }
}

/// The view of a record that may not be there.
pub open spec fn record_view(record: Option<AggregateRecord>) -> Option<RecordView> {
    match record {
        Some(r) => Some(r@),
        None => None,
    }
}

/// The view of a text that may not be there.
pub open spec fn text_view(text: Option<String>) -> Option<Seq<char>> {
    match text {
        Some(t) => Some(t@),
        None => None,
    }
}

impl Aggregator {
    /// Starts a run with the given policies. `has_progress_sink` says whether
    /// progress is to be written at all.
    pub fn new(
        options: WalkOptions,
        compute_total: bool,
        sort_by_size_in_bytes: bool,
        has_progress_sink: bool,
    ) -> (run: Self)
        ensures
            run@ == RunModel::initial(
                options,
                compute_total,
                sort_by_size_in_bytes,
                has_progress_sink,
            ),
    {
        let run = Aggregator {
            options,
            compute_total,
            sort_by_size_in_bytes,
            res: WalkResult { num_errors: 0 },
            stats: Statistics::new(),
            total: 0,
            num_roots: 0,
            aggregates: Vec::new(),
            inodes: InodeFilter::new(),
            progress: ThrottleWriter::new(has_progress_sink),
        };
        assert(views(run.aggregates@) =~= Seq::empty());
        run
    }

    /// The timer's tick: the next entry may write progress.
    pub fn tick(&mut self)
        ensures
            final(self)@ == old(self)@.ticked(),
    {
        self.progress.raise();
    }

    /// Begins a root. `device` is the device the root lives on, or `None`
    /// where that could not be told: then the root is not walked and counts
    /// as one error, and its record, without bytes, is handed back to be
    /// shown at once, unless the roots are shown in the order of their
    /// sizes: then it is kept.
    pub fn begin_root(&mut self, path: String, is_file: bool, device: Option<u64>) -> (begun:
        RootBegin)
        ensures
            final(self)@ == old(self)@.root_begun(path@, is_file, device),
            record_view(begun.record) == old(self)@.shown_at_begin(path@, is_file, device),
            match device {
                Some(id) => begun.root is Some && begun.root->0@ == RootModel::begun(
                    path@,
                    is_file,
                    id,
                ),
                None => begun.root is None,
            },
    {
        self.num_roots = self.num_roots.saturating_add(1);
        let path_color = path_color_of(is_file);
        match device {
            Some(id) => RootBegin {
                root: Some(
                    RootTotals { path, path_color, device: id, num_bytes: 0, num_errors: 0 },
                ),
                record: None,
            },
            None => {
                self.res.num_errors = self.res.num_errors.saturating_add(1);
                let record = AggregateRecord { path, num_bytes: 0, num_errors: 1, path_color };
                if self.sort_by_size_in_bytes {
                    let ghost before = self.aggregates@;
                    self.aggregates.push(record);
                    assert(views(self.aggregates@) =~= views(before).push(
                        failed_record(path@, is_file),
                    ));
                    RootBegin { root: None, record: None }
                } else {
                    RootBegin { root: None, record: Some(record) }
                }
            },
        }
    }

    /// Says whether the filesystem is to be asked what an entry occupies on
    /// disk before the entry is handed in: only while sizes on disk are
    /// asked for, and only for an entry that counts. For any other entry the
    /// answer is not read.
    pub fn wants_size_on_disk(&self, root: &RootTotals, meta: &EntryMetadata) -> (wanted: bool)
        ensures
            wanted == (!self@.options.apparent_size && eligible(
                self@.options,
                self@.seen,
                root@.device,
                *meta,
            )),
    {
        !self.options.apparent_size && !meta.is_dir && (self.options.count_hard_links
            || !self.inodes.contains(meta.inode)) && (self.options.cross_filesystems || meta.device
            == root.device)
    }

    /// Takes in one entry of the root that is being walked. The result is
    /// the progress line to write, where one is due.
    pub fn on_entry(&mut self, root: &mut RootTotals, entry: &Entry) -> (progress: Option<String>)
        ensures
            final(self)@ == old(self)@.entry_met(old(root)@.device, *entry),
            final(root)@ == old(root)@.add(
                effect(old(self)@.options, old(self)@.seen, old(root)@.device, *entry),
            ),
            text_view(progress) == if old(self)@.progress.due() {
                Some(progress_line(final(self)@.stats.entries_traversed))
            } else {
                None
            },
    {
        self.stats.count_entry();
        let progress = if self.progress.throttled() {
            Some(progress_text(self.stats.entries_traversed))
        } else {
            None
        };
        match entry {
            Entry::WalkError => {
                root.num_errors = root.num_errors.saturating_add(1);
            },
            Entry::MetadataError => {
                root.num_errors = root.num_errors.saturating_add(1);
                self.stats.observe(0);
            },
            Entry::NoMetadata => {
                self.stats.observe(0);
            },
            Entry::Metadata(meta) => {
                let c = file_size(&self.options, &mut self.inodes, root.device, meta);
                if c.error {
                    root.num_errors = root.num_errors.saturating_add(1);
                }
                let file_size = c.bytes as u128;
                self.stats.observe(file_size);
                root.num_bytes = root.num_bytes.saturating_add(file_size);
            },
        }
        progress
    }

    /// Ends the root that was walked. Its bytes and errors go into those of
    /// the run. Its record is handed back to be shown at once, unless the
    /// roots are shown in the order of their sizes: then it is kept.
    pub fn finish_root(&mut self, root: RootTotals) -> (end: RootEnd)
        ensures
            final(self)@ == old(self)@.root_ended(root@),
            text_view(end.clear) == if old(self)@.progress.active {
                Some(clear_line())
            } else {
                None
            },
            record_view(end.record) == old(self)@.shown_at_end(root@),
    {
        let clear = if self.progress.unthrottled() {
            Some(clear_line_text())
        } else {
            None
        };
        self.total = self.total.saturating_add(root.num_bytes);
        self.res.num_errors = self.res.num_errors.saturating_add(root.num_errors);
        let record = AggregateRecord {
            path: root.path,
            num_bytes: root.num_bytes,
            num_errors: root.num_errors,
            path_color: root.path_color,
        };
        if self.sort_by_size_in_bytes {
            let ghost before = self.aggregates@;
            self.aggregates.push(record);
            assert(views(self.aggregates@) =~= views(before).push(root@.record()));
            RootEnd { clear, record: None }
        } else {
            RootEnd { clear, record: Some(record) }
        }
    }

    /// Ends the run. Where the roots are shown in the order of their sizes,
    /// the records that were kept are handed back in that order, those of
    /// equal size in the order of their roots; else none is.
    pub fn finish(self) -> (summary: Summary)
        ensures
            summary.stats == self@.stats.reported(),
            summary.result.num_errors == self@.num_errors,
            record_view(summary.total) == self@.total_record(),
            self@.sort_by_size_in_bytes ==> is_stable_sort_of(
                views(summary.records@),
                self@.buffer,
            ),
            !self@.sort_by_size_in_bytes ==> summary.records@.len() == 0,
    {
        let stats = self.stats.report();
        let result = self.res;
        let total = if self.num_roots > 1 && self.compute_total {
            proof {
                reveal_strlit("total");
            }
            let label = String::from_str("total");
            assert(label@ =~= total_label());
            Some(
                AggregateRecord {
                    path: label,
                    num_bytes: self.total,
                    num_errors: self.res.num_errors,
                    path_color: None,
                },
            )
        } else {
            None
        };
        let records = if self.sort_by_size_in_bytes {
            sort_by_size(self.aggregates)
        } else {
            Vec::new()
        };
        Summary { records, total, result, stats }
    }
}

} // verus!
