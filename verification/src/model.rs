//! The mathematical model of a run: what each event does to its state.

use crate::entry::{contribution, seen_after, Entry, WalkOptions};
use crate::progress::ThrottleWriter;
use crate::record::{color_of, Color, RecordView};
use crate::stats::{sat128, sat64, Statistics};
use vstd::prelude::*;

verus! {

/// What one entry does to its root and to the statistics.
pub struct Effect {
    /// The bytes the entry contributes, where it contributes any: a failure
    /// of the walker produces no contribution at all.
    pub bytes: Option<u64>,
    /// Whether the entry counts as one error of its root.
    pub error: bool,
}

/// What an entry does, given the policies, the identity keys met so far and
/// the device of the root.
pub open spec fn effect(options: WalkOptions, seen: Set<u64>, root_device: u64, entry: Entry) -> Effect {
    match entry {
        Entry::WalkError => Effect { bytes: None, error: true },
        Entry::MetadataError => Effect { bytes: Some(0), error: true },
        Entry::NoMetadata => Effect { bytes: Some(0), error: false },
        Entry::Metadata(meta) => Effect {
            bytes: Some(contribution(options, seen, root_device, meta).bytes),
            error: contribution(options, seen, root_device, meta).error,
        },
    }
}

/// The identity keys met once an entry was dealt with.
pub open spec fn seen_beyond(options: WalkOptions, seen: Set<u64>, entry: Entry) -> Set<u64> {
    match entry {
        Entry::Metadata(meta) => seen_after(options, seen, meta),
        _ => seen,
    }
}

/// The tallies of the root that is being walked.
pub struct RootModel {
    /// The root's path, as it is shown.
    pub path: Seq<char>,
    /// The color of the path, if it has one.
    pub path_color: Option<Color>,
    /// The device the root lives on.
    pub device: u64,
    /// The bytes accumulated so far.
    pub num_bytes: u128,
    /// The errors met so far.
    pub num_errors: u64,
}

impl RootModel {
    /// The tallies of a root whose walk begins.
    pub open spec fn begun(path: Seq<char>, is_file: bool, device: u64) -> RootModel {
        RootModel { path, path_color: color_of(is_file), device, num_bytes: 0, num_errors: 0 }
    }

    /// The tallies after an entry with the given effect.
    pub open spec fn add(self, e: Effect) -> RootModel {
        RootModel {
            num_bytes: match e.bytes {
                Some(bytes) => sat128(self.num_bytes as int, bytes as int),
                None => self.num_bytes,
            },
            num_errors: if e.error {
                sat64(self.num_errors as int, 1)
            } else {
                self.num_errors
            },
            ..self
        }
    }

    /// The record of the root as its tallies stand.
    pub open spec fn record(self) -> RecordView {
        RecordView {
            path: self.path,
            num_bytes: self.num_bytes,
            num_errors: self.num_errors,
            path_color: self.path_color,
        }
    }
}

/// The record of a root whose device could not be told: no bytes, one error.
pub open spec fn failed_record(path: Seq<char>, is_file: bool) -> RecordView {
    RecordView { path, num_bytes: 0, num_errors: 1, path_color: color_of(is_file) }
}

/// The label of the line that sums up all roots.
pub open spec fn total_label() -> Seq<char> {
    seq!['t', 'o', 't', 'a', 'l']
}

/// The state of a run between two events.
pub struct RunModel {
    /// The policies of the run.
    pub options: WalkOptions,
    /// Whether a line with the sum over all roots is asked for.
    pub compute_total: bool,
    /// Whether the roots are shown in the order of their sizes.
    pub sort_by_size_in_bytes: bool,
    /// The statistics so far.
    pub stats: Statistics,
    /// The errors of the roots that are done.
    pub num_errors: u64,
    /// The bytes of the roots that are done.
    pub total: u128,
    /// The roots that were begun.
    pub num_roots: u64,
    /// The records that are kept for the end of the run.
    pub buffer: Seq<RecordView>,
    /// The identity keys met so far.
    pub seen: Set<u64>,
    /// The progress signal.
    pub progress: ThrottleWriter,
}

impl RunModel {
    /// The state in which a run starts.
    pub open spec fn initial(
        options: WalkOptions,
        compute_total: bool,
        sort_by_size_in_bytes: bool,
        has_sink: bool,
    ) -> RunModel {
        RunModel {
            options,
            compute_total,
            sort_by_size_in_bytes,
            stats: Statistics::initial(),
            num_errors: 0,
            total: 0,
            num_roots: 0,
            buffer: Seq::empty(),
            seen: Set::empty(),
            progress: ThrottleWriter::initial(has_sink),
        }
    }

    /// The state after the timer raised the trigger of the progress signal.
    pub open spec fn ticked(self) -> RunModel {
        RunModel { progress: self.progress.raised(), ..self }
    }

    /// The state after a root was begun. Where its device could not be told,
    /// that is one error of the run, and the root's record, without bytes,
    /// is kept for the end where the roots are shown in the order of their
    /// sizes.
    pub open spec fn root_begun(self, path: Seq<char>, is_file: bool, device: Option<u64>) -> RunModel {
        match device {
            Some(_) => RunModel { num_roots: sat64(self.num_roots as int, 1), ..self },
            None => RunModel {
                num_roots: sat64(self.num_roots as int, 1),
                num_errors: sat64(self.num_errors as int, 1),
                buffer: if self.sort_by_size_in_bytes {
                    self.buffer.push(failed_record(path, is_file))
                } else {
                    self.buffer
                },
                ..self
            },
        }
    }

    /// The record that is shown as soon as a root was begun: that of a root
    /// whose device could not be told, unless the roots are shown in the
    /// order of their sizes.
    pub open spec fn shown_at_begin(self, path: Seq<char>, is_file: bool, device: Option<u64>) -> Option<
        RecordView,
    > {
        if device is None && !self.sort_by_size_in_bytes {
            Some(failed_record(path, is_file))
        } else {
            None
        }
    }

    /// The record that is shown as soon as a root was walked to its end with
    /// tallies `root`: its own, unless the roots are shown in the order of
    /// their sizes.
    pub open spec fn shown_at_end(self, root: RootModel) -> Option<RecordView> {
        if self.sort_by_size_in_bytes {
            None
        } else {
            Some(root.record())
        }
    }

    /// The state after an entry of a root on `root_device` was met: the entry
    /// is counted, the progress signal was offered a write, the identity
    /// tracker was consulted, and what the entry contributes went into the
    /// smallest and largest size.
    pub open spec fn entry_met(self, root_device: u64, entry: Entry) -> RunModel {
        RunModel {
            stats: match effect(self.options, self.seen, root_device, entry).bytes {
                Some(bytes) => self.stats.counted().observed(bytes as u128),
                None => self.stats.counted(),
            },
            seen: seen_beyond(self.options, self.seen, entry),
            progress: self.progress.offered(),
            ..self
        }
    }

    /// The state after a root was walked to its end with tallies `root`.
    pub open spec fn root_ended(self, root: RootModel) -> RunModel {
        RunModel {
            total: sat128(self.total as int, root.num_bytes as int),
            num_errors: sat64(self.num_errors as int, root.num_errors as int),
            buffer: if self.sort_by_size_in_bytes {
                self.buffer.push(root.record())
            } else {
                self.buffer
            },
            ..self
        }
    }

    /// The record that sums up all roots, where there is one: with more than
    /// one root, and if it was asked for.
    pub open spec fn total_record(self) -> Option<RecordView> {
        if self.num_roots > 1 && self.compute_total {
            Some(
                RecordView {
                    path: total_label(),
                    num_bytes: self.total,
                    num_errors: self.num_errors,
                    path_color: None,
                },
            )
        } else {
            None
        }
    }
}

} // verus!
