//! Run statistics and the run result.

use vstd::prelude::*;

verus! {

/// Adds `b` to `a`, stopping at the largest `u64`.
pub open spec fn sat64(a: int, b: int) -> u64 {
    if a + b > u64::MAX {
        u64::MAX
    } else {
        (a + b) as u64
    }
}

/// Adds `b` to `a`, stopping at the largest `u128`.
pub open spec fn sat128(a: int, b: int) -> u128 {
    if a + b > u128::MAX {
        u128::MAX
    } else {
        (a + b) as u128
    }
}

/// Statistics obtained during a filesystem walk.
#[derive(Debug, Clone, Copy, PartialEq, Eq, Structural)]
pub struct Statistics {
    /// The amount of entries we have seen during filesystem traversal
    pub entries_traversed: u64,
    /// The size of the smallest file encountered in bytes
    pub smallest_file_in_bytes: u128,
    /// The size of the largest file encountered in bytes
    pub largest_file_in_bytes: u128,
}

/// The outcome of a run: how many failures were absorbed along the way.
#[derive(Debug, Clone, Copy, PartialEq, Eq, Structural)]
pub struct WalkResult {
    /// The number of errors over all roots.
    pub num_errors: u64,
}

impl Default for WalkResult {
    fn default() -> (r: Self)
        ensures
            r.num_errors == 0,
    {
        WalkResult { num_errors: 0 }
    }
}

impl Default for Statistics {
    fn default() -> (r: Self)
        ensures
            r == (Statistics {
                entries_traversed: 0,
                smallest_file_in_bytes: 0,
                largest_file_in_bytes: 0,
            }),
    {
        Statistics { entries_traversed: 0, smallest_file_in_bytes: 0, largest_file_in_bytes: 0 }
    }
}

impl Statistics {
    /// The statistics before anything was seen: the smallest size starts at
    /// the largest value there is, so that every size lowers it.
    pub open spec fn initial() -> Statistics {
        Statistics {
            entries_traversed: 0,
            smallest_file_in_bytes: u128::MAX,
            largest_file_in_bytes: 0,
        }
    }

    /// The statistics after one more entry was met.
    pub open spec fn counted(self) -> Statistics {
        Statistics { entries_traversed: sat64(self.entries_traversed as int, 1), ..self }
    }

    /// The statistics after a contribution of `size` bytes was produced.
    pub open spec fn observed(self, size: u128) -> Statistics {
        Statistics {
            entries_traversed: self.entries_traversed,
            smallest_file_in_bytes: if size < self.smallest_file_in_bytes {
                size
            } else {
                self.smallest_file_in_bytes
            },
            largest_file_in_bytes: if size > self.largest_file_in_bytes {
                size
            } else {
                self.largest_file_in_bytes
            },
        }
    }

    /// The statistics as they are reported: with no entry met, the smallest
    /// size reads 0.
    pub open spec fn reported(self) -> Statistics {
        if self.entries_traversed == 0 {
            Statistics { smallest_file_in_bytes: 0, ..self }
        } else {
            self
        }
    }

    /// Starts a run.
    pub fn new() -> (r: Self)
        ensures
            r == Self::initial(),
    {
        Statistics {
            entries_traversed: 0,
            smallest_file_in_bytes: u128::MAX,
            largest_file_in_bytes: 0,
        }
    }

    /// Counts one entry.
    pub fn count_entry(&mut self)
        ensures
            *final(self) == old(self).counted(),
    {
        self.entries_traversed = self.entries_traversed.saturating_add(1);
    }

    /// Takes a contribution of `size` bytes into the smallest and largest size.
    pub fn observe(&mut self, size: u128)
        ensures
            *final(self) == old(self).observed(size),
    {
        if size > self.largest_file_in_bytes {
            self.largest_file_in_bytes = size;
        }
        if size < self.smallest_file_in_bytes {
            self.smallest_file_in_bytes = size;
        }
    }

    /// The statistics to hand to the caller at the end of a run.
    pub fn report(&self) -> (r: Statistics)
        ensures
            r == self.reported(),
    {
        if self.entries_traversed == 0 {
            Statistics {
                entries_traversed: self.entries_traversed,
                smallest_file_in_bytes: 0,
                largest_file_in_bytes: self.largest_file_in_bytes,
            }
        } else {
            *self
        }
    }
}

/// The smallest size is only ever lowered and the largest only ever raised,
/// and the size just observed lies between them.
pub proof fn lemma_observe_monotone(s: Statistics, size: u128)
    ensures
        s.observed(size).smallest_file_in_bytes <= s.smallest_file_in_bytes,
        s.observed(size).largest_file_in_bytes >= s.largest_file_in_bytes,
        s.observed(size).smallest_file_in_bytes <= size <= s.observed(size).largest_file_in_bytes,
        s.observed(size).entries_traversed == s.entries_traversed,
{
}

/// With no entry met, the reported smallest size is 0, whatever was observed.
pub proof fn lemma_report_without_entries(s: Statistics)
    requires
        s.entries_traversed == 0,
    ensures
        s.reported().smallest_file_in_bytes == 0,
        s.reported().largest_file_in_bytes == s.largest_file_in_bytes,
{
}

} // verus!
