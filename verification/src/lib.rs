//! Disk usage aggregation: per-root byte totals, run statistics and
//! rendered result lines, stated and proved over mathematical models.

pub mod aggregate;
pub mod aggregator;
pub mod entry;
pub mod laws;
pub mod listing;
pub mod model;
pub mod progress;
pub mod record;
pub mod render;
pub mod sort;
pub mod stats;
pub mod tracker;

pub use aggregate::{aggregate, Report, RootInput};
pub use aggregator::{Aggregator, RootBegin, RootEnd, RootTotals, Summary};
pub use entry::{Contribution, Entry, EntryMetadata, WalkOptions};
pub use progress::ThrottleWriter;
pub use record::{AggregateRecord, Color};
pub use stats::{Statistics, WalkResult};
pub use tracker::InodeFilter;
