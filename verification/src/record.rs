//! The aggregate record of one root.

use vstd::prelude::*;

verus! {

/// The color in which a path is shown.
#[derive(Debug, Clone, Copy, PartialEq, Eq, Structural)]
pub enum Color {
    /// The color of what is not a plain file.
    Cyan,
}

/// What a run found out about one root: its path, the bytes below it and the
/// errors met on the way.
#[derive(Debug)]
pub struct AggregateRecord {
    /// The root's path, as it is shown.
    pub path: String,
    /// The bytes accumulated below the root.
    pub num_bytes: u128,
    /// The errors met while walking the root.
    pub num_errors: u64,
    /// The color of the path, if it has one.
    pub path_color: Option<Color>,
}

/// An aggregate record as a mathematical value.
pub struct RecordView {
    pub path: Seq<char>,
    pub num_bytes: u128,
    pub num_errors: u64,
    pub path_color: Option<Color>,
}

impl View for AggregateRecord {
    type V = RecordView;

    open spec fn view(&self) -> RecordView {
        RecordView {
            path: self.path@,
            num_bytes: self.num_bytes,
            num_errors: self.num_errors,
            path_color: self.path_color,
        }
    }
}

/// The records of `records` as mathematical values, in the same order.
pub open spec fn views(records: Seq<AggregateRecord>) -> Seq<RecordView> {
    records.map_values(|r: AggregateRecord| r@)
}

/// The color of a root's path: plain files have none.
pub open spec fn color_of(is_file: bool) -> Option<Color> {
    if is_file {
        None
    } else {
        Some(Color::Cyan)
    }
}

/// The color of a root's path, given whether the path is a plain file.
pub fn path_color_of(is_file: bool) -> (color: Option<Color>)
    ensures
        color == color_of(is_file),
{
    if is_file {
        None
    } else {
        Some(Color::Cyan)
    }
}

/// The sum of the bytes of `records`.
pub open spec fn total_bytes(records: Seq<RecordView>) -> nat
    decreases records.len(),
{
    if records.len() == 0 {
        0
    } else {
        total_bytes(records.drop_last()) + records.last().num_bytes as nat
    }
}

/// The sum of the errors of `records`.
pub open spec fn total_errors(records: Seq<RecordView>) -> nat
    decreases records.len(),
{
    if records.len() == 0 {
        0
    } else {
        total_errors(records.drop_last()) + records.last().num_errors as nat
    }
}

/// The sums of a sequence with one more record at its end.
pub proof fn lemma_totals_push(records: Seq<RecordView>, r: RecordView)
    ensures
        total_bytes(records.push(r)) == total_bytes(records) + r.num_bytes,
        total_errors(records.push(r)) == total_errors(records) + r.num_errors,
{
    assert(records.push(r).drop_last() =~= records);
}

/// The sums of two sequences joined are the sums of each, added.
pub proof fn lemma_totals_add(a: Seq<RecordView>, b: Seq<RecordView>)
    ensures
        total_bytes(a + b) == total_bytes(a) + total_bytes(b),
        total_errors(a + b) == total_errors(a) + total_errors(b),
    decreases b.len(),
{
    if b.len() == 0 {
        assert(a + b =~= a);
    } else {
        lemma_totals_add(a, b.drop_last());
        assert((a + b).drop_last() =~= a + b.drop_last());
    }
}

/// Putting a record anywhere into a sequence adds its bytes and errors to
/// the sums, wherever it is put.
pub proof fn lemma_totals_insert(records: Seq<RecordView>, i: int, r: RecordView)
    requires
        0 <= i <= records.len(),
    ensures
        total_bytes(records.insert(i, r)) == total_bytes(records) + r.num_bytes,
        total_errors(records.insert(i, r)) == total_errors(records) + r.num_errors,
{
    let head = records.subrange(0, i);
    let tail = records.subrange(i, records.len() as int);
    assert(records =~= head + tail);
    lemma_totals_add(head, tail);
    lemma_totals_push(head, r);
    lemma_totals_add(head.push(r), tail);
}

} // verus!
