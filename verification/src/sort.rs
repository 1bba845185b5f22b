//! Ordering the records of a run by size.

use crate::record::{lemma_totals_insert, lemma_totals_push, total_bytes, total_errors, views, AggregateRecord, RecordView};
use vstd::prelude::*;
use vstd::seq_lib::*;

verus! {

/// Whether the bytes of `records` never go down from one record to the next.
pub open spec fn ascending(records: Seq<RecordView>) -> bool {
    forall|i: int, j: int|
        0 <= i <= j < records.len() ==> records[i].num_bytes <= records[j].num_bytes
}

/// The records of `records` that hold exactly `bytes` bytes, in their order.
pub open spec fn with_bytes(records: Seq<RecordView>, bytes: u128) -> Seq<RecordView>
    decreases records.len(),
{
    if records.len() == 0 {
        Seq::empty()
    } else if records.last().num_bytes == bytes {
        with_bytes(records.drop_last(), bytes).push(records.last())
    } else {
        with_bytes(records.drop_last(), bytes)
    }
}

/// Whether `sorted` holds the records of `records` in ascending order of
/// their bytes, those of equal bytes in the order they had in `records`.
pub open spec fn is_stable_sort_of(sorted: Seq<RecordView>, records: Seq<RecordView>) -> bool {
    &&& ascending(sorted)
    &&& forall|bytes: u128| #[trigger] with_bytes(sorted, bytes) == with_bytes(records, bytes)
}

/// Selecting by bytes goes through a join of two sequences.
pub proof fn lemma_with_bytes_add(a: Seq<RecordView>, b: Seq<RecordView>, bytes: u128)
    ensures
        with_bytes(a + b, bytes) == with_bytes(a, bytes) + with_bytes(b, bytes),
    decreases b.len(),
{
    if b.len() == 0 {
        assert(a + b =~= a);
        assert(with_bytes(a, bytes) + with_bytes(b, bytes) =~= with_bytes(a, bytes));
    } else {
        lemma_with_bytes_add(a, b.drop_last(), bytes);
        assert((a + b).drop_last() =~= a + b.drop_last());
        assert((a + b).last() == b.last());
        if b.last().num_bytes == bytes {
            assert((with_bytes(a, bytes) + with_bytes(b.drop_last(), bytes)).push(b.last())
                =~= with_bytes(a, bytes) + with_bytes(b.drop_last(), bytes).push(b.last()));
        }
    }
}

/// Selecting bytes that no record holds selects nothing.
pub proof fn lemma_with_bytes_absent(records: Seq<RecordView>, bytes: u128)
    requires
        forall|i: int| 0 <= i < records.len() ==> records[i].num_bytes != bytes,
    ensures
        with_bytes(records, bytes) == Seq::<RecordView>::empty(),
    decreases records.len(),
{
    if records.len() > 0 {
        lemma_with_bytes_absent(records.drop_last(), bytes);
    }
}

/// Where some record holds `bytes` bytes, the last of them can be taken
/// out: it is the last record selected by `bytes`, the selection by `bytes`
/// loses exactly that record, and every other selection stays as it was.
proof fn lemma_take_out_last(records: Seq<RecordView>, bytes: u128) -> (p: int)
    requires
        with_bytes(records, bytes).len() > 0,
    ensures
        0 <= p < records.len(),
        records[p] == with_bytes(records, bytes).last(),
        records[p].num_bytes == bytes,
        forall|i: int| p < i < records.len() ==> records[i].num_bytes != bytes,
        with_bytes(records.remove(p), bytes) == with_bytes(records, bytes).drop_last(),
        forall|other: u128|
            other != bytes ==> #[trigger] with_bytes(records.remove(p), other) == with_bytes(
                records,
                other,
            ),
    decreases records.len(),
{
    if records.last().num_bytes == bytes {
        let p = records.len() - 1;
        assert(records.remove(p) =~= records.drop_last());
        assert(with_bytes(records.drop_last(), bytes).push(records.last()).drop_last()
            =~= with_bytes(records.drop_last(), bytes));
        p
    } else {
        let p = lemma_take_out_last(records.drop_last(), bytes);
        assert(records.remove(p).drop_last() =~= records.drop_last().remove(p));
        assert forall|i: int| p < i < records.len() implies records[i].num_bytes != bytes by {
            if i < records.len() - 1 {
                assert(records.drop_last()[i] == records[i]);
            }
        }
        assert(records.remove(p).last() == records.last());
        assert forall|other: u128| other != bytes implies #[trigger] with_bytes(
            records.remove(p),
            other,
        ) == with_bytes(records, other) by {
            assert(with_bytes(records.drop_last().remove(p), other) == with_bytes(
                records.drop_last(),
                other,
            ));
        }
        p
    }
}

/// Taking a record out of a sequence takes its bytes and errors out of the
/// sums.
proof fn lemma_totals_remove(records: Seq<RecordView>, p: int)
    requires
        0 <= p < records.len(),
    ensures
        total_bytes(records) == total_bytes(records.remove(p)) + records[p].num_bytes,
        total_errors(records) == total_errors(records.remove(p)) + records[p].num_errors,
{
    assert(records =~= records.remove(p).insert(p, records[p]));
    lemma_totals_insert(records.remove(p), p, records[p]);
}

/// Two sequences that hold, for each number of bytes, the same records in
/// the same order, hold the same number of records and have the same sums
/// of bytes and of errors.
pub proof fn lemma_same_selections_same_totals(a: Seq<RecordView>, b: Seq<RecordView>)
    requires
        forall|bytes: u128| #[trigger] with_bytes(a, bytes) == with_bytes(b, bytes),
    ensures
        a.len() == b.len(),
        total_bytes(a) == total_bytes(b),
        total_errors(a) == total_errors(b),
    decreases a.len(),
{
    if a.len() == 0 {
        if b.len() > 0 {
            assert(with_bytes(a, b.last().num_bytes) == with_bytes(b, b.last().num_bytes));
            assert(with_bytes(b, b.last().num_bytes).len() > 0);
        }
    } else {
        let x = a.last();
        assert(with_bytes(a, x.num_bytes) == with_bytes(b, x.num_bytes));
        let p = lemma_take_out_last(b, x.num_bytes);
        assert forall|bytes: u128| #[trigger]
            with_bytes(a.drop_last(), bytes) == with_bytes(b.remove(p), bytes) by {
            assert(with_bytes(a, bytes) == with_bytes(b, bytes));
            if bytes == x.num_bytes {
                assert(with_bytes(a.drop_last(), bytes).push(x).drop_last() =~= with_bytes(
                    a.drop_last(),
                    bytes,
                ));
            }
        }
        lemma_same_selections_same_totals(a.drop_last(), b.remove(p));
        lemma_totals_remove(b, p);
        assert(b.remove(p).len() == b.len() - 1);
        assert(a =~= a.drop_last().push(x));
        lemma_totals_push(a.drop_last(), x);
    }
}

/// Sorting by size never changes how many records there are, nor the sum of
/// their bytes or of their errors.
pub proof fn lemma_stable_sort_keeps_totals(sorted: Seq<RecordView>, records: Seq<RecordView>)
    requires
        is_stable_sort_of(sorted, records),
    ensures
        sorted.len() == records.len(),
        total_bytes(sorted) == total_bytes(records),
        total_errors(sorted) == total_errors(records),
{
    lemma_same_selections_same_totals(sorted, records);
}

/// The order of their sizes, with records of equal size in the order they
/// came in, leaves no choice: two such orderings of the same records are
/// the same sequence.
pub proof fn lemma_stable_sort_unique(a: Seq<RecordView>, b: Seq<RecordView>, records: Seq<RecordView>)
    requires
        is_stable_sort_of(a, records),
        is_stable_sort_of(b, records),
    ensures
        a == b,
{
    assert forall|bytes: u128| #[trigger] with_bytes(a, bytes) == with_bytes(b, bytes) by {
        assert(with_bytes(a, bytes) == with_bytes(records, bytes));
        assert(with_bytes(b, bytes) == with_bytes(records, bytes));
    }
    lemma_ascending_same_selections(a, b);
}

/// Two ascending sequences that hold, for each number of bytes, the same
/// records in the same order, are the same sequence.
proof fn lemma_ascending_same_selections(a: Seq<RecordView>, b: Seq<RecordView>)
    requires
        ascending(a),
        ascending(b),
        forall|bytes: u128| #[trigger] with_bytes(a, bytes) == with_bytes(b, bytes),
    ensures
        a == b,
    decreases a.len(),
{
    lemma_same_selections_same_totals(a, b);
    if a.len() > 0 {
        let x = a.last();
        let y = b.last();
        assert(with_bytes(a, x.num_bytes) == with_bytes(b, x.num_bytes));
        assert(with_bytes(a, y.num_bytes) == with_bytes(b, y.num_bytes));
        let p = lemma_take_out_last(b, x.num_bytes);
        let q = lemma_take_out_last(a, y.num_bytes);
        assert(b[p].num_bytes <= y.num_bytes);
        assert(a[q].num_bytes <= x.num_bytes);
        assert(p == b.len() - 1);
        assert(x == y);
        assert(b.remove(p) =~= b.drop_last());
        assert forall|bytes: u128| #[trigger]
            with_bytes(a.drop_last(), bytes) == with_bytes(b.drop_last(), bytes) by {
            assert(with_bytes(a, bytes) == with_bytes(b, bytes));
            if bytes == x.num_bytes {
                assert(with_bytes(a.drop_last(), bytes).push(x).drop_last() =~= with_bytes(
                    a.drop_last(),
                    bytes,
                ));
            }
        }
        lemma_ascending_same_selections(a.drop_last(), b.drop_last());
        assert(a =~= a.drop_last().push(x));
        assert(b =~= b.drop_last().push(y));
    } else {
        assert(a =~= b);
    }
}

/// Where a record is put into an ascending sequence before every record that
/// is not smaller and behind every smaller one, it comes first among the
/// records of its own bytes, and the records of other bytes stay as they were.
proof fn lemma_insert_selects(records: Seq<RecordView>, pos: int, r: RecordView, bytes: u128)
    requires
        0 <= pos <= records.len(),
        forall|i: int| 0 <= i < pos ==> records[i].num_bytes < r.num_bytes,
        forall|i: int| pos <= i < records.len() ==> records[i].num_bytes >= r.num_bytes,
    ensures
        bytes == r.num_bytes ==> with_bytes(records.insert(pos, r), bytes) == seq![r] + with_bytes(
            records,
            bytes,
        ),
        bytes != r.num_bytes ==> with_bytes(records.insert(pos, r), bytes) == with_bytes(
            records,
            bytes,
        ),
{
    let head = records.subrange(0, pos);
    let tail = records.subrange(pos, records.len() as int);
    assert(records =~= head + tail);
    lemma_with_bytes_add(head, tail, bytes);
    lemma_with_bytes_add(head.push(r), tail, bytes);
    assert(head.push(r).drop_last() =~= head);
    if bytes == r.num_bytes {
        lemma_with_bytes_absent(head, bytes);
        assert(with_bytes(head.push(r), bytes) =~= seq![r]);
        assert(with_bytes(head, bytes) + with_bytes(tail, bytes) =~= with_bytes(tail, bytes));
    }
}

/// Mapping records to their values goes through putting one in.
proof fn lemma_views_insert(records: Seq<AggregateRecord>, pos: int, r: AggregateRecord)
    requires
        0 <= pos <= records.len(),
    ensures
        views(records.insert(pos, r)) == views(records).insert(pos, r@),
{
    assert(views(records.insert(pos, r)) =~= views(records).insert(pos, r@));
}

/// Puts `record` into `sorted` before the first record that is not smaller.
fn insert_before_larger(sorted: &mut Vec<AggregateRecord>, record: AggregateRecord)
    requires
        ascending(views(old(sorted)@)),
    ensures
        ascending(views(final(sorted)@)),
        forall|bytes: u128|
            #[trigger] with_bytes(views(final(sorted)@), bytes) == if bytes == record.num_bytes {
                seq![record@] + with_bytes(views(old(sorted)@), bytes)
            } else {
                with_bytes(views(old(sorted)@), bytes)
            },
        total_bytes(views(final(sorted)@)) == total_bytes(views(old(sorted)@)) + record.num_bytes,
        total_errors(views(final(sorted)@)) == total_errors(views(old(sorted)@))
            + record.num_errors,
        views(final(sorted)@).to_multiset() == views(old(sorted)@).to_multiset().insert(record@),
        final(sorted).len() == old(sorted).len() + 1,
{
    let mut pos: usize = 0;
    while pos < sorted.len() && sorted[pos].num_bytes < record.num_bytes
        invariant
            pos <= sorted.len(),
            *sorted == *old(sorted),
            forall|i: int| 0 <= i < pos ==> sorted@[i].num_bytes < record.num_bytes,
        decreases sorted.len() - pos,
    {
        pos += 1;
    }
    let ghost before = views(sorted@);
    proof {
        assert forall|i: int| pos <= i < before.len() implies before[i].num_bytes
            >= record.num_bytes by {
            assert(before[pos as int].num_bytes <= before[i].num_bytes);
        }
        assert forall|bytes: u128|
            #[trigger] with_bytes(before.insert(pos as int, record@), bytes) == if bytes
                == record.num_bytes {
                seq![record@] + with_bytes(before, bytes)
            } else {
                with_bytes(before, bytes)
            } by {
            lemma_insert_selects(before, pos as int, record@, bytes);
        }
        lemma_totals_insert(before, pos as int, record@);
        lemma_views_insert(sorted@, pos as int, record);
        to_multiset_insert(before, pos as int, record@);
    }
    sorted.insert(pos, record);
}

/// Orders `records` by their bytes, smallest first. Records of equal bytes
/// keep the order they came in. No record is lost or changed, so the sums of
/// bytes and of errors stay what they were.
pub fn sort_by_size(records: Vec<AggregateRecord>) -> (sorted: Vec<AggregateRecord>)
    ensures
        is_stable_sort_of(views(sorted@), views(records@)),
        sorted.len() == records.len(),
        views(sorted@).to_multiset() == views(records@).to_multiset(),
        total_bytes(views(sorted@)) == total_bytes(views(records@)),
        total_errors(views(sorted@)) == total_errors(views(records@)),
{
    let ghost all = views(records@);
    let mut rest = records;
    let mut sorted: Vec<AggregateRecord> = Vec::new();
    proof {
        assert(views(sorted@) =~= Seq::<RecordView>::empty());
        assert forall|bytes: u128|
            with_bytes(views(rest@), bytes) + #[trigger] with_bytes(views(sorted@), bytes)
                == with_bytes(all, bytes) by {
            assert(with_bytes(all, bytes) + Seq::<RecordView>::empty() =~= with_bytes(all, bytes));
        }
        assert(all.to_multiset().add(views(sorted@).to_multiset()) =~= all.to_multiset()) by {
            views(sorted@).to_multiset_ensures();
            assert(views(sorted@).to_multiset().len() == 0);
        }
    }
    while rest.len() > 0
        invariant
            ascending(views(sorted@)),
            forall|bytes: u128|
                with_bytes(views(rest@), bytes) + #[trigger] with_bytes(views(sorted@), bytes)
                    == with_bytes(all, bytes),
            rest.len() + sorted.len() == all.len(),
            views(rest@).to_multiset().add(views(sorted@).to_multiset()) == all.to_multiset(),
            total_bytes(views(rest@)) + total_bytes(views(sorted@)) == total_bytes(all),
            total_errors(views(rest@)) + total_errors(views(sorted@)) == total_errors(all),
        decreases rest.len(),
    {
        let ghost rest_before = views(rest@);
        let ghost sorted_before = views(sorted@);
        let last = rest.pop();
        match last {
            Some(record) => {
                proof {
                    assert(views(rest@) =~= rest_before.drop_last());
                    assert(rest_before =~= views(rest@).push(record@));
                    to_multiset_build(views(rest@), record@);
                    lemma_totals_push(views(rest@), record@);
                }
                insert_before_larger(&mut sorted, record);
                proof {
                    assert forall|bytes: u128|
                        with_bytes(views(rest@), bytes) + #[trigger] with_bytes(
                            views(sorted@),
                            bytes,
                        ) == with_bytes(all, bytes) by {
                        assert(with_bytes(rest_before, bytes) + with_bytes(sorted_before, bytes)
                            == with_bytes(all, bytes));
                        if bytes == record.num_bytes {
                            assert(with_bytes(views(rest@), bytes).push(record@) + with_bytes(
                                sorted_before,
                                bytes,
                            ) =~= with_bytes(views(rest@), bytes) + (seq![record@] + with_bytes(
                                sorted_before,
                                bytes,
                            )));
                        }
                    }
                    assert(views(rest@).to_multiset().add(views(sorted@).to_multiset())
                        =~= all.to_multiset());
                }
            },
            None => {},
        }
    }
    proof {
        assert(views(rest@) =~= Seq::<RecordView>::empty());
        assert forall|bytes: u128| #[trigger]
            with_bytes(views(sorted@), bytes) == with_bytes(all, bytes) by {
            assert(with_bytes(views(rest@), bytes) + with_bytes(views(sorted@), bytes)
                =~= with_bytes(views(sorted@), bytes));
        }
        views(rest@).to_multiset_ensures();
        assert(views(rest@).to_multiset().len() == 0);
        assert(views(rest@).to_multiset().add(views(sorted@).to_multiset()) =~= views(
            sorted@,
        ).to_multiset());
    }
    sorted
}

} // verus!
