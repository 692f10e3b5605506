//! What the viewer computes from the records before it draws: the counts
//! of one record or the totals over all of them, the largest count, and the
//! number of presses.
use vstd::prelude::*;
use crate::protocol::KEY_COUNT;
use crate::records::records_view;

verus! {

/// Why the viewer has nothing to draw.
#[derive(Debug, Clone, Copy, PartialEq, Eq, Structural)]
pub enum ViewError {
    /// The file holds no record.
    NoRecords,
    /// The record asked for is not in the file.
    RecordOutOfRange,
}

/// The presses of key `k` summed over all records.
pub open spec fn column_sum(records: Seq<Seq<u32>>, k: int) -> int
    decreases records.len(),
{
    if records.len() == 0 {
        0
    } else {
        column_sum(records.drop_last(), k) + records.last()[k]
    }
}

/// The counts to draw: those of the record `index` when one is asked for,
/// else the sum over all records; no record at all is an error first.
pub open spec fn selected_counts(records: Seq<Seq<u32>>, index: Option<usize>) -> Result<
    Seq<int>,
    ViewError,
> {
    if records.len() == 0 {
        Err(ViewError::NoRecords)
    } else {
        match index {
            Some(i) => if i < records.len() {
                Ok(Seq::new(KEY_COUNT as nat, |k: int| records[i as int][k] as int))
            } else {
                Err(ViewError::RecordOutOfRange)
            },
            None => Ok(Seq::new(KEY_COUNT as nat, |k: int| column_sum(records, k))),
        }
    }
}

/// The largest of the counts, 0 for none.
pub open spec fn max_of(s: Seq<u64>) -> u64
    decreases s.len(),
{
    if s.len() == 0 {
        0
    } else if s.last() > max_of(s.drop_last()) {
        s.last()
    } else {
        max_of(s.drop_last())
    }
}

/// The sum of the counts.
pub open spec fn sum_of(s: Seq<u64>) -> int
    decreases s.len(),
{
    if s.len() == 0 {
        0
    } else {
        sum_of(s.drop_last()) + s.last()
    }
}

/// A prefix of the records sums to no more than all of them, key by key.
proof fn lemma_column_sum_prefix(records: Seq<Seq<u32>>, n: int, k: int)
    requires
        0 <= n <= records.len(),
    ensures
        0 <= column_sum(records.take(n), k) <= column_sum(records, k),
    decreases records.len(),
{
    if n < records.len() {
        lemma_column_sum_prefix(records.drop_last(), n, k);
        assert(records.drop_last().take(n) =~= records.take(n));
    } else {
        assert(records.take(n) =~= records);
    }
    lemma_column_sum_bound(records.take(n), k);
}

/// With fewer than `u32::MAX` records no key's sum overflows a `u64`, so
/// `select_counts` can be called.
pub proof fn lemma_column_sums_fit(records: Seq<Seq<u32>>)
    requires
        records.len() <= 0xffff_ffff,
    ensures
        forall|k: int| 0 <= k < KEY_COUNT ==> #[trigger] column_sum(records, k) <= u64::MAX,
{
    assert forall|k: int| 0 <= k < KEY_COUNT implies #[trigger] column_sum(records, k)
        <= u64::MAX by {
        lemma_column_sum_bound(records, k);
        assert(records.len() * 0xffff_ffff <= 0xffff_ffff * 0xffff_ffff) by (nonlinear_arith)
            requires
                records.len() <= 0xffff_ffff,
        ;
    }
}

/// A column sum is at most `u32::MAX` per record.
proof fn lemma_column_sum_bound(records: Seq<Seq<u32>>, k: int)
    ensures
        0 <= column_sum(records, k) <= records.len() * 0xffff_ffff,
    decreases records.len(),
{
    if records.len() > 0 {
        lemma_column_sum_bound(records.drop_last(), k);
    }
}

/// The counts that the viewer draws: those of record `record_index` when it
/// is given, else each key's presses summed over all records.
pub fn select_counts(records: &Vec<[u32; KEY_COUNT]>, record_index: Option<usize>) -> (r: Result<
    [u64; KEY_COUNT],
    ViewError,
>)
    requires
        forall|k: int|
            0 <= k < KEY_COUNT ==> #[trigger] column_sum(records_view(records@), k) <= u64::MAX,
    ensures
        match r {
            Ok(counts) => selected_counts(records_view(records@), record_index) is Ok && forall|
                k: int,
            |
                0 <= k < KEY_COUNT ==> counts@[k] == #[trigger] selected_counts(
                    records_view(records@),
                    record_index,
                )->Ok_0[k],
            Err(e) => selected_counts(records_view(records@), record_index) == Err::<
                Seq<int>,
                ViewError,
            >(e),
        },
{
    let ghost rs = records_view(records@);
    if records.len() == 0 {
        return Err(ViewError::NoRecords);
    }
    let mut counts = [0u64; KEY_COUNT];
    match record_index {
        Some(i) => {
            if i >= records.len() {
                return Err(ViewError::RecordOutOfRange);
            }
            let record = &records[i];
            for k in 0..KEY_COUNT
                invariant
                    i < records@.len(),
                    *record == records@[i as int],
                    forall|j: int| 0 <= j < k ==> counts@[j] == record@[j],
            {
                counts[k] = record[k] as u64;
            }
            assert(rs[i as int] == record@);
        },
        None => {
            for n in 0..records.len()
                invariant
                    rs == records_view(records@),
                    forall|j: int| 0 <= j < KEY_COUNT ==> #[trigger] column_sum(rs, j) <= u64::MAX,
                    forall|j: int|
                        0 <= j < KEY_COUNT ==> counts@[j] == column_sum(rs.take(n as int), j),
            {
                let record = &records[n];
                assert(rs.take(n + 1).drop_last() =~= rs.take(n as int));
                assert(rs.take(n + 1).last() == record@);
                for k in 0..KEY_COUNT
                    invariant
                        n < records@.len(),
                        rs == records_view(records@),
                        forall|j: int|
                            0 <= j < KEY_COUNT ==> #[trigger] column_sum(rs, j) <= u64::MAX,
                        *record == records@[n as int],
                        rs.take(n + 1).drop_last() == rs.take(n as int),
                        rs.take(n + 1).last() == record@,
                        forall|j: int|
                            0 <= j < k ==> counts@[j] == column_sum(rs.take(n + 1), j),
                        forall|j: int|
                            k <= j < KEY_COUNT ==> counts@[j] == column_sum(rs.take(n as int), j),
                {
                    proof {
                        lemma_column_sum_prefix(rs, n + 1, k as int);
                        assert(column_sum(rs, k as int) <= u64::MAX);
                    }
                    counts[k] = counts[k] + record[k] as u64;
                }
            }
            assert(rs.take(records@.len() as int) =~= rs);
        },
    }
    Ok(counts)
}

/// The largest count, capped at `u32::MAX`: the top of the colour scale.
pub fn heat_max(counts: &[u64; KEY_COUNT]) -> (m: u32)
    ensures
        m == (if max_of(counts@) > u32::MAX { u32::MAX as u64 } else { max_of(counts@) }),
{
    let mut best: u64 = 0;
    for k in 0..KEY_COUNT
        invariant
            best == max_of(counts@.take(k as int)),
    {
        assert(counts@.take(k + 1).drop_last() =~= counts@.take(k as int));
        if counts[k] > best {
            best = counts[k];
        }
    }
    assert(counts@.take(KEY_COUNT as int) =~= counts@);
    if best > 0xffff_ffffu64 {
        0xffff_ffffu32
    } else {
        best as u32
    }
}

/// The number of presses over all keys.
pub fn total_keys(counts: &[u64; KEY_COUNT]) -> (total: u64)
    requires
        sum_of(counts@) <= u64::MAX,
    ensures
        total == sum_of(counts@),
{
    let mut total: u64 = 0;
    for k in 0..KEY_COUNT
        invariant
            total == sum_of(counts@.take(k as int)),
            sum_of(counts@) <= u64::MAX,
    {
        assert(counts@.take(k + 1).drop_last() =~= counts@.take(k as int));
        proof {
            lemma_sum_prefix(counts@, k + 1);
        }
        total = total + counts[k];
    }
    assert(counts@.take(KEY_COUNT as int) =~= counts@);
    total
}

/// A prefix sums to no more than the whole.
proof fn lemma_sum_prefix(s: Seq<u64>, n: int)
    requires
        0 <= n <= s.len(),
    ensures
        sum_of(s.take(n)) <= sum_of(s),
    decreases s.len(),
{
    if n < s.len() {
        lemma_sum_prefix(s.drop_last(), n);
        assert(s.drop_last().take(n) =~= s.take(n));
    } else {
        assert(s.take(n) =~= s);
    }
}

/// With a record asked for, the counts drawn are exactly that record's:
/// key `k` shows the count that record `i` holds for `k`.
pub proof fn law_selected_record_is_drawn(records: Seq<Seq<u32>>, i: usize, k: int)
    requires
        i < records.len(),
        0 <= k < KEY_COUNT,
    ensures
        selected_counts(records, Some(i)) is Ok,
        selected_counts(records, Some(i))->Ok_0.len() == KEY_COUNT,
        selected_counts(records, Some(i))->Ok_0[k] == records[i as int][k],
{
}

/// Without a record asked for, each key shows its presses over all
/// records: one record alone gives its own counts, and the totals of two
/// runs of records add up.
pub proof fn law_totals_add_up(a: Seq<Seq<u32>>, b: Seq<Seq<u32>>, r: Seq<u32>, k: int)
    ensures
        column_sum(Seq::empty(), k) == 0,
        column_sum(seq![r], k) == r[k],
        column_sum(a + b, k) == column_sum(a, k) + column_sum(b, k),
    decreases b.len(),
{
    assert(seq![r].drop_last() =~= Seq::<Seq<u32>>::empty());
    if b.len() > 0 {
        law_totals_add_up(a, b.drop_last(), r, k);
        assert((a + b).drop_last() =~= a + b.drop_last());
        assert((a + b).last() == b.last());
    } else {
        assert(a + b =~= a);
    }
}

/// The top of the colour scale is a count that some key has (or 0 when all
/// are 0), and no key's count is above it.
pub proof fn law_max_is_largest(s: Seq<u64>)
    ensures
        forall|k: int| 0 <= k < s.len() ==> s[k] <= max_of(s),
        max_of(s) == 0 || exists|k: int| 0 <= k < s.len() && s[k] == max_of(s),
    decreases s.len(),
{
    if s.len() > 0 {
        law_max_is_largest(s.drop_last());
        let init = s.drop_last();
        assert forall|k: int| 0 <= k < s.len() implies s[k] <= max_of(s) by {
            if k < s.len() - 1 {
                assert(s[k] == init[k]);
            }
        }
        if max_of(s) != 0 {
            if s.last() > max_of(init) {
                assert(s[s.len() - 1] == max_of(s));
            } else {
                let k = choose|k: int| 0 <= k < init.len() && init[k] == max_of(init);
                assert(s[k] == init[k]);
            }
        }
    }
}

/// Without records there is nothing to draw, whatever was asked for; an
/// index past the last record is refused.
pub proof fn law_selection_refusals(records: Seq<Seq<u32>>, index: Option<usize>)
    ensures
        records.len() == 0 ==> selected_counts(records, index) == Err::<Seq<int>, ViewError>(
            ViewError::NoRecords,
        ),
        records.len() > 0 && index is Some && index->0 >= records.len() ==> selected_counts(
            records,
            index,
        ) == Err::<Seq<int>, ViewError>(ViewError::RecordOutOfRange),
        records.len() > 0 && index is None ==> selected_counts(records, index) is Ok,
{
}

/// The total over all keys adds up: one count alone is itself, and the
/// totals of two runs of counts add.
pub proof fn law_total_adds_up(a: Seq<u64>, b: Seq<u64>, x: u64)
    ensures
        sum_of(Seq::empty()) == 0,
        sum_of(seq![x]) == x,
        sum_of(a + b) == sum_of(a) + sum_of(b),
    decreases b.len(),
{
    assert(seq![x].drop_last() =~= Seq::<u64>::empty());
    if b.len() > 0 {
        law_total_adds_up(a, b.drop_last(), x);
        assert((a + b).drop_last() =~= a + b.drop_last());
        assert((a + b).last() == b.last());
    } else {
        assert(a + b =~= a);
    }
}

} // verus!
