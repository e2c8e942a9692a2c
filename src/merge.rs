use vstd::prelude::*;

use crate::table::{
    add_counts, count_at, lemma_merged_push, merged, row_sum, rows_view, CountKey, CountRow, Counts,
    SampleTable,
};

verus! {

/// The summed counts of every key of `rows` fit in a `u64`.
pub open spec fn sums_fit(rows: Seq<(CountKey, Counts)>) -> bool {
    forall|k: CountKey| #[trigger] row_sum(rows, k).0 <= u64::MAX && row_sum(rows, k).1 <= u64::MAX
}

proof fn lemma_row_sum_prefix(rows: Seq<(CountKey, Counts)>, i: int, k: CountKey)
    requires
        0 <= i <= rows.len(),
    ensures
        row_sum(rows.take(i), k).0 <= row_sum(rows, k).0,
        row_sum(rows.take(i), k).1 <= row_sum(rows, k).1,
    decreases rows.len() - i,
{
    if i == rows.len() {
        assert(rows.take(i) =~= rows);
    } else {
        assert(rows.take(i + 1).drop_last() =~= rows.take(i));
        lemma_row_sum_prefix(rows, i + 1, k);
    }
}

impl CountRow {
    /// A copy of this row.
    pub fn copy(&self) -> (r: CountRow)
        ensures
            r@ == self@,
    {
        CountRow {
            barcode1: vstd::slice::slice_to_vec(self.barcode1.as_slice()),
            barcode2: vstd::slice::slice_to_vec(self.barcode2.as_slice()),
            rbs: vstd::slice::slice_to_vec(self.rbs.as_slice()),
            non_flipped: self.non_flipped,
            flipped: self.flipped,
        }
    }
}

/// Groups `rows` by first barcode, second barcode and variable region, and
/// sums their counts. `None` where the summed counts of some key do not fit in
/// a `u64`.
pub fn merge_rows(rows: &Vec<CountRow>) -> (r: Option<SampleTable>)
    ensures
        match r {
            None => !sums_fit(rows_view(rows@)),
            Some(t) => sums_fit(rows_view(rows@)) && t@ == merged(rows_view(rows@)),
        },
{
    let ghost rv = rows_view(rows@);
    let mut table = SampleTable::new();
    let mut j: usize = 0;
    assert(merged(rv.take(0)) =~= Map::<CountKey, Counts>::empty());
    assert forall|k: CountKey| #[trigger] row_sum(rv.take(0), k).0 <= u64::MAX && row_sum(rv.take(0), k).1 <= u64::MAX by {
        assert(rv.take(0).len() == 0);
    }
    while j < rows.len()
        invariant
            0 <= j <= rows@.len(),
            rv == rows_view(rows@),
            sums_fit(rv.take(j as int)),
            table@ == merged(rv.take(j as int)),
        decreases rows@.len() - j,
    {
        let row = &rows[j];
        let ghost prefix = rv.take(j as int);
        let ghost next = rv.take(j + 1);
        proof {
            assert(sums_fit(prefix));
            assert(next =~= prefix.push(row@));
            assert(next.drop_last() =~= prefix);
            assert(rv[j as int] == row@);
            lemma_merged_push(prefix, row@);
            assert(count_at(merged(prefix), row@.0) == row_sum(prefix, row@.0)) by {
                if !merged(prefix).contains_key(row@.0) {
                    crate::table::lemma_row_sum_absent(prefix, row@.0);
                }
            }
        }
        let key = (
            vstd::slice::slice_to_vec(row.barcode1.as_slice()),
            vstd::slice::slice_to_vec(row.barcode2.as_slice()),
            vstd::slice::slice_to_vec(row.rbs.as_slice()),
        );
        let cur = table.get(&key);
        if row.non_flipped > u64::MAX - cur.0 || row.flipped > u64::MAX - cur.1 {
            proof {
                assert(row_sum(next, row@.0) == add_counts(row_sum(prefix, row@.0), row@.1));
                lemma_row_sum_prefix(rv, j + 1, row@.0);
            }
            return None;
        }
        proof {
            assert forall|k: CountKey| #[trigger] row_sum(next, k).0 <= u64::MAX && row_sum(next, k).1 <= u64::MAX by {
                assert(row_sum(prefix, k).0 <= u64::MAX);
                assert(row_sum(prefix, k).1 <= u64::MAX);
                assert(row_sum(next, k) == if row@.0 == k { add_counts(row_sum(prefix, k), row@.1) } else { row_sum(prefix, k) });
            }
        }
        table.add(key, row.non_flipped, row.flipped);
        j = j + 1;
    }
    assert(rv.take(rows@.len() as int) =~= rv);
    Some(table)
}

} // verus!
