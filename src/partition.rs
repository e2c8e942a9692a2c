use vstd::prelude::*;

use crate::bytes::matches_at;
use crate::table::{rows_view, CountKey, CountRow, Counts};

verus! {

/// The sample (first and second barcode) of a row.
pub open spec fn sample_of(r: (CountKey, Counts)) -> (Seq<u8>, Seq<u8>) {
    (r.0.0, r.0.1)
}

/// The rows of `rows` that belong to sample `s`, in order.
pub open spec fn rows_of(rows: Seq<(CountKey, Counts)>, s: (Seq<u8>, Seq<u8>)) -> Seq<(CountKey, Counts)> {
    rows.filter(|r: (CountKey, Counts)| sample_of(r) == s)
}

/// The rows of one sample.
#[derive(Debug)]
pub struct SampleGroup {
    pub barcode1: Vec<u8>,
    pub barcode2: Vec<u8>,
    pub rows: Vec<CountRow>,
}

fn same_bytes(a: &Vec<u8>, b: &Vec<u8>) -> (r: bool)
    ensures
        r == (a@ == b@),
{
    let r = a.len() == b.len() && matches_at(a.as_slice(), 0, b.as_slice());
    assert(a@.subrange(0, a@.len() as int) =~= a@);
    r
}

/// The rows of `rows` whose barcodes are `barcode1` and `barcode2`, in order.
pub fn select_sample(rows: &Vec<CountRow>, barcode1: &Vec<u8>, barcode2: &Vec<u8>) -> (r: Vec<CountRow>)
    ensures
        rows_view(r@) == rows_of(rows_view(rows@), (barcode1@, barcode2@)),
{
    let ghost rv = rows_view(rows@);
    let ghost s = (barcode1@, barcode2@);
    let mut out: Vec<CountRow> = Vec::new();
    let mut i: usize = 0;
    while i < rows.len()
        invariant
            0 <= i <= rows@.len(),
            rv == rows_view(rows@),
            s == (barcode1@, barcode2@),
            rows_view(out@) == rows_of(rv.take(i as int), s),
        decreases rows@.len() - i,
    {
        assert(rv.take(i + 1).drop_last() =~= rv.take(i as int));
        assert(rv[i as int] == rows@[i as int]@);
        assert(rv.take(i + 1).last() == rv[i as int]);
        reveal(Seq::filter);
        if same_bytes(&rows[i].barcode1, barcode1) && same_bytes(&rows[i].barcode2, barcode2) {
            let ghost before = out@;
            out.push(rows[i].copy());
            assert(rows_view(out@) =~= rows_view(before).push(rows@[i as int]@));
        }
        i = i + 1;
    }
    assert(rv.take(rows@.len() as int) =~= rv);
    out
}

fn position_of(samples: &Vec<(Vec<u8>, Vec<u8>)>, barcode1: &Vec<u8>, barcode2: &Vec<u8>) -> (r: Option<usize>)
    ensures
        match r {
            Some(k) => k < samples@.len() && samples@[k as int].0@ == barcode1@ && samples@[k as int].1@
                == barcode2@,
            None => forall|k: int|
                0 <= k < samples@.len() ==> !(samples@[k].0@ == barcode1@ && samples@[k].1@ == barcode2@),
        },
{
    let mut k: usize = 0;
    while k < samples.len()
        invariant
            0 <= k <= samples@.len(),
            forall|m: int|
                0 <= m < k ==> !(samples@[m].0@ == barcode1@ && samples@[m].1@ == barcode2@),
        decreases samples@.len() - k,
    {
        if same_bytes(&samples[k].0, barcode1) && same_bytes(&samples[k].1, barcode2) {
            return Some(k);
        }
        k = k + 1;
    }
    None
}

/// Sample `s` is one of `samples`.
pub open spec fn listed(samples: Seq<(Vec<u8>, Vec<u8>)>, s: (Seq<u8>, Seq<u8>)) -> bool {
    exists|k: int| 0 <= k < samples.len() && (samples[k].0@, samples[k].1@) == s
}

/// Some row of `rows` belongs to sample `s`.
pub open spec fn occurs(rows: Seq<CountRow>, s: (Seq<u8>, Seq<u8>)) -> bool {
    exists|i: int| 0 <= i < rows.len() && sample_of(rows[i]@) == s
}

/// The distinct samples of `rows`.
pub fn distinct_samples(rows: &Vec<CountRow>) -> (r: Vec<(Vec<u8>, Vec<u8>)>)
    ensures
        forall|k: int, m: int|
            0 <= k < r@.len() && 0 <= m < r@.len() && k != m ==> (#[trigger] r@[k].0@, r@[k].1@) != (
            #[trigger] r@[m].0@,
            r@[m].1@,
        ),
        forall|k: int| 0 <= k < r@.len() ==> occurs(rows@, (#[trigger] r@[k].0@, r@[k].1@)),
        forall|i: int| 0 <= i < rows@.len() ==> listed(r@, sample_of(#[trigger] rows@[i]@)),
{
    let mut out: Vec<(Vec<u8>, Vec<u8>)> = Vec::new();
    let mut i: usize = 0;
    while i < rows.len()
        invariant
            0 <= i <= rows@.len(),
            forall|k: int, m: int|
                0 <= k < out@.len() && 0 <= m < out@.len() && k != m ==> (#[trigger] out@[k].0@, out@[k].1@)
                    != (#[trigger] out@[m].0@, out@[m].1@),
            forall|k: int| 0 <= k < out@.len() ==> occurs(rows@, (#[trigger] out@[k].0@, out@[k].1@)),
            forall|j: int| 0 <= j < i ==> listed(out@, sample_of(#[trigger] rows@[j]@)),
        decreases rows@.len() - i,
    {
        let row = &rows[i];
        let ghost si = sample_of(rows@[i as int]@);
        match position_of(&out, &row.barcode1, &row.barcode2) {
            Some(k) => {
                assert((out@[k as int].0@, out@[k as int].1@) == si);
                assert(listed(out@, si));
            },
            None => {
                let ghost before = out@;
                let b1 = vstd::slice::slice_to_vec(row.barcode1.as_slice());
                let b2 = vstd::slice::slice_to_vec(row.barcode2.as_slice());
                out.push((b1, b2));
                let ghost last = before.len() as int;
                assert((out@[last].0@, out@[last].1@) == si);
                assert(occurs(rows@, si));
                assert forall|j: int| 0 <= j < i + 1 implies listed(out@, sample_of(#[trigger] rows@[j]@)) by {
                    if j < i {
                        let s = sample_of(rows@[j]@);
                        assert(listed(before, s));
                        let k = choose|k: int| 0 <= k < before.len() && (before[k].0@, before[k].1@) == s;
                        assert(out@[k] == before[k]);
                    } else {
                        assert(listed(out@, si));
                    }
                }
                assert forall|k: int| 0 <= k < out@.len() implies occurs(rows@, (#[trigger] out@[k].0@, out@[k].1@)) by {
                    if k < last {
                        assert(out@[k] == before[k]);
                    }
                }
                assert forall|k: int, m: int|
                    0 <= k < out@.len() && 0 <= m < out@.len() && k != m implies (#[trigger] out@[k].0@, out@[k].1@)
                    != (#[trigger] out@[m].0@, out@[m].1@) by {
                    if k < last && m < last {
                        assert(out@[k] == before[k] && out@[m] == before[m]);
                    } else if k < last {
                        assert(out@[k] == before[k]);
                    } else if m < last {
                        assert(out@[m] == before[m]);
                    }
                }
            },
        }
        i = i + 1;
    }
    out
}

/// Some group of `groups` is that of sample `s`.
pub open spec fn has_group(groups: Seq<SampleGroup>, s: (Seq<u8>, Seq<u8>)) -> bool {
    exists|k: int| 0 <= k < groups.len() && (groups[k].barcode1@, groups[k].barcode2@) == s
}

/// Splits `rows` per sample: one group per distinct sample, holding that
/// sample's rows in order. Samples without rows get no group.
pub fn group_by_sample(rows: &Vec<CountRow>) -> (r: Vec<SampleGroup>)
    ensures
        forall|k: int, m: int|
            0 <= k < r@.len() && 0 <= m < r@.len() && k != m ==> (#[trigger] r@[k].barcode1@, r@[k].barcode2@)
                != (#[trigger] r@[m].barcode1@, r@[m].barcode2@),
        forall|k: int|
            0 <= k < r@.len() ==> rows_view(#[trigger] r@[k].rows@) == rows_of(
                rows_view(rows@),
                (r@[k].barcode1@, r@[k].barcode2@),
            ) && r@[k].rows@.len() > 0,
        forall|i: int| 0 <= i < rows@.len() ==> has_group(r@, sample_of(#[trigger] rows@[i]@)),
{
    let samples = distinct_samples(rows);
    let mut out: Vec<SampleGroup> = Vec::new();
    let mut k: usize = 0;
    while k < samples.len()
        invariant
            0 <= k <= samples@.len(),
            out@.len() == k,
            forall|m: int|
                0 <= m < k ==> (#[trigger] out@[m].barcode1@, out@[m].barcode2@) == (samples@[m].0@, samples@[m].1@),
            forall|m: int|
                0 <= m < k ==> rows_view(#[trigger] out@[m].rows@) == rows_of(
                    rows_view(rows@),
                    (out@[m].barcode1@, out@[m].barcode2@),
                ),
        decreases samples@.len() - k,
    {
        let b1 = &samples[k].0;
        let b2 = &samples[k].1;
        let selected = select_sample(rows, b1, b2);
        let ghost sel = selected@;
        let ghost before = out@;
        out.push(
            SampleGroup {
                barcode1: vstd::slice::slice_to_vec(b1.as_slice()),
                barcode2: vstd::slice::slice_to_vec(b2.as_slice()),
                rows: selected,
            },
        );
        assert forall|m: int| 0 <= m < k + 1 implies rows_view(#[trigger] out@[m].rows@) == rows_of(
            rows_view(rows@),
            (out@[m].barcode1@, out@[m].barcode2@),
        ) by {
            if m < k {
                assert(out@[m] == before[m]);
                assert(rows_view(before[m].rows@) == rows_of(rows_view(rows@), (before[m].barcode1@, before[m].barcode2@)));
            } else {
                assert(rows_view(sel) == rows_of(rows_view(rows@), (b1@, b2@)));
                assert(out@[m].barcode1@ == b1@);
                assert(out@[m].barcode2@ == b2@);
                assert(out@[m].rows@ == sel);
            }
        }
        k = k + 1;
    }
    assert forall|m: int| 0 <= m < out@.len() implies #[trigger] out@[m].rows@.len() > 0 by {
        let s = (samples@[m].0@, samples@[m].1@);
        assert(occurs(rows@, s));
        let i = choose|i: int| 0 <= i < rows@.len() && sample_of(#[trigger] rows@[i]@) == s;
        lemma_filter_keeps(rows_view(rows@), s, i);
        assert(rows_view(out@[m].rows@).len() == out@[m].rows@.len());
    }
    assert forall|i: int| 0 <= i < rows@.len() implies has_group(out@, sample_of(#[trigger] rows@[i]@)) by {
        let s = sample_of(rows@[i]@);
        assert(listed(samples@, s));
        let k = choose|k: int| 0 <= k < samples@.len() && (samples@[k].0@, samples@[k].1@) == s;
        assert((out@[k].barcode1@, out@[k].barcode2@) == s);
    }
    out
}

proof fn lemma_filter_keeps(rows: Seq<(CountKey, Counts)>, s: (Seq<u8>, Seq<u8>), i: int)
    requires
        0 <= i < rows.len(),
        sample_of(rows[i]) == s,
    ensures
        rows_of(rows, s).len() > 0,
    decreases rows.len(),
{
    reveal(Seq::filter);
    if i < rows.len() - 1 {
        lemma_filter_keeps(rows.drop_last(), s, i);
        assert(rows_of(rows.drop_last(), s).len() <= rows_of(rows, s).len());
    }
}

/// The smaller of `a` and `b`.
pub open spec fn min_of(a: int, b: int) -> int {
    if a <= b {
        a
    } else {
        b
    }
}

/// `bounds` cut `n` rows into consecutive pieces `(start, len)` of `limit`
/// rows each, the last one holding what remains.
pub open spec fn cuts(n: nat, limit: nat, bounds: Seq<(usize, usize)>) -> bool {
    &&& forall|i: int|
        0 <= i < bounds.len() ==> (#[trigger] bounds[i]).0 == i * limit && bounds[i].1 == min_of(
            limit as int,
            n - i * limit,
        ) && bounds[i].1 > 0
    &&& n == 0 ==> bounds.len() == 0
    &&& n > 0 ==> (bounds.len() - 1) * limit < n <= bounds.len() * limit
}

/// Start and length of each piece when `n` rows are written in pieces of at
/// most `limit` rows.
pub fn piece_bounds(n: usize, limit: usize) -> (r: Vec<(usize, usize)>)
    requires
        limit > 0,
    ensures
        cuts(n as nat, limit as nat, r@),
{
    let mut out: Vec<(usize, usize)> = Vec::new();
    let mut start: usize = 0;
    assert(out@.len() * limit == 0) by (nonlinear_arith)
        requires
            out@.len() == 0,
    ;
    while start < n
        invariant
            limit > 0,
            start <= n,
            start < n ==> start == out@.len() * limit,
            out@.len() == 0 ==> start == 0,
            start == n && out@.len() > 0 ==> (out@.len() - 1) * limit < n <= out@.len() * limit,
            forall|i: int|
                0 <= i < out@.len() ==> (#[trigger] out@[i]).0 == i * limit && out@[i].1 == min_of(
                    limit as int,
                    n - i * limit,
                ) && out@[i].1 > 0,
        decreases n - start,
    {
        let ghost k = out@.len() as int;
        let len = if n - start < limit {
            n - start
        } else {
            limit
        };
        out.push((start, len));
        assert((k + 1) * limit == k * limit + limit) by (nonlinear_arith);
        start = start + len;
    }
    out
}

/// Number of decimal digits of `n`.
pub open spec fn decimal_digits(n: nat) -> nat
    decreases n,
{
    if n < 10 {
        1
    } else {
        1 + decimal_digits(n / 10)
    }
}

proof fn lemma_digits_bound(n: nat)
    ensures
        n >= 1 ==> decimal_digits(n) <= n,
        decimal_digits(n) >= 1,
    decreases n,
{
    if n >= 10 {
        lemma_digits_bound(n / 10);
    }
}

/// Width of a zero-padded index wide enough for `n` pieces: the number of
/// decimal digits of `n`.
pub fn index_width(n: usize) -> (r: usize)
    ensures
        r == decimal_digits(n as nat),
{
    proof {
        lemma_digits_bound(n as nat);
    }
    let mut m: usize = n;
    let mut w: usize = 1;
    while m >= 10
        invariant
            1 <= w,
            m <= n,
            w + decimal_digits(m as nat) == 1 + decimal_digits(n as nat),
            n >= 1 ==> decimal_digits(n as nat) <= n,
        decreases m,
    {
        proof {
            lemma_digits_bound(m as nat / 10);
        }
        assert(decimal_digits(m as nat) >= 2);
        m = m / 10;
        w = w + 1;
    }
    w
}

} // verus!
