use vstd::prelude::*;

use crate::chunk::{chunk_aggregate, hit_rows, slot_count, PairView};
use crate::bytes::count_byte;
use crate::classify::{anchor_offset, classify_spec, FailReason, Hit, N};
use crate::partition::{cuts, min_of};
use crate::config::ConfigView;
use crate::table::{add_counts, count_at, lemma_row_sum_absent, lists, merged, row_sum, CountKey, Counts};

verus! {

/// Two aggregates added key by key.
pub open spec fn combine(m1: Map<CountKey, Counts>, m2: Map<CountKey, Counts>) -> Map<CountKey, Counts> {
    Map::new(
        |k: CountKey| m1.contains_key(k) || m2.contains_key(k),
        |k: CountKey| add_counts(count_at(m1, k), count_at(m2, k)),
    )
}

proof fn lemma_row_sum_concat(a: Seq<(CountKey, Counts)>, b: Seq<(CountKey, Counts)>, k: CountKey)
    ensures
        row_sum(a + b, k) == add_counts(row_sum(a, k), row_sum(b, k)),
    decreases b.len(),
{
    if b.len() == 0 {
        assert(a + b =~= a);
    } else {
        assert((a + b).drop_last() =~= a + b.drop_last());
        lemma_row_sum_concat(a, b.drop_last(), k);
    }
}

proof fn lemma_count_at_merged(rows: Seq<(CountKey, Counts)>, k: CountKey)
    ensures
        count_at(merged(rows), k) == row_sum(rows, k),
{
    if !merged(rows).contains_key(k) {
        lemma_row_sum_absent(rows, k);
    }
}

/// Grouping a concatenation adds the groupings of its parts.
pub proof fn lemma_merged_concat(a: Seq<(CountKey, Counts)>, b: Seq<(CountKey, Counts)>)
    ensures
        merged(a + b) == combine(merged(a), merged(b)),
{
    let ab = a + b;
    assert forall|k: CountKey| #[trigger] merged(ab).contains_key(k) <==> combine(merged(a), merged(b)).contains_key(k) by {
        if merged(ab).contains_key(k) {
            let i = choose|i: int| 0 <= i < ab.len() && ab[i].0 == k;
            if i < a.len() {
                assert(a[i].0 == k);
            } else {
                assert(b[i - a.len()].0 == k);
            }
        }
        if merged(a).contains_key(k) {
            let i = choose|i: int| 0 <= i < a.len() && a[i].0 == k;
            assert(ab[i].0 == k);
        }
        if merged(b).contains_key(k) {
            let i = choose|i: int| 0 <= i < b.len() && b[i].0 == k;
            assert(ab[a.len() + i].0 == k);
        }
    }
    assert forall|k: CountKey| merged(ab).contains_key(k) implies merged(ab)[k] == combine(merged(a), merged(b))[k] by {
        lemma_row_sum_concat(a, b, k);
        lemma_count_at_merged(a, k);
        lemma_count_at_merged(b, k);
    }
    assert(merged(ab) =~= combine(merged(a), merged(b)));
}

proof fn lemma_row_sum_single(rows: Seq<(CountKey, Counts)>, k: CountKey, i: int)
    requires
        0 <= i < rows.len(),
        rows[i].0 == k,
        forall|j: int| 0 <= j < rows.len() && j != i ==> rows[j].0 != k,
    ensures
        row_sum(rows, k) == rows[i].1,
    decreases rows.len(),
{
    if i == rows.len() - 1 {
        lemma_row_sum_absent(rows.drop_last(), k);
        assert(add_counts((0nat, 0nat), rows[i].1) == rows[i].1);
    } else {
        lemma_row_sum_single(rows.drop_last(), k, i);
    }
}

/// Grouping rows that list an aggregate, each key once, gives that aggregate back.
pub proof fn lemma_merged_listing(rows: Seq<(CountKey, Counts)>, m: Map<CountKey, Counts>)
    requires
        lists(rows, m),
    ensures
        merged(rows) == m,
{
    assert forall|k: CountKey| #[trigger] merged(rows).contains_key(k) <==> m.contains_key(k) by {
        if merged(rows).contains_key(k) {
            let i = choose|i: int| 0 <= i < rows.len() && rows[i].0 == k;
            assert(m.contains_key(rows[i].0));
        }
    }
    assert forall|k: CountKey| merged(rows).contains_key(k) implies merged(rows)[k] == m[k] by {
        let i = choose|i: int| 0 <= i < rows.len() && rows[i].0 == k;
        lemma_row_sum_single(rows, k, i);
    }
    assert(merged(rows) =~= m);
}

proof fn lemma_hit_rows_concat(cfg: ConfigView, p: Seq<PairView>, q: Seq<PairView>)
    ensures
        hit_rows(cfg, p + q) == hit_rows(cfg, p) + hit_rows(cfg, q),
    decreases q.len(),
{
    if q.len() == 0 {
        assert(p + q =~= p);
        assert(hit_rows(cfg, p) + hit_rows(cfg, q) =~= hit_rows(cfg, p));
    } else {
        assert((p + q).drop_last() =~= p + q.drop_last());
        lemma_hit_rows_concat(cfg, p, q.drop_last());
        let r1 = hit_rows(cfg, p);
        let r2 = hit_rows(cfg, q.drop_last());
        match classify_spec(cfg, q.last().seq1, q.last().seq2) {
            Ok(h) => {
                assert((r1 + r2).push(crate::chunk::hit_row(h)) =~= r1 + r2.push(crate::chunk::hit_row(h)));
            },
            Err(_) => {},
        }
    }
}

/// The aggregate of two consecutive runs of pairs is the sum of their aggregates.
pub proof fn lemma_aggregate_concat(cfg: ConfigView, p: Seq<PairView>, q: Seq<PairView>)
    ensures
        chunk_aggregate(cfg, p + q) == combine(chunk_aggregate(cfg, p), chunk_aggregate(cfg, q)),
{
    lemma_hit_rows_concat(cfg, p, q);
    lemma_merged_concat(hit_rows(cfg, p), hit_rows(cfg, q));
}

/// Chunking is invisible in the final counts: however the pairs of a run are
/// cut into chunks, grouping and summing the rows exported from every chunk
/// gives the aggregate of the whole run taken as a single chunk.
pub proof fn lemma_chunking_invisible(
    cfg: ConfigView,
    chunks: Seq<Seq<PairView>>,
    exports: Seq<Seq<(CountKey, Counts)>>,
)
    requires
        exports.len() == chunks.len(),
        forall|i: int| 0 <= i < chunks.len() ==> lists(#[trigger] exports[i], chunk_aggregate(cfg, chunks[i])),
    ensures
        merged(exports.flatten()) == chunk_aggregate(cfg, chunks.flatten()),
    decreases chunks.len(),
{
    if chunks.len() == 0 {
        assert(merged(exports.flatten()) =~= Map::<CountKey, Counts>::empty());
        assert(chunk_aggregate(cfg, chunks.flatten()) =~= Map::<CountKey, Counts>::empty());
    } else {
        let rest_c = chunks.drop_first();
        let rest_e = exports.drop_first();
        assert forall|i: int| 0 <= i < rest_c.len() implies lists(#[trigger] rest_e[i], chunk_aggregate(cfg, rest_c[i])) by {
            assert(rest_e[i] == exports[i + 1] && rest_c[i] == chunks[i + 1]);
        }
        lemma_chunking_invisible(cfg, rest_c, rest_e);
        assert(lists(exports[0], chunk_aggregate(cfg, chunks[0])));
        lemma_merged_concat(exports[0], rest_e.flatten());
        lemma_merged_listing(exports[0], chunk_aggregate(cfg, chunks[0]));
        lemma_aggregate_concat(cfg, chunks[0], rest_c.flatten());
    }
}

/// Classification is a function of the pair and the configuration: two
/// classifications of the same pair under the same configuration agree.
pub proof fn lemma_classification_deterministic(
    cfg: ConfigView,
    s1: Seq<u8>,
    s2: Seq<u8>,
    r1: Result<Hit, FailReason>,
    r2: Result<Hit, FailReason>,
)
    requires
        r1 == classify_spec(cfg, s1, s2),
        r2 == classify_spec(cfg, s1, s2),
    ensures
        r1 == r2,
{
}

/// Every pair is counted exactly once: the pairs that pass and those that fail
/// for each of the seven reasons add up to all the pairs.
pub proof fn lemma_every_pair_counted_once(cfg: ConfigView, pairs: Seq<PairView>)
    ensures
        slot_count(cfg, pairs, None) + slot_count(cfg, pairs, Some(FailReason::BaseCalls)) + slot_count(
            cfg,
            pairs,
            Some(FailReason::ConstantSeq),
        ) + slot_count(cfg, pairs, Some(FailReason::ConstantPos)) + slot_count(
            cfg,
            pairs,
            Some(FailReason::Barcode1),
        ) + slot_count(cfg, pairs, Some(FailReason::Barcode2)) + slot_count(cfg, pairs, Some(FailReason::DiscSeq))
            + slot_count(cfg, pairs, Some(FailReason::DiscPos)) == pairs.len(),
    decreases pairs.len(),
{
    if pairs.len() > 0 {
        lemma_every_pair_counted_once(cfg, pairs.drop_last());
    }
}

/// Ambiguous calls up to the configured maximum pass the first check; one
/// more fails it.
pub proof fn lemma_ambiguous_calls_boundary(cfg: ConfigView, s1: Seq<u8>, s2: Seq<u8>)
    ensures
        count_byte(s1, N) + count_byte(s2, N) <= cfg.max_n ==> classify_spec(cfg, s1, s2) != Err::<
            Hit,
            FailReason,
        >(FailReason::BaseCalls),
        count_byte(s1, N) + count_byte(s2, N) > cfg.max_n ==> classify_spec(cfg, s1, s2) == Err::<
            Hit,
            FailReason,
        >(FailReason::BaseCalls),
{
    reveal(classify_spec);
}

/// The anchor may start exactly `barcode_len` bytes into the second read, but
/// not one byte earlier.
pub proof fn lemma_anchor_boundary(cfg: ConfigView, s1: Seq<u8>, s2: Seq<u8>)
    requires
        count_byte(s1, N) + count_byte(s2, N) <= cfg.max_n,
    ensures
        cfg.barcode_len >= 1 && anchor_offset(cfg, s2) == Some(cfg.barcode_len - 1) ==> classify_spec(
            cfg,
            s1,
            s2,
        ) == Err::<Hit, FailReason>(FailReason::ConstantPos),
        anchor_offset(cfg, s2) == Some(cfg.barcode_len as int) && cfg.barcode_len + cfg.anchor.len()
            + cfg.rbs_len <= s2.len() && 2 * cfg.barcode_len + cfg.rbs_len <= s2.len() ==> match classify_spec(
            cfg,
            s1,
            s2,
        ) {
            Ok(_) => true,
            Err(e) => e != FailReason::BaseCalls && e != FailReason::ConstantSeq && e != FailReason::ConstantPos,
        },
{
    reveal(classify_spec);
}

/// The rows of each piece of a split, as `bounds` place them.
pub open spec fn cut_rows<A>(rows: Seq<A>, bounds: Seq<(usize, usize)>) -> Seq<Seq<A>> {
    bounds.map_values(|b: (usize, usize)| rows.subrange(b.0 as int, b.0 + b.1))
}

proof fn lemma_cut_suffix<A>(rows: Seq<A>, limit: nat, bounds: Seq<(usize, usize)>, j: int)
    requires
        limit > 0,
        cuts(rows.len(), limit, bounds),
        0 <= j <= bounds.len(),
    ensures
        cut_rows(rows, bounds.subrange(j, bounds.len() as int)).flatten() == rows.subrange(
            min_of(j * limit, rows.len() as int),
            rows.len() as int,
        ),
    decreases bounds.len() - j,
{
    let n = rows.len() as int;
    let len = bounds.len() as int;
    let tail = cut_rows(rows, bounds.subrange(j, len));
    if j == len {
        assert(tail =~= Seq::<Seq<A>>::empty());
        if n > 0 {
            assert(n <= len * limit);
        }
        assert(rows.subrange(min_of(j * limit, n), n) =~= Seq::<A>::empty());
    } else {
        assert(j * limit <= (len - 1) * limit) by (nonlinear_arith)
            requires
                j <= len - 1,
                limit > 0,
        ;
        assert((j + 1) * limit == j * limit + limit) by (nonlinear_arith);
        assert(n > 0);
        let b = bounds[j];
        assert(b.0 == j * limit);
        lemma_cut_suffix(rows, limit, bounds, j + 1);
        let next = cut_rows(rows, bounds.subrange(j + 1, len));
        assert(tail.drop_first() =~= next);
        assert(tail.first() == rows.subrange(j * limit, j * limit + b.1));
        assert(min_of((j + 1) * limit, n) == j * limit + b.1);
        assert(rows.subrange(j * limit, j * limit + b.1) + rows.subrange(j * limit + b.1, n) =~= rows.subrange(
            j * limit,
            n,
        ));
    }
}

/// Splitting rows into pieces of at most `limit` rows, as `piece_bounds`
/// places them, neither loses nor repeats a row: the pieces, in order, are
/// the rows, and none holds more than `limit` rows.
pub proof fn lemma_pieces_cover<A>(rows: Seq<A>, limit: nat, bounds: Seq<(usize, usize)>)
    requires
        limit > 0,
        cuts(rows.len(), limit, bounds),
    ensures
        cut_rows(rows, bounds).flatten() == rows,
        forall|i: int| 0 <= i < bounds.len() ==> (#[trigger] cut_rows(rows, bounds)[i]).len() <= limit,
{
    lemma_cut_suffix(rows, limit, bounds, 0);
    assert(bounds.subrange(0, bounds.len() as int) =~= bounds);
    assert(rows.subrange(0, rows.len() as int) =~= rows);
    assert forall|i: int| 0 <= i < bounds.len() implies (#[trigger] cut_rows(rows, bounds)[i]).len() <= limit by {
        let b = bounds[i];
        assert(b.1 <= limit);
        assert(i * limit + b.1 <= rows.len());
    }
}

/// The tallies of two consecutive runs of pairs add up: a slot's count over
/// `p` followed by `q` is its count over `p` plus its count over `q`.
pub proof fn lemma_slot_count_concat(cfg: ConfigView, p: Seq<PairView>, q: Seq<PairView>, slot: Option<FailReason>)
    ensures
        slot_count(cfg, p + q, slot) == slot_count(cfg, p, slot) + slot_count(cfg, q, slot),
    decreases q.len(),
{
    if q.len() == 0 {
        assert(p + q =~= p);
    } else {
        assert((p + q).drop_last() =~= p + q.drop_last());
        assert((p + q).last() == q.last());
        lemma_slot_count_concat(cfg, p, q.drop_last(), slot);
    }
}

/// Chunking is invisible in the quality-control tallies: however the pairs of
/// a run are cut into chunks, the per-chunk tallies of each slot add up to the
/// tally of the whole run.
pub proof fn lemma_tallies_chunking_invisible(
    cfg: ConfigView,
    chunks: Seq<Seq<PairView>>,
    slot: Option<FailReason>,
)
    ensures
        slot_count(cfg, chunks.flatten(), slot) == chunk_tallies(cfg, chunks, slot),
    decreases chunks.len(),
{
    if chunks.len() > 0 {
        lemma_tallies_chunking_invisible(cfg, chunks.drop_first(), slot);
        lemma_slot_count_concat(cfg, chunks[0], chunks.drop_first().flatten(), slot);
    }
}

/// Sum over `chunks` of each chunk's tally of `slot`.
pub open spec fn chunk_tallies(cfg: ConfigView, chunks: Seq<Seq<PairView>>, slot: Option<FailReason>) -> nat
    decreases chunks.len(),
{
    if chunks.len() == 0 {
        0
    } else {
        slot_count(cfg, chunks[0], slot) + chunk_tallies(cfg, chunks.drop_first(), slot)
    }
}

} // verus!
