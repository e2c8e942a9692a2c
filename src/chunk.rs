use vstd::prelude::*;

use crate::bytes::matches_at;
use crate::classify::{classify_seqs, classify_spec, outcome_view, Classified, FailReason, Hit};
use crate::config::{Config, ConfigView};
use crate::counters::Counters;
use crate::table::{add_at, count_at, lemma_merged_push, merged, unit_counts, CountKey, Counts, SampleTable};

verus! {

/// Two reads at the same position of the two input streams.
#[derive(Debug)]
pub struct ReadPair {
    pub id1: Vec<u8>,
    pub seq1: Vec<u8>,
    pub id2: Vec<u8>,
    pub seq2: Vec<u8>,
}

/// Mathematical model of a [`ReadPair`].
pub struct PairView {
    pub id1: Seq<u8>,
    pub seq1: Seq<u8>,
    pub id2: Seq<u8>,
    pub seq2: Seq<u8>,
}

impl View for ReadPair {
    type V = PairView;

    open spec fn view(&self) -> PairView {
        PairView { id1: self.id1@, seq1: self.seq1@, id2: self.id2@, seq2: self.seq2@ }
    }
}

/// A fault in the input streams, as opposed to a read pair that fails a check.
#[derive(Clone, Copy, Debug, PartialEq, Eq, Structural)]
pub enum InputDefect {
    /// The two reads carry different identifiers.
    IdMismatch,
    /// A sequence is not valid UTF-8 text.
    NotText,
}

/// The first defective pair of a chunk.
#[derive(Clone, Copy, Debug, PartialEq, Eq, Structural)]
pub struct DefectAt {
    pub index: usize,
    pub defect: InputDefect,
}

/// What is wrong with the pair `p`, if anything.
pub open spec fn pair_defect(p: PairView) -> Option<InputDefect> {
    if p.id1 != p.id2 {
        Some(InputDefect::IdMismatch)
    } else if !(vstd::utf8::valid_utf8(p.seq1) && vstd::utf8::valid_utf8(p.seq2)) {
        Some(InputDefect::NotText)
    } else {
        None
    }
}

/// Models of a sequence of read pairs.
pub open spec fn pairs_view(pairs: Seq<ReadPair>) -> Seq<PairView> {
    pairs.map_values(|p: ReadPair| p@)
}

/// The row that a passing pair contributes.
pub open spec fn hit_row(h: Hit) -> (CountKey, Counts) {
    ((h.barcode1, h.barcode2, h.rbs), unit_counts(h.flip))
}

/// One row per pair of `pairs` that passes classification, in input order.
pub open spec fn hit_rows(cfg: ConfigView, pairs: Seq<PairView>) -> Seq<(CountKey, Counts)>
    decreases pairs.len(),
{
    if pairs.len() == 0 {
        Seq::empty()
    } else {
        let rest = hit_rows(cfg, pairs.drop_last());
        match classify_spec(cfg, pairs.last().seq1, pairs.last().seq2) {
            Ok(h) => rest.push(hit_row(h)),
            Err(_) => rest,
        }
    }
}

/// The aggregate of a chunk: counts per sample and variable region over the
/// pairs that pass classification.
pub open spec fn chunk_aggregate(cfg: ConfigView, pairs: Seq<PairView>) -> Map<CountKey, Counts> {
    merged(hit_rows(cfg, pairs))
}

/// The counter slot that a classification result falls in.
pub open spec fn slot_of(r: Result<Hit, FailReason>) -> Option<FailReason> {
    match r {
        Ok(_) => None,
        Err(e) => Some(e),
    }
}

/// Number of pairs of `pairs` whose classification falls in `slot`.
pub open spec fn slot_count(cfg: ConfigView, pairs: Seq<PairView>, slot: Option<FailReason>) -> nat
    decreases pairs.len(),
{
    if pairs.len() == 0 {
        0
    } else {
        slot_count(cfg, pairs.drop_last(), slot) + if slot_of(
            classify_spec(cfg, pairs.last().seq1, pairs.last().seq2),
        ) == slot {
            1nat
        } else {
            0nat
        }
    }
}

proof fn lemma_chunk_step(cfg: ConfigView, pairs: Seq<PairView>, i: int)
    requires
        0 <= i < pairs.len(),
    ensures
        hit_rows(cfg, pairs.take(i + 1)) == match classify_spec(cfg, pairs[i].seq1, pairs[i].seq2) {
            Ok(h) => hit_rows(cfg, pairs.take(i)).push(hit_row(h)),
            Err(_) => hit_rows(cfg, pairs.take(i)),
        },
        forall|s: Option<FailReason>| #[trigger] slot_count(cfg, pairs.take(i + 1), s) == slot_count(cfg, pairs.take(i), s) + if slot_of(classify_spec(cfg, pairs[i].seq1, pairs[i].seq2)) == s {
            1nat
        } else {
            0nat
        },
{
    assert(pairs.take(i + 1).drop_last() =~= pairs.take(i));
}

/// Relies on `std::str::from_utf8`: it succeeds exactly on well-formed UTF-8.
#[verifier::external_body]
fn is_utf8(b: &[u8]) -> (r: bool)
    ensures
        r == vstd::utf8::valid_utf8(b@),
{
    std::str::from_utf8(b).is_ok()
}

/// What is wrong with `pair`, if anything.
pub fn check_pair(pair: &ReadPair) -> (r: Option<InputDefect>)
    ensures
        r == pair_defect(pair@),
{
    let same_id = pair.id1.len() == pair.id2.len() && matches_at(pair.id1.as_slice(), 0, pair.id2.as_slice());
    assert(same_id <==> pair.id1@ == pair.id2@) by {
        assert(pair.id1@.subrange(0, pair.id1@.len() as int) =~= pair.id1@);
    }
    if !same_id {
        return Some(InputDefect::IdMismatch);
    }
    if !(is_utf8(pair.seq1.as_slice()) && is_utf8(pair.seq2.as_slice())) {
        return Some(InputDefect::NotText);
    }
    None
}

/// Classifies one read pair; a defect of the input is reported instead of a
/// classification.
pub fn classify_pair(cfg: &Config, pair: &ReadPair) -> (r: Result<Result<Classified, FailReason>, InputDefect>)
    requires
        cfg.wf(),
    ensures
        match r {
            Err(d) => pair_defect(pair@) == Some(d),
            Ok(c) => pair_defect(pair@) is None && outcome_view(c) == classify_spec(
                cfg@,
                pair@.seq1,
                pair@.seq2,
            ),
        },
{
    match check_pair(pair) {
        Some(d) => Err(d),
        None => Ok(classify_seqs(cfg, pair.seq1.as_slice(), pair.seq2.as_slice())),
    }
}

/// Index of the first defective pair, if any.
pub fn first_defect(pairs: &[ReadPair]) -> (r: Option<DefectAt>)
    ensures
        match r {
            None => forall|i: int| 0 <= i < pairs@.len() ==> pair_defect(#[trigger] pairs@[i]@) is None,
            Some(d) => d.index < pairs@.len() && pair_defect(pairs@[d.index as int]@) == Some(d.defect)
                && forall|i: int| 0 <= i < d.index ==> pair_defect(#[trigger] pairs@[i]@) is None,
        },
{
    let mut i: usize = 0;
    while i < pairs.len()
        invariant
            0 <= i <= pairs@.len(),
            forall|j: int| 0 <= j < i ==> pair_defect(#[trigger] pairs@[j]@) is None,
        decreases pairs@.len() - i,
    {
        match check_pair(&pairs[i]) {
            Some(defect) => {
                return Some(DefectAt { index: i, defect });
            },
            None => {},
        }
        i = i + 1;
    }
    None
}

/// Classifies every pair of a chunk, counts each in `counters`, and returns
/// the chunk's aggregate. A defective pair stops the chunk before anything is
/// counted, and the first one is reported.
pub fn process_chunk(cfg: &Config, pairs: &[ReadPair], counters: &mut Counters) -> (r: Result<
    SampleTable,
    DefectAt,
>)
    requires
        cfg.wf(),
        old(counters).wf(),
        old(counters).total + pairs@.len() <= u64::MAX,
    ensures
        match r {
            Err(d) => {
                &&& d.index < pairs@.len()
                &&& pair_defect(pairs@[d.index as int]@) == Some(d.defect)
                &&& forall|i: int| 0 <= i < d.index ==> pair_defect(#[trigger] pairs@[i]@) is None
                &&& *final(counters) == *old(counters)
            },
            Ok(table) => {
                &&& forall|i: int| 0 <= i < pairs@.len() ==> pair_defect(#[trigger] pairs@[i]@) is None
                &&& table@ == chunk_aggregate(cfg@, pairs_view(pairs@))
                &&& final(counters).wf()
                &&& final(counters).total == old(counters).total + pairs@.len()
                &&& forall|s: Option<FailReason>| #[trigger] final(counters).slot(s) == old(counters).slot(s)
                    + slot_count(cfg@, pairs_view(pairs@), s)
            },
        },
{
    match first_defect(pairs) {
        Some(d) => {
            return Err(d);
        },
        None => {},
    }
    let ghost pv = pairs_view(pairs@);
    let ghost start = *counters;
    let mut table = SampleTable::new();
    let mut i: usize = 0;
    while i < pairs.len()
        invariant
            0 <= i <= pairs@.len(),
            pv == pairs_view(pairs@),
            cfg.wf(),
            counters.wf(),
            counters.total == start.total + i,
            start.total + pairs@.len() <= u64::MAX,
            forall|s: Option<FailReason>| #[trigger] counters.slot(s) == start.slot(s) + slot_count(cfg@, pv.take(i as int), s),
            table@ == chunk_aggregate(cfg@, pv.take(i as int)),
            forall|k: CountKey| #[trigger] count_at(table@, k).0 + count_at(table@, k).1 <= i,
        decreases pairs@.len() - i,
    {
        let pair = &pairs[i];
        let outcome = classify_seqs(cfg, pair.seq1.as_slice(), pair.seq2.as_slice());
        let ghost before = table@;
        let ghost prefix = pv.take(i as int);
        proof {
            assert(pv[i as int] == pair@);
            lemma_chunk_step(cfg@, pv, i as int);
        }
        match outcome {
            Ok(c) => {
                proof {
                    crate::counters::lemma_slot_le_total(counters, None);
                }
                let ghost c0 = *counters;
                counters.record_total();
                assert(counters.slot(None) == c0.slot(None));
                counters.record_valid();
                proof {
                    crate::counters::lemma_pair_restores_wf(&c0, counters, None);
                }
                let ghost h = c@;
                assert(count_at(before, (h.barcode1, h.barcode2, h.rbs)).0 + count_at(before, (h.barcode1, h.barcode2, h.rbs)).1 <= i);
                table.record(c.sample.barcode1, c.sample.barcode2, c.rbs, c.flip);
                proof {
                    lemma_merged_push(hit_rows(cfg@, prefix), hit_row(h));
                    assert forall|k: CountKey| #[trigger] count_at(table@, k).0 + count_at(table@, k).1 <= i + 1 by {
                        if k != (h.barcode1, h.barcode2, h.rbs) {
                            assert(count_at(table@, k) == count_at(before, k));
                        }
                    }
                }
            },
            Err(e) => {
                proof {
                    crate::counters::lemma_slot_le_total(counters, Some(e));
                }
                let ghost c0 = *counters;
                counters.record_total();
                assert(counters.slot(Some(e)) == c0.slot(Some(e)));
                counters.record_failure(e);
                proof {
                    crate::counters::lemma_pair_restores_wf(&c0, counters, Some(e));
                }
            },
        }
        i = i + 1;
    }
    assert(pv.take(pairs@.len() as int) =~= pv);
    Ok(table)
}

} // verus!
