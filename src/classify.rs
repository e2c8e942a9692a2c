use vstd::prelude::*;

use crate::bytes::{contains_at, copy_range, count_byte, count_of, find_motif, first_match, lemma_first_match, matches_at};
use crate::config::{Config, ConfigView};

verus! {

/// The ambiguous base call.
pub const N: u8 = 78;

/// Why a read pair was rejected, in the order in which the checks run.
#[derive(Clone, Copy, Debug, PartialEq, Eq, Structural)]
pub enum FailReason {
    BaseCalls,
    ConstantSeq,
    ConstantPos,
    Barcode1,
    Barcode2,
    DiscSeq,
    DiscPos,
}

/// Orientation of a read pair, as told by its discriminator motif.
#[derive(Clone, Copy, Debug, PartialEq, Eq, Structural)]
pub enum Flip {
    NonFlipped,
    Flipped,
}

/// A sample is identified by its pair of barcodes.
#[derive(Debug)]
pub struct Sample {
    pub barcode1: Vec<u8>,
    pub barcode2: Vec<u8>,
}

/// What a read pair that passes every check yields.
#[derive(Debug)]
pub struct Classified {
    pub sample: Sample,
    pub rbs: Vec<u8>,
    pub flip: Flip,
}

/// Mathematical model of a [`Classified`].
pub struct Hit {
    pub barcode1: Seq<u8>,
    pub barcode2: Seq<u8>,
    pub rbs: Seq<u8>,
    pub flip: Flip,
}

impl View for Classified {
    type V = Hit;

    open spec fn view(&self) -> Hit {
        Hit {
            barcode1: self.sample.barcode1@,
            barcode2: self.sample.barcode2@,
            rbs: self.rbs@,
            flip: self.flip,
        }
    }
}

/// The part of the second read in which the anchor is searched: the 1-based
/// inclusive window, cut short where the read ends.
pub open spec fn window_seq(cfg: ConfigView, s2: Seq<u8>) -> Seq<u8> {
    let lo = cfg.window.0 - 1;
    let hi = if cfg.window.1 < s2.len() { cfg.window.1 as int } else { s2.len() as int };
    if lo < hi {
        s2.subrange(lo, hi)
    } else {
        Seq::empty()
    }
}

/// Offset in the second read of the first anchor found in the window.
pub open spec fn anchor_offset(cfg: ConfigView, s2: Seq<u8>) -> Option<int> {
    match first_match(window_seq(cfg, s2), cfg.anchor) {
        Some(i) => Some(i + cfg.window.0 - 1),
        None => None,
    }
}

/// The anchor at `off` leaves no room for the second barcode before it, or
/// the variable region after it does not fit in the read.
pub open spec fn anchor_misplaced(cfg: ConfigView, s2: Seq<u8>, off: int) -> bool {
    ||| off < cfg.barcode_len
    ||| off + cfg.barcode_len + cfg.rbs_len > s2.len()
    ||| off + cfg.anchor.len() + cfg.rbs_len > s2.len()
}

/// Offset and orientation of the discriminator in the first read; the
/// non-flipped motif takes precedence.
pub open spec fn discriminator(cfg: ConfigView, s1: Seq<u8>) -> Option<(int, Flip)> {
    match first_match(s1, cfg.non_flipped) {
        Some(p) => Some((p, Flip::NonFlipped)),
        None => match first_match(s1, cfg.flipped) {
            Some(p) => Some((p, Flip::Flipped)),
            None => None,
        },
    }
}

/// Offset of the anchor in the second read, or why it is missing or misplaced.
pub open spec fn locate_anchor(cfg: ConfigView, s2: Seq<u8>) -> Result<int, FailReason> {
    match anchor_offset(cfg, s2) {
        None => Err(FailReason::ConstantSeq),
        Some(off) => if anchor_misplaced(cfg, s2, off) {
            Err(FailReason::ConstantPos)
        } else {
            Ok(off)
        },
    }
}

/// The first barcode and the orientation, or why they cannot be read from the first read.
pub open spec fn locate_barcode1(cfg: ConfigView, s1: Seq<u8>) -> Result<(Seq<u8>, Flip), FailReason> {
    match discriminator(cfg, s1) {
        None => Err(FailReason::DiscSeq),
        Some((p, flip)) => if p < cfg.disc_offset + cfg.barcode_len {
            Err(FailReason::DiscPos)
        } else {
            let start = p - cfg.disc_offset - cfg.barcode_len;
            let barcode1 = s1.subrange(start, start + cfg.barcode_len);
            if !cfg.barcodes1.contains(barcode1) {
                Err(FailReason::Barcode1)
            } else {
                Ok((barcode1, flip))
            }
        },
    }
}

/// The classification of the read pair `(s1, s2)`: the first check that
/// fails, or the sample, variable region and orientation.
#[verifier::opaque]
pub open spec fn classify_spec(cfg: ConfigView, s1: Seq<u8>, s2: Seq<u8>) -> Result<Hit, FailReason> {
    if count_byte(s1, N) + count_byte(s2, N) > cfg.max_n {
        Err(FailReason::BaseCalls)
    } else {
        match locate_anchor(cfg, s2) {
            Err(e) => Err(e),
            Ok(off) => {
                let rbs_start = off + cfg.anchor.len();
                let rbs = s2.subrange(rbs_start, rbs_start + cfg.rbs_len);
                let barcode2 = s2.subrange(off - cfg.barcode_len, off);
                if !cfg.barcodes2.contains(barcode2) {
                    Err(FailReason::Barcode2)
                } else {
                    match locate_barcode1(cfg, s1) {
                        Err(e) => Err(e),
                        Ok((barcode1, flip)) => Ok(Hit { barcode1, barcode2, rbs, flip }),
                    }
                }
            },
        }
    }
}

/// Model of an executable classification result.
pub open spec fn outcome_view(r: Result<Classified, FailReason>) -> Result<Hit, FailReason> {
    match r {
        Ok(c) => Ok(c@),
        Err(e) => Err(e),
    }
}

proof fn lemma_set_contains(set: Seq<Vec<u8>>, x: Seq<u8>)
    ensures
        set.map_values(|b: Vec<u8>| b@).contains(x) == exists|k: int| 0 <= k < set.len() && set[k]@ == x,
{
    let m = set.map_values(|b: Vec<u8>| b@);
    if m.contains(x) {
        let k = choose|k: int| 0 <= k < m.len() && m[k] == x;
        assert(set[k]@ == x);
    }
    if exists|k: int| 0 <= k < set.len() && set[k]@ == x {
        let k = choose|k: int| 0 <= k < set.len() && set[k]@ == x;
        assert(m[k] == x);
    }
}

fn find_anchor(cfg: &Config, seq2: &[u8]) -> (r: Result<usize, FailReason>)
    requires
        cfg.wf(),
    ensures
        match r {
            Ok(off) => locate_anchor(cfg@, seq2@) == Ok::<int, FailReason>(off as int),
            Err(e) => locate_anchor(cfg@, seq2@) == Err::<int, FailReason>(e),
        },
{
    let ghost c = cfg@;
    let len2 = seq2.len();
    let lo = cfg.window.0 - 1;
    let hi = if cfg.window.1 < len2 { cfg.window.1 } else { len2 };
    let window = if lo < hi {
        vstd::slice::slice_subrange(seq2, lo, hi)
    } else {
        vstd::slice::slice_subrange(seq2, 0, 0)
    };
    assert(window@ =~= window_seq(c, seq2@));
    proof {
        lemma_first_match(window@, c.anchor);
    }
    let off = match find_motif(window, cfg.anchor.as_slice()) {
        Some(local) => local + lo,
        None => {
            return Err(FailReason::ConstantSeq);
        },
    };
    assert(anchor_offset(c, seq2@) == Some(off as int));
    let bl = cfg.barcode_len;
    let rl = cfg.rbs_len;
    let al = cfg.anchor.len();
    if off < bl || off > len2 || bl + rl > len2 - off || al + rl > len2 - off {
        return Err(FailReason::ConstantPos);
    }
    Ok(off)
}

fn find_barcode1(cfg: &Config, seq1: &[u8]) -> (r: Result<(Vec<u8>, Flip), FailReason>)
    requires
        cfg.wf(),
    ensures
        match r {
            Ok((b, f)) => locate_barcode1(cfg@, seq1@) == Ok::<(Seq<u8>, Flip), FailReason>((b@, f)),
            Err(e) => locate_barcode1(cfg@, seq1@) == Err::<(Seq<u8>, Flip), FailReason>(e),
        },
{
    let ghost c = cfg@;
    let (pos, flip) = match find_motif(seq1, cfg.non_flipped.as_slice()) {
        Some(p) => {
            proof {
                lemma_first_match(seq1@, c.non_flipped);
            }
            (p, Flip::NonFlipped)
        },
        None => match find_motif(seq1, cfg.flipped.as_slice()) {
            Some(p) => {
                proof {
                    lemma_first_match(seq1@, c.flipped);
                }
                (p, Flip::Flipped)
            },
            None => {
                return Err(FailReason::DiscSeq);
            },
        },
    };
    assert(pos <= seq1@.len());
    assert(discriminator(c, seq1@) == Some((pos as int, flip)));
    let bl = cfg.barcode_len;
    if pos < cfg.disc_offset + bl {
        return Err(FailReason::DiscPos);
    }
    let start = pos - cfg.disc_offset - bl;
    proof {
        lemma_set_contains(cfg.barcodes1@, seq1@.subrange(start as int, start + bl));
    }
    if !contains_at(&cfg.barcodes1, seq1, start, bl) {
        return Err(FailReason::Barcode1);
    }
    Ok((copy_range(seq1, start, bl), flip))
}

/// Classifies the read pair whose sequences are `seq1` and `seq2`.
pub fn classify_seqs(cfg: &Config, seq1: &[u8], seq2: &[u8]) -> (r: Result<Classified, FailReason>)
    requires
        cfg.wf(),
    ensures
        outcome_view(r) == classify_spec(cfg@, seq1@, seq2@),
{
    proof {
        reveal(classify_spec);
    }
    let n1 = count_of(seq1, N);
    let n2 = count_of(seq2, N);
    if n1 > cfg.max_n || n2 > cfg.max_n - n1 {
        return Err(FailReason::BaseCalls);
    }
    let off = match find_anchor(cfg, seq2) {
        Ok(off) => off,
        Err(e) => {
            return Err(e);
        },
    };
    let _n = seq2.len();
    let bl = cfg.barcode_len;
    let rbs = copy_range(seq2, off + cfg.anchor.len(), cfg.rbs_len);
    proof {
        lemma_set_contains(cfg.barcodes2@, seq2@.subrange(off - bl, off as int));
    }
    if !contains_at(&cfg.barcodes2, seq2, off - bl, bl) {
        return Err(FailReason::Barcode2);
    }
    let (barcode1, flip) = match find_barcode1(cfg, seq1) {
        Ok(found) => found,
        Err(e) => {
            return Err(e);
        },
    };
    let barcode2 = copy_range(seq2, off - bl, bl);
    proof {
        reveal(classify_spec);
    }
    Ok(Classified { sample: Sample { barcode1, barcode2 }, rbs, flip })
}

} // verus!
