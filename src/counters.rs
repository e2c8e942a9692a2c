use vstd::prelude::*;

use crate::classify::FailReason;

verus! {

/// Per-run tallies of classified read pairs: how many were seen, how many
/// passed, and how many failed for each reason.
pub struct Counters {
    pub total: u64,
    pub valid: u64,
    pub base_calls: u64,
    pub constant_seq: u64,
    pub constant_pos: u64,
    pub barcode1: u64,
    pub barcode2: u64,
    pub disc_seq: u64,
    pub disc_pos: u64,
}

/// In well-formed counters no tally exceeds `total`.
pub proof fn lemma_slot_le_total(c: &Counters, slot: Option<FailReason>)
    requires
        c.wf(),
    ensures
        c.slot(slot) <= c.total,
{
}

/// Counting a pair's `total` once and exactly one other tally once keeps the
/// counters well formed: `total` stays the sum of the valid and failure tallies.
pub proof fn lemma_pair_restores_wf(before: &Counters, after: &Counters, slot: Option<FailReason>)
    requires
        before.wf(),
        after.total == before.total + 1,
        forall|s: Option<FailReason>| #[trigger] after.slot(s) == before.slot(s) + if s == slot { 1nat } else { 0nat },
    ensures
        after.wf(),
{
    assert(after.slot(None) + after.slot(Some(FailReason::BaseCalls)) + after.slot(Some(FailReason::ConstantSeq))
        + after.slot(Some(FailReason::ConstantPos)) + after.slot(Some(FailReason::Barcode1)) + after.slot(
        Some(FailReason::Barcode2),
    ) + after.slot(Some(FailReason::DiscSeq)) + after.slot(Some(FailReason::DiscPos)) == after.valid
        + after.failed());
    match slot {
        None => {},
        Some(FailReason::BaseCalls) => {},
        Some(FailReason::ConstantSeq) => {},
        Some(FailReason::ConstantPos) => {},
        Some(FailReason::Barcode1) => {},
        Some(FailReason::Barcode2) => {},
        Some(FailReason::DiscSeq) => {},
        Some(FailReason::DiscPos) => {},
    }
}

impl Counters {
    /// The tally of `slot`: `None` for the pairs that passed, `Some(r)` for
    /// those that failed with `r`.
    pub open spec fn slot(&self, slot: Option<FailReason>) -> nat {
        match slot {
            None => self.valid as nat,
            Some(FailReason::BaseCalls) => self.base_calls as nat,
            Some(FailReason::ConstantSeq) => self.constant_seq as nat,
            Some(FailReason::ConstantPos) => self.constant_pos as nat,
            Some(FailReason::Barcode1) => self.barcode1 as nat,
            Some(FailReason::Barcode2) => self.barcode2 as nat,
            Some(FailReason::DiscSeq) => self.disc_seq as nat,
            Some(FailReason::DiscPos) => self.disc_pos as nat,
        }
    }

    /// Sum of the failure tallies.
    pub open spec fn failed(&self) -> nat {
        (self.base_calls + self.constant_seq + self.constant_pos + self.barcode1 + self.barcode2
            + self.disc_seq + self.disc_pos) as nat
    }

    /// Every pair seen either passed or failed for exactly one reason.
    pub open spec fn wf(&self) -> bool {
        self.total == self.valid + self.failed()
    }

    /// Counters of a run that has seen no pair.
    pub fn new() -> (c: Counters)
        ensures
            c.wf(),
            c.total == 0,
            forall|s: Option<FailReason>| c.slot(s) == 0,
    {
        Counters {
            total: 0,
            valid: 0,
            base_calls: 0,
            constant_seq: 0,
            constant_pos: 0,
            barcode1: 0,
            barcode2: 0,
            disc_seq: 0,
            disc_pos: 0,
        }
    }

    /// Adds one to the tally of `slot` alone.
    fn bump(&mut self, slot: Option<FailReason>)
        requires
            old(self).slot(slot) < u64::MAX,
        ensures
            final(self).total == old(self).total,
            forall|s: Option<FailReason>|
                #[trigger] final(self).slot(s) == old(self).slot(s) + if s == slot { 1nat } else { 0nat },
    {
        match slot {
            None => self.valid = self.valid + 1,
            Some(FailReason::BaseCalls) => self.base_calls = self.base_calls + 1,
            Some(FailReason::ConstantSeq) => self.constant_seq = self.constant_seq + 1,
            Some(FailReason::ConstantPos) => self.constant_pos = self.constant_pos + 1,
            Some(FailReason::Barcode1) => self.barcode1 = self.barcode1 + 1,
            Some(FailReason::Barcode2) => self.barcode2 = self.barcode2 + 1,
            Some(FailReason::DiscSeq) => self.disc_seq = self.disc_seq + 1,
            Some(FailReason::DiscPos) => self.disc_pos = self.disc_pos + 1,
        }
    }

    /// Counts one more pair seen; every other tally is left as it is.
    pub fn record_total(&mut self)
        requires
            old(self).total < u64::MAX,
        ensures
            final(self).total == old(self).total + 1,
            forall|s: Option<FailReason>| #[trigger] final(self).slot(s) == old(self).slot(s),
    {
        self.total = self.total + 1;
    }

    /// Counts one more pair that passed; `total` and the failure tallies are
    /// left as they are.
    pub fn record_valid(&mut self)
        requires
            old(self).valid < u64::MAX,
        ensures
            final(self).total == old(self).total,
            forall|s: Option<FailReason>|
                #[trigger] final(self).slot(s) == old(self).slot(s) + if s is None { 1nat } else { 0nat },
    {
        self.bump(None);
    }

    /// Counts one more pair that failed with `reason`; `total`, `valid` and
    /// the other failure tallies are left as they are.
    pub fn record_failure(&mut self, reason: FailReason)
        requires
            old(self).slot(Some(reason)) < u64::MAX,
        ensures
            final(self).total == old(self).total,
            forall|s: Option<FailReason>|
                #[trigger] final(self).slot(s) == old(self).slot(s) + if s == Some(reason) { 1nat } else { 0nat },
    {
        self.bump(Some(reason));
    }

    /// Counts one whole pair: `total` once, and the tally of `slot` once.
    pub fn record(&mut self, slot: Option<FailReason>)
        requires
            old(self).wf(),
            old(self).total < u64::MAX,
        ensures
            final(self).wf(),
            final(self).total == old(self).total + 1,
            forall|s: Option<FailReason>|
                #[trigger] final(self).slot(s) == old(self).slot(s) + if s == slot { 1nat } else { 0nat },
    {
        let ghost before = *self;
        proof {
            lemma_slot_le_total(self, slot);
        }
        self.record_total();
        self.bump(slot);
        proof {
            lemma_pair_restores_wf(&before, self, slot);
        }
    }

    /// Adds the tallies of `other` to these.
    pub fn absorb(&mut self, other: &Counters)
        requires
            old(self).wf(),
            other.wf(),
            old(self).total + other.total <= u64::MAX,
        ensures
            final(self).wf(),
            final(self).total == old(self).total + other.total,
            forall|s: Option<FailReason>| #[trigger] final(self).slot(s) == old(self).slot(s) + other.slot(s),
    {
        self.total = self.total + other.total;
        self.valid = self.valid + other.valid;
        self.base_calls = self.base_calls + other.base_calls;
        self.constant_seq = self.constant_seq + other.constant_seq;
        self.constant_pos = self.constant_pos + other.constant_pos;
        self.barcode1 = self.barcode1 + other.barcode1;
        self.barcode2 = self.barcode2 + other.barcode2;
        self.disc_seq = self.disc_seq + other.disc_seq;
        self.disc_pos = self.disc_pos + other.disc_pos;
    }

    /// The tally that failures for `reason` are counted in.
    pub fn failures(&self, reason: FailReason) -> (n: u64)
        ensures
            n == self.slot(Some(reason)),
    {
        match reason {
            FailReason::BaseCalls => self.base_calls,
            FailReason::ConstantSeq => self.constant_seq,
            FailReason::ConstantPos => self.constant_pos,
            FailReason::Barcode1 => self.barcode1,
            FailReason::Barcode2 => self.barcode2,
            FailReason::DiscSeq => self.disc_seq,
            FailReason::DiscPos => self.disc_pos,
        }
    }

    /// The quality-control summary: `total`, `valid`, then one tally per
    /// failure reason in the order in which the checks run.
    pub fn summary(&self) -> (r: Vec<u64>)
        ensures
            r@ == seq![
                self.total,
                self.valid,
                self.base_calls,
                self.constant_seq,
                self.constant_pos,
                self.barcode1,
                self.barcode2,
                self.disc_seq,
                self.disc_pos,
            ],
    {
        vec![
            self.total,
            self.valid,
            self.base_calls,
            self.constant_seq,
            self.constant_pos,
            self.barcode1,
            self.barcode2,
            self.disc_seq,
            self.disc_pos,
        ]
    }
}

} // verus!
