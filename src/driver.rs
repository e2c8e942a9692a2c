use vstd::prelude::*;

verus! {

/// What the streaming loop does with the records it has just pulled.
#[derive(Clone, Copy, Debug, PartialEq, Eq, Structural)]
pub enum ChunkStep {
    /// Both streams returned the same, non-zero number of records: pair them up.
    Process,
    /// Both streams are exhausted: the input ended normally.
    Finish,
    /// One stream returned fewer records than the other: the inputs are misaligned.
    Misaligned,
}

/// The step for a pull that returned `len1` records from the first stream and
/// `len2` from the second.
pub open spec fn step_for(len1: nat, len2: nat) -> ChunkStep {
    if len1 != len2 {
        ChunkStep::Misaligned
    } else if len1 == 0 {
        ChunkStep::Finish
    } else {
        ChunkStep::Process
    }
}

/// Progress of the streaming loop: chunks processed and records consumed.
#[derive(Clone, Copy, Debug, PartialEq, Eq, Structural)]
pub struct Progress {
    pub chunks: u64,
    pub records: u64,
}

impl Progress {
    /// No chunk processed yet.
    pub fn new() -> (p: Progress)
        ensures
            p.chunks == 0,
            p.records == 0,
    {
        Progress { chunks: 0, records: 0 }
    }

    /// Decides what to do with a pull of `len1` and `len2` records; on
    /// `Process` the chunk is counted, and its index is the new `chunks`.
    pub fn step(&mut self, len1: usize, len2: usize) -> (r: ChunkStep)
        requires
            old(self).chunks < u64::MAX,
            old(self).records + len1 <= u64::MAX,
        ensures
            r == step_for(len1 as nat, len2 as nat),
            r == ChunkStep::Process ==> final(self).chunks == old(self).chunks + 1 && final(self).records
                == old(self).records + len1,
            r != ChunkStep::Process ==> *final(self) == *old(self),
    {
        if len1 != len2 {
            ChunkStep::Misaligned
        } else if len1 == 0 {
            ChunkStep::Finish
        } else {
            self.chunks = self.chunks + 1;
            self.records = self.records + len1 as u64;
            ChunkStep::Process
        }
    }
}

} // verus!
