//! Classification and aggregation of barcoded paired-end reporter-assay reads.
//!
//! Each read pair is classified against fixed structural expectations (two
//! barcodes, a constant anchor, a discriminator motif in one of two
//! orientations); pairs that pass are counted per sample and per variable
//! region (RBS). Chunk-scoped aggregates are merged by summing counts per key,
//! then partitioned per sample into size-bounded pieces.
mod bytes;
mod chunk;
mod classify;
mod config;
mod counters;
mod driver;
mod laws;
mod merge;
mod partition;
mod table;

pub use bytes::{contains_at, copy_range, count_of, find_motif, matches_at};
pub use chunk::{check_pair, classify_pair, first_defect, process_chunk, DefectAt, InputDefect, ReadPair};
pub use classify::{classify_seqs, Classified, FailReason, Flip, Sample};
pub use config::Config;
pub use counters::{lemma_pair_restores_wf, lemma_slot_le_total, Counters};
pub use driver::{ChunkStep, Progress};
pub use merge::merge_rows;
pub use partition::{distinct_samples, group_by_sample, index_width, piece_bounds, select_sample, SampleGroup};
pub use table::{CountRow, SampleTable};
pub use laws::{
    lemma_aggregate_concat, lemma_ambiguous_calls_boundary, lemma_anchor_boundary, lemma_chunking_invisible,
    lemma_classification_deterministic, lemma_every_pair_counted_once, lemma_merged_concat, lemma_merged_listing,
    lemma_pieces_cover, lemma_slot_count_concat, lemma_tallies_chunking_invisible,
};
