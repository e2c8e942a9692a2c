use uaspire::{
    group_by_sample, index_width, merge_rows, piece_bounds, process_chunk, select_sample, ChunkStep, Config,
    CountRow, Counters, DefectAt, FailReason, InputDefect, Progress, ReadPair, SampleTable,
};

const ANCHOR: &str = "GAGCTCGCAT";
const NON_FLIPPED: &str = "GGGTTTGTACCGTACAC";
const FLIPPED: &str = "GCCCGGATGATCCTGAC";
const RBS: &str = "ACGTACGTACGTACGTA";

fn pair(id: &str, barcode1: &str, motif: &str, barcode2: &str, anchor: &str, rbs: &str) -> ReadPair {
    ReadPair {
        id1: id.as_bytes().to_vec(),
        seq1: format!("AA{}TTTTTT{}AAAA", barcode1, motif).into_bytes(),
        id2: id.as_bytes().to_vec(),
        seq2: format!("TT{}{}{}CC", barcode2, anchor, rbs).into_bytes(),
    }
}

fn row(b1: &str, b2: &str, rbs: &str, non_flipped: u64, flipped: u64) -> CountRow {
    CountRow {
        barcode1: b1.as_bytes().to_vec(),
        barcode2: b2.as_bytes().to_vec(),
        rbs: rbs.as_bytes().to_vec(),
        non_flipped,
        flipped,
    }
}

fn plain(rows: &[CountRow]) -> Vec<(Vec<u8>, Vec<u8>, Vec<u8>, u64, u64)> {
    let mut v: Vec<_> = rows
        .iter()
        .map(|r| (r.barcode1.clone(), r.barcode2.clone(), r.rbs.clone(), r.non_flipped, r.flipped))
        .collect();
    v.sort();
    v
}

fn sample_pairs() -> Vec<ReadPair> {
    vec![
        pair("a", "ATCACG", NON_FLIPPED, "CGATGT", ANCHOR, RBS),
        pair("b", "ATCACG", FLIPPED, "CGATGT", ANCHOR, RBS),
        pair("c", "ATCACG", NON_FLIPPED, "CGATGT", ANCHOR, RBS),
        pair("d", "GCCAAT", NON_FLIPPED, "CGATGT", ANCHOR, "TTTTTTTTTTTTTTTTT"),
        pair("e", "ATCACG", NON_FLIPPED, "CGATGT", "GAGCTCGCAA", RBS),
        pair("f", "ATCACG", NON_FLIPPED, "AAAAAA", ANCHOR, RBS),
        pair("g", "GCCAAT", NON_FLIPPED, "CGATGT", ANCHOR, "TTTTTTTTTTTTTTTTT"),
    ]
}

#[test]
fn end_to_end_single_valid_pair() {
    let cfg = Config::uaspire();
    let mut counters = Counters::new();
    let pairs = vec![pair("r", "ATCACG", NON_FLIPPED, "CGATGT", ANCHOR, RBS)];
    let table = process_chunk(&cfg, &pairs, &mut counters).unwrap();
    let merged = merge_rows(&table.rows()).unwrap();
    let groups = group_by_sample(&merged.rows());
    assert_eq!(groups.len(), 1);
    assert_eq!(groups[0].barcode1, b"ATCACG".to_vec());
    assert_eq!(groups[0].barcode2, b"CGATGT".to_vec());
    assert_eq!(plain(&groups[0].rows), plain(&[row("ATCACG", "CGATGT", RBS, 1, 0)]));
    assert_eq!(counters.total, 1);
    assert_eq!(counters.valid, 1);
    assert_eq!(counters.summary(), vec![1, 1, 0, 0, 0, 0, 0, 0, 0]);
}

#[test]
fn end_to_end_literal_barcode_scenario_fails_position_check() {
    // "XXXXXX" + "AA" + motif: the motif starts 8 bases in, fewer than the
    // spacer plus barcode length that the first barcode needs
    let cfg = Config::uaspire();
    let mut counters = Counters::new();
    let pairs = vec![ReadPair {
        id1: b"r".to_vec(),
        seq1: format!("XXXXXXAA{}ACGT", NON_FLIPPED).into_bytes(),
        id2: b"r".to_vec(),
        seq2: format!("TT{}{}{}CC", "CGATGT", ANCHOR, RBS).into_bytes(),
    }];
    let table = process_chunk(&cfg, &pairs, &mut counters).unwrap();
    assert!(table.rows().is_empty());
    assert_eq!(counters.failures(FailReason::DiscPos), 1);
    assert_eq!(counters.valid, 0);
}

#[test]
fn end_to_end_missing_anchor() {
    let cfg = Config::uaspire();
    let mut counters = Counters::new();
    let pairs = vec![pair("r", "ATCACG", NON_FLIPPED, "CGATGT", "GAGCTCGCAA", RBS)];
    let table = process_chunk(&cfg, &pairs, &mut counters).unwrap();
    assert!(table.rows().is_empty());
    assert_eq!(counters.total, 1);
    assert_eq!(counters.valid, 0);
    assert_eq!(counters.failures(FailReason::ConstantSeq), 1);
    assert_eq!(counters.summary(), vec![1, 0, 0, 1, 0, 0, 0, 0, 0]);
}

#[test]
fn chunk_counts_every_pair_once() {
    let cfg = Config::uaspire();
    let mut counters = Counters::new();
    let table = process_chunk(&cfg, &sample_pairs(), &mut counters).unwrap();
    assert_eq!(counters.total, 7);
    assert_eq!(counters.valid, 5);
    assert_eq!(counters.failures(FailReason::ConstantSeq), 1);
    assert_eq!(counters.failures(FailReason::Barcode2), 1);
    let failed: u64 = [
        FailReason::BaseCalls,
        FailReason::ConstantSeq,
        FailReason::ConstantPos,
        FailReason::Barcode1,
        FailReason::Barcode2,
        FailReason::DiscSeq,
        FailReason::DiscPos,
    ]
    .iter()
    .map(|r| counters.failures(*r))
    .sum();
    assert_eq!(counters.total, counters.valid + failed);
    assert_eq!(
        plain(&table.rows()),
        plain(&[
            row("ATCACG", "CGATGT", RBS, 2, 1),
            row("GCCAAT", "CGATGT", "TTTTTTTTTTTTTTTTT", 2, 0),
        ])
    );
}

#[test]
fn chunk_size_does_not_change_merged_counts() {
    let cfg = Config::uaspire();
    let all = sample_pairs();
    let mut whole_counters = Counters::new();
    let whole = process_chunk(&cfg, &all, &mut whole_counters).unwrap();
    let whole_merged = merge_rows(&whole.rows()).unwrap();

    for size in 1..=all.len() {
        let mut counters = Counters::new();
        let mut exported: Vec<CountRow> = Vec::new();
        let pairs = sample_pairs();
        let mut it = pairs.into_iter().peekable();
        while it.peek().is_some() {
            let chunk: Vec<ReadPair> = it.by_ref().take(size).collect();
            let table = process_chunk(&cfg, &chunk, &mut counters).unwrap();
            exported.extend(table.rows());
        }
        let merged = merge_rows(&exported).unwrap();
        assert_eq!(plain(&merged.rows()), plain(&whole_merged.rows()));
        assert_eq!(counters.summary(), whole_counters.summary());
    }
}

#[test]
fn defective_pair_stops_chunk_uncounted() {
    let cfg = Config::uaspire();
    let mut counters = Counters::new();
    let mut pairs = sample_pairs();
    pairs[3].id2 = b"other".to_vec();
    pairs[5].seq1 = vec![0xff];
    let r = process_chunk(&cfg, &pairs, &mut counters);
    assert_eq!(r.err(), Some(DefectAt { index: 3, defect: InputDefect::IdMismatch }));
    assert_eq!(counters.total, 0);
    pairs[3].id2 = b"d".to_vec();
    let r = process_chunk(&cfg, &pairs, &mut counters);
    assert_eq!(r.err(), Some(DefectAt { index: 5, defect: InputDefect::NotText }));
}

#[test]
fn merge_sums_equal_keys() {
    let rows = vec![
        row("A", "B", "R1", 1, 0),
        row("A", "B", "R2", 0, 3),
        row("A", "B", "R1", 4, 2),
        row("A", "C", "R1", 1, 1),
    ];
    let merged = merge_rows(&rows).unwrap();
    assert_eq!(
        plain(&merged.rows()),
        plain(&[row("A", "B", "R1", 5, 2), row("A", "B", "R2", 0, 3), row("A", "C", "R1", 1, 1)])
    );
    assert!(plain(&merge_rows(&Vec::new()).unwrap().rows()).is_empty());
}

#[test]
fn merge_refuses_only_overflowing_key_sums() {
    let rows = vec![row("A", "B", "R1", u64::MAX, 0), row("A", "C", "R1", 1, 0)];
    assert_eq!(
        plain(&merge_rows(&rows).unwrap().rows()),
        plain(&[row("A", "B", "R1", u64::MAX, 0), row("A", "C", "R1", 1, 0)])
    );
    let rows = vec![row("A", "B", "R1", u64::MAX, 0), row("A", "C", "R1", 1, 0), row("A", "B", "R1", 1, 0)];
    assert!(merge_rows(&rows).is_none());
    let rows = vec![row("A", "B", "R1", 0, u64::MAX), row("A", "B", "R1", 0, 1)];
    assert!(merge_rows(&rows).is_none());
    let rows = vec![row("A", "B", "R1", u64::MAX - 1, 0), row("A", "B", "R1", 1, 0)];
    assert_eq!(plain(&merge_rows(&rows).unwrap().rows()), plain(&[row("A", "B", "R1", u64::MAX, 0)]));
}

#[test]
fn table_add_and_get() {
    let mut t = SampleTable::new();
    let key = (b"A".to_vec(), b"B".to_vec(), b"R".to_vec());
    assert_eq!(t.get(&key), (0, 0));
    t.add(key.clone(), 2, 1);
    t.add(key.clone(), 1, 0);
    assert_eq!(t.get(&key), (3, 1));
    t.record(b"A".to_vec(), b"B".to_vec(), b"R".to_vec(), uaspire::Flip::Flipped);
    assert_eq!(t.get(&key), (3, 2));
    assert_eq!(plain(&t.rows()), plain(&[row("A", "B", "R", 3, 2)]));
}

#[test]
fn grouping_per_sample() {
    let rows = vec![
        row("A", "B", "R1", 1, 0),
        row("A", "C", "R1", 1, 1),
        row("A", "B", "R2", 0, 3),
        row("D", "B", "R1", 2, 2),
    ];
    let groups = group_by_sample(&rows);
    assert_eq!(groups.len(), 3);
    assert_eq!((groups[0].barcode1.clone(), groups[0].barcode2.clone()), (b"A".to_vec(), b"B".to_vec()));
    assert_eq!(plain(&groups[0].rows), plain(&[row("A", "B", "R1", 1, 0), row("A", "B", "R2", 0, 3)]));
    assert_eq!(plain(&groups[1].rows), plain(&[row("A", "C", "R1", 1, 1)]));
    assert_eq!(plain(&groups[2].rows), plain(&[row("D", "B", "R1", 2, 2)]));
    assert!(select_sample(&rows, &b"D".to_vec(), &b"C".to_vec()).is_empty());
    assert!(group_by_sample(&Vec::new()).is_empty());
}

#[test]
fn oversized_sample_is_split_into_bounded_pieces() {
    let rows: Vec<CountRow> = (0..25).map(|i| row("A", "B", &format!("R{i:02}"), i, 0)).collect();
    let bounds = piece_bounds(rows.len(), 10);
    assert_eq!(bounds, vec![(0, 10), (10, 10), (20, 5)]);
    let mut joined: Vec<CountRow> = Vec::new();
    for (start, len) in &bounds {
        assert!(*len <= 10);
        joined.extend(rows[*start..*start + *len].iter().map(|r| row("A", "B", std::str::from_utf8(&r.rbs).unwrap(), r.non_flipped, 0)));
    }
    assert_eq!(plain(&joined), plain(&rows));
    assert_eq!(index_width(bounds.len()), 1);
}

#[test]
fn piece_bounds_edges() {
    assert_eq!(piece_bounds(0, 10), vec![]);
    assert_eq!(piece_bounds(10, 10), vec![(0, 10)]);
    assert_eq!(piece_bounds(11, 10), vec![(0, 10), (10, 1)]);
    assert_eq!(piece_bounds(3, 1), vec![(0, 1), (1, 1), (2, 1)]);
}

#[test]
fn index_width_counts_digits() {
    assert_eq!(index_width(0), 1);
    assert_eq!(index_width(9), 1);
    assert_eq!(index_width(10), 2);
    assert_eq!(index_width(99), 2);
    assert_eq!(index_width(100), 3);
    assert_eq!(index_width(usize::MAX), usize::MAX.to_string().len());
}

#[test]
fn loop_steps() {
    let mut p = Progress::new();
    assert_eq!(p.step(3, 3), ChunkStep::Process);
    assert_eq!((p.chunks, p.records), (1, 3));
    assert_eq!(p.step(2, 2), ChunkStep::Process);
    assert_eq!((p.chunks, p.records), (2, 5));
    assert_eq!(p.step(0, 0), ChunkStep::Finish);
    assert_eq!(p.step(0, 1), ChunkStep::Misaligned);
    assert_eq!(p.step(2, 1), ChunkStep::Misaligned);
    assert_eq!((p.chunks, p.records), (2, 5));
}

#[test]
fn counters_record_and_absorb() {
    let mut a = Counters::new();
    a.record_total();
    a.record_valid();
    a.record_total();
    a.record_failure(FailReason::DiscPos);
    a.record_total();
    a.record_failure(FailReason::DiscPos);
    a.record(Some(FailReason::BaseCalls));
    assert_eq!(a.summary(), vec![4, 1, 1, 0, 0, 0, 0, 0, 2]);
    let mut b = Counters::new();
    b.record(Some(FailReason::Barcode1));
    b.absorb(&a);
    assert_eq!(b.summary(), vec![5, 1, 1, 0, 0, 1, 0, 0, 2]);
    assert_eq!(b.failures(FailReason::Barcode1), 1);
}

#[test]
fn counter_increments_are_independent() {
    let mut c = Counters::new();
    c.record_total();
    assert_eq!(c.summary(), vec![1, 0, 0, 0, 0, 0, 0, 0, 0]);
    c.record_valid();
    assert_eq!(c.summary(), vec![1, 1, 0, 0, 0, 0, 0, 0, 0]);
    c.record_failure(FailReason::ConstantPos);
    assert_eq!(c.summary(), vec![1, 1, 0, 0, 1, 0, 0, 0, 0]);
    c.record_failure(FailReason::Barcode2);
    assert_eq!(c.summary(), vec![1, 1, 0, 0, 1, 0, 1, 0, 0]);
}

#[test]
fn config_of_the_assay() {
    let cfg = Config::uaspire();
    assert_eq!(cfg.window, (7, 24));
    assert_eq!(cfg.anchor, ANCHOR.as_bytes().to_vec());
    assert_eq!(cfg.non_flipped, NON_FLIPPED.as_bytes().to_vec());
    assert_eq!(cfg.flipped, FLIPPED.as_bytes().to_vec());
    assert_eq!(cfg.barcodes1[0], b"ATCACG".to_vec());
    assert_eq!(cfg.barcodes2[5], b"ACTTGA".to_vec());
}
