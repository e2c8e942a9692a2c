use uaspire::{
    check_pair, classify_pair, classify_seqs, count_of, find_motif, matches_at, Config, FailReason, Flip,
    InputDefect, ReadPair,
};

const ANCHOR: &str = "GAGCTCGCAT";
const NON_FLIPPED: &str = "GGGTTTGTACCGTACAC";
const FLIPPED: &str = "GCCCGGATGATCCTGAC";
const RBS: &str = "ACGTACGTACGTACGTA";

/// Second read: filler, barcode2 "CGATGT", anchor at offset 8, RBS, filler.
fn read2() -> String {
    format!("TT{}{}{}CC", "CGATGT", ANCHOR, RBS)
}

/// First read: barcode1 "ATCACG" at offset 2, six spacer bases, then the motif.
fn read1(motif: &str) -> String {
    format!("AA{}TTTTTT{}AAAA", "ATCACG", motif)
}

fn classify(s1: &str, s2: &str) -> Result<uaspire::Classified, FailReason> {
    classify_seqs(&Config::uaspire(), s1.as_bytes(), s2.as_bytes())
}

fn fail_of(s1: &str, s2: &str) -> Option<FailReason> {
    classify(s1, s2).err()
}

#[test]
fn valid_non_flipped_pair() {
    let c = classify(&read1(NON_FLIPPED), &read2()).unwrap();
    assert_eq!(c.sample.barcode1, b"ATCACG".to_vec());
    assert_eq!(c.sample.barcode2, b"CGATGT".to_vec());
    assert_eq!(c.rbs, RBS.as_bytes().to_vec());
    assert_eq!(c.flip, Flip::NonFlipped);
}

#[test]
fn valid_flipped_pair() {
    let c = classify(&read1(FLIPPED), &read2()).unwrap();
    assert_eq!(c.sample.barcode1, b"ATCACG".to_vec());
    assert_eq!(c.flip, Flip::Flipped);
}

#[test]
fn non_flipped_takes_precedence() {
    // the flipped motif comes first, but the non-flipped one decides
    let s1 = format!("{}AA{}TTTTTT{}", FLIPPED, "GCCAAT", NON_FLIPPED);
    let c = classify(&s1, &read2()).unwrap();
    assert_eq!(c.flip, Flip::NonFlipped);
    assert_eq!(c.sample.barcode1, b"GCCAAT".to_vec());
}

#[test]
fn ambiguous_calls_at_maximum_pass() {
    // three N in each read: six in all, the configured maximum
    let s1 = format!("{}NNN", read1(NON_FLIPPED));
    let s2 = format!("{}NNN", read2());
    assert!(classify(&s1, &s2).is_ok());
}

#[test]
fn ambiguous_calls_above_maximum_fail() {
    let s1 = format!("{}NNNN", read1(NON_FLIPPED));
    let s2 = format!("{}NNN", read2());
    assert_eq!(fail_of(&s1, &s2), Some(FailReason::BaseCalls));
}

#[test]
fn base_calls_checked_first() {
    assert_eq!(fail_of("NNNNNNN", ""), Some(FailReason::BaseCalls));
}

#[test]
fn missing_anchor_fails() {
    let s2 = format!("TT{}{}{}CC", "CGATGT", "GAGCTCGCAA", RBS);
    assert_eq!(fail_of(&read1(NON_FLIPPED), &s2), Some(FailReason::ConstantSeq));
}

#[test]
fn anchor_outside_window_fails() {
    // the anchor starts at offset 30, beyond the window that ends at 24
    let s2 = format!("{}{}{}", "A".repeat(24), "CGATGT", ANCHOR);
    assert_eq!(fail_of(&read1(NON_FLIPPED), &s2), Some(FailReason::ConstantSeq));
}

#[test]
fn short_second_read_fails_cleanly() {
    assert_eq!(fail_of(&read1(NON_FLIPPED), "ACG"), Some(FailReason::ConstantSeq));
    assert_eq!(fail_of(&read1(NON_FLIPPED), ""), Some(FailReason::ConstantSeq));
}

#[test]
fn variable_region_overrunning_read_fails() {
    // anchor found, but the read ends ten bases into the variable region
    let s2 = format!("TT{}{}{}", "CGATGT", ANCHOR, &RBS[..10]);
    assert_eq!(fail_of(&read1(NON_FLIPPED), &s2), Some(FailReason::ConstantPos));
}

#[test]
fn unknown_barcode2_fails() {
    let s2 = format!("TT{}{}{}CC", "AAAAAA", ANCHOR, RBS);
    assert_eq!(fail_of(&read1(NON_FLIPPED), &s2), Some(FailReason::Barcode2));
}

#[test]
fn missing_discriminator_fails() {
    assert_eq!(fail_of(&read1("AAAAAAAAAAAAAAAAA"), &read2()), Some(FailReason::DiscSeq));
}

#[test]
fn discriminator_too_early_fails() {
    let s1 = format!("ATCACGTTTT{}", NON_FLIPPED);
    assert_eq!(fail_of(&s1, &read2()), Some(FailReason::DiscPos));
}

#[test]
fn unknown_barcode1_fails() {
    let s1 = format!("AA{}TTTTTT{}AAAA", "TTTTTT", NON_FLIPPED);
    assert_eq!(fail_of(&s1, &read2()), Some(FailReason::Barcode1));
}

fn wide_window() -> Config {
    let mut cfg = Config::uaspire();
    cfg.window = (1, 100);
    cfg
}

#[test]
fn anchor_at_barcode_len_is_accepted() {
    let s2 = format!("{}{}{}", "CGATGT", ANCHOR, RBS);
    let r = classify_seqs(&wide_window(), read1(NON_FLIPPED).as_bytes(), s2.as_bytes());
    let c = r.unwrap();
    assert_eq!(c.sample.barcode2, b"CGATGT".to_vec());
    assert_eq!(c.rbs, RBS.as_bytes().to_vec());
}

#[test]
fn anchor_one_before_barcode_len_is_rejected() {
    let s2 = format!("{}{}{}", "GATGT", ANCHOR, RBS);
    let r = classify_seqs(&wide_window(), read1(NON_FLIPPED).as_bytes(), s2.as_bytes());
    assert_eq!(r.err(), Some(FailReason::ConstantPos));
}

#[test]
fn classification_is_deterministic() {
    let cfg = Config::uaspire();
    let s1 = read1(FLIPPED);
    let s2 = read2();
    let a = classify_seqs(&cfg, s1.as_bytes(), s2.as_bytes()).unwrap();
    let b = classify_seqs(&cfg, s1.as_bytes(), s2.as_bytes()).unwrap();
    assert_eq!(a.sample.barcode1, b.sample.barcode1);
    assert_eq!(a.sample.barcode2, b.sample.barcode2);
    assert_eq!(a.rbs, b.rbs);
    assert_eq!(a.flip, b.flip);
    let bad = "GATTACA";
    assert_eq!(
        classify_seqs(&cfg, bad.as_bytes(), bad.as_bytes()).err(),
        classify_seqs(&cfg, bad.as_bytes(), bad.as_bytes()).err()
    );
}

fn pair(id1: &str, s1: &[u8], id2: &str, s2: &[u8]) -> ReadPair {
    ReadPair { id1: id1.as_bytes().to_vec(), seq1: s1.to_vec(), id2: id2.as_bytes().to_vec(), seq2: s2.to_vec() }
}

#[test]
fn mismatched_ids_are_a_defect() {
    let p = pair("r1", read1(NON_FLIPPED).as_bytes(), "r2", read2().as_bytes());
    assert_eq!(check_pair(&p), Some(InputDefect::IdMismatch));
    assert_eq!(classify_pair(&Config::uaspire(), &p).err(), Some(InputDefect::IdMismatch));
}

#[test]
fn invalid_text_is_a_defect() {
    let p = pair("r1", &[0x41, 0xff, 0x41], "r1", read2().as_bytes());
    assert_eq!(check_pair(&p), Some(InputDefect::NotText));
    let q = pair("r1", read1(NON_FLIPPED).as_bytes(), "r1", &[0xc3]);
    assert_eq!(check_pair(&q), Some(InputDefect::NotText));
}

#[test]
fn sound_pair_is_classified() {
    let p = pair("r1", read1(NON_FLIPPED).as_bytes(), "r1", read2().as_bytes());
    assert_eq!(check_pair(&p), None);
    let c = classify_pair(&Config::uaspire(), &p).unwrap().unwrap();
    assert_eq!(c.flip, Flip::NonFlipped);
    // multi-byte UTF-8 is text
    let q = pair("r2", "é".as_bytes(), "r2", read2().as_bytes());
    assert_eq!(check_pair(&q), None);
    assert_eq!(classify_pair(&Config::uaspire(), &q).unwrap().err(), Some(FailReason::DiscSeq));
}

#[test]
fn motif_search_reports_leftmost_match() {
    assert_eq!(find_motif(b"xxabcabc", b"abc"), Some(2));
    assert_eq!(find_motif(b"xxabxabd", b"abc"), None);
    assert_eq!(find_motif(b"ab", b"abc"), None);
    assert_eq!(find_motif(b"abc", b""), Some(0));
    assert!(matches_at(b"xxabc", 2, b"abc"));
    assert!(!matches_at(b"xxabc", 3, b"abc"));
    assert_eq!(count_of(b"NANNA", b'N'), 3);
}
