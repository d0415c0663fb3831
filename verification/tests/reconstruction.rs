use sam2fasta::ops::{CigarOp, OpKind, WalkError};
use sam2fasta::store::ReferenceStore;
use sam2fasta::walker::{reconstruct, reconstruct_blocks, AlignedPair, SamRecord};

fn bytes(s: &str) -> Vec<u8> {
    s.as_bytes().to_vec()
}

fn op(kind: OpKind, len: usize) -> CigarOp {
    CigarOp { kind, len }
}

fn store_with(name: &str, seq: &str) -> ReferenceStore {
    let mut store = ReferenceStore::new();
    store.insert(bytes(name), bytes(seq));
    store
}

fn record(
    read_name: &str,
    sequence: &str,
    reference_name: Option<&str>,
    alignment_start: Option<usize>,
    ops: Vec<CigarOp>,
) -> SamRecord {
    SamRecord {
        read_name: bytes(read_name),
        sequence: bytes(sequence),
        reference_name: reference_name.map(bytes),
        alignment_start,
        ops,
    }
}

fn reconstruct_some(rec: &SamRecord, store: &ReferenceStore, full: bool) -> AlignedPair {
    match reconstruct(rec, store, full) {
        Ok(Some(pair)) => pair,
        other => panic!("expected a reconstructed pair, got {:?}", other.map(|o| o.is_some())),
    }
}

#[test]
fn pure_match_copies_both_sides() {
    let store = store_with("chr1", "ACGTACGTAC");
    let rec = record("r1", "GTAC", Some("chr1"), Some(3), vec![op(OpKind::Match, 4)]);
    let pair = reconstruct_some(&rec, &store, false);
    assert_eq!(pair.ref_block, bytes("GTAC"));
    assert_eq!(pair.read_block, bytes("GTAC"));
    assert_eq!(pair.ref_name, bytes("chr1"));
    assert_eq!(pair.read_name, bytes("r1"));
}

#[test]
fn insertion_pads_reference_with_gaps() {
    let store = store_with("chr1", "ACGTACGT");
    let rec = record(
        "r1",
        "ACGTNNACGT",
        Some("chr1"),
        Some(1),
        vec![op(OpKind::Match, 4), op(OpKind::Insertion, 2), op(OpKind::Match, 4)],
    );
    let pair = reconstruct_some(&rec, &store, false);
    assert_eq!(pair.ref_block, bytes("ACGT--ACGT"));
    assert_eq!(pair.read_block, bytes("ACGTNNACGT"));
}

#[test]
fn deletion_pads_read_with_gaps() {
    let store = store_with("chr1", "ACGTACGT");
    let rec = record(
        "r1",
        "ACGTAC",
        Some("chr1"),
        Some(1),
        vec![op(OpKind::Match, 4), op(OpKind::Deletion, 2), op(OpKind::Match, 2)],
    );
    let pair = reconstruct_some(&rec, &store, false);
    assert_eq!(pair.ref_block, bytes("ACGTACGT"));
    assert_eq!(pair.read_block, bytes("ACGT--AC"));
}

#[test]
fn soft_clip_is_excluded_from_both_blocks() {
    let store = store_with("chr1", "ACGTACGT");
    let rec = record(
        "r1",
        "NNNACGT",
        Some("chr1"),
        Some(1),
        vec![op(OpKind::SoftClip, 3), op(OpKind::Match, 4)],
    );
    let pair = reconstruct_some(&rec, &store, false);
    assert_eq!(pair.read_block, bytes("ACGT"));
    assert_eq!(pair.ref_block.len(), 4);
}

#[test]
fn hard_clip_touches_nothing() {
    let store = store_with("chr1", "ACGTACGT");
    let rec = record(
        "r1",
        "ACGT",
        Some("chr1"),
        Some(1),
        vec![op(OpKind::HardClip, 5), op(OpKind::Match, 4)],
    );
    let pair = reconstruct_some(&rec, &store, false);
    assert_eq!(pair.ref_block, bytes("ACGT"));
    assert_eq!(pair.read_block, bytes("ACGT"));
}

#[test]
fn full_reference_pads_prefix_and_suffix() {
    let store = store_with("chr1", "ACGTACGT");
    let rec = record("r1", "GTACGT", Some("chr1"), Some(3), vec![op(OpKind::Match, 6)]);
    let pair = reconstruct_some(&rec, &store, true);
    assert_eq!(pair.ref_block, bytes("ACGTACGT"));
    assert_eq!(pair.read_block, bytes("--GTACGT"));
}

#[test]
fn full_reference_with_start_one_pads_nothing_in_front() {
    let store = store_with("chr1", "ACGTACGT");
    let rec = record("r1", "ACGT", Some("chr1"), Some(1), vec![op(OpKind::Match, 4)]);
    let pair = reconstruct_some(&rec, &store, true);
    assert_eq!(pair.ref_block, bytes("ACGTACGT"));
    assert_eq!(pair.read_block, bytes("ACGT----"));
}

#[test]
fn blocks_always_have_equal_length() {
    let store = store_with("chr1", "ACGTACGTACGTACGT");
    let rec = record(
        "r1",
        "NNACGTTTACG",
        Some("chr1"),
        Some(2),
        vec![
            op(OpKind::SoftClip, 2),
            op(OpKind::Match, 4),
            op(OpKind::Insertion, 2),
            op(OpKind::Deletion, 3),
            op(OpKind::Match, 3),
            op(OpKind::HardClip, 7),
        ],
    );
    for full in [false, true] {
        let pair = reconstruct_some(&rec, &store, full);
        assert_eq!(pair.ref_block.len(), pair.read_block.len());
    }
}

#[test]
fn absent_reference_name_is_skipped() {
    let store = store_with("chr1", "ACGTACGT");
    let rec = record("r1", "ACGT", None, Some(1), vec![op(OpKind::Match, 4)]);
    assert!(matches!(reconstruct(&rec, &store, false), Ok(None)));
}

#[test]
fn unknown_reference_name_is_skipped() {
    let store = store_with("chr1", "ACGTACGT");
    let rec = record("r1", "ACGT", Some("chr2"), Some(1), vec![op(OpKind::Match, 4)]);
    assert!(matches!(reconstruct(&rec, &store, false), Ok(None)));
}

#[test]
fn unavailable_sequence_is_skipped() {
    let store = store_with("chr1", "ACGTACGT");
    let rec = record("r1", "*", Some("chr1"), Some(1), vec![op(OpKind::Match, 4)]);
    assert!(matches!(reconstruct(&rec, &store, false), Ok(None)));
}

#[test]
fn absent_alignment_start_is_skipped() {
    let store = store_with("chr1", "ACGTACGT");
    let rec = record("r1", "ACGT", Some("chr1"), None, vec![op(OpKind::Match, 4)]);
    assert!(matches!(reconstruct(&rec, &store, false), Ok(None)));
}

#[test]
fn unsupported_operation_is_fatal() {
    let store = store_with("chr1", "ACGTACGT");
    let rec = record(
        "r1",
        "ACGT",
        Some("chr1"),
        Some(1),
        vec![op(OpKind::Match, 2), op(OpKind::Skip, 1), op(OpKind::Match, 2)],
    );
    assert_eq!(
        reconstruct(&rec, &store, false).unwrap_err(),
        WalkError::UnsupportedOperation(OpKind::Skip)
    );
}

#[test]
fn operation_past_contig_end_is_a_bounds_error() {
    let store = store_with("chr1", "ACGT");
    let rec = record("r1", "ACGTACGT", Some("chr1"), Some(3), vec![op(OpKind::Match, 5)]);
    assert_eq!(reconstruct(&rec, &store, false).unwrap_err(), WalkError::ReferenceBounds);
}

#[test]
fn operation_past_read_end_is_a_bounds_error() {
    let store = store_with("chr1", "ACGTACGT");
    let rec = record("r1", "AC", Some("chr1"), Some(1), vec![op(OpKind::Match, 5)]);
    assert_eq!(reconstruct(&rec, &store, false).unwrap_err(), WalkError::ReadBounds);
}

#[test]
fn start_past_contig_end_is_a_bounds_error() {
    let refseq = bytes("ACGT");
    let readseq = bytes("A");
    let ops = vec![op(OpKind::Match, 1)];
    let r = reconstruct_blocks(&refseq, &readseq, &ops, 6, false);
    assert_eq!(r.unwrap_err(), WalkError::ReferenceBounds);
}

#[test]
fn deletion_consumes_reference_only() {
    let refseq = bytes("ACGTACGT");
    let readseq = bytes("AC");
    let ops = vec![op(OpKind::Match, 2), op(OpKind::Deletion, 6)];
    let (ref_block, read_block) = reconstruct_blocks(&refseq, &readseq, &ops, 1, false).unwrap();
    assert_eq!(ref_block, bytes("ACGTACGT"));
    assert_eq!(read_block, bytes("AC------"));
}

#[test]
fn empty_operation_list_reconstructs_empty_blocks() {
    let store = store_with("chr1", "ACGTACGT");
    let rec = record("r1", "ACGT", Some("chr1"), Some(3), vec![]);
    let pair = reconstruct_some(&rec, &store, false);
    assert_eq!(pair.ref_block, bytes(""));
    assert_eq!(pair.read_block, bytes(""));
    let padded = reconstruct_some(&rec, &store, true);
    assert_eq!(padded.ref_block, bytes("ACGTACGT"));
    assert_eq!(padded.read_block, bytes("--------"));
}

#[test]
fn start_just_past_contig_end_is_the_boundary() {
    let refseq = bytes("ACGT");
    let readseq = bytes("A");
    let ops: Vec<CigarOp> = vec![];
    let (ref_block, read_block) = reconstruct_blocks(&refseq, &readseq, &ops, 5, true).unwrap();
    assert_eq!(ref_block, bytes("ACGT"));
    assert_eq!(read_block, bytes("----"));
}

#[test]
fn last_inserted_contig_shadows_earlier_one() {
    let mut store = ReferenceStore::new();
    store.insert(bytes("chr1"), bytes("AAAA"));
    store.insert(bytes("chr1"), bytes("CCCC"));
    let rec = record("r1", "CCCC", Some("chr1"), Some(1), vec![op(OpKind::Match, 4)]);
    let pair = reconstruct_some(&rec, &store, false);
    assert_eq!(pair.ref_block, bytes("CCCC"));
}
