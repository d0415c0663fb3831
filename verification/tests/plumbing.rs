use sam2fasta::container::{classify_input_path, validate_input_extension, ContainerError, ContainerKind};
use sam2fasta::gap_of_length;
use sam2fasta::ops::{CigarOp, OpKind, WalkError};
use sam2fasta::process::process_record;
use sam2fasta::render::render_pair;
use sam2fasta::store::{bytes_eq, ReferenceStore};
use sam2fasta::walker::{AlignedPair, SamRecord};

fn bytes(s: &str) -> Vec<u8> {
    s.as_bytes().to_vec()
}

#[test]
fn sam_extension_is_accepted() {
    assert!(validate_input_extension(&bytes("reads.sam")).is_ok());
    assert_eq!(classify_input_path(&bytes("reads.sam")), ContainerKind::Sam);
}

#[test]
fn extensions_are_case_insensitive() {
    assert!(validate_input_extension(&bytes("reads.SAM")).is_ok());
    assert!(validate_input_extension(&bytes("reads.Sam")).is_ok());
    assert_eq!(classify_input_path(&bytes("READS.BAM")), ContainerKind::Bam);
}

#[test]
fn bam_extension_is_recognised_but_refused() {
    assert_eq!(
        validate_input_extension(&bytes("reads.bam")).unwrap_err(),
        ContainerError::BamNotSupported
    );
}

#[test]
fn other_extensions_are_refused() {
    assert_eq!(
        validate_input_extension(&bytes("reads.fastq")).unwrap_err(),
        ContainerError::UnrecognizedExtension
    );
    assert_eq!(
        validate_input_extension(&bytes("sam")).unwrap_err(),
        ContainerError::UnrecognizedExtension
    );
    assert_eq!(classify_input_path(&bytes("")), ContainerKind::Other);
}

#[test]
fn gap_of_length_builds_gap_runs() {
    assert_eq!(gap_of_length(0), bytes(""));
    assert_eq!(gap_of_length(3), bytes("---"));
}

#[test]
fn bytes_eq_compares_contents() {
    assert!(bytes_eq(&bytes("ACGT"), &bytes("ACGT")));
    assert!(!bytes_eq(&bytes("ACGT"), &bytes("ACGA")));
    assert!(!bytes_eq(&bytes("ACGT"), &bytes("ACG")));
}

#[test]
fn store_lookup_finds_last_entry_and_misses_unknown_names() {
    let mut store = ReferenceStore::new();
    assert_eq!(store.len(), 0);
    store.insert(bytes("chr1"), bytes("AAAA"));
    store.insert(bytes("chr2"), bytes("GGGG"));
    assert_eq!(store.len(), 2);
    assert_eq!(store.get(&bytes("chr2")), Some(&bytes("GGGG")));
    assert_eq!(store.get(&bytes("chr3")), None);
}

#[test]
fn render_pair_emits_four_lines() {
    let pair = AlignedPair {
        ref_name: bytes("chr1"),
        ref_block: bytes("ACGT--AC"),
        read_name: bytes("r1"),
        read_block: bytes("ACGTGGAC"),
    };
    assert_eq!(render_pair(&pair), bytes(">chr1\nACGT--AC\n>r1\nACGTGGAC\n"));
}

#[test]
fn process_record_renders_an_eligible_record() {
    let mut store = ReferenceStore::new();
    store.insert(bytes("chr1"), bytes("ACGTACGT"));
    let rec = SamRecord {
        read_name: bytes("r1"),
        sequence: bytes("ACGTAC"),
        reference_name: Some(bytes("chr1")),
        alignment_start: Some(1),
        ops: vec![
            CigarOp { kind: OpKind::Match, len: 4 },
            CigarOp { kind: OpKind::Deletion, len: 2 },
            CigarOp { kind: OpKind::Match, len: 2 },
        ],
    };
    let out = process_record(&rec, &store, false).unwrap().unwrap();
    assert_eq!(out, bytes(">chr1\nACGTACGT\n>r1\nACGT--AC\n"));
}

#[test]
fn process_record_skips_an_ineligible_record() {
    let store = ReferenceStore::new();
    let rec = SamRecord {
        read_name: bytes("r1"),
        sequence: bytes("ACGT"),
        reference_name: Some(bytes("chr1")),
        alignment_start: Some(1),
        ops: vec![CigarOp { kind: OpKind::Match, len: 4 }],
    };
    assert!(matches!(process_record(&rec, &store, false), Ok(None)));
}

#[test]
fn process_record_propagates_a_fatal_condition() {
    let mut store = ReferenceStore::new();
    store.insert(bytes("chr1"), bytes("ACGTACGT"));
    let rec = SamRecord {
        read_name: bytes("r1"),
        sequence: bytes("ACGT"),
        reference_name: Some(bytes("chr1")),
        alignment_start: Some(1),
        ops: vec![CigarOp { kind: OpKind::Pad, len: 1 }],
    };
    assert_eq!(
        process_record(&rec, &store, false).unwrap_err(),
        WalkError::UnsupportedOperation(OpKind::Pad)
    );
}
