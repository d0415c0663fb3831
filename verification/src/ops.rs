//! Alignment operation kinds and the errors a walk over them can raise.

use vstd::prelude::*;

verus! {

/// The kind of one CIGAR-style alignment operation. Only the first five
/// kinds are supported by the walker; any other kind aborts the run.
#[derive(Clone, Copy, Debug, PartialEq, Eq)]
pub enum OpKind {
    Match,
    Insertion,
    Deletion,
    SoftClip,
    HardClip,
    Skip,
    Pad,
    SequenceMatch,
    SequenceMismatch,
}

/// One alignment operation: a kind together with the number of bases it
/// spans.
#[derive(Clone, Copy, Debug, PartialEq, Eq)]
pub struct CigarOp {
    pub kind: OpKind,
    pub len: usize,
}

/// True for the operation kinds the walker knows how to apply.
pub open spec fn op_supported(k: OpKind) -> bool {
    k is Match || k is Insertion || k is Deletion || k is SoftClip || k is HardClip
}

/// A fatal condition met while walking one record's operation list.
#[derive(Clone, Copy, Debug, PartialEq, Eq)]
pub enum WalkError {
    /// An operation kind outside the supported five was encountered.
    UnsupportedOperation(OpKind),
    /// An operation would consume reference bases past the end of the contig.
    ReferenceBounds,
    /// An operation would consume read bases past the end of the raw sequence.
    ReadBounds,
}

} // verus!
