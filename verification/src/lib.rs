//! Reconstruction of gapped pairwise alignments from compact alignment
//! records: given a reference contig, a 1-based alignment start, and an
//! ordered list of CIGAR-style operations, the library produces the pair of
//! equal-length sequence blocks (reference slice and read slice) that the
//! alignment describes, with gap characters standing where one side consumed
//! bases that have no counterpart on the other.

use vstd::prelude::*;

pub mod container;
pub mod ops;
pub mod process;
pub mod render;
pub mod store;
pub mod walker;

verus! {

/// The gap character used to pad a block where the opposing block consumed
/// bases with no counterpart.
pub const GAP: u8 = 45;

/// A run of `n` gap characters.
pub open spec fn gap_seq(n: nat) -> Seq<u8> {
    Seq::new(n, |i: int| GAP)
}

/// Builds a run of `x` gap characters.
pub fn gap_of_length(x: usize) -> (r: Vec<u8>)
    ensures
        r@ == gap_seq(x as nat),
{
    let mut v: Vec<u8> = Vec::new();
    let mut i: usize = 0;
    while i < x
        invariant
            i <= x,
            v@ == gap_seq(i as nat),
        decreases x - i,
    {
        v.push(GAP);
        i = i + 1;
        assert(v@ =~= gap_seq(i as nat));
    }
    v
}

} // verus!
