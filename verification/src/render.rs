//! Serialising an aligned pair to its four-line text form: a header line
//! naming the reference sequence, the reference block, a header line
//! naming the read, and the read block.

use vstd::prelude::*;

use crate::walker::AlignedPair;
use crate::walker::push_range;

verus! {

/// The byte that opens a header line.
pub const HEADER_BYTE: u8 = 62;

/// The line terminator.
pub const NEWLINE: u8 = 10;

/// One entry: a header line carrying `name`, then `block` as one line.
pub open spec fn spec_render_entry(name: Seq<u8>, block: Seq<u8>) -> Seq<u8> {
    seq![HEADER_BYTE] + name + seq![NEWLINE] + block + seq![NEWLINE]
}

/// The four lines an aligned pair serialises to, reference entry first.
pub open spec fn spec_render_parts(
    ref_name: Seq<u8>,
    ref_block: Seq<u8>,
    read_name: Seq<u8>,
    read_block: Seq<u8>,
) -> Seq<u8> {
    spec_render_entry(ref_name, ref_block) + spec_render_entry(read_name, read_block)
}

/// The bytes `render_pair` emits for `p`.
pub open spec fn spec_render(p: AlignedPair) -> Seq<u8> {
    spec_render_parts(p.ref_name@, p.ref_block@, p.read_name@, p.read_block@)
}

/// Serialises one aligned pair to its four output lines.
pub fn render_pair(p: &AlignedPair) -> (out: Vec<u8>)
    ensures
        out@ == spec_render(*p),
{
    let mut out: Vec<u8> = Vec::new();
    out.push(HEADER_BYTE);
    push_range(&mut out, &p.ref_name, 0, p.ref_name.len());
    out.push(NEWLINE);
    push_range(&mut out, &p.ref_block, 0, p.ref_block.len());
    out.push(NEWLINE);
    out.push(HEADER_BYTE);
    push_range(&mut out, &p.read_name, 0, p.read_name.len());
    out.push(NEWLINE);
    push_range(&mut out, &p.read_block, 0, p.read_block.len());
    out.push(NEWLINE);
    proof {
        assert(out@ =~= spec_render(*p));
    }
    out
}

} // verus!
