//! The core: reconstructing the gapped reference/read block pair that one
//! alignment record describes.
//!
//! Given the contig the record is mapped to, its raw read sequence, a
//! 1-based alignment start, and the ordered operation list, the walk
//! consumes reference and read bases operation by operation and emits two
//! equal-length blocks: matches copy bases to both blocks, insertions pad
//! the reference block with gaps, deletions pad the read block with gaps,
//! soft-clips skip read bases silently and hard-clips touch nothing.

use vstd::prelude::*;

use crate::gap_of_length;
use crate::gap_seq;
use crate::ops::CigarOp;
use crate::ops::OpKind;
use crate::ops::WalkError;
use crate::ops::op_supported;
use crate::store::Contig;
use crate::store::ReferenceStore;
use crate::store::spec_lookup;

verus! {

/// The sentinel byte: a raw sequence equal to this single byte means the
/// read's sequence is unavailable.
pub const SEQUENCE_UNAVAILABLE: u8 = 42;

/// One decoded alignment record, as the input collaborator hands it over.
#[derive(Debug)]
pub struct SamRecord {
    pub read_name: Vec<u8>,
    pub sequence: Vec<u8>,
    pub reference_name: Option<Vec<u8>>,
    pub alignment_start: Option<usize>,
    pub ops: Vec<CigarOp>,
}

/// The reconstructed output for one record: two equal-length blocks, each
/// under the name it is emitted as.
#[derive(Debug)]
pub struct AlignedPair {
    pub ref_name: Vec<u8>,
    pub ref_block: Vec<u8>,
    pub read_name: Vec<u8>,
    pub read_block: Vec<u8>,
}

/// True when the raw sequence is the "unavailable" sentinel.
pub open spec fn sequence_unavailable(s: Seq<u8>) -> bool {
    s.len() == 1 && s[0] == SEQUENCE_UNAVAILABLE
}

/// A record is eligible for reconstruction when it names a contig the
/// store holds, carries a real sequence, and has an alignment start.
/// An ineligible record is skipped, never an error.
pub open spec fn spec_eligible(rec: SamRecord, store: Seq<Contig>) -> bool {
    &&& rec.reference_name is Some
    &&& spec_lookup(store, rec.reference_name.unwrap()@) is Some
    &&& !sequence_unavailable(rec.sequence@)
    &&& rec.alignment_start is Some
}

/// What walking `ops` from reference cursor `rp` and read cursor `qp`
/// yields: the reference block, the read block, and the final reference
/// cursor — or the first fatal condition met.
pub open spec fn spec_walk(
    refseq: Seq<u8>,
    readseq: Seq<u8>,
    ops: Seq<CigarOp>,
    rp: int,
    qp: int,
) -> Result<(Seq<u8>, Seq<u8>, int), WalkError>
    decreases ops.len(),
{
    if ops.len() == 0 {
        Ok((Seq::empty(), Seq::empty(), rp))
    } else {
        let op = ops[0];
        let n = op.len as int;
        let rest = ops.drop_first();
        match op.kind {
            OpKind::Match => {
                if rp + n > refseq.len() {
                    Err(WalkError::ReferenceBounds)
                } else if qp + n > readseq.len() {
                    Err(WalkError::ReadBounds)
                } else {
                    match spec_walk(refseq, readseq, rest, rp + n, qp + n) {
                        Ok(t) => Ok(
                            (
                                refseq.subrange(rp, rp + n) + t.0,
                                readseq.subrange(qp, qp + n) + t.1,
                                t.2,
                            ),
                        ),
                        Err(e) => Err(e),
                    }
                }
            },
            OpKind::Insertion => {
                if qp + n > readseq.len() {
                    Err(WalkError::ReadBounds)
                } else {
                    match spec_walk(refseq, readseq, rest, rp, qp + n) {
                        Ok(t) => Ok(
                            (gap_seq(n as nat) + t.0, readseq.subrange(qp, qp + n) + t.1, t.2),
                        ),
                        Err(e) => Err(e),
                    }
                }
            },
            OpKind::Deletion => {
                if rp + n > refseq.len() {
                    Err(WalkError::ReferenceBounds)
                } else {
                    match spec_walk(refseq, readseq, rest, rp + n, qp) {
                        Ok(t) => Ok(
                            (refseq.subrange(rp, rp + n) + t.0, gap_seq(n as nat) + t.1, t.2),
                        ),
                        Err(e) => Err(e),
                    }
                }
            },
            OpKind::SoftClip => {
                if qp + n > readseq.len() {
                    Err(WalkError::ReadBounds)
                } else {
                    spec_walk(refseq, readseq, rest, rp, qp + n)
                }
            },
            OpKind::HardClip => spec_walk(refseq, readseq, rest, rp, qp),
            _ => Err(WalkError::UnsupportedOperation(op.kind)),
        }
    }
}

/// The blocks one record reconstructs to: the walk's blocks, extended, when
/// the full reference is requested, by the unaligned contig prefix and
/// suffix (gaps on the read side).
pub open spec fn spec_reconstruct(
    refseq: Seq<u8>,
    readseq: Seq<u8>,
    ops: Seq<CigarOp>,
    start: int,
    full_reference: bool,
) -> Result<(Seq<u8>, Seq<u8>), WalkError> {
    let rp0 = start - 1;
    if rp0 > refseq.len() {
        Err(WalkError::ReferenceBounds)
    } else {
        match spec_walk(refseq, readseq, ops, rp0, 0) {
            Ok(t) => {
                if full_reference {
                    Ok(
                        (
                            refseq.subrange(0, rp0) + t.0 + refseq.subrange(
                                t.2,
                                refseq.len() as int,
                            ),
                            gap_seq(rp0 as nat) + t.1 + gap_seq((refseq.len() - t.2) as nat),
                        ),
                    )
                } else {
                    Ok((t.0, t.1))
                }
            },
            Err(e) => Err(e),
        }
    }
}

/// Prepends an already-emitted block pair to whatever a remaining walk
/// yields, passing its error through.
pub open spec fn walk_join(
    a: Seq<u8>,
    b: Seq<u8>,
    r: Result<(Seq<u8>, Seq<u8>, int), WalkError>,
) -> Result<(Seq<u8>, Seq<u8>, int), WalkError> {
    match r {
        Ok(t) => Ok((a + t.0, b + t.1, t.2)),
        Err(e) => Err(e),
    }
}

proof fn lemma_concat_assoc(a: Seq<u8>, b: Seq<u8>, c: Seq<u8>)
    ensures
        (a + b) + c == a + (b + c),
{
    assert((a + b) + c =~= a + (b + c));
}

/// Appends `src[from..to]` to `dst`.
pub(crate) fn push_range(dst: &mut Vec<u8>, src: &Vec<u8>, from: usize, to: usize)
    requires
        from <= to <= src@.len(),
    ensures
        final(dst)@ == old(dst)@ + src@.subrange(from as int, to as int),
{
    let mut j: usize = from;
    proof {
        assert(dst@ =~= old(dst)@ + src@.subrange(from as int, from as int));
    }
    while j < to
        invariant
            from <= j <= to <= src@.len(),
            dst@ == old(dst)@ + src@.subrange(from as int, j as int),
        decreases to - j,
    {
        dst.push(src[j]);
        j = j + 1;
        proof {
            assert(dst@ =~= old(dst)@ + src@.subrange(from as int, j as int));
        }
    }
}

/// Reconstructs the gapped block pair for one record, walking its
/// operation list over the contig `refseq` and the raw read `readseq` from
/// the 1-based alignment start.
#[verifier::loop_isolation(false)]
pub fn reconstruct_blocks(
    refseq: &Vec<u8>,
    readseq: &Vec<u8>,
    ops: &Vec<CigarOp>,
    start: usize,
    full_reference: bool,
) -> (r: Result<(Vec<u8>, Vec<u8>), WalkError>)
    requires
        1 <= start,
    ensures
        ({
            let s = spec_reconstruct(refseq@, readseq@, ops@, start as int, full_reference);
            match r {
                Ok(blocks) => s matches Ok(b) && blocks.0@ == b.0 && blocks.1@ == b.1,
                Err(e) => s == Err::<(Seq<u8>, Seq<u8>), WalkError>(e),
            }
        }),
{
    if start - 1 > refseq.len() {
        return Err(WalkError::ReferenceBounds);
    }
    let rp0: usize = start - 1;
    let mut ref_block: Vec<u8> = Vec::new();
    let mut read_block: Vec<u8> = Vec::new();
    if full_reference {
        push_range(&mut ref_block, refseq, 0, rp0);
        let mut pad = gap_of_length(rp0);
        read_block.append(&mut pad);
    }
    let ghost prefix_r = ref_block@;
    let ghost prefix_q = read_block@;
    let mut rp: usize = rp0;
    let mut qp: usize = 0;
    let mut i: usize = 0;
    let ghost mut acc_r = Seq::<u8>::empty();
    let ghost mut acc_q = Seq::<u8>::empty();
    proof {
        assert(ops@.skip(0) =~= ops@);
        let w = spec_walk(refseq@, readseq@, ops@, rp0 as int, 0);
        if w is Ok {
            let t = w.unwrap();
            assert(acc_r + t.0 =~= t.0);
            assert(acc_q + t.1 =~= t.1);
        }
    }
    while i < ops.len()
        invariant
            i <= ops@.len(),
            rp0 <= rp <= refseq@.len(),
            qp <= readseq@.len(),
            ref_block@ == prefix_r + acc_r,
            read_block@ == prefix_q + acc_q,
            spec_walk(refseq@, readseq@, ops@, rp0 as int, 0) == walk_join(
                acc_r,
                acc_q,
                spec_walk(refseq@, readseq@, ops@.skip(i as int), rp as int, qp as int),
            ),
        decreases ops@.len() - i,
    {
        let op = ops[i];
        let n = op.len;
        proof {
            assert(ops@.skip(i as int)[0] == ops@[i as int]);
            assert(ops@.skip(i as int).drop_first() =~= ops@.skip(i as int + 1));
        }
        match op.kind {
            OpKind::Match => {
                if n > refseq.len() - rp {
                    return Err(WalkError::ReferenceBounds);
                }
                if n > readseq.len() - qp {
                    return Err(WalkError::ReadBounds);
                }
                push_range(&mut ref_block, refseq, rp, rp + n);
                push_range(&mut read_block, readseq, qp, qp + n);
                proof {
                    let sub_r = refseq@.subrange(rp as int, rp + n as int);
                    let sub_q = readseq@.subrange(qp as int, qp + n as int);
                    let w2 = spec_walk(
                        refseq@,
                        readseq@,
                        ops@.skip(i as int + 1),
                        rp + n as int,
                        qp + n as int,
                    );
                    if w2 is Ok {
                        let t = w2.unwrap();
                        lemma_concat_assoc(acc_r, sub_r, t.0);
                        lemma_concat_assoc(acc_q, sub_q, t.1);
                    }
                    lemma_concat_assoc(prefix_r, acc_r, sub_r);
                    lemma_concat_assoc(prefix_q, acc_q, sub_q);
                    acc_r = acc_r + sub_r;
                    acc_q = acc_q + sub_q;
                }
                rp = rp + n;
                qp = qp + n;
            },
            OpKind::Insertion => {
                if n > readseq.len() - qp {
                    return Err(WalkError::ReadBounds);
                }
                let mut pad = gap_of_length(n);
                ref_block.append(&mut pad);
                push_range(&mut read_block, readseq, qp, qp + n);
                proof {
                    let sub_r = gap_seq(n as nat);
                    let sub_q = readseq@.subrange(qp as int, qp + n as int);
                    let w2 = spec_walk(
                        refseq@,
                        readseq@,
                        ops@.skip(i as int + 1),
                        rp as int,
                        qp + n as int,
                    );
                    if w2 is Ok {
                        let t = w2.unwrap();
                        lemma_concat_assoc(acc_r, sub_r, t.0);
                        lemma_concat_assoc(acc_q, sub_q, t.1);
                    }
                    lemma_concat_assoc(prefix_r, acc_r, sub_r);
                    lemma_concat_assoc(prefix_q, acc_q, sub_q);
                    acc_r = acc_r + sub_r;
                    acc_q = acc_q + sub_q;
                }
                qp = qp + n;
            },
            OpKind::Deletion => {
                if n > refseq.len() - rp {
                    return Err(WalkError::ReferenceBounds);
                }
                push_range(&mut ref_block, refseq, rp, rp + n);
                let mut pad = gap_of_length(n);
                read_block.append(&mut pad);
                proof {
                    let sub_r = refseq@.subrange(rp as int, rp + n as int);
                    let sub_q = gap_seq(n as nat);
                    let w2 = spec_walk(
                        refseq@,
                        readseq@,
                        ops@.skip(i as int + 1),
                        rp + n as int,
                        qp as int,
                    );
                    if w2 is Ok {
                        let t = w2.unwrap();
                        lemma_concat_assoc(acc_r, sub_r, t.0);
                        lemma_concat_assoc(acc_q, sub_q, t.1);
                    }
                    lemma_concat_assoc(prefix_r, acc_r, sub_r);
                    lemma_concat_assoc(prefix_q, acc_q, sub_q);
                    acc_r = acc_r + sub_r;
                    acc_q = acc_q + sub_q;
                }
                rp = rp + n;
            },
            OpKind::SoftClip => {
                if n > readseq.len() - qp {
                    return Err(WalkError::ReadBounds);
                }
                qp = qp + n;
            },
            OpKind::HardClip => {},
            other => {
                return Err(WalkError::UnsupportedOperation(other));
            },
        }
        i = i + 1;
    }
    proof {
        assert(ops@.skip(ops@.len() as int) =~= Seq::<CigarOp>::empty());
        assert(acc_r + Seq::<u8>::empty() =~= acc_r);
        assert(acc_q + Seq::<u8>::empty() =~= acc_q);
    }
    if full_reference {
        push_range(&mut ref_block, refseq, rp, refseq.len());
        let mut pad = gap_of_length(refseq.len() - rp);
        read_block.append(&mut pad);
        proof {
            lemma_concat_assoc(prefix_r, acc_r, refseq@.subrange(rp as int, refseq@.len() as int));
            lemma_concat_assoc(prefix_q, acc_q, gap_seq((refseq@.len() - rp) as nat));
        }
    }
    Ok((ref_block, read_block))
}

/// A successful walk never moves the reference cursor backwards nor past
/// the end of the contig.
pub proof fn lemma_walk_cursor_bounds(
    refseq: Seq<u8>,
    readseq: Seq<u8>,
    ops: Seq<CigarOp>,
    rp: int,
    qp: int,
)
    requires
        0 <= rp <= refseq.len(),
    ensures
        spec_walk(refseq, readseq, ops, rp, qp) matches Ok(t) ==> rp <= t.2 <= refseq.len(),
    decreases ops.len(),
{
    if ops.len() > 0 {
        let op = ops[0];
        let n = op.len as int;
        let rest = ops.drop_first();
        match op.kind {
            OpKind::Match => {
                if rp + n <= refseq.len() && qp + n <= readseq.len() {
                    lemma_walk_cursor_bounds(refseq, readseq, rest, rp + n, qp + n);
                }
            },
            OpKind::Insertion => {
                if qp + n <= readseq.len() {
                    lemma_walk_cursor_bounds(refseq, readseq, rest, rp, qp + n);
                }
            },
            OpKind::Deletion => {
                if rp + n <= refseq.len() {
                    lemma_walk_cursor_bounds(refseq, readseq, rest, rp + n, qp);
                }
            },
            OpKind::SoftClip => {
                if qp + n <= readseq.len() {
                    lemma_walk_cursor_bounds(refseq, readseq, rest, rp, qp + n);
                }
            },
            OpKind::HardClip => {
                lemma_walk_cursor_bounds(refseq, readseq, rest, rp, qp);
            },
            _ => {},
        }
    }
}

/// Length invariant of the walk: whenever it succeeds, the reference block
/// and the read block it emits have equal length.
pub proof fn lemma_walk_equal_lengths(
    refseq: Seq<u8>,
    readseq: Seq<u8>,
    ops: Seq<CigarOp>,
    rp: int,
    qp: int,
)
    requires
        0 <= rp <= refseq.len(),
        0 <= qp <= readseq.len(),
    ensures
        spec_walk(refseq, readseq, ops, rp, qp) matches Ok(t) ==> t.0.len() == t.1.len(),
    decreases ops.len(),
{
    if ops.len() > 0 {
        let op = ops[0];
        let n = op.len as int;
        let rest = ops.drop_first();
        match op.kind {
            OpKind::Match => {
                if rp + n <= refseq.len() && qp + n <= readseq.len() {
                    lemma_walk_equal_lengths(refseq, readseq, rest, rp + n, qp + n);
                }
            },
            OpKind::Insertion => {
                if qp + n <= readseq.len() {
                    lemma_walk_equal_lengths(refseq, readseq, rest, rp, qp + n);
                }
            },
            OpKind::Deletion => {
                if rp + n <= refseq.len() {
                    lemma_walk_equal_lengths(refseq, readseq, rest, rp + n, qp);
                }
            },
            OpKind::SoftClip => {
                if qp + n <= readseq.len() {
                    lemma_walk_equal_lengths(refseq, readseq, rest, rp, qp + n);
                }
            },
            OpKind::HardClip => {
                lemma_walk_equal_lengths(refseq, readseq, rest, rp, qp);
            },
            _ => {},
        }
    }
}

/// Length invariant of the whole reconstruction: every reconstructed pair
/// of blocks has equal lengths, full-reference mode included.
pub proof fn lemma_reconstruct_equal_lengths(
    refseq: Seq<u8>,
    readseq: Seq<u8>,
    ops: Seq<CigarOp>,
    start: int,
    full_reference: bool,
)
    requires
        1 <= start,
    ensures
        spec_reconstruct(refseq, readseq, ops, start, full_reference) matches Ok(b) ==> b.0.len()
            == b.1.len(),
{
    let rp0 = start - 1;
    if rp0 <= refseq.len() {
        lemma_walk_cursor_bounds(refseq, readseq, ops, rp0, 0);
        lemma_walk_equal_lengths(refseq, readseq, ops, rp0, 0);
    }
}

/// A walk that succeeds met only supported operation kinds; equivalently,
/// one unsupported kind anywhere in the list forces an error.
pub proof fn lemma_walk_ok_all_supported(
    refseq: Seq<u8>,
    readseq: Seq<u8>,
    ops: Seq<CigarOp>,
    rp: int,
    qp: int,
)
    ensures
        spec_walk(refseq, readseq, ops, rp, qp) is Ok ==> forall|i: int|
            0 <= i < ops.len() ==> op_supported(#[trigger] ops[i].kind),
    decreases ops.len(),
{
    if ops.len() > 0 && spec_walk(refseq, readseq, ops, rp, qp) is Ok {
        let op = ops[0];
        let n = op.len as int;
        let rest = ops.drop_first();
        match op.kind {
            OpKind::Match => {
                lemma_walk_ok_all_supported(refseq, readseq, rest, rp + n, qp + n);
            },
            OpKind::Insertion => {
                lemma_walk_ok_all_supported(refseq, readseq, rest, rp, qp + n);
            },
            OpKind::Deletion => {
                lemma_walk_ok_all_supported(refseq, readseq, rest, rp + n, qp);
            },
            OpKind::SoftClip => {
                lemma_walk_ok_all_supported(refseq, readseq, rest, rp, qp + n);
            },
            OpKind::HardClip => {
                lemma_walk_ok_all_supported(refseq, readseq, rest, rp, qp);
            },
            _ => {},
        }
        assert forall|i: int| 0 <= i < ops.len() implies op_supported(#[trigger] ops[i].kind) by {
            if i > 0 {
                assert(ops[i] == rest[i - 1]);
            }
        }
    }
}

/// A reconstruction that succeeds met only supported operation kinds.
pub proof fn lemma_reconstruct_ok_all_supported(
    refseq: Seq<u8>,
    readseq: Seq<u8>,
    ops: Seq<CigarOp>,
    start: int,
    full_reference: bool,
)
    requires
        1 <= start,
    ensures
        spec_reconstruct(refseq, readseq, ops, start, full_reference) is Ok ==> forall|i: int|
            0 <= i < ops.len() ==> op_supported(#[trigger] ops[i].kind),
{
    let rp0 = start - 1;
    if rp0 <= refseq.len() {
        lemma_walk_ok_all_supported(refseq, readseq, ops, rp0, 0);
    }
}

/// Pure match: a lone match of length `n` reconstructs the reference
/// block as exactly the `n` contig bases from the start position on, and
/// the read block as exactly the first `n` read bases — the whole raw
/// sequence when the match spans it — with no gaps inserted.
pub proof fn lemma_pure_match(refseq: Seq<u8>, readseq: Seq<u8>, n: usize, start: int)
    requires
        1 <= start,
        start - 1 + n <= refseq.len(),
        n <= readseq.len(),
    ensures
        ({
            let op = (CigarOp { kind: OpKind::Match, len: n });
            spec_reconstruct(refseq, readseq, seq![op], start, false) == Ok::<
                (Seq<u8>, Seq<u8>),
                WalkError,
            >((refseq.subrange(start - 1, start - 1 + n), readseq.subrange(0, n as int)))
        }),
        n == readseq.len() ==> ({
            let op = (CigarOp { kind: OpKind::Match, len: n });
            spec_reconstruct(refseq, readseq, seq![op], start, false) == Ok::<
                (Seq<u8>, Seq<u8>),
                WalkError,
            >((refseq.subrange(start - 1, start - 1 + n), readseq))
        }),
{
    let op = (CigarOp { kind: OpKind::Match, len: n });
    let ops = seq![op];
    let rp0 = start - 1;
    assert(ops.drop_first() =~= Seq::<CigarOp>::empty());
    assert(spec_walk(refseq, readseq, Seq::<CigarOp>::empty(), rp0 + n, 0 + n as int) == Ok::<
        (Seq<u8>, Seq<u8>, int),
        WalkError,
    >((Seq::<u8>::empty(), Seq::<u8>::empty(), rp0 + n)));
    assert(refseq.subrange(rp0, rp0 + n) + Seq::<u8>::empty() =~= refseq.subrange(rp0, rp0 + n));
    assert(readseq.subrange(0, n as int) + Seq::<u8>::empty() =~= readseq.subrange(0, n as int));
    if n == readseq.len() {
        assert(readseq.subrange(0, n as int) =~= readseq);
    }
}

/// Copies a byte string.
fn clone_bytes(src: &Vec<u8>) -> (r: Vec<u8>)
    ensures
        r@ == src@,
{
    let mut r: Vec<u8> = Vec::new();
    push_range(&mut r, src, 0, src.len());
    proof {
        assert(Seq::<u8>::empty() + src@.subrange(0, src@.len() as int) =~= src@);
    }
    r
}

/// Reconstructs the aligned pair one record describes, or skips it.
///
/// A record without a reference name, with a name the store does not hold,
/// with the unavailable-sequence sentinel, or without an alignment start
/// yields `Ok(None)`: nothing to reconstruct, not an error. An eligible
/// record yields exactly the blocks of `spec_reconstruct`, or its first
/// fatal condition.
pub fn reconstruct(rec: &SamRecord, store: &ReferenceStore, full_reference: bool) -> (r: Result<
    Option<AlignedPair>,
    WalkError,
>)
    requires
        rec.alignment_start is Some ==> 1 <= rec.alignment_start.unwrap(),
    ensures
        ({
            if !spec_eligible(*rec, store@) {
                r == Ok::<Option<AlignedPair>, WalkError>(None)
            } else {
                let refseq = spec_lookup(store@, rec.reference_name.unwrap()@).unwrap();
                let s = spec_reconstruct(
                    refseq,
                    rec.sequence@,
                    rec.ops@,
                    rec.alignment_start.unwrap() as int,
                    full_reference,
                );
                match r {
                    Ok(opt) => match opt {
                        Some(pair) => {
                            &&& s matches Ok(b)
                            &&& pair.ref_block@ == b.0
                            &&& pair.read_block@ == b.1
                            &&& pair.ref_name@ == rec.reference_name.unwrap()@
                            &&& pair.read_name@ == rec.read_name@
                        },
                        None => false,
                    },
                    Err(e) => s == Err::<(Seq<u8>, Seq<u8>), WalkError>(e),
                }
            }
        }),
        r is Ok && r.unwrap() is Some ==> r.unwrap().unwrap().ref_block@.len()
            == r.unwrap().unwrap().read_block@.len(),
{
    let ref_name = match &rec.reference_name {
        Some(n) => n,
        None => {
            return Ok(None);
        },
    };
    let refseq = match store.get(ref_name) {
        Some(s) => s,
        None => {
            return Ok(None);
        },
    };
    if rec.sequence.len() == 1 && rec.sequence[0] == SEQUENCE_UNAVAILABLE {
        return Ok(None);
    }
    let start = match rec.alignment_start {
        Some(p) => p,
        None => {
            return Ok(None);
        },
    };
    match reconstruct_blocks(refseq, &rec.sequence, &rec.ops, start, full_reference) {
        Ok(blocks) => {
            proof {
                lemma_reconstruct_equal_lengths(
                    refseq@,
                    rec.sequence@,
                    rec.ops@,
                    start as int,
                    full_reference,
                );
            }
            Ok(
                Some(
                    AlignedPair {
                        ref_name: clone_bytes(ref_name),
                        ref_block: blocks.0,
                        read_name: clone_bytes(&rec.read_name),
                        read_block: blocks.1,
                    },
                ),
            )
        },
        Err(e) => Err(e),
    }
}

} // verus!
