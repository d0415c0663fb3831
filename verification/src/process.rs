//! Per-record processing: reconstruct the aligned pair a record describes
//! and serialise it, or skip the record, or surface the first fatal
//! condition. The caller iterates records in order and appends each
//! result to the destination; on an error it aborts the whole run.

use vstd::prelude::*;

use crate::ops::WalkError;
use crate::render::render_pair;
use crate::render::spec_render_parts;
use crate::store::Contig;
use crate::store::ReferenceStore;
use crate::store::spec_lookup;
use crate::walker::SamRecord;
use crate::walker::reconstruct;
use crate::walker::spec_eligible;
use crate::walker::spec_reconstruct;

verus! {

/// What processing one record yields: the serialised four output lines,
/// nothing for a skipped record, or the walk's first fatal condition.
pub open spec fn spec_process(rec: SamRecord, store: Seq<Contig>, full_reference: bool) -> Result<
    Option<Seq<u8>>,
    WalkError,
> {
    if !spec_eligible(rec, store) {
        Ok(None)
    } else {
        let refseq = spec_lookup(store, rec.reference_name.unwrap()@).unwrap();
        match spec_reconstruct(
            refseq,
            rec.sequence@,
            rec.ops@,
            rec.alignment_start.unwrap() as int,
            full_reference,
        ) {
            Ok(b) => Ok(
                Some(spec_render_parts(rec.reference_name.unwrap()@, b.0, rec.read_name@, b.1)),
            ),
            Err(e) => Err(e),
        }
    }
}

/// Processes one record: reconstructs and serialises its aligned pair,
/// or skips it, exactly as `spec_process` says.
pub fn process_record(rec: &SamRecord, store: &ReferenceStore, full_reference: bool) -> (r: Result<
    Option<Vec<u8>>,
    WalkError,
>)
    requires
        rec.alignment_start is Some ==> 1 <= rec.alignment_start.unwrap(),
    ensures
        ({
            let s = spec_process(*rec, store@, full_reference);
            match r {
                Ok(opt) => match opt {
                    Some(out) => s is Ok && s.unwrap() is Some && out@ == s.unwrap().unwrap(),
                    None => s == Ok::<Option<Seq<u8>>, WalkError>(None),
                },
                Err(e) => s == Err::<Option<Seq<u8>>, WalkError>(e),
            }
        }),
{
    match reconstruct(rec, store, full_reference) {
        Ok(Some(pair)) => Ok(Some(render_pair(&pair))),
        Ok(None) => Ok(None),
        Err(e) => Err(e),
    }
}

} // verus!
