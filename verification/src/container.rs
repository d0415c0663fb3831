//! Recognising the input container by its file extension. Only the
//! text-based variant (`.sam`, case-insensitively) is supported; the
//! binary variant (`.bam`) is recognised but not implemented, and any
//! other extension is refused outright.

use vstd::prelude::*;

verus! {

/// The container variant an input path names.
#[derive(Clone, Copy, Debug, PartialEq, Eq)]
pub enum ContainerKind {
    Sam,
    Bam,
    Other,
}

/// Why an input path was refused.
#[derive(Clone, Copy, Debug, PartialEq, Eq)]
pub enum ContainerError {
    /// The path names the binary container variant, which is not supported.
    BamNotSupported,
    /// The path ends in neither recognised extension.
    UnrecognizedExtension,
}

/// ASCII upper-case letters folded to lower case; all else unchanged.
pub open spec fn ascii_lower(b: u8) -> u8 {
    if 65 <= b <= 90 {
        (b + 32) as u8
    } else {
        b
    }
}

/// True when `path`, case-folded, ends in `ext` (given in lower case).
pub open spec fn spec_has_extension(path: Seq<u8>, ext: Seq<u8>) -> bool {
    path.len() >= ext.len() && (forall|i: int|
        0 <= i < ext.len() ==> ascii_lower(path[path.len() - ext.len() + i]) == ext[i])
}

/// The bytes of ".sam".
pub open spec fn sam_extension() -> Seq<u8> {
    seq![46u8, 115u8, 97u8, 109u8]
}

/// The bytes of ".bam".
pub open spec fn bam_extension() -> Seq<u8> {
    seq![46u8, 98u8, 97u8, 109u8]
}

/// The container variant `path` names, by its extension, case-insensitively.
pub open spec fn spec_classify(path: Seq<u8>) -> ContainerKind {
    if spec_has_extension(path, sam_extension()) {
        ContainerKind::Sam
    } else if spec_has_extension(path, bam_extension()) {
        ContainerKind::Bam
    } else {
        ContainerKind::Other
    }
}

/// Folds one ASCII byte to lower case.
fn lower_byte(b: u8) -> (r: u8)
    ensures
        r == ascii_lower(b),
{
    if 65 <= b && b <= 90 {
        b + 32
    } else {
        b
    }
}

/// Does `path`, case-folded, end in `ext` (lower-case bytes)?
fn has_extension(path: &Vec<u8>, ext: &Vec<u8>) -> (r: bool)
    ensures
        r == spec_has_extension(path@, ext@),
{
    let plen = path.len();
    let elen = ext.len();
    if plen < elen {
        return false;
    }
    let off = plen - elen;
    let mut i: usize = 0;
    while i < elen
        invariant
            i <= elen,
            elen == ext@.len(),
            plen == path@.len(),
            off == plen - elen,
            forall|j: int| 0 <= j < i ==> ascii_lower(path@[off + j]) == ext@[j],
        decreases elen - i,
    {
        let idx = off + i;
        if lower_byte(path[idx]) != ext[i] {
            return false;
        }
        i = i + 1;
    }
    true
}

/// Builds the lower-case bytes of ".sam".
fn sam_extension_bytes() -> (r: Vec<u8>)
    ensures
        r@ == sam_extension(),
{
    let mut r: Vec<u8> = Vec::new();
    r.push(46);
    r.push(115);
    r.push(97);
    r.push(109);
    proof {
        assert(r@ =~= sam_extension());
    }
    r
}

/// Builds the lower-case bytes of ".bam".
fn bam_extension_bytes() -> (r: Vec<u8>)
    ensures
        r@ == bam_extension(),
{
    let mut r: Vec<u8> = Vec::new();
    r.push(46);
    r.push(98);
    r.push(97);
    r.push(109);
    proof {
        assert(r@ =~= bam_extension());
    }
    r
}

/// Classifies an input path by its extension, case-insensitively.
pub fn classify_input_path(path: &Vec<u8>) -> (k: ContainerKind)
    ensures
        k == spec_classify(path@),
{
    let sam = sam_extension_bytes();
    if has_extension(path, &sam) {
        return ContainerKind::Sam;
    }
    let bam = bam_extension_bytes();
    if has_extension(path, &bam) {
        return ContainerKind::Bam;
    }
    ContainerKind::Other
}

/// Accepts a path only when it names the supported text-based container;
/// says exactly why any other path is refused.
pub fn validate_input_extension(path: &Vec<u8>) -> (r: Result<(), ContainerError>)
    ensures
        r is Ok <==> spec_classify(path@) is Sam,
        r == Err::<(), ContainerError>(ContainerError::BamNotSupported) <==> spec_classify(path@)
            is Bam,
        r == Err::<(), ContainerError>(ContainerError::UnrecognizedExtension) <==> spec_classify(
            path@,
        ) is Other,
{
    match classify_input_path(path) {
        ContainerKind::Sam => Ok(()),
        ContainerKind::Bam => Err(ContainerError::BamNotSupported),
        ContainerKind::Other => Err(ContainerError::UnrecognizedExtension),
    }
}

} // verus!
