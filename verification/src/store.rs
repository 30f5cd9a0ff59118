use vstd::prelude::*;

use crate::foreign::{decode_lossy, etag_of, hash_hex, lossy_of};
use crate::text::bytes_eq;
use crate::{is_binary, spec_is_binary};

verus! {

/// The ways a read or a write of a workspace file can fail. A stale
/// fingerprint is not among them: a conflict is a normal outcome, not an
/// error.
#[derive(Clone, Copy, Debug, PartialEq, Eq, Structural)]
pub enum StoreError {
    /// The relative path holds a parent-traversal segment.
    InvalidPath,
    /// The file does not exist or cannot be read.
    NotFound,
    /// The file is binary and cannot be edited as text.
    UnsupportedContent,
    /// Writing the temporary file or renaming it into place failed.
    IOFailure,
}

/// A relative path holds the two-byte parent-traversal marker `..` somewhere.
pub open spec fn has_dotdot(s: Seq<u8>) -> bool {
    exists|i: int| 0 <= i && i + 2 <= s.len() && #[trigger] s[i] == 46 && s[i + 1] == 46
}

/// Validates a caller-supplied relative path: any path containing `..` is
/// rejected with `InvalidPath`, before any filesystem access.
pub fn safe_path(rel: &Vec<u8>) -> (r: Result<(), StoreError>)
    ensures
        r is Ok <==> !has_dotdot(rel@),
        r is Err ==> r == Result::<(), StoreError>::Err(StoreError::InvalidPath),
{
    let n: usize = rel.len();
    if n < 2 {
        return Ok(());
    }
    let mut i: usize = 0;
    while i <= n - 2
        invariant
            n == rel@.len(),
            2 <= n,
            i <= n - 1,
            forall|j: int| 0 <= j && j < i ==> !(#[trigger] rel@[j] == 46 && rel@[j + 1] == 46),
        decreases n - i,
    {
        if rel[i] == 46 && rel[i + 1] == 46 {
            return Err(StoreError::InvalidPath);
        }
        i += 1;
    }
    Ok(())
}

/// What a successful read hands back: the file's text and the fingerprint of
/// its exact bytes at that moment.
pub struct FileSnapshot {
    /// The file's content, decoded as UTF-8 with replacement.
    pub content: Vec<u8>,
    /// The fingerprint of the raw bytes, as 64 lowercase hex digits.
    pub etag: Vec<u8>,
}

/// The fingerprint of a file's exact byte content, as 64 lowercase hex
/// digits. Recomputed on every call, never cached.
pub fn generate_etag(bytes: &Vec<u8>) -> (r: Vec<u8>)
    ensures
        r@ == etag_of(bytes@),
        r@.len() == 64,
{
    hash_hex(bytes)
}

/// Turns the bytes read from a file into a read result: binary content is
/// refused with `UnsupportedContent`; text is decoded with replacement and
/// fingerprinted.
pub fn read_file_outcome(bytes: &Vec<u8>) -> (r: Result<FileSnapshot, StoreError>)
    ensures
        spec_is_binary(bytes@) ==> r == Result::<FileSnapshot, StoreError>::Err(
            StoreError::UnsupportedContent,
        ),
        !spec_is_binary(bytes@) ==> (r matches Ok(s) && s.content@ == lossy_of(bytes@) && s.etag@
            == etag_of(bytes@)),
{
    if is_binary(bytes) {
        return Err(StoreError::UnsupportedContent);
    }
    let content = decode_lossy(bytes);
    let etag = hash_hex(bytes);
    Ok(FileSnapshot { content, etag })
}

/// What the conditional write decides after looking at the current file.
#[derive(Clone, Copy, Debug, PartialEq, Eq, Structural)]
pub enum WriteDecision {
    /// The expected fingerprint still matches (or no file exists): write.
    Proceed,
    /// The file changed since the caller read it: write nothing and tell the
    /// caller to reconcile.
    Conflict,
}

/// A write may go ahead: either no file exists yet, or the fingerprint of the
/// current content equals the fingerprint the caller presented.
pub open spec fn write_allowed(current: Option<Seq<u8>>, expected: Seq<u8>) -> bool {
    match current {
        None => true,
        Some(c) => etag_of(c) == expected,
    }
}

/// The view of an optional byte vector.
pub open spec fn opt_bytes(o: Option<Vec<u8>>) -> Option<Seq<u8>> {
    match o {
        Some(v) => Some(v@),
        None => None,
    }
}

/// The optimistic-concurrency check of the write protocol: given the current
/// bytes of the destination (`None` when no file exists yet) and the
/// fingerprint the caller obtained at its last read, decide whether the write
/// may replace the file. The fingerprint of the current bytes is recomputed
/// here, never taken from a cache.
pub fn check_write(current: &Option<Vec<u8>>, expected: &Vec<u8>) -> (r: WriteDecision)
    ensures
        r == WriteDecision::Proceed <==> write_allowed(opt_bytes(*current), expected@),
        r == WriteDecision::Proceed || r == WriteDecision::Conflict,
{
    match current {
        None => WriteDecision::Proceed,
        Some(c) => {
            let cur = hash_hex(c);
            if bytes_eq(&cur, expected) {
                WriteDecision::Proceed
            } else {
                WriteDecision::Conflict
            }
        },
    }
}

/// A fingerprint taken from the current content is never stale: a write whose
/// expected fingerprint was computed over exactly the bytes now in place is
/// allowed to proceed.
pub proof fn lemma_fresh_fingerprint_proceeds(current: Seq<u8>, expected: Seq<u8>)
    requires
        expected == etag_of(current),
    ensures
        write_allowed(Some(current), expected),
{
}

/// A fingerprint that differs from the fingerprint of the bytes now in place
/// is refused: the write becomes a conflict and nothing is overwritten.
pub proof fn lemma_stale_fingerprint_conflicts(current: Seq<u8>, expected: Seq<u8>)
    requires
        expected != etag_of(current),
    ensures
        !write_allowed(Some(current), expected),
{
}

} // verus!
