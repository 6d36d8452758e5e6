//! Classifier: decides whether an entry is a text file, a binary file, a
//! symlink or something else, from its recorded kind, size, and a sample of
//! its leading bytes.
//!
//! A regular file is sniffed only below a hard size threshold.  The sniff
//! accepts the file as text when the sample is valid UTF-8 and fewer than a
//! tenth of its bytes are control-like.  Bytes 9 to 13 (tab, line feed,
//! vertical tab, form feed, carriage return) are deliberately not counted as
//! control-like.

use vstd::prelude::*;
use crate::snapshot::EntryKind;
use crate::types::FileType;

verus! {

/// Files at or above this size are never content-sniffed.
pub const SNIFF_SIZE_LIMIT: u64 = 8000000;

/// A byte that counts toward the binary ratio: 0 to 8, or 14 to 31.
pub open spec fn is_control_like(b: u8) -> bool {
    b < 9 || (13 < b && b < 32)
}

/// Number of control-like bytes in a sample.
pub open spec fn control_count(s: Seq<u8>) -> nat
    decreases s,
{
    if s.len() == 0 {
        0
    } else {
        control_count(s.drop_last()) + if is_control_like(s.last()) {
            1 as nat
        } else {
            0 as nat
        }
    }
}

/// Classification of an entry.  A regular file is text exactly when it is
/// below the sniffing threshold, its sample is nonempty and valid UTF-8, and
/// control-like bytes make up less than a tenth of the sample.
pub open spec fn spec_classify(kind: EntryKind, size: u64, sample: Seq<u8>) -> FileType {
    match kind {
        EntryKind::Symlink => FileType::Symlink,
        EntryKind::Other => FileType::Other,
        EntryKind::File => if size < SNIFF_SIZE_LIMIT && sample.len() > 0 && vstd::utf8::valid_utf8(
            sample,
        ) && 10 * control_count(sample) < sample.len() {
            FileType::TextFile
        } else {
            FileType::BinaryFile
        },
    }
}

/// A sample never holds more control-like bytes than bytes.
proof fn lemma_control_count_le(s: Seq<u8>)
    ensures
        control_count(s) <= s.len(),
    decreases s,
{
    if s.len() > 0 {
        lemma_control_count_le(s.drop_last());
    }
}

/// Relies on `core::str::from_utf8`: returns `Ok` exactly when the bytes are
/// valid UTF-8.
#[verifier::external_body]
fn utf8_valid(bytes: &[u8]) -> (r: bool)
    ensures
        r == vstd::utf8::valid_utf8(bytes@),
{
    core::str::from_utf8(bytes).is_ok()
}

/// Count the control-like bytes of a sample.
fn count_control_bytes(sample: &Vec<u8>) -> (n: usize)
    ensures
        n == control_count(sample@),
{
    let mut n: usize = 0;
    let mut i: usize = 0;
    while i < sample.len()
        invariant
            i <= sample.len(),
            n == control_count(sample@.subrange(0, i as int)),
            n <= i,
        decreases sample.len() - i,
    {
        let b = sample[i];
        proof {
            assert(sample@.subrange(0, i + 1).drop_last() =~= sample@.subrange(0, i as int));
            assert(sample@.subrange(0, i + 1).last() == sample@[i as int]);
        }
        if b < 9 || (b > 13 && b < 32) {
            n = n + 1;
        }
        i = i + 1;
    }
    proof {
        assert(sample@.subrange(0, sample@.len() as int) =~= sample@);
    }
    n
}

/// Determine the type of an entry from its kind, size, and leading bytes.
pub fn classify(kind: EntryKind, size: u64, sample: &Vec<u8>) -> (t: FileType)
    requires
        sample@.len() <= 8192,
    ensures
        t == spec_classify(kind, size, sample@),
{
    match kind {
        EntryKind::Symlink => FileType::Symlink,
        EntryKind::Other => FileType::Other,
        EntryKind::File => {
            if size < SNIFF_SIZE_LIMIT && sample.len() > 0 {
                if utf8_valid(sample.as_slice()) {
                    let control = count_control_bytes(sample);
                    proof {
                        lemma_control_count_le(sample@);
                    }
                    if 10 * control < sample.len() {
                        return FileType::TextFile;
                    }
                }
            }
            FileType::BinaryFile
        },
    }
}

} // verus!
