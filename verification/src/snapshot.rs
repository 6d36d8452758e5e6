//! In-memory snapshot of a filesystem tree.
//!
//! The scanner works on plain values: a caller enumerates a directory tree,
//! reads file samples and contents, and hands the result over as an
//! [`FsDir`].  Failures that the scanner must react to are represented
//! explicitly; entries whose metadata could not be read at all are simply
//! omitted by the caller, which matches skipping them.

use vstd::prelude::*;
use crate::classify::spec_classify;
use crate::types::FileType;
use crate::types::Metadata;

verus! {

broadcast use
    vstd::std_specs::vec::axiom_vec_decreases_to_view,
    vstd::seq::axiom_seq_index_decreases,
    vstd::seq::axiom_seq_subrange_decreases;

/// What the filesystem metadata reports a non-directory entry to be.
#[derive(Debug, Clone, Copy, PartialEq, Eq, Structural)]
pub enum EntryKind {
    /// A regular file
    File,
    /// A symbolic link
    Symlink,
    /// Anything else (device, socket, ...)
    Other,
}

/// Result of attempting to read a file's full content.
#[derive(Debug, Clone)]
pub enum ReadOutcome {
    /// The file was read as text
    Text(String),
    /// Opening or reading failed; the payload describes the failure
    Failed(String),
    /// The content was not read (file too large, or not a text file)
    NotRead,
}

/// A non-directory entry of the snapshot.
#[derive(Debug, Clone)]
pub struct FsLeaf {
    /// Base name of the entry
    pub name: String,
    /// Metadata captured for the entry
    pub metadata: Metadata,
    /// What the filesystem reports the entry to be
    pub kind: EntryKind,
    /// Up to the first 8192 bytes of a regular file, for content sniffing
    pub sample: Vec<u8>,
    /// Full content of a regular file under the size ceiling
    pub content: ReadOutcome,
    /// Target of a symbolic link, as a literal string
    pub target: String,
}

/// A directory entry of the snapshot.
#[derive(Debug)]
pub struct FsDir {
    /// Base name of the directory
    pub name: String,
    /// Metadata captured for the directory
    pub metadata: Metadata,
    /// The directory's children, or `None` when enumerating them failed
    pub entries: Option<Vec<FsEntry>>,
}

/// One entry of the snapshot.
#[derive(Debug)]
pub enum FsEntry {
    /// A subdirectory
    Dir(FsDir),
    /// A non-directory entry
    Leaf(FsLeaf),
}

/// Base name of a snapshot entry.
pub open spec fn entry_name(e: FsEntry) -> Seq<char> {
    match e {
        FsEntry::Dir(d) => d.name@,
        FsEntry::Leaf(l) => l.name@,
    }
}

/// A well-formed name: nonempty, no path separator.
pub open spec fn name_wf(name: Seq<char>) -> bool {
    name.len() > 0 && !name.contains('/')
}

/// Well-formedness of a leaf: its name is a plain base name, everything the
/// scanner measures is within the size ceiling, and the content of a regular
/// file that classifies as text under the ceiling has actually been read.
pub open spec fn leaf_wf(l: FsLeaf) -> bool {
    &&& name_wf(l.name@)
    &&& l.sample@.len() <= 8192
    &&& (l.content matches ReadOutcome::Text(s) ==> s@.len() <= 0x10_0000)
    &&& (l.kind is File && l.metadata.size <= 0x10_0000 && spec_classify(
        l.kind,
        l.metadata.size,
        l.sample@,
    ) is TextFile ==> !(l.content is NotRead))
}

/// Well-formedness of a directory: every child is well-formed and sibling
/// names are distinct, as they are in a real directory.
pub open spec fn dir_wf(d: FsDir) -> bool
    decreases d,
{
    &&& name_wf(d.name@)
    &&& (d.entries matches Some(es) ==> {
        &&& (forall|i: int| 0 <= i < es@.len() ==> entry_wf(#[trigger] es@[i]))
        &&& (forall|i: int, j: int|
            0 <= i < j < es@.len() ==> entry_name(es@[i]) != entry_name(es@[j]))
    })
}

/// Well-formedness of a snapshot entry.
pub open spec fn entry_wf(e: FsEntry) -> bool
    decreases e,
{
    match e {
        FsEntry::Dir(d) => dir_wf(d),
        FsEntry::Leaf(l) => leaf_wf(l),
    }
}

/// Number of non-directory entries anywhere in a directory snapshot.
pub open spec fn dir_leaf_count(d: FsDir) -> nat
    decreases d,
{
    match d.entries {
        Some(es) => entries_leaf_count(es@),
        None => 0,
    }
}

/// Number of non-directory entries anywhere in a sequence of snapshot entries.
pub open spec fn entries_leaf_count(es: Seq<FsEntry>) -> nat
    decreases es,
{
    if es.len() == 0 {
        0
    } else {
        entry_leaf_count(es[0]) + entries_leaf_count(es.drop_first())
    }
}

/// Number of non-directory entries in one snapshot entry.
pub open spec fn entry_leaf_count(e: FsEntry) -> nat
    decreases e,
{
    match e {
        FsEntry::Dir(d) => dir_leaf_count(d),
        FsEntry::Leaf(_) => 1,
    }
}

/// Classification of a leaf from its recorded kind, size and sample.
pub open spec fn classify_leaf(l: FsLeaf) -> FileType {
    spec_classify(l.kind, l.metadata.size, l.sample@)
}

} // verus!
