//! An in-memory snapshot of the part of a directory tree a run searches.
//!
//! The walker works on plain values: callers enumerate the filesystem up
//! front (to the requested depth) and hand the result over as an `FsNode`
//! tree. A file node carries the byte sample used for binary classification
//! and, when it could be read as text, its full textual content; entries
//! whose metadata could not be retrieved carry `None` and contribute to
//! neither the file nor the folder counter.

use vstd::prelude::*;

verus! {

/// The metadata captured for one directory entry, as plain values.
#[derive(Clone, Copy, Debug)]
pub struct EntryMeta {
    /// Whether the entry is a directory.
    pub is_dir: bool,
    /// File size in bytes.
    pub size: u64,
    /// Whether the entry is read-only.
    pub readonly: bool,
    /// Creation time, as seconds since the Unix epoch; absent when the
    /// filesystem could not report it or reported a time in the future.
    pub created: Option<i64>,
    /// Modification time, as seconds since the Unix epoch.
    pub modified: Option<i64>,
}

/// One node of the snapshot: a directory with its enumerated children, in
/// enumeration order, or a file.
pub enum FsNode {
    /// A directory. An unreadable directory is represented with no children,
    /// so the walk skips it silently.
    Dir { meta: Option<EntryMeta>, entries: Vec<FsEntry> },
    /// A file. `sample` holds at most the first 1024 bytes, used for binary
    /// classification; `text` holds the full content when it could be read
    /// as text, and `None` otherwise.
    File { meta: Option<EntryMeta>, sample: Vec<u8>, text: Option<String> },
}

/// A named child of a directory.
pub struct FsEntry {
    /// The entry's name (one path segment).
    pub name: String,
    /// The entry itself.
    pub node: FsNode,
}

impl FsNode {
    /// The metadata of this node, if it was captured.
    pub open spec fn meta_of(self) -> Option<EntryMeta> {
        match self {
            FsNode::Dir { meta, .. } => meta,
            FsNode::File { meta, .. } => meta,
        }
    }
}

} // verus!
