//! Filesystem events as the run tracker reads them: what kind of change,
//! and the paths it touched.

use vstd::prelude::*;

verus! {

/// The number of events that may wait between the filesystem watch and the
/// tracker. A watch that finds the queue full waits, and so is slowed to
/// the pace of the tracker.
pub const EVENT_QUEUE_CAPACITY: usize = 5;

/// What was created.
#[derive(Debug, Clone, Copy)]
pub enum CreateKind {
    /// Something, of a kind that is not known.
    Any,
    /// A file.
    File,
    /// A directory.
    Folder,
    /// Something that is neither.
    Other,
}

/// What was modified.
#[derive(Debug, Clone, Copy)]
pub enum ModifyKind {
    /// Something, of a kind that is not known.
    Any,
    /// The contents of a file.
    Data,
    /// Times, permissions or the like.
    Metadata,
    /// The name.
    Name,
    /// Something else.
    Other,
}

/// What kind of change an event reports.
#[derive(Debug, Clone, Copy)]
pub enum EventKind {
    /// A change of a kind that is not known.
    Any,
    /// A file was opened, read or closed.
    Access,
    /// Something was created.
    Create(CreateKind),
    /// Something was modified.
    Modify(ModifyKind),
    /// Something was removed.
    Remove,
    /// A change of none of these kinds.
    Other,
}

/// One notification from the filesystem watch.
#[derive(Debug, Clone)]
pub struct Event {
    /// What kind of change it reports.
    pub kind: EventKind,
    /// The paths that the change touched, in the order they were reported.
    pub paths: Vec<String>,
}

/// The texts of a list of strings, in order.
pub open spec fn texts(strings: Seq<String>) -> Seq<Seq<char>> {
    strings.map_values(|s: String| s@)
}

} // verus!
