//! Change events of a replicated document, as plain values.

use vstd::prelude::*;

verus! {

/// Whether the content behind an entry is available on this device.
#[derive(Clone, Copy, Debug, PartialEq, Eq, Structural)]
pub enum ContentStatus {
    /// The content is fully stored locally.
    Complete,
    /// Part of the content is stored locally; the rest is still arriving.
    Incomplete,
    /// None of the content is stored locally.
    Missing,
}

/// One state transition observed on a document's live stream.
///
/// Hashes, authors and peers are 32-byte identifiers.
#[derive(Clone, Copy, Debug)]
pub enum LiveEvent {
    /// A remote author wrote an entry.
    InsertRemote {
        /// The peer that sent the entry.
        from: [u8; 32],
        /// The hash of the entry's content.
        content_hash: [u8; 32],
        /// How much of that content is available locally.
        content_status: ContentStatus,
    },
    /// This process wrote an entry.
    InsertLocal {
        /// The hash of the entry's content.
        content_hash: [u8; 32],
    },
    /// Content that was incomplete has finished downloading.
    ContentReady {
        /// The hash of the content that is now complete.
        hash: [u8; 32],
    },
    /// A peer became reachable.
    NeighborUp([u8; 32]),
    /// A peer became unreachable.
    NeighborDown([u8; 32]),
    /// A synchronization round with a peer completed.
    SyncFinished {
        /// The peer that was synchronized with.
        peer: [u8; 32],
        /// Whether the round succeeded.
        succeeded: bool,
    },
    /// Any event that this library does not know.
    Other,
}

/// What the bridge is handed each time it is resumed.
#[derive(Clone, Copy, Debug)]
pub enum Input {
    /// The stream yielded an event.
    Event(LiveEvent),
    /// The stream yielded an error.
    Fault,
    /// The stream is exhausted.
    End,
    /// The owner of the task asked it to stop.
    Cancel,
}

} // verus!
