//! The session lifecycle and live-event bridge of a shared, peer-replicated
//! to-do list.
//!
//! * [`event`] models the change events that a document's live stream yields.
//! * [`bridge`] decides, event by event, whether the user interface is told to
//!   refresh, and when the consuming task stops.
//! * [`state`] owns the single active session and swaps it for a new one.

pub mod bridge;
pub mod event;
pub mod state;
