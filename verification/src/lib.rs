//! A minimal editable-document engine: an ordered store of content blocks kept
//! in sync with a live, user-editable tree of visual nodes. The reconciler
//! consumes batches of low-level change records from the visual surface and
//! applies them to the store without feedback loops, duplicate identifiers,
//! or lost edits.

pub mod ids;
pub mod laws;
pub mod reconcile;
pub mod record;
pub mod store;
pub mod surface;
