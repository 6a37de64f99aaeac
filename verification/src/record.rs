//! Change records: the reconciler's input, one per low-level mutation the
//! browser observed under the editable surface.

use vstd::prelude::*;

verus! {

/// The class of a change record, as the mutation observer tags it.
#[derive(Clone, Copy, PartialEq, Eq, Structural)]
pub enum RecordKind {
    /// A text node's data changed.
    CharacterData,
    /// Nodes were inserted or removed under the observed subtree.
    ChildList,
    /// Any other record class; reserved, ignored.
    Other,
}

/// One change record. `target` indexes the surface node the record concerns:
/// for a text change, the changed text node's parent element; for a child
/// list change, the target element itself. `None` stands for a target the
/// host could not resolve (for instance a text node with no parent).
#[derive(Clone, Copy)]
pub struct Record {
    pub kind: RecordKind,
    pub target: Option<usize>,
}

} // verus!
