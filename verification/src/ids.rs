//! Block identifiers and the correlating attribute.
//!
//! A block's identifier is the 128-bit value of a version-4 UUID. The textual
//! form written onto a visual node (its correlating attribute) is the UUID's
//! hyphenated rendering; the root surface instead carries the fixed attribute
//! `"editor"` and is never treated as a block.

use vstd::prelude::*;

verus! {

/// How a visual node's correlating attribute classifies the node.
#[derive(Clone, Copy, Debug, PartialEq, Eq, Structural)]
pub enum NodeTag {
    /// The attribute is the root surface's fixed marker.
    Root,
    /// The attribute parses as a block identifier: the node is tracked.
    Tagged(u128),
    /// The attribute is absent or malformed: the node is not yet tracked.
    Untagged,
}

/// What `uuid::Uuid::parse_str` makes of a string: `Some` identifier when the
/// string is a well-formed UUID, `None` otherwise. The result depends on the
/// characters alone.
pub uninterp spec fn parsed_id(s: Seq<char>) -> Option<u128>;

/// The hyphenated textual form of an identifier, as `uuid::Uuid::to_string`
/// renders it. The result depends on the identifier alone.
pub uninterp spec fn id_str(id: u128) -> Seq<char>;

/// Relies on `uuid::Uuid::new_v4`: a freshly generated random identifier.
/// Nothing is promised of the value; callers must check it against the
/// identifiers already in use.
#[verifier::external_body]
pub(crate) fn mint_id() -> (r: u128) {
    uuid::Uuid::new_v4().as_u128()
}

/// Relies on `uuid::Uuid::parse_str` and `uuid::Uuid::as_u128`: parses a
/// textual UUID, `None` on malformed input; deterministic in the input.
#[verifier::external_body]
pub(crate) fn parse_id(s: &str) -> (r: Option<u128>)
    ensures
        r == parsed_id(s@),
{
    match uuid::Uuid::parse_str(s) {
        Ok(u) => Some(u.as_u128()),
        Err(_) => None,
    }
}

/// Relies on `uuid::Uuid::from_u128` and `uuid::Uuid::to_string`: renders the
/// identifier in the 36-character hyphenated form, which `parse_str` parses
/// back to the same identifier.
#[verifier::external_body]
pub(crate) fn id_string(id: u128) -> (r: String)
    ensures
        r@ == id_str(id),
        r@.len() == 36,
        parsed_id(r@) == Some(id),
{
    uuid::Uuid::from_u128(id).to_string()
}

/// The classification of a correlating attribute: the root surface's marker
/// first, then a parseable identifier, else untracked.
pub open spec fn spec_tag(attr: Seq<char>) -> NodeTag {
    if attr == "editor"@ {
        NodeTag::Root
    } else {
        match parsed_id(attr) {
            Some(id) => NodeTag::Tagged(id),
            None => NodeTag::Untagged,
        }
    }
}

/// Classify a visual node's correlating attribute.
pub fn classify(attr: &String) -> (t: NodeTag)
    ensures
        t == spec_tag(attr@),
{
    let root: String = "editor".to_owned();
    if *attr == root {
        NodeTag::Root
    } else {
        match parse_id(attr.as_str()) {
            Some(id) => NodeTag::Tagged(id),
            None => NodeTag::Untagged,
        }
    }
}

} // verus!
