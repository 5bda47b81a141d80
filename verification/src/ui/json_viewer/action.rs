//! Actions bound to clickable column ranges of rendered JSON rows.

use vstd::prelude::*;

verus! {

/// What a click on a hot region does.
#[derive(Debug, Clone, PartialEq, Eq)]
pub enum JsonAction {
    /// Toggle the fold state of a container node.
    ToggleFold(u32),
    /// Copy the subtree rooted at this node as pretty JSON.
    CopyNode(u32),
    /// Open this URL; it is the full URL even where the shown text is cut.
    OpenUrl(String),
    /// Show the full string value of this leaf node.
    ExpandFullValue(u32),
}

/// A column range of a row bound to an action.
#[derive(Debug, PartialEq, Eq)]
pub struct JsonHotRegion {
    pub range: std::ops::Range<u16>,
    pub action: JsonAction,
}

} // verus!
