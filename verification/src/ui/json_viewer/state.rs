//! Fold state for a JSON tree: one flag per node id, true when that
//! container is expanded. Leaves are always false.

use vstd::prelude::*;
use crate::ui::json_viewer::tree::{FlatNode, NodeKind, Tree, is_container_kind, kind_view};

verus! {

/// Which containers of a tree are expanded.
pub struct JsonViewerState {
    /// `expanded[id]` holds iff container node `id` is expanded.
    pub expanded: Vec<bool>,
}

impl Default for JsonViewerState {
    fn default() -> (s: Self)
        ensures
            s.expanded@ == Seq::<bool>::empty(),
    {
        JsonViewerState { expanded: Vec::new() }
    }
}

impl JsonViewerState {
    /// Whether node `id` is expanded; ids past the end are not.
    pub fn is_expanded(&self, id: u32) -> (r: bool)
        ensures
            r == (id < self.expanded@.len() && self.expanded@[id as int]),
    {
        if (id as usize) < self.expanded.len() { self.expanded[id as usize] } else { false }
    }
}

/// Whether a node starts expanded: a container no deeper than the limit.
pub open spec fn starts_expanded(n: FlatNode, default_expand_depth: u32) -> bool {
    is_container_kind(kind_view(n.kind)) && n.depth <= default_expand_depth
}

/// Fold state for a tree: every container at depth `default_expand_depth`
/// or above starts expanded, everything else collapsed.
pub fn init_state(tree: &Tree, default_expand_depth: u32) -> (s: JsonViewerState)
    ensures
        s.expanded@ == Seq::new(tree.nodes@.len(), |i: int| starts_expanded(tree.nodes@[i], default_expand_depth)),
{
    let mut expanded: Vec<bool> = Vec::new();
    let mut i: usize = 0;
    while i < tree.nodes.len()
        invariant
            i <= tree.nodes@.len(),
            expanded@ == Seq::new(i as nat, |j: int| starts_expanded(tree.nodes@[j], default_expand_depth)),
        decreases tree.nodes@.len() - i,
    {
        let node = &tree.nodes[i];
        let is_container = match node.kind {
            NodeKind::Object | NodeKind::Array => true,
            _ => false,
        };
        expanded.push(is_container && node.depth <= default_expand_depth);
        assert(expanded@ =~= Seq::new((i + 1) as nat, |j: int| starts_expanded(tree.nodes@[j], default_expand_depth)));
        i = i + 1;
    }
    JsonViewerState { expanded }
}

/// Whether toggling `id` changes anything: it names a container the state
/// has a flag for.
pub open spec fn toggles(tree: Seq<FlatNode>, expanded: Seq<bool>, id: u32) -> bool {
    id < expanded.len() && is_container_kind(kind_view(tree[id as int].kind))
}

/// The flags after toggling `id`.
pub open spec fn toggled(tree: Seq<FlatNode>, expanded: Seq<bool>, id: u32) -> Seq<bool> {
    if toggles(tree, expanded, id) { expanded.update(id as int, !expanded[id as int]) } else { expanded }
}

/// Toggle node `node_id`: nothing happens for an id past the state's end
/// or a leaf. Returns whether the state changed.
pub fn toggle(tree: &Tree, state: &mut JsonViewerState, node_id: u32) -> (r: bool)
    requires
        node_id < old(state).expanded@.len() ==> node_id < tree.nodes@.len(),
    ensures
        r == toggles(tree.nodes@, old(state).expanded@, node_id),
        final(state).expanded@ == toggled(tree.nodes@, old(state).expanded@, node_id),
{
    let idx = node_id as usize;
    if idx >= state.expanded.len() {
        return false;
    }
    let container = match tree.nodes[idx].kind {
        NodeKind::Object | NodeKind::Array => true,
        _ => false,
    };
    if !container {
        return false;
    }
    let flag = state.expanded[idx];
    state.expanded.set(idx, !flag);
    true
}

/// Toggling the same node twice gives back the same flags.
pub proof fn lemma_toggle_twice(tree: Seq<FlatNode>, expanded: Seq<bool>, id: u32)
    ensures
        toggled(tree, toggled(tree, expanded, id), id) == expanded,
{
    if toggles(tree, expanded, id) {
        assert(toggled(tree, toggled(tree, expanded, id), id) =~= expanded);
    }
}

/// Toggling keeps one flag per node.
pub proof fn lemma_toggle_keeps_len(tree: Seq<FlatNode>, expanded: Seq<bool>, id: u32)
    ensures
        toggled(tree, expanded, id).len() == expanded.len(),
{
}

} // verus!
