//! Flat-arena JSON tree. Nodes sit in one `Vec<FlatNode>` in depth-first
//! pre-order, indexed by `u32` id: the root is node 0, a parent comes
//! before its children, and a child's subtree ends before its next
//! sibling starts.

use vstd::prelude::*;
use crate::json::{JsonValue, JsonView, json_view, jnest, lemma_array_view, lemma_arr_nest, lemma_object_view, lemma_obj_nest, json_text_value, parse_json};

verus! {

/// Number of nodes of a value's tree.
pub open spec fn jsize(v: JsonView) -> nat
    decreases v, 0int,
{
    match v {
        JsonView::Object(s) => 1 + obj_size(s),
        JsonView::Array(s) => 1 + arr_size(s),
        _ => 1,
    }
}

/// Number of nodes under the entries of an object.
pub open spec fn obj_size(s: Seq<(Seq<char>, JsonView)>) -> nat
    decreases s, 1int,
{
    if s.len() == 0 {
        0
    } else {
        obj_size(s.subrange(0, s.len() - 1)) + jsize(s[s.len() - 1].1)
    }
}

/// Number of nodes under the items of an array.
pub open spec fn arr_size(s: Seq<JsonView>) -> nat
    decreases s, 1int,
{
    if s.len() == 0 {
        0
    } else {
        arr_size(s.subrange(0, s.len() - 1)) + jsize(s[s.len() - 1])
    }
}

/// What a node holds, as text.
pub enum KindView {
    Null,
    Bool(bool),
    Number(Seq<char>),
    Str(Seq<char>),
    Object,
    Array,
}

/// A node as plain values.
pub struct NodeView {
    pub kind: KindView,
    pub depth: nat,
    pub parent: Option<nat>,
    pub children: Seq<nat>,
    pub key: Option<Seq<char>>,
}

/// The kind of node a value becomes.
pub open spec fn kind_of(v: JsonView) -> KindView {
    match v {
        JsonView::Null => KindView::Null,
        JsonView::Bool(b) => KindView::Bool(b),
        JsonView::Number(n) => KindView::Number(n),
        JsonView::Str(t) => KindView::Str(t),
        JsonView::Object(_) => KindView::Object,
        JsonView::Array(_) => KindView::Array,
    }
}

/// Ids of the children of an object whose first child gets id `start`:
/// each child follows the whole subtree of the one before.
pub open spec fn obj_ids(s: Seq<(Seq<char>, JsonView)>, start: nat) -> Seq<nat> {
    Seq::new(s.len(), |k: int| start + obj_size(s.take(k)))
}

/// Ids of the children of an array whose first child gets id `start`.
pub open spec fn arr_ids(s: Seq<JsonView>, start: nat) -> Seq<nat> {
    Seq::new(s.len(), |k: int| start + arr_size(s.take(k)))
}

/// The nodes of a value's tree in depth-first pre-order, the value itself
/// getting id `id` at `depth`, below `parent` and under `key`.
pub open spec fn flatten(v: JsonView, parent: Option<nat>, key: Option<Seq<char>>, depth: nat, id: nat) -> Seq<NodeView>
    decreases v, 0int,
{
    match v {
        JsonView::Object(s) => seq![NodeView { kind: KindView::Object, depth, parent, children: obj_ids(s, id + 1), key }]
            + obj_flat(s, id, depth + 1, id + 1),
        JsonView::Array(s) => seq![NodeView { kind: KindView::Array, depth, parent, children: arr_ids(s, id + 1), key }]
            + arr_flat(s, id, depth + 1, id + 1),
        _ => seq![NodeView { kind: kind_of(v), depth, parent, children: seq![], key }],
    }
}

/// The nodes of an object's entries, one subtree after another, the
/// first starting at id `start`.
pub open spec fn obj_flat(s: Seq<(Seq<char>, JsonView)>, pid: nat, depth: nat, start: nat) -> Seq<NodeView>
    decreases s, 1int,
{
    if s.len() == 0 {
        seq![]
    } else {
        let init = s.subrange(0, s.len() - 1);
        obj_flat(init, pid, depth, start)
            + flatten(s[s.len() - 1].1, Some(pid), Some(s[s.len() - 1].0), depth, start + obj_size(init))
    }
}

/// The nodes of an array's items, one subtree after another.
pub open spec fn arr_flat(s: Seq<JsonView>, pid: nat, depth: nat, start: nat) -> Seq<NodeView>
    decreases s, 1int,
{
    if s.len() == 0 {
        seq![]
    } else {
        let init = s.subrange(0, s.len() - 1);
        arr_flat(init, pid, depth, start)
            + flatten(s[s.len() - 1], Some(pid), None, depth, start + arr_size(init))
    }
}

/// A tree has at least one node.
pub proof fn lemma_jsize_pos(v: JsonView)
    ensures
        jsize(v) >= 1,
{
}

/// One more entry adds its subtree's size; a prefix is no larger.
pub proof fn lemma_obj_size_take(s: Seq<(Seq<char>, JsonView)>, k: int)
    requires
        0 <= k < s.len(),
    ensures
        obj_size(s.take(k + 1)) == obj_size(s.take(k)) + jsize(s[k].1),
        obj_size(s.take(k + 1)) <= obj_size(s),
    decreases s.len(),
{
    assert(s.take(k + 1).subrange(0, k) =~= s.take(k));
    if k + 1 < s.len() {
        let init = s.subrange(0, s.len() - 1);
        lemma_obj_size_take(init, k);
        assert(init.take(k + 1) =~= s.take(k + 1));
        assert(init.take(k) =~= s.take(k));
    } else {
        assert(s.take(k + 1) =~= s);
    }
}

/// One more item adds its subtree's size; a prefix is no larger.
pub proof fn lemma_arr_size_take(s: Seq<JsonView>, k: int)
    requires
        0 <= k < s.len(),
    ensures
        arr_size(s.take(k + 1)) == arr_size(s.take(k)) + jsize(s[k]),
        arr_size(s.take(k + 1)) <= arr_size(s),
    decreases s.len(),
{
    assert(s.take(k + 1).subrange(0, k) =~= s.take(k));
    if k + 1 < s.len() {
        let init = s.subrange(0, s.len() - 1);
        lemma_arr_size_take(init, k);
        assert(init.take(k + 1) =~= s.take(k + 1));
        assert(init.take(k) =~= s.take(k));
    } else {
        assert(s.take(k + 1) =~= s);
    }
}

/// The nodes of one more entry follow those of the entries before it.
pub proof fn lemma_obj_flat_take(s: Seq<(Seq<char>, JsonView)>, k: int, pid: nat, depth: nat, start: nat)
    requires
        0 <= k < s.len(),
    ensures
        obj_flat(s.take(k + 1), pid, depth, start) == obj_flat(s.take(k), pid, depth, start)
            + flatten(s[k].1, Some(pid), Some(s[k].0), depth, start + obj_size(s.take(k))),
{
    assert(s.take(k + 1).subrange(0, k) =~= s.take(k));
}

/// The nodes of one more item follow those of the items before it.
pub proof fn lemma_arr_flat_take(s: Seq<JsonView>, k: int, pid: nat, depth: nat, start: nat)
    requires
        0 <= k < s.len(),
    ensures
        arr_flat(s.take(k + 1), pid, depth, start) == arr_flat(s.take(k), pid, depth, start)
            + flatten(s[k], Some(pid), None, depth, start + arr_size(s.take(k))),
{
    assert(s.take(k + 1).subrange(0, k) =~= s.take(k));
}

/// What a node holds.
#[derive(Clone, Debug, PartialEq)]
pub enum NodeKind {
    Null,
    Bool(bool),
    Number(String),
    String(String),
    Object,
    Array,
}

/// One node of the tree.
#[derive(Clone, Debug)]
pub struct FlatNode {
    pub kind: NodeKind,
    pub depth: u32,
    /// Parent node id; `None` only for the root.
    pub parent: Option<u32>,
    /// Child node ids in source order; empty for leaves.
    pub children: Vec<u32>,
    /// The key of an object entry; `None` for array items and the root.
    pub key: Option<String>,
}

/// A JSON value as a flat arena of nodes.
pub struct Tree {
    pub nodes: Vec<FlatNode>,
}

/// The view of a node kind.
pub open spec fn kind_view(k: NodeKind) -> KindView {
    match k {
        NodeKind::Null => KindView::Null,
        NodeKind::Bool(b) => KindView::Bool(b),
        NodeKind::Number(n) => KindView::Number(n@),
        NodeKind::String(t) => KindView::Str(t@),
        NodeKind::Object => KindView::Object,
        NodeKind::Array => KindView::Array,
    }
}

/// The view of an optional id.
pub open spec fn opt_id(o: Option<u32>) -> Option<nat> {
    match o { Some(x) => Some(x as nat), None => None }
}

/// The view of an optional key.
pub open spec fn opt_text(o: Option<String>) -> Option<Seq<char>> {
    match o { Some(x) => Some(x@), None => None }
}

/// The view of a node.
pub open spec fn node_view(n: FlatNode) -> NodeView {
    NodeView {
        kind: kind_view(n.kind),
        depth: n.depth as nat,
        parent: opt_id(n.parent),
        children: n.children@.map_values(|c: u32| c as nat),
        key: opt_text(n.key),
    }
}

/// The views of nodes.
pub open spec fn node_views(v: Seq<FlatNode>) -> Seq<NodeView> {
    v.map_values(|n: FlatNode| node_view(n))
}

impl View for Tree {
    type V = Seq<NodeView>;

    open spec fn view(&self) -> Seq<NodeView> {
        node_views(self.nodes@)
    }
}

/// Pushing a node pushes its view.
pub proof fn lemma_node_views_push(v: Seq<FlatNode>, x: FlatNode)
    ensures
        node_views(v.push(x)) == node_views(v).push(node_view(x)),
{
    assert(node_views(v.push(x)) =~= node_views(v).push(node_view(x)));
}

/// Setting a node sets its view.
pub proof fn lemma_node_views_set(v: Seq<FlatNode>, i: int, x: FlatNode)
    requires
        0 <= i < v.len(),
    ensures
        node_views(v.update(i, x)) == node_views(v).update(i, node_view(x)),
{
    assert(node_views(v.update(i, x)) =~= node_views(v).update(i, node_view(x)));
}

/// A copy of an optional key.
fn copy_key(key: &Option<String>) -> (r: Option<String>)
    ensures
        opt_text(r) == opt_text(*key),
{
    match key {
        Some(k) => Some(k.clone()),
        None => None,
    }
}

/// Ids of one more child.
pub proof fn lemma_obj_ids_take(s: Seq<(Seq<char>, JsonView)>, k: int, start: nat)
    requires
        0 <= k < s.len(),
    ensures
        obj_ids(s.take(k + 1), start) == obj_ids(s.take(k), start).push(start + obj_size(s.take(k))),
{
    assert forall|j: int| 0 <= j <= k implies #[trigger] s.take(k + 1).take(j) == s.take(k).take(j) by {
        assert(s.take(k + 1).take(j) =~= s.take(j));
        assert(s.take(k).take(j) =~= s.take(j));
    }
    assert(s.take(k + 1).take(k) =~= s.take(k));
    assert(obj_ids(s.take(k + 1), start) =~= obj_ids(s.take(k), start).push(start + obj_size(s.take(k))));
}

/// Ids of one more item.
pub proof fn lemma_arr_ids_take(s: Seq<JsonView>, k: int, start: nat)
    requires
        0 <= k < s.len(),
    ensures
        arr_ids(s.take(k + 1), start) == arr_ids(s.take(k), start).push(start + arr_size(s.take(k))),
{
    assert forall|j: int| 0 <= j <= k implies #[trigger] s.take(k + 1).take(j) == s.take(k).take(j) by {
        assert(s.take(k + 1).take(j) =~= s.take(j));
        assert(s.take(k).take(j) =~= s.take(j));
    }
    assert(s.take(k + 1).take(k) =~= s.take(k));
    assert(arr_ids(s.take(k + 1), start) =~= arr_ids(s.take(k), start).push(start + arr_size(s.take(k))));
}

/// A tree flattens to one node per value in it.
pub proof fn lemma_flatten_len(v: JsonView, parent: Option<nat>, key: Option<Seq<char>>, depth: nat, id: nat)
    ensures
        flatten(v, parent, key, depth, id).len() == jsize(v),
    decreases v, 0int,
{
    match v {
        JsonView::Object(s) => { lemma_obj_flat_len(s, id, depth + 1, id + 1); },
        JsonView::Array(s) => { lemma_arr_flat_len(s, id, depth + 1, id + 1); },
        _ => {},
    }
}

/// The entries of an object flatten to their subtrees' nodes.
pub proof fn lemma_obj_flat_len(s: Seq<(Seq<char>, JsonView)>, pid: nat, depth: nat, start: nat)
    ensures
        obj_flat(s, pid, depth, start).len() == obj_size(s),
    decreases s, 1int,
{
    if s.len() > 0 {
        let init = s.subrange(0, s.len() - 1);
        lemma_obj_flat_len(init, pid, depth, start);
        lemma_flatten_len(s[s.len() - 1].1, Some(pid), Some(s[s.len() - 1].0), depth, start + obj_size(init));
    }
}

/// The items of an array flatten to their subtrees' nodes.
pub proof fn lemma_arr_flat_len(s: Seq<JsonView>, pid: nat, depth: nat, start: nat)
    ensures
        arr_flat(s, pid, depth, start).len() == arr_size(s),
    decreases s, 1int,
{
    if s.len() > 0 {
        let init = s.subrange(0, s.len() - 1);
        lemma_arr_flat_len(init, pid, depth, start);
        lemma_flatten_len(s[s.len() - 1], Some(pid), None, depth, start + arr_size(init));
    }
}

/// Replacing the node just before some nodes.
pub proof fn lemma_replace_at_end(base: Seq<NodeView>, old_n: NodeView, new_n: NodeView, rest: Seq<NodeView>)
    ensures
        (base.push(old_n) + rest).update(base.len() as int, new_n) == base.push(new_n) + rest,
{
    assert((base.push(old_n) + rest).update(base.len() as int, new_n) =~= base.push(new_n) + rest);
}

/// Append the nodes of `value`'s tree in depth-first pre-order; returns
/// the id of its root node.
fn build(value: &JsonValue, parent: Option<u32>, key: Option<String>, depth: u32, nodes: &mut Vec<FlatNode>) -> (id: u32)
    requires
        old(nodes)@.len() + jsize(json_view(*value)) <= u32::MAX + 1,
        depth + jnest(json_view(*value)) <= u32::MAX,
    ensures
        id as nat == old(nodes)@.len(),
        node_views(final(nodes)@) == node_views(old(nodes)@)
            + flatten(json_view(*value), opt_id(parent), opt_text(key), depth as nat, old(nodes)@.len()),
    decreases value,
{
    let ghost v = json_view(*value);
    let ghost base = node_views(nodes@);
    proof { lemma_jsize_pos(v); }
    let my_id = nodes.len() as u32;
    match value {
        JsonValue::Object(m) => {
            let ghost s = Seq::new(m@.len(), |k: int| (m@[k].0@, json_view(m@[k].1)));
            proof { lemma_object_view(*m); }
            let key_copy = copy_key(&key);
            let ghost ph = NodeView { kind: KindView::Object, depth: depth as nat, parent: opt_id(parent),
                children: seq![], key: opt_text(key) };
            let holder = FlatNode { kind: NodeKind::Object, depth, parent, children: Vec::new(), key };
            proof {
                lemma_node_views_push(nodes@, holder);
                assert(holder.children@.map_values(|c: u32| c as nat) =~= Seq::<nat>::empty());
                assert(s.take(0) =~= Seq::<(Seq<char>, JsonView)>::empty());
            }
            nodes.push(holder);
            let mut child_ids: Vec<u32> = Vec::new();
            let mut k: usize = 0;
            while k < m.len()
                invariant
                    k <= m@.len(),
                    *value == JsonValue::Object(*m),
                    s == Seq::new(m@.len(), |k: int| (m@[k].0@, json_view(m@[k].1))),
                    v == JsonView::Object(s),
                    my_id as nat == base.len(),
                    base.len() + jsize(v) <= u32::MAX + 1,
                    depth + jnest(v) <= u32::MAX,
                    nodes@.len() == my_id + 1 + obj_size(s.take(k as int)),
                    node_views(nodes@) == base.push(ph) + obj_flat(s.take(k as int), my_id as nat, (depth + 1) as nat, (my_id + 1) as nat),
                    child_ids@.map_values(|c: u32| c as nat) == obj_ids(s.take(k as int), (my_id + 1) as nat),
                decreases m@.len() - k,
            {
                proof {
                    lemma_obj_size_take(s, k as int);
                    lemma_obj_nest(s, k as int);
                    lemma_obj_flat_take(s, k as int, my_id as nat, (depth + 1) as nat, (my_id + 1) as nat);
                    lemma_obj_ids_take(s, k as int, (my_id + 1) as nat);
                    assert(s[k as int] == (m@[k as int].0@, json_view(m@[k as int].1)));
                }
                proof {
                    lemma_flatten_len(s[k as int].1, Some(my_id as nat), Some(s[k as int].0), (depth + 1) as nat,
                        (my_id + 1 + obj_size(s.take(k as int))) as nat);
                    assert(decreases_to!(*value => (*value)->Object_0));
                    assert(decreases_to!(m => m@));
                    assert(decreases_to!(m@ => m@[k as int]));
                    assert(decreases_to!(m@[k as int] => m@[k as int].1));
                }
                let ghost before = nodes@.len();
                let kc = m[k].0.clone();
                let ghost kv = kc@;
                let cid = build(&m[k].1, Some(my_id), Some(kc), depth + 1, nodes);
                proof {
                    lemma_flatten_len(json_view(m@[k as int].1), opt_id(Some(my_id)), Some(kv), (depth + 1) as nat, before);
                    assert(node_views(nodes@).len() == nodes@.len());
                }
                assert(nodes@.len() == before + jsize(s[k as int].1));
                child_ids.push(cid);
                proof {
                    assert(child_ids@.map_values(|c: u32| c as nat) =~= obj_ids(s.take(k as int + 1), (my_id + 1) as nat));
                }
                k = k + 1;
            }
            proof { assert(s.take(k as int) =~= s); }
            let full = FlatNode { kind: NodeKind::Object, depth, parent, children: child_ids, key: key_copy };
            proof {
                lemma_node_views_set(nodes@, my_id as int, full);
                lemma_replace_at_end(base, ph, node_view(full), obj_flat(s, my_id as nat, (depth + 1) as nat, (my_id + 1) as nat));
            }
            nodes.set(my_id as usize, full);
        },
        JsonValue::Array(a) => {
            let ghost s = Seq::new(a@.len(), |k: int| json_view(a@[k]));
            proof { lemma_array_view(*a); }
            let key_copy = copy_key(&key);
            let ghost ph = NodeView { kind: KindView::Array, depth: depth as nat, parent: opt_id(parent),
                children: seq![], key: opt_text(key) };
            let holder = FlatNode { kind: NodeKind::Array, depth, parent, children: Vec::new(), key };
            proof {
                lemma_node_views_push(nodes@, holder);
                assert(holder.children@.map_values(|c: u32| c as nat) =~= Seq::<nat>::empty());
                assert(s.take(0) =~= Seq::<JsonView>::empty());
            }
            nodes.push(holder);
            let mut child_ids: Vec<u32> = Vec::new();
            let mut k: usize = 0;
            while k < a.len()
                invariant
                    k <= a@.len(),
                    *value == JsonValue::Array(*a),
                    s == Seq::new(a@.len(), |k: int| json_view(a@[k])),
                    v == JsonView::Array(s),
                    my_id as nat == base.len(),
                    base.len() + jsize(v) <= u32::MAX + 1,
                    depth + jnest(v) <= u32::MAX,
                    nodes@.len() == my_id + 1 + arr_size(s.take(k as int)),
                    node_views(nodes@) == base.push(ph) + arr_flat(s.take(k as int), my_id as nat, (depth + 1) as nat, (my_id + 1) as nat),
                    child_ids@.map_values(|c: u32| c as nat) == arr_ids(s.take(k as int), (my_id + 1) as nat),
                decreases a@.len() - k,
            {
                proof {
                    lemma_arr_size_take(s, k as int);
                    lemma_arr_nest(s, k as int);
                    lemma_arr_flat_take(s, k as int, my_id as nat, (depth + 1) as nat, (my_id + 1) as nat);
                    lemma_arr_ids_take(s, k as int, (my_id + 1) as nat);
                    assert(s[k as int] == json_view(a@[k as int]));
                }
                proof {
                    lemma_flatten_len(s[k as int], Some(my_id as nat), None, (depth + 1) as nat,
                        (my_id + 1 + arr_size(s.take(k as int))) as nat);
                    assert(decreases_to!(*value => (*value)->Array_0));
                    assert(decreases_to!(a => a@));
                    assert(decreases_to!(a@ => a@[k as int]));
                }
                let ghost before = nodes@.len();
                let cid = build(&a[k], Some(my_id), None, depth + 1, nodes);
                proof {
                    lemma_flatten_len(json_view(a@[k as int]), opt_id(Some(my_id)), None, (depth + 1) as nat, before);
                    assert(node_views(nodes@).len() == nodes@.len());
                }
                assert(nodes@.len() == before + jsize(s[k as int]));
                child_ids.push(cid);
                proof {
                    assert(child_ids@.map_values(|c: u32| c as nat) =~= arr_ids(s.take(k as int + 1), (my_id + 1) as nat));
                }
                k = k + 1;
            }
            proof { assert(s.take(k as int) =~= s); }
            let full = FlatNode { kind: NodeKind::Array, depth, parent, children: child_ids, key: key_copy };
            proof {
                lemma_node_views_set(nodes@, my_id as int, full);
                lemma_replace_at_end(base, ph, node_view(full), arr_flat(s, my_id as nat, (depth + 1) as nat, (my_id + 1) as nat));
            }
            nodes.set(my_id as usize, full);
        },
        _ => {
            let kind = match value {
                JsonValue::Null => NodeKind::Null,
                JsonValue::Bool(b) => NodeKind::Bool(*b),
                JsonValue::Number(n) => NodeKind::Number(n.clone()),
                JsonValue::Str(t) => NodeKind::String(t.clone()),
                _ => NodeKind::Null,
            };
            let node = FlatNode { kind, depth, parent, children: Vec::new(), key };
            proof {
                lemma_node_views_push(nodes@, node);
                assert(node.children@.map_values(|c: u32| c as nat) =~= Seq::<nat>::empty());
            }
            nodes.push(node);
        },
    }
    my_id
}

/// How many nodes a value's tree has, when that is at most `budget`.
fn count_within(v: &JsonValue, budget: u64) -> (r: Option<u64>)
    ensures
        match r {
            Some(n) => n as nat == jsize(json_view(*v)) && n <= budget,
            None => jsize(json_view(*v)) > budget,
        },
    decreases v,
{
    if budget == 0 {
        proof { lemma_jsize_pos(json_view(*v)); }
        return None;
    }
    match v {
        JsonValue::Object(m) => {
            let ghost s = Seq::new(m@.len(), |k: int| (m@[k].0@, json_view(m@[k].1)));
            proof { lemma_object_view(*m); assert(s.take(0) =~= Seq::<(Seq<char>, JsonView)>::empty()); }
            let mut total: u64 = 1;
            let mut k: usize = 0;
            while k < m.len()
                invariant
                    k <= m@.len(),
                    *v == JsonValue::Object(*m),
                    json_view(*v) == JsonView::Object(s),
                    s == Seq::new(m@.len(), |k: int| (m@[k].0@, json_view(m@[k].1))),
                    total as nat == 1 + obj_size(s.take(k as int)),
                    total <= budget,
                decreases m@.len() - k,
            {
                proof {
                    lemma_obj_size_take(s, k as int);
                    assert(decreases_to!(*v => (*v)->Object_0));
                    assert(decreases_to!(m => m@));
                    assert(decreases_to!(m@ => m@[k as int]));
                    assert(decreases_to!(m@[k as int] => m@[k as int].1));
                }
                match count_within(&m[k].1, budget - total) {
                    Some(n) => { total = total + n; },
                    None => {
                        proof { lemma_obj_size_take(s, k as int); }
                        return None;
                    },
                }
                k = k + 1;
            }
            proof { assert(s.take(k as int) =~= s); }
            Some(total)
        },
        JsonValue::Array(a) => {
            let ghost s = Seq::new(a@.len(), |k: int| json_view(a@[k]));
            proof { lemma_array_view(*a); assert(s.take(0) =~= Seq::<JsonView>::empty()); }
            let mut total: u64 = 1;
            let mut k: usize = 0;
            while k < a.len()
                invariant
                    k <= a@.len(),
                    *v == JsonValue::Array(*a),
                    json_view(*v) == JsonView::Array(s),
                    s == Seq::new(a@.len(), |k: int| json_view(a@[k])),
                    total as nat == 1 + arr_size(s.take(k as int)),
                    total <= budget,
                decreases a@.len() - k,
            {
                proof {
                    lemma_arr_size_take(s, k as int);
                    assert(decreases_to!(*v => (*v)->Array_0));
                    assert(decreases_to!(a => a@));
                    assert(decreases_to!(a@ => a@[k as int]));
                }
                match count_within(&a[k], budget - total) {
                    Some(n) => { total = total + n; },
                    None => { return None; },
                }
                k = k + 1;
            }
            proof { assert(s.take(k as int) =~= s); }
            Some(total)
        },
        _ => Some(1),
    }
}

/// The tree of a value, nodes in depth-first pre-order from the root.
pub fn tree_from_value(value: &JsonValue) -> (t: Tree)
    requires
        jsize(json_view(*value)) <= u32::MAX + 1,
        jnest(json_view(*value)) <= u32::MAX,
    ensures
        t@ == flatten(json_view(*value), None, None, 0, 0),
        tree_wf(t@),
{
    proof { lemma_tree_wf(json_view(*value)); }
    let mut nodes: Vec<FlatNode> = Vec::new();
    build(value, None, None, 0, &mut nodes);
    assert(node_views(Seq::<FlatNode>::empty()) =~= Seq::<NodeView>::empty());
    assert(Seq::<NodeView>::empty() + flatten(json_view(*value), None, None, 0, 0) =~= flatten(json_view(*value), None, None, 0, 0));
    Tree { nodes }
}

/// Why a text gave no tree.
#[derive(Debug)]
pub enum TreeError {
    /// The text is not valid JSON.
    Json(serde_json::Error),
    /// The value has more nodes than `u32` ids can number.
    TooLarge,
}

/// Parse JSON text into a flat tree.
pub fn parse(text: &str) -> (r: Result<Tree, TreeError>)
    ensures
        match r {
            Ok(t) => json_text_value(text@) matches Some(v) && jsize(v) <= u32::MAX + 1
                && t@ == flatten(v, None, None, 0, 0) && tree_wf(t@),
            Err(TreeError::Json(_)) => json_text_value(text@) is None,
            Err(TreeError::TooLarge) => json_text_value(text@) matches Some(v) && jsize(v) > u32::MAX + 1,
        },
{
    match parse_json(text) {
        Ok(value) => {
            match count_within(&value, 0x1_0000_0000u64) {
                Some(_) => Ok(tree_from_value(&value)),
                None => Err(TreeError::TooLarge),
            }
        },
        Err(e) => Err(TreeError::Json(e)),
    }
}

impl Tree {
    /// The root node.
    pub fn root(&self) -> (r: &FlatNode)
        requires
            self.nodes@.len() > 0,
        ensures
            *r == self.nodes@[0],
    {
        &self.nodes[0]
    }

    /// The node with id `id`.
    pub fn node(&self, id: u32) -> (r: &FlatNode)
        requires
            id < self.nodes@.len(),
        ensures
            *r == self.nodes@[id as int],
    {
        &self.nodes[id as usize]
    }

    /// Whether node `id` is an object or an array.
    pub fn is_container(&self, id: u32) -> (r: bool)
        requires
            id < self.nodes@.len(),
        ensures
            r == is_container_kind(self@[id as int].kind),
    {
        match self.nodes[id as usize].kind {
            NodeKind::Object | NodeKind::Array => true,
            _ => false,
        }
    }

    /// Whether node `id` is an object or an array with no children.
    pub fn is_empty_container(&self, id: u32) -> (r: bool)
        requires
            id < self.nodes@.len(),
        ensures
            r == (is_container_kind(self@[id as int].kind) && self@[id as int].children.len() == 0),
    {
        self.is_container(id) && self.nodes[id as usize].children.len() == 0
    }
}

/// An object or array node.
pub open spec fn is_container_kind(k: KindView) -> bool {
    k is Object || k is Array
}

/// Nodes placed from id `base` on link parents and children soundly: every
/// child id of a node lies after it and inside the nodes, and that child
/// names the node as its parent and sits one level deeper.
pub open spec fn edges_ok(g: Seq<NodeView>, base: int) -> bool {
    forall|i: int, k: int| #![trigger g[i].children[k]]
        0 <= i < g.len() && 0 <= k < g[i].children.len() ==> {
            let c = g[i].children[k] as int;
            &&& base + i < c < base + g.len()
            &&& g[c - base].parent == Some((base + i) as nat)
            &&& g[c - base].depth == g[i].depth + 1
        }
}

/// A tree's nodes link soundly and its root has no parent: parents come
/// before their children, and each child names its parent and sits one
/// level deeper.
pub open spec fn tree_wf(t: Seq<NodeView>) -> bool {
    &&& t.len() > 0
    &&& t[0].parent is None
    &&& t[0].depth == 0
    &&& edges_ok(t, 0)
}

/// Two sound runs of nodes, the second placed right after the first, make
/// one sound run.
pub proof fn lemma_edges_concat(a: Seq<NodeView>, b: Seq<NodeView>, base: int)
    requires
        edges_ok(a, base),
        edges_ok(b, base + a.len()),
    ensures
        edges_ok(a + b, base),
{
    let g = a + b;
    assert forall|i: int, k: int| #![trigger g[i].children[k]]
        0 <= i < g.len() && 0 <= k < g[i].children.len() implies {
            let c = g[i].children[k] as int;
            &&& base + i < c < base + g.len()
            &&& g[c - base].parent == Some((base + i) as nat)
            &&& g[c - base].depth == g[i].depth + 1
        } by {
        if i < a.len() {
            assert(g[i] == a[i]);
            let c = a[i].children[k] as int;
            assert(g[c - base] == a[c - base]);
        } else {
            let j = i - a.len();
            assert(g[i] == b[j]);
            let c = b[j].children[k] as int;
            assert(g[c - base] == b[c - base - a.len()]);
        }
    }
}

/// The subtrees of an object's entries link soundly, and each entry's root
/// sits at its place below `pid`.
pub proof fn lemma_obj_flat_ok(s: Seq<(Seq<char>, JsonView)>, pid: nat, d: nat, start: nat)
    ensures
        edges_ok(obj_flat(s, pid, d, start), start as int),
        obj_flat(s, pid, d, start).len() == obj_size(s),
        forall|k: int| 0 <= k < s.len() ==> {
            let r = #[trigger] obj_size(s.take(k)) as int;
            &&& r < obj_size(s)
            &&& obj_flat(s, pid, d, start)[r].parent == Some(pid)
            &&& obj_flat(s, pid, d, start)[r].depth == d
        },
    decreases s, 1int,
{
    if s.len() == 0 {
    } else {
        let n = s.len() - 1;
        let init = s.subrange(0, n);
        let g1 = obj_flat(init, pid, d, start);
        let f = flatten(s[n].1, Some(pid), Some(s[n].0), d, start + obj_size(init));
        lemma_obj_flat_ok(init, pid, d, start);
        lemma_flatten_ok(s[n].1, Some(pid), Some(s[n].0), d, start + obj_size(init));
        lemma_edges_concat(g1, f, start as int);
        assert(obj_flat(s, pid, d, start) == g1 + f);
        assert forall|k: int| 0 <= k < s.len() implies {
            let r = #[trigger] obj_size(s.take(k)) as int;
            &&& r < obj_size(s)
            &&& obj_flat(s, pid, d, start)[r].parent == Some(pid)
            &&& obj_flat(s, pid, d, start)[r].depth == d
        } by {
            lemma_obj_size_take(s, k);
            lemma_jsize_pos(s[k].1);
            if k < n {
                assert(init.take(k) == s.take(k));
                assert((g1 + f)[obj_size(s.take(k)) as int] == g1[obj_size(init.take(k)) as int]);
            } else {
                assert(s.take(k) == init);
            }
        }
    }
}

/// The subtrees of an array's items link soundly, and each item's root
/// sits at its place below `pid`.
pub proof fn lemma_arr_flat_ok(s: Seq<JsonView>, pid: nat, d: nat, start: nat)
    ensures
        edges_ok(arr_flat(s, pid, d, start), start as int),
        arr_flat(s, pid, d, start).len() == arr_size(s),
        forall|k: int| 0 <= k < s.len() ==> {
            let r = #[trigger] arr_size(s.take(k)) as int;
            &&& r < arr_size(s)
            &&& arr_flat(s, pid, d, start)[r].parent == Some(pid)
            &&& arr_flat(s, pid, d, start)[r].depth == d
        },
    decreases s, 1int,
{
    if s.len() == 0 {
    } else {
        let n = s.len() - 1;
        let init = s.subrange(0, n);
        let g1 = arr_flat(init, pid, d, start);
        let f = flatten(s[n], Some(pid), None, d, start + arr_size(init));
        lemma_arr_flat_ok(init, pid, d, start);
        lemma_flatten_ok(s[n], Some(pid), None, d, start + arr_size(init));
        lemma_edges_concat(g1, f, start as int);
        assert(arr_flat(s, pid, d, start) == g1 + f);
        assert forall|k: int| 0 <= k < s.len() implies {
            let r = #[trigger] arr_size(s.take(k)) as int;
            &&& r < arr_size(s)
            &&& arr_flat(s, pid, d, start)[r].parent == Some(pid)
            &&& arr_flat(s, pid, d, start)[r].depth == d
        } by {
            lemma_arr_size_take(s, k);
            lemma_jsize_pos(s[k]);
            if k < n {
                assert(init.take(k) == s.take(k));
                assert((g1 + f)[arr_size(s.take(k)) as int] == g1[arr_size(init.take(k)) as int]);
            } else {
                assert(s.take(k) == init);
            }
        }
    }
}

/// A value's flattened tree links soundly, with its root first.
pub proof fn lemma_flatten_ok(v: JsonView, parent: Option<nat>, key: Option<Seq<char>>, depth: nat, id: nat)
    ensures
        edges_ok(flatten(v, parent, key, depth, id), id as int),
        flatten(v, parent, key, depth, id).len() == jsize(v),
        flatten(v, parent, key, depth, id)[0].parent == parent,
        flatten(v, parent, key, depth, id)[0].depth == depth,
    decreases v, 0int,
{
    let f = flatten(v, parent, key, depth, id);
    match v {
        JsonView::Object(s) => {
            let g = obj_flat(s, id, depth + 1, id + 1);
            lemma_obj_flat_ok(s, id, depth + 1, id + 1);
            let node = f[0];
            assert(f == seq![node] + g);
            assert forall|i: int, k: int| #![trigger f[i].children[k]]
                0 <= i < f.len() && 0 <= k < f[i].children.len() implies {
                    let c = f[i].children[k] as int;
                    &&& id + i < c < id + f.len()
                    &&& f[c - id].parent == Some((id + i) as nat)
                    &&& f[c - id].depth == f[i].depth + 1
                } by {
                if i == 0 {
                    assert(f[0].children[k] == id + 1 + obj_size(s.take(k)));
                    let r = obj_size(s.take(k)) as int;
                    assert(f[1 + r] == g[r]);
                } else {
                    assert(f[i] == g[i - 1]);
                    let c = g[i - 1].children[k] as int;
                    assert(f[c - id] == g[c - (id + 1)]);
                }
            }
        },
        JsonView::Array(s) => {
            let g = arr_flat(s, id, depth + 1, id + 1);
            lemma_arr_flat_ok(s, id, depth + 1, id + 1);
            let node = f[0];
            assert(f == seq![node] + g);
            assert forall|i: int, k: int| #![trigger f[i].children[k]]
                0 <= i < f.len() && 0 <= k < f[i].children.len() implies {
                    let c = f[i].children[k] as int;
                    &&& id + i < c < id + f.len()
                    &&& f[c - id].parent == Some((id + i) as nat)
                    &&& f[c - id].depth == f[i].depth + 1
                } by {
                if i == 0 {
                    assert(f[0].children[k] == id + 1 + arr_size(s.take(k)));
                    let r = arr_size(s.take(k)) as int;
                    assert(f[1 + r] == g[r]);
                } else {
                    assert(f[i] == g[i - 1]);
                    let c = g[i - 1].children[k] as int;
                    assert(f[c - id] == g[c - (id + 1)]);
                }
            }
        },
        _ => {},
    }
}

/// The tree of any value is well formed: the root comes first with no
/// parent, every parent comes before its children, and each child names
/// its parent and sits one level deeper.
pub proof fn lemma_tree_wf(v: JsonView)
    ensures
        tree_wf(flatten(v, None, None, 0, 0)),
{
    lemma_flatten_ok(v, None, None, 0, 0);
    lemma_jsize_pos(v);
}

} // verus!
