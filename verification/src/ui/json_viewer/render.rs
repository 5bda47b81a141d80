//! Rendering a JSON tree into rows. Every row reads
//! `<outer prefix><indent><marker><content>`: the indent is two spaces per
//! level, and the marker is a two-column cell (`▼` for an expanded
//! container, `▶` for a collapsed one, blank otherwise) so that contents
//! line up. A collapsed container shows a one-line summary of its
//! entries; long strings are cut to fit the width with `…`.

use vstd::prelude::*;
use crate::text::strings::{decimal, decimal_string, push_char, push_str, to_chars};
use crate::text::width::{str_width, unicode_str_width};
use crate::text::wrap::{sat_sub, spaces};
use crate::ui::json_viewer::lexer::{kw_false, kw_null, kw_true};
use crate::ui::json_viewer::state::JsonViewerState;
use crate::ui::json_viewer::tree::{
    FlatNode, KindView, NodeKind, NodeView, Tree, edges_ok, is_container_kind, node_view, node_views, tree_wf,
};

verus! {

/// How a piece of a rendered JSON row is shown.
#[derive(Debug, Clone, Copy, PartialEq, Eq)]
pub enum JsonStyle {
    /// Unstyled (prefix, indent, blank marker).
    Raw,
    /// A fold marker, `▼` or `▶`.
    Marker,
    /// An object key at a depth.
    Key(usize),
    /// `: ` and `,`.
    Punct,
    Null,
    Bool,
    Num,
    Str,
    /// A nested container in a summary, `{…}` or `[…]`.
    Fold,
    /// A bracket at a depth.
    Brace(usize),
    /// A summary's `…` and item count.
    Dim,
}

/// A styled piece of a row.
#[derive(Debug)]
pub struct JsonSpan {
    pub text: String,
    pub style: JsonStyle,
}

/// A span as text and style.
pub type SpanV = (Seq<char>, JsonStyle);

/// A row as spans and click target.
pub type RowV = (Seq<SpanV>, Option<(Seq<char>, nat)>);

/// The view of a row's spans.
pub open spec fn spans_view(v: Seq<JsonSpan>) -> Seq<SpanV> {
    v.map_values(|s: JsonSpan| (s.text@, s.style))
}

/// `s` between double quotes.
pub open spec fn quoted(s: Seq<char>) -> Seq<char> {
    seq!['"'] + s + seq!['"']
}

/// The longest prefix of `s` whose chars, each measured alone, fit in
/// `budget` columns.
pub open spec fn str_fit(s: Seq<char>, budget: nat) -> Seq<char>
    decreases s.len(),
{
    if s.len() == 0 {
        seq![]
    } else {
        let cw = unicode_str_width(seq![s[0]]) as nat;
        if cw > budget { seq![] } else { seq![s[0]] + str_fit(s.drop_first(), (budget - cw) as nat) }
    }
}

/// `"` + the part of `s` that fits `budget` + `…"`.
pub open spec fn cut_quoted(s: Seq<char>, budget: nat) -> Seq<char> {
    seq!['"'] + str_fit(s, budget) + seq!['\u{2026}', '"']
}

/// The total width of some spans.
pub open spec fn widths(sp: Seq<SpanV>) -> nat
    decreases sp.len(),
{
    if sp.len() == 0 { 0 } else { widths(sp.drop_last()) + unicode_str_width(sp.last().0) as nat }
}

/// `{` or `[`.
pub open spec fn open_of(k: KindView) -> Seq<char> {
    if k is Object { seq!['{'] } else { seq!['['] }
}

/// `}` or `]`.
pub open spec fn close_of(k: KindView) -> Seq<char> {
    if k is Object { seq!['}'] } else { seq![']'] }
}

/// `,` after a value that has a sibling after it.
pub open spec fn comma_part(comma: bool) -> Seq<SpanV> {
    if comma { seq![(seq![','], JsonStyle::Punct)] } else { seq![] }
}

/// `"key": ` for an object entry, at its depth.
pub open spec fn key_part(n: NodeView) -> Seq<SpanV> {
    match n.key {
        Some(k) => seq![(quoted(k), JsonStyle::Key(n.depth as usize)), (seq![':', ' '], JsonStyle::Punct)],
        None => seq![],
    }
}

/// A leaf's value, with a string cut to fit `w` columns (when `w` leaves
/// room for the quotes and `…`).
pub open spec fn leaf_value(k: KindView, w: nat) -> Seq<SpanV> {
    match k {
        KindView::Null => seq![(kw_null(), JsonStyle::Null)],
        KindView::Bool(b) => seq![(if b { kw_true() } else { kw_false() }, JsonStyle::Bool)],
        KindView::Number(n) => seq![(n, JsonStyle::Num)],
        KindView::Str(s) => {
            let q = quoted(s);
            seq![(if unicode_str_width(q) > w && w >= 3 { cut_quoted(s, (w - 3) as nat) } else { q }, JsonStyle::Str)]
        },
        KindView::Object => seq![(seq!['{', '\u{2026}', '}'], JsonStyle::Fold)],
        KindView::Array => seq![(seq!['[', '\u{2026}', ']'], JsonStyle::Fold)],
    }
}

/// An entry inside a summary: `"key": value` for object entries, the value
/// alone for array items, strings cut at 20 columns, nested containers as
/// `{…}` / `[…]`.
pub open spec fn preview(n: NodeView) -> Seq<SpanV> {
    key_part(n) + match n.kind {
        KindView::Str(s) => seq![(if unicode_str_width(s) <= 20 { quoted(s) } else { cut_quoted(s, 20) }, JsonStyle::Str)],
        _ => leaf_value(n.kind, 0),
    }
}

/// The previews of children `k..` that fit `budget` after `used` columns,
/// joined by `, `; and how many children were shown in all.
pub open spec fn summary_items(t: Seq<NodeView>, cs: Seq<nat>, k: nat, used: nat, budget: nat) -> (Seq<SpanV>, nat)
    decreases cs.len() - k,
{
    if k >= cs.len() {
        (seq![], k)
    } else {
        let p = preview(t[cs[k as int] as int]);
        let sep: nat = if k == 0 { 0 } else { 2 };
        if used + sep + widths(p) > budget {
            (seq![], k)
        } else {
            let r = summary_items(t, cs, k + 1, used + sep + widths(p), budget);
            ((if k > 0 { seq![(seq![',', ' '], JsonStyle::Punct)] } else { seq![] }) + p + r.0, r.1)
        }
    }
}

/// ` (N)` after an array's summary.
pub open spec fn count_suffix(n: NodeView) -> Seq<char> {
    if n.kind is Array { seq![' ', '('] + decimal(n.children.len()) + seq![')'] } else { seq![] }
}

/// A collapsed container's one-line summary within `w` columns: the
/// opening bracket, the previews that fit, `…` when some were left out,
/// the closing bracket, and for arrays the item count.
pub open spec fn summary(t: Seq<NodeView>, id: nat, w: nat) -> Seq<SpanV> {
    let n = t[id as int];
    let d = n.depth as usize;
    let suffix = count_suffix(n);
    let reserved = unicode_str_width(close_of(n.kind)) as nat + unicode_str_width(suffix) as nat + 3;
    let budget = sat_sub(w, 1 + reserved);
    let items = summary_items(t, n.children, 0, 0, budget);
    seq![(open_of(n.kind), JsonStyle::Brace(d))] + items.0
        + (if items.1 < n.children.len() {
            (if items.1 > 0 { seq![(seq![',', ' '], JsonStyle::Punct)] } else { seq![] })
                + seq![(seq!['\u{2026}'], JsonStyle::Dim)]
        } else { seq![] })
        + seq![(close_of(n.kind), JsonStyle::Brace(d))]
        + (if suffix.len() > 0 { seq![(suffix, JsonStyle::Dim)] } else { seq![] })
}

/// Columns left for a value after the head spans and a trailing comma.
pub open spec fn room(w: nat, head: Seq<SpanV>, comma: bool) -> nat {
    sat_sub(sat_sub(w, widths(head)), if comma { 1 } else { 0 })
}

/// The row of a leaf.
pub open spec fn leaf_row(n: NodeView, prefix: Seq<char>, w: nat, comma: bool) -> Seq<SpanV> {
    let head = seq![(prefix + spaces(2 * n.depth) + spaces(2), JsonStyle::Raw)] + key_part(n);
    head + leaf_value(n.kind, room(w, head, comma)) + comma_part(comma)
}

/// The row of a collapsed (or empty) container.
pub open spec fn collapsed_row(t: Seq<NodeView>, id: nat, prefix: Seq<char>, w: nat, comma: bool) -> Seq<SpanV> {
    let n = t[id as int];
    let empty = n.children.len() == 0;
    let head = seq![(prefix + spaces(2 * n.depth), JsonStyle::Raw),
        if empty { (spaces(2), JsonStyle::Raw) } else { (seq!['\u{25b6}', ' '], JsonStyle::Marker) }] + key_part(n);
    let body = if empty {
        seq![(open_of(n.kind) + close_of(n.kind), JsonStyle::Brace(n.depth as usize))]
    } else {
        summary(t, id, room(w, head, comma))
    };
    head + body + comma_part(comma)
}

/// The opening row of an expanded container.
pub open spec fn opener_row(n: NodeView, prefix: Seq<char>) -> Seq<SpanV> {
    seq![(prefix + spaces(2 * n.depth), JsonStyle::Raw), (seq!['\u{25bc}', ' '], JsonStyle::Marker)]
        + key_part(n) + seq![(open_of(n.kind), JsonStyle::Brace(n.depth as usize))]
}

/// The closing row of an expanded container.
pub open spec fn closer_row(n: NodeView, prefix: Seq<char>, comma: bool) -> Seq<SpanV> {
    seq![(prefix + spaces(2 * n.depth), JsonStyle::Raw), (spaces(2), JsonStyle::Raw),
        (close_of(n.kind), JsonStyle::Brace(n.depth as usize))] + comma_part(comma)
}

/// Whether node `id` is expanded in the fold flags.
pub open spec fn expanded_at(ex: Seq<bool>, id: nat) -> bool {
    id < ex.len() && ex[id as int]
}

/// The rows of node `id` and its subtree: a leaf's row; a collapsed or
/// empty container's summary row (clickable unless empty); or an expanded
/// container's opening row (clickable), its children's rows — each but
/// the last with a trailing comma — and its closing row.
pub open spec fn render_rows(t: Seq<NodeView>, ex: Seq<bool>, sk: Seq<char>, prefix: Seq<char>, w: nat, id: nat, comma: bool) -> Seq<RowV>
    decreases t.len() - id, 1int, 0int,
{
    if id >= t.len() {
        seq![]
    } else {
        let n = t[id as int];
        if !is_container_kind(n.kind) {
            seq![(leaf_row(n, prefix, w, comma), None)]
        } else if !expanded_at(ex, id) || n.children.len() == 0 {
            seq![(collapsed_row(t, id, prefix, w, comma), if n.children.len() == 0 { None } else { Some((sk, id)) })]
        } else {
            seq![(opener_row(n, prefix), Some((sk, id)))] + child_rows(t, ex, sk, prefix, w, id, 0)
                + seq![(closer_row(n, prefix, comma), None)]
        }
    }
}

/// The rows of the children of `id` from child `k` on.
pub open spec fn child_rows(t: Seq<NodeView>, ex: Seq<bool>, sk: Seq<char>, prefix: Seq<char>, w: nat, id: nat, k: nat) -> Seq<RowV>
    decreases t.len() - id, 0int, t[id as int].children.len() - k,
{
    if id >= t.len() || k >= t[id as int].children.len() {
        seq![]
    } else {
        let cs = t[id as int].children;
        let c = cs[k as int];
        (if id < c < t.len() { render_rows(t, ex, sk, prefix, w, c, k + 1 < cs.len()) } else { seq![] })
            + child_rows(t, ex, sk, prefix, w, id, k + 1)
    }
}

/// Pushing a span pushes its view.
pub proof fn lemma_spans_view_push(v: Seq<JsonSpan>, x: JsonSpan)
    ensures
        spans_view(v.push(x)) == spans_view(v).push((x.text@, x.style)),
{
    assert(spans_view(v.push(x)) =~= spans_view(v).push((x.text@, x.style)));
}

/// Appending spans appends their views.
pub proof fn lemma_spans_view_add(a: Seq<JsonSpan>, b: Seq<JsonSpan>)
    ensures
        spans_view(a + b) == spans_view(a) + spans_view(b),
{
    assert(spans_view(a + b) =~= spans_view(a) + spans_view(b));
}

/// Push a span.
fn push_span(v: &mut Vec<JsonSpan>, text: String, style: JsonStyle)
    ensures
        spans_view(final(v)@) == spans_view(old(v)@).push((text@, style)),
{
    proof { lemma_spans_view_push(v@, JsonSpan { text, style }); }
    v.push(JsonSpan { text, style });
}

/// Move all spans of `src` to the end of `dst`.
fn extend_spans(dst: &mut Vec<JsonSpan>, src: Vec<JsonSpan>)
    ensures
        spans_view(final(dst)@) == spans_view(old(dst)@) + spans_view(src@),
{
    let mut src = src;
    proof { lemma_spans_view_add(dst@, src@); }
    dst.append(&mut src);
}

/// An owned copy of a string slice.
fn owned(s: &str) -> (r: String)
    ensures
        r@ == s@,
{
    let mut r = String::new();
    push_str(&mut r, s);
    assert(r@ =~= s@);
    r
}

/// The total width of spans, or `usize::MAX` when it is larger.
fn width_of(v: &Vec<JsonSpan>) -> (r: usize)
    ensures
        r as nat == (if widths(spans_view(v@)) <= usize::MAX { widths(spans_view(v@)) } else { usize::MAX as nat }),
{
    let ghost sv = spans_view(v@);
    let mut acc: usize = 0;
    let mut k: usize = 0;
    assert(sv.take(0) =~= Seq::<SpanV>::empty());
    while k < v.len()
        invariant
            k <= v@.len(),
            sv == spans_view(v@),
            acc as nat == (if widths(sv.take(k as int)) <= usize::MAX { widths(sv.take(k as int)) } else { usize::MAX as nat }),
        decreases v@.len() - k,
    {
        let w = str_width(v[k].text.as_str());
        assert(sv.take(k as int + 1).drop_last() == sv.take(k as int));
        assert(sv.take(k as int + 1).last() == sv[k as int]);
        if w > usize::MAX - acc {
            acc = usize::MAX;
        } else {
            acc = acc + w;
        }
        k = k + 1;
    }
    assert(sv.take(k as int) == sv);
    acc
}

/// Columns left for a value after `head` and a trailing comma.
fn room_after(w: usize, head: &Vec<JsonSpan>, comma: bool) -> (r: usize)
    ensures
        r as nat == room(w as nat, spans_view(head@), comma),
{
    let used = width_of(head);
    let left = if w >= used { w - used } else { 0 };
    if comma { if left >= 1 { left - 1 } else { 0 } } else { left }
}

/// The part of `s` whose chars, each measured alone, fit `budget` columns.
fn fit_chars(s: &String, budget: usize) -> (r: String)
    ensures
        r@ == str_fit(s@, budget as nat),
{
    let v = to_chars(s.as_str());
    let mut out = String::new();
    let mut used: usize = 0;
    let mut k: usize = 0;
    assert(v@.skip(0) == v@);
    while k < v.len()
        invariant
            k <= v@.len(),
            used <= budget,
            v@ == s@,
            out@ + str_fit(v@.skip(k as int), (budget - used) as nat) == str_fit(s@, budget as nat),
        ensures
            out@ == str_fit(s@, budget as nat),
        decreases v@.len() - k,
    {
        let c = v[k];
        let mut one = String::new();
        push_char(&mut one, c);
        let cw = str_width(one.as_str());
        assert(v@.skip(k as int)[0] == c);
        assert(v@.skip(k as int).drop_first() == v@.skip(k as int + 1));
        assert(one@ =~= seq![c]);
        if cw > budget - used {
            assert(out@ + Seq::<char>::empty() == out@);
            break;
        }
        assert(out@ + (seq![c] + str_fit(v@.skip(k as int + 1), (budget - used - cw) as nat))
            == out@.push(c) + str_fit(v@.skip(k as int + 1), (budget - used - cw) as nat));
        push_char(&mut out, c);
        used = used + cw;
        k = k + 1;
    }
    proof {
        if k == v.len() {
            assert(v@.skip(k as int) =~= Seq::<char>::empty());
            assert(out@ + Seq::<char>::empty() == out@);
        }
    }
    out
}

/// `"` + the fitting part of `s` + `…"`.
fn cut_string(s: &String, budget: usize) -> (r: String)
    ensures
        r@ == cut_quoted(s@, budget as nat),
{
    let mut r = String::new();
    push_char(&mut r, '"');
    let part = fit_chars(s, budget);
    push_str(&mut r, part.as_str());
    push_char(&mut r, '\u{2026}');
    push_char(&mut r, '"');
    assert(r@ =~= cut_quoted(s@, budget as nat));
    r
}

/// `s` between double quotes.
fn quote(s: &String) -> (r: String)
    ensures
        r@ == quoted(s@),
{
    let mut r = String::new();
    push_char(&mut r, '"');
    push_str(&mut r, s.as_str());
    push_char(&mut r, '"');
    assert(r@ =~= quoted(s@));
    r
}

/// Push `"key": ` for an object entry.
fn push_key_part(v: &mut Vec<JsonSpan>, node: &FlatNode)
    ensures
        spans_view(final(v)@) == spans_view(old(v)@) + key_part(node_view(*node)),
{
    match &node.key {
        Some(k) => {
            push_span(v, quote(k), JsonStyle::Key(node.depth as usize));
            let colon = owned(": ");
            proof { reveal_strlit(": "); assert(": "@ =~= seq![':', ' ']); }
            push_span(v, colon, JsonStyle::Punct);
            assert(spans_view(v@) =~= spans_view(old(v)@) + key_part(node_view(*node)));
        },
        None => {
            assert(spans_view(v@) =~= spans_view(old(v)@) + key_part(node_view(*node)));
        },
    }
}

/// The text of a keyword.
fn keyword_text(k: &NodeKind) -> (r: String)
    requires
        k is Null || k is Bool,
    ensures
        r@ == (match *k { NodeKind::Bool(true) => kw_true(), NodeKind::Bool(false) => kw_false(), _ => kw_null() }),
{
    proof {
        reveal_strlit("null");
        reveal_strlit("true");
        reveal_strlit("false");
        assert("null"@ =~= kw_null());
        assert("true"@ =~= kw_true());
        assert("false"@ =~= kw_false());
    }
    match k {
        NodeKind::Bool(true) => owned("true"),
        NodeKind::Bool(false) => owned("false"),
        _ => owned("null"),
    }
}

/// Push a leaf's value, a string cut to fit `w` columns.
fn push_leaf_value(v: &mut Vec<JsonSpan>, kind: &NodeKind, w: usize)
    ensures
        spans_view(final(v)@) == spans_view(old(v)@) + leaf_value(crate::ui::json_viewer::tree::kind_view(*kind), w as nat),
{
    let ghost before = spans_view(v@);
    match kind {
        NodeKind::Null => { push_span(v, keyword_text(kind), JsonStyle::Null); },
        NodeKind::Bool(_) => { push_span(v, keyword_text(kind), JsonStyle::Bool); },
        NodeKind::Number(n) => { push_span(v, n.clone(), JsonStyle::Num); },
        NodeKind::String(t) => {
            let q = quote(t);
            let qw = str_width(q.as_str());
            if qw > w && w >= 3 {
                push_span(v, cut_string(t, w - 3), JsonStyle::Str);
            } else {
                push_span(v, q, JsonStyle::Str);
            }
        },
        NodeKind::Object => {
            let mut f = String::new();
            push_char(&mut f, '{');
            push_char(&mut f, '\u{2026}');
            push_char(&mut f, '}');
            assert(f@ =~= seq!['{', '\u{2026}', '}']);
            push_span(v, f, JsonStyle::Fold);
        },
        NodeKind::Array => {
            let mut f = String::new();
            push_char(&mut f, '[');
            push_char(&mut f, '\u{2026}');
            push_char(&mut f, ']');
            assert(f@ =~= seq!['[', '\u{2026}', ']']);
            push_span(v, f, JsonStyle::Fold);
        },
    }
    assert(spans_view(v@) =~= before + leaf_value(crate::ui::json_viewer::tree::kind_view(*kind), w as nat));
}

/// The preview of child `cid` inside a summary.
fn preview_child(tree: &Tree, cid: u32) -> (r: Vec<JsonSpan>)
    requires
        cid < tree.nodes@.len(),
    ensures
        spans_view(r@) == preview(tree@[cid as int]),
{
    let node = tree.node(cid);
    let mut v: Vec<JsonSpan> = Vec::new();
    assert(spans_view(v@) =~= Seq::<SpanV>::empty());
    push_key_part(&mut v, node);
    let ghost head = spans_view(v@);
    match &node.kind {
        NodeKind::String(t) => {
            let tw = str_width(t.as_str());
            if tw <= 20 {
                push_span(&mut v, quote(t), JsonStyle::Str);
            } else {
                push_span(&mut v, cut_string(t, 20), JsonStyle::Str);
            }
        },
        _ => {
            push_leaf_value(&mut v, &node.kind, 0);
        },
    }
    assert(spans_view(v@) =~= preview(tree@[cid as int]));
    v
}

/// `{` / `[` and `}` / `]` for a container.
fn brackets(kind: &NodeKind) -> (r: (String, String))
    ensures
        r.0@ == open_of(crate::ui::json_viewer::tree::kind_view(*kind)),
        r.1@ == close_of(crate::ui::json_viewer::tree::kind_view(*kind)),
{
    let mut o = String::new();
    let mut c = String::new();
    match kind {
        NodeKind::Object => { push_char(&mut o, '{'); push_char(&mut c, '}'); },
        _ => { push_char(&mut o, '['); push_char(&mut c, ']'); },
    }
    assert(o@ =~= open_of(crate::ui::json_viewer::tree::kind_view(*kind)));
    assert(c@ =~= close_of(crate::ui::json_viewer::tree::kind_view(*kind)));
    (o, c)
}

/// A child of a node of a well-formed tree comes after it, inside the tree.
pub proof fn lemma_child_after(t: Seq<NodeView>, i: int, k: int)
    requires
        tree_wf(t),
        0 <= i < t.len(),
        0 <= k < t[i].children.len(),
    ensures
        i < t[i].children[k] < t.len(),
{
    assert(edges_ok(t, 0));
    let c = t[i].children[k];
    assert(0 + i < c < 0 + t.len());
}

/// `, `; returns how many were pushed.
fn push_previews(spans: &mut Vec<JsonSpan>, tree: &Tree, id: u32, budget: usize) -> (emitted: usize)
    requires
        tree_wf(tree@),
        id < tree.nodes@.len(),
        budget < usize::MAX,
    ensures
        spans_view(final(spans)@) == spans_view(old(spans)@) + summary_items(tree@, tree@[id as int].children, 0, 0, budget as nat).0,
        emitted as nat == summary_items(tree@, tree@[id as int].children, 0, 0, budget as nat).1,
{
    let ghost t = tree@;
    let node = tree.node(id);
    let ghost n = t[id as int];
    assert(n == node_view(*node));
    let count = node.children.len();
    let ghost full = summary_items(t, n.children, 0, 0, budget as nat);
    let ghost first = spans_view(spans@);
    let mut used: usize = 0;
    let mut i: usize = 0;
    while i < count
        invariant
            tree_wf(t),
            t == tree@,
            id < t.len(),
            n == t[id as int],
            n == node_view(*node),
            count == n.children.len(),
            budget < usize::MAX,
            used <= budget,
            i <= count,
            spans_view(spans@) + summary_items(t, n.children, i as nat, used as nat, budget as nat).0 == first + full.0,
            summary_items(t, n.children, i as nat, used as nat, budget as nat).1 == full.1,
        ensures
            spans_view(spans@) == first + full.0,
            i == full.1,
        decreases count - i,
    {
        let cid = node.children[i];
        proof { lemma_child_after(t, id as int, i as int); }
        assert(n.children[i as int] == cid as nat);
        let p = preview_child(tree, cid);
        let chunk = width_of(&p);
        let sep: usize = if i == 0 { 0 } else { 2 };
        let lim = budget - used;
        if sep > lim || chunk > lim - sep {
            assert(spans_view(spans@) + Seq::<SpanV>::empty() == spans_view(spans@));
            break;
        }
        let ghost before = spans_view(spans@);
        if i > 0 {
            let comma = owned(", ");
            proof { reveal_strlit(", "); assert(", "@ =~= seq![',', ' ']); }
            push_span(spans, comma, JsonStyle::Punct);
        }
        extend_spans(spans, p);
        proof {
            let sepv: Seq<SpanV> = if i > 0 { seq![(seq![',', ' '], JsonStyle::Punct)] } else { seq![] };
            assert(spans_view(spans@) == before + sepv + preview(t[cid as int]));
            let r = summary_items(t, n.children, (i + 1) as nat, (used + sep + chunk) as nat, budget as nat);
            assert(summary_items(t, n.children, i as nat, used as nat, budget as nat).0 == sepv + preview(t[cid as int]) + r.0);
            assert(before + (sepv + preview(t[cid as int]) + r.0) == spans_view(spans@) + r.0);
        }
        used = used + sep + chunk;
        i = i + 1;
    }
    i
}

/// A collapsed container's one-line summary within `max_width` columns.
#[verifier::spinoff_prover]
#[verifier::rlimit(40)]
fn summarize_container(tree: &Tree, id: u32, max_width: usize) -> (r: Vec<JsonSpan>)
    requires
        tree_wf(tree@),
        id < tree.nodes@.len(),
    ensures
        spans_view(r@) == summary(tree@, id as nat, max_width as nat),
{
    let ghost t = tree@;
    let node = tree.node(id);
    let ghost n = t[id as int];
    assert(n == node_view(*node));
    let d = node.depth as usize;
    let (open, close) = brackets(&node.kind);
    let mut spans: Vec<JsonSpan> = Vec::new();
    push_span(&mut spans, open, JsonStyle::Brace(d));
    let count = node.children.len();
    let is_array = match node.kind { NodeKind::Array => true, _ => false };
    let mut suffix = String::new();
    if is_array {
        push_char(&mut suffix, ' ');
        push_char(&mut suffix, '(');
        let digits = decimal_string(count);
        push_str(&mut suffix, digits.as_str());
        push_char(&mut suffix, ')');
    }
    assert(suffix@ =~= count_suffix(n));
    let cw = str_width(close.as_str());
    let sw = str_width(suffix.as_str());
    let budget: usize = if max_width < 4 {
        0
    } else if cw > max_width - 4 {
        0
    } else if sw > max_width - 4 - cw {
        0
    } else {
        max_width - 4 - cw - sw
    };
    let ghost mid = spans_view(spans@);
    let emitted = push_previews(&mut spans, tree, id, budget);
    let ghost items = summary_items(t, n.children, 0, 0, budget as nat);
    if emitted < count {
        if emitted > 0 {
            let comma = owned(", ");
            proof { reveal_strlit(", "); assert(", "@ =~= seq![',', ' ']); }
            push_span(&mut spans, comma, JsonStyle::Punct);
        }
        let mut dots = String::new();
        push_char(&mut dots, '\u{2026}');
        assert(dots@ =~= seq!['\u{2026}']);
        push_span(&mut spans, dots, JsonStyle::Dim);
    }
    push_span(&mut spans, close, JsonStyle::Brace(d));
    if !suffix.as_str().is_empty() {
        push_span(&mut spans, suffix, JsonStyle::Dim);
    }
    assert(budget as nat == sat_sub(max_width as nat, 1 + (unicode_str_width(close_of(n.kind)) as nat
        + unicode_str_width(count_suffix(n)) as nat + 3)));
    assert(spans_view(spans@) =~= summary(tree@, id as nat, max_width as nat));
    spans
}

/// The view of a click target.
pub open spec fn click_view(c: Option<(String, u32)>) -> Option<(Seq<char>, nat)> {
    match c { Some((k, id)) => Some((k@, id as nat)), None => None }
}

/// Rendered rows as spans and click targets, side by side.
pub open spec fn rows_view(out: Seq<Vec<JsonSpan>>, cm: Seq<Option<(String, u32)>>) -> Seq<RowV> {
    Seq::new(out.len(), |i: int| (spans_view(out[i]@), click_view(cm[i])))
}

/// Push a row and its click target.
fn push_row(out: &mut Vec<Vec<JsonSpan>>, cm: &mut Vec<Option<(String, u32)>>, line: Vec<JsonSpan>, click: Option<(String, u32)>)
    requires
        old(out)@.len() == old(cm)@.len(),
    ensures
        final(out)@.len() == final(cm)@.len(),
        rows_view(final(out)@, final(cm)@) == rows_view(old(out)@, old(cm)@).push((spans_view(line@), click_view(click))),
{
    let ghost before = rows_view(out@, cm@);
    out.push(line);
    cm.push(click);
    assert(rows_view(out@, cm@) =~= before.push((spans_view(line@), click_view(click))));
}

/// Append two spaces per level.
fn push_indent(s: &mut String, depth: u32)
    ensures
        final(s)@ == old(s)@ + spaces(2 * depth as nat),
{
    let mut k: u32 = 0;
    while k < depth
        invariant
            k <= depth,
            s@ == old(s)@ + spaces(2 * k as nat),
        decreases depth - k,
    {
        push_char(s, ' ');
        push_char(s, ' ');
        k = k + 1;
        assert(s@ =~= old(s)@ + spaces(2 * k as nat));
    }
}

/// The `,` span after a value with a sibling after it.
fn push_comma(v: &mut Vec<JsonSpan>, comma: bool)
    ensures
        spans_view(final(v)@) == spans_view(old(v)@) + comma_part(comma),
{
    if comma {
        let mut c = String::new();
        push_char(&mut c, ',');
        assert(c@ =~= seq![',']);
        push_span(v, c, JsonStyle::Punct);
        assert(spans_view(v@) =~= spans_view(old(v)@) + comma_part(comma));
    } else {
        assert(spans_view(v@) =~= spans_view(old(v)@) + comma_part(comma));
    }
}

/// `prefix` + the indent of `depth` + optionally two blank columns.
fn lead(prefix: &str, depth: u32, blank_marker: bool) -> (r: String)
    ensures
        r@ == prefix@ + spaces(2 * depth as nat) + (if blank_marker { spaces(2) } else { seq![] }),
{
    let mut r = String::new();
    push_str(&mut r, prefix);
    push_indent(&mut r, depth);
    if blank_marker {
        push_char(&mut r, ' ');
        push_char(&mut r, ' ');
    }
    assert(r@ =~= prefix@ + spaces(2 * depth as nat) + (if blank_marker { spaces(2) } else { seq![] }));
    r
}

/// The row of a leaf node.
fn push_leaf_line(out: &mut Vec<Vec<JsonSpan>>, cm: &mut Vec<Option<(String, u32)>>, tree: &Tree,
    outer_prefix: &str, max_width: usize, id: u32, trailing_comma: bool)
    requires
        id < tree.nodes@.len(),
        old(out)@.len() == old(cm)@.len(),
    ensures
        final(out)@.len() == final(cm)@.len(),
        rows_view(final(out)@, final(cm)@) == rows_view(old(out)@, old(cm)@).push(
            (leaf_row(tree@[id as int], outer_prefix@, max_width as nat, trailing_comma), None)),
{
    let node = tree.node(id);
    let ghost n = tree@[id as int];
    assert(n == node_view(*node));
    let mut spans: Vec<JsonSpan> = Vec::new();
    assert(spans_view(spans@) =~= Seq::<SpanV>::empty());
    push_span(&mut spans, lead(outer_prefix, node.depth, true), JsonStyle::Raw);
    push_key_part(&mut spans, node);
    let rem = room_after(max_width, &spans, trailing_comma);
    push_leaf_value(&mut spans, &node.kind, rem);
    push_comma(&mut spans, trailing_comma);
    assert(spans_view(spans@) =~= leaf_row(n, outer_prefix@, max_width as nat, trailing_comma));
    push_row(out, cm, spans, None);
}

/// The row of a collapsed or empty container.
fn push_container_collapsed(out: &mut Vec<Vec<JsonSpan>>, cm: &mut Vec<Option<(String, u32)>>, tree: &Tree,
    section_key: &str, outer_prefix: &str, max_width: usize, id: u32, trailing_comma: bool)
    requires
        tree_wf(tree@),
        id < tree.nodes@.len(),
        old(out)@.len() == old(cm)@.len(),
    ensures
        final(out)@.len() == final(cm)@.len(),
        rows_view(final(out)@, final(cm)@) == rows_view(old(out)@, old(cm)@).push(
            (collapsed_row(tree@, id as nat, outer_prefix@, max_width as nat, trailing_comma),
             if tree@[id as int].children.len() == 0 { None } else { Some((section_key@, id as nat)) })),
{
    let node = tree.node(id);
    let ghost n = tree@[id as int];
    assert(n == node_view(*node));
    let empty = node.children.len() == 0;
    let mut spans: Vec<JsonSpan> = Vec::new();
    assert(spans_view(spans@) =~= Seq::<SpanV>::empty());
    push_span(&mut spans, lead(outer_prefix, node.depth, false), JsonStyle::Raw);
    if empty {
        let mut m = String::new();
        push_char(&mut m, ' ');
        push_char(&mut m, ' ');
        assert(m@ =~= spaces(2));
        push_span(&mut spans, m, JsonStyle::Raw);
    } else {
        let mut m = String::new();
        push_char(&mut m, '\u{25b6}');
        push_char(&mut m, ' ');
        assert(m@ =~= seq!['\u{25b6}', ' ']);
        push_span(&mut spans, m, JsonStyle::Marker);
    }
    push_key_part(&mut spans, node);
    let ghost head = spans_view(spans@);
    proof {
        let hs = seq![(outer_prefix@ + spaces(2 * n.depth), JsonStyle::Raw),
            if empty { (spaces(2), JsonStyle::Raw) } else { (seq!['\u{25b6}', ' '], JsonStyle::Marker) }] + key_part(n);
        assert(outer_prefix@ + spaces(2 * node.depth as nat) + Seq::<char>::empty() =~= outer_prefix@ + spaces(2 * n.depth));
        assert(head =~= hs);
    }
    let rem = room_after(max_width, &spans, trailing_comma);
    if empty {
        let (o, c) = brackets(&node.kind);
        let mut b = o;
        push_str(&mut b, c.as_str());
        push_span(&mut spans, b, JsonStyle::Brace(node.depth as usize));
    } else {
        let summary_spans = summarize_container(tree, id, rem);
        extend_spans(&mut spans, summary_spans);
    }
    push_comma(&mut spans, trailing_comma);
    assert(spans_view(spans@) =~= collapsed_row(tree@, id as nat, outer_prefix@, max_width as nat, trailing_comma));
    let click = if empty { None } else { Some((owned(section_key), id)) };
    push_row(out, cm, spans, click);
}

/// The opening row of an expanded container.
fn push_container_opener(out: &mut Vec<Vec<JsonSpan>>, cm: &mut Vec<Option<(String, u32)>>, tree: &Tree,
    section_key: &str, outer_prefix: &str, id: u32)
    requires
        id < tree.nodes@.len(),
        old(out)@.len() == old(cm)@.len(),
    ensures
        final(out)@.len() == final(cm)@.len(),
        rows_view(final(out)@, final(cm)@) == rows_view(old(out)@, old(cm)@).push(
            (opener_row(tree@[id as int], outer_prefix@), Some((section_key@, id as nat)))),
{
    let node = tree.node(id);
    let ghost n = tree@[id as int];
    assert(n == node_view(*node));
    let mut spans: Vec<JsonSpan> = Vec::new();
    assert(spans_view(spans@) =~= Seq::<SpanV>::empty());
    push_span(&mut spans, lead(outer_prefix, node.depth, false), JsonStyle::Raw);
    let mut m = String::new();
    push_char(&mut m, '\u{25bc}');
    push_char(&mut m, ' ');
    assert(m@ =~= seq!['\u{25bc}', ' ']);
    push_span(&mut spans, m, JsonStyle::Marker);
    push_key_part(&mut spans, node);
    let (o, _c) = brackets(&node.kind);
    push_span(&mut spans, o, JsonStyle::Brace(node.depth as usize));
    assert(spans_view(spans@) =~= opener_row(n, outer_prefix@));
    push_row(out, cm, spans, Some((owned(section_key), id)));
}

/// The closing row of an expanded container.
fn push_container_closer(out: &mut Vec<Vec<JsonSpan>>, cm: &mut Vec<Option<(String, u32)>>, tree: &Tree,
    outer_prefix: &str, id: u32, trailing_comma: bool)
    requires
        id < tree.nodes@.len(),
        old(out)@.len() == old(cm)@.len(),
    ensures
        final(out)@.len() == final(cm)@.len(),
        rows_view(final(out)@, final(cm)@) == rows_view(old(out)@, old(cm)@).push(
            (closer_row(tree@[id as int], outer_prefix@, trailing_comma), None)),
{
    let node = tree.node(id);
    let ghost n = tree@[id as int];
    assert(n == node_view(*node));
    let mut spans: Vec<JsonSpan> = Vec::new();
    assert(spans_view(spans@) =~= Seq::<SpanV>::empty());
    push_span(&mut spans, lead(outer_prefix, node.depth, false), JsonStyle::Raw);
    let mut m = String::new();
    push_char(&mut m, ' ');
    push_char(&mut m, ' ');
    assert(m@ =~= spaces(2));
    push_span(&mut spans, m, JsonStyle::Raw);
    let (_o, c) = brackets(&node.kind);
    push_span(&mut spans, c, JsonStyle::Brace(node.depth as usize));
    push_comma(&mut spans, trailing_comma);
    assert(spans_view(spans@) =~= closer_row(n, outer_prefix@, trailing_comma));
    push_row(out, cm, spans, None);
}

/// Render node `id` and its subtree; `trailing_comma` says whether a comma
/// follows its value.
fn render_node(out: &mut Vec<Vec<JsonSpan>>, cm: &mut Vec<Option<(String, u32)>>, tree: &Tree,
    state: &JsonViewerState, section_key: &str, outer_prefix: &str, max_width: usize, id: u32,
    trailing_comma: bool)
    requires
        tree_wf(tree@),
        id < tree.nodes@.len(),
        old(out)@.len() == old(cm)@.len(),
    ensures
        final(out)@.len() == final(cm)@.len(),
        rows_view(final(out)@, final(cm)@) == rows_view(old(out)@, old(cm)@) + render_rows(tree@,
            state.expanded@, section_key@, outer_prefix@, max_width as nat, id as nat, trailing_comma),
    decreases tree.nodes@.len() - id,
{
    let ghost t = tree@;
    let ghost ex = state.expanded@;
    let ghost before = rows_view(out@, cm@);
    let node = tree.node(id);
    let ghost n = t[id as int];
    assert(n == node_view(*node));
    let container = match node.kind {
        NodeKind::Object | NodeKind::Array => true,
        _ => false,
    };
    if !container {
        push_leaf_line(out, cm, tree, outer_prefix, max_width, id, trailing_comma);
        return;
    }
    let expanded = state.is_expanded(id);
    let count = node.children.len();
    if !expanded || count == 0 {
        push_container_collapsed(out, cm, tree, section_key, outer_prefix, max_width, id, trailing_comma);
        return;
    }
    push_container_opener(out, cm, tree, section_key, outer_prefix, id);
    let ghost sk = section_key@;
    let ghost pf = outer_prefix@;
    let ghost w = max_width as nat;
    let ghost all = child_rows(t, ex, sk, pf, w, id as nat, 0);
    let ghost opened = rows_view(out@, cm@);
    let mut i: usize = 0;
    while i < count
        invariant
            tree_wf(t),
            t == tree@,
            ex == state.expanded@,
            sk == section_key@,
            pf == outer_prefix@,
            w == max_width as nat,
            id < t.len(),
            n == t[id as int],
            n == node_view(*node),
            count == n.children.len(),
            i <= count,
            out@.len() == cm@.len(),
            rows_view(out@, cm@) + child_rows(t, ex, sk, pf, w, id as nat, i as nat) == opened + all,
        decreases count - i,
    {
        let cid = node.children[i];
        proof { lemma_child_after(t, id as int, i as int); }
        assert(n.children[i as int] == cid as nat);
        let ghost here = rows_view(out@, cm@);
        let ghost next = child_rows(t, ex, sk, pf, w, id as nat, (i + 1) as nat);
        assert(child_rows(t, ex, sk, pf, w, id as nat, i as nat)
            == render_rows(t, ex, sk, pf, w, cid as nat, i + 1 < count) + next);
        render_node(out, cm, tree, state, section_key, outer_prefix, max_width, cid, i + 1 < count);
        assert(here + (render_rows(t, ex, sk, pf, w, cid as nat, i + 1 < count) + next)
            == rows_view(out@, cm@) + next);
        i = i + 1;
    }
    assert(rows_view(out@, cm@) + Seq::<RowV>::empty() == rows_view(out@, cm@));
    push_container_closer(out, cm, tree, outer_prefix, id, trailing_comma);
    assert(rows_view(out@, cm@) =~= before + render_rows(t, ex, sk, pf, w, id as nat, trailing_comma));
}

/// Render a well-formed tree from its root into rows, pushing one click
/// target per row: `Some((section_key, id))` for a foldable container,
/// `None` otherwise. `outer_prefix` starts every row; `max_width` is the
/// width budget including it.
pub fn append_render(out: &mut Vec<Vec<JsonSpan>>, click_map: &mut Vec<Option<(String, u32)>>, tree: &Tree,
    state: &JsonViewerState, section_key: &str, outer_prefix: &str, max_width: usize)
    requires
        tree_wf(tree@),
        old(out)@.len() == old(click_map)@.len(),
    ensures
        final(out)@.len() == final(click_map)@.len(),
        rows_view(final(out)@, final(click_map)@) == rows_view(old(out)@, old(click_map)@) + render_rows(tree@,
            state.expanded@, section_key@, outer_prefix@, max_width as nat, 0, false),
{
    render_node(out, click_map, tree, state, section_key, outer_prefix, max_width, 0, false);
}

} // verus!
