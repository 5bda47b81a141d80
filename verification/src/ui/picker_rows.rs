//! Rows of the device picker: the device container's borders, its blank
//! and waiting rows, and the app cards inside it. Each row is a list of
//! styled spans plus the card that a click on the row selects.

use vstd::prelude::*;
use crate::text::strings::{decimal, decimal_string, owned, push_char, push_str, repeat_char, run};
use crate::text::width::{str_width, unicode_str_width};

verus! {

/// The palette tones the picker paints with.
#[derive(Debug, Clone, Copy, PartialEq, Eq)]
pub enum Tone {
    Base,
    Mantle,
    Surface0,
    Surface1,
    Overlay0,
    Text,
    Subtext0,
    Sapphire,
    Teal,
    Green,
}

/// A styled run of text: foreground (none keeps the terminal's), background
/// and weight.
#[derive(Debug)]
pub struct PickerSpan {
    pub text: String,
    pub fg: Option<Tone>,
    pub bg: Tone,
    pub bold: bool,
}

/// A span as text, foreground, background and weight.
pub type SpanView = (Seq<char>, Option<Tone>, Tone, bool);

impl View for PickerSpan {
    type V = SpanView;

    open spec fn view(&self) -> SpanView {
        (self.text@, self.fg, self.bg, self.bold)
    }
}

/// A full-width row of the picker and the card a click on it selects.
#[derive(Debug)]
pub struct PickerLine {
    pub spans: Vec<PickerSpan>,
    pub click_target: Option<usize>,
}

/// A row as its spans and click target.
pub type LineView = (Seq<SpanView>, Option<usize>);

pub open spec fn spans_view(v: Seq<PickerSpan>) -> Seq<SpanView> {
    v.map_values(|s: PickerSpan| s@)
}

pub open spec fn lines_view(v: Seq<PickerLine>) -> Seq<LineView> {
    v.map_values(|l: PickerLine| l@)
}

impl View for PickerLine {
    type V = LineView;

    open spec fn view(&self) -> LineView {
        (spans_view(self.spans@), self.click_target)
    }
}

/// `a - b`, or zero when `b` is the larger.
pub open spec fn gap(a: int, b: int) -> nat {
    if a > b { (a - b) as nat } else { 0 }
}

/// `n` spaces on background `bg`.
pub open spec fn blank_span(n: nat, bg: Tone) -> SpanView {
    (run(' ', n), None, bg, false)
}

/// The device container's side border.
pub open spec fn device_side() -> SpanView {
    (seq!['\u{2502}'], Some(Tone::Surface0), Tone::Mantle, false)
}

/// The base-coloured fill right of the device container, when the
/// container and its gutter leave room.
pub open spec fn right_tail(inner_w: nat, used: nat) -> Seq<SpanView> {
    if used < inner_w {
        seq![blank_span((inner_w - used) as nat, Tone::Base)]
    } else {
        seq![]
    }
}

impl PickerLine {
    /// A row of `w` spaces on `bg` that selects nothing.
    pub fn plain(w: usize, bg: Tone) -> (r: PickerLine)
        ensures
            r@ == (seq![blank_span(w as nat, bg)], None::<usize>),
    {
        let mut spans: Vec<PickerSpan> = Vec::new();
        put(&mut spans, repeat_char(' ', w), None, bg);
        assert(spans_view(spans@) =~= seq![blank_span(w as nat, bg)]);
        PickerLine { spans, click_target: None }
    }
}

/// A copy of a row's spans.
pub fn copy_spans(v: &Vec<PickerSpan>) -> (r: Vec<PickerSpan>)
    ensures
        spans_view(r@) == spans_view(v@),
{
    let mut r: Vec<PickerSpan> = Vec::new();
    let mut i: usize = 0;
    while i < v.len()
        invariant
            i <= v@.len(),
            spans_view(r@) == spans_view(v@.take(i as int)),
        decreases v@.len() - i,
    {
        let s = &v[i];
        put_styled(&mut r, s.text.clone(), s.fg, s.bg, s.bold);
        assert(v@.take(i + 1) =~= v@.take(i as int).push(v@[i as int]));
        assert(spans_view(v@.take(i + 1)) =~= spans_view(v@.take(i as int)).push(v@[i as int]@));
        i = i + 1;
    }
    assert(v@.take(v@.len() as int) =~= v@);
    r
}

/// Append a span.
fn put_styled(spans: &mut Vec<PickerSpan>, text: String, fg: Option<Tone>, bg: Tone, bold: bool)
    ensures
        spans_view(final(spans)@) == spans_view(old(spans)@).push((text@, fg, bg, bold)),
{
    let ghost t = text@;
    spans.push(PickerSpan { text, fg, bg, bold });
    assert(spans_view(spans@) =~= spans_view(old(spans)@).push((t, fg, bg, bold)));
}

/// Append a span of normal weight.
fn put(spans: &mut Vec<PickerSpan>, text: String, fg: Option<Tone>, bg: Tone)
    ensures
        spans_view(final(spans)@) == spans_view(old(spans)@).push((text@, fg, bg, false)),
{
    put_styled(spans, text, fg, bg, false);
}

/// Append the fill right of the device container.
fn put_right_tail(spans: &mut Vec<PickerSpan>, inner_w: usize, used: usize)
    ensures
        spans_view(final(spans)@) == spans_view(old(spans)@) + right_tail(inner_w as nat, used as nat),
{
    if used < inner_w {
        put(spans, repeat_char(' ', inner_w - used), None, Tone::Base);
    }
    assert(spans_view(spans@) =~= spans_view(old(spans)@) + right_tail(inner_w as nat, used as nat));
}

/// Append a finished row.
fn put_line(lines: &mut Vec<PickerLine>, spans: Vec<PickerSpan>, click_target: Option<usize>)
    ensures
        lines_view(final(lines)@) == lines_view(old(lines)@).push((spans_view(spans@), click_target)),
{
    let ghost sv = spans_view(spans@);
    lines.push(PickerLine { spans, click_target });
    assert(lines_view(lines@) =~= lines_view(old(lines)@).push((sv, click_target)));
}

// ── Device container rows ─────────────────────────────────────────

/// The device's top border: `╭── [Tag] Name ─── Conn · id ──╮`, the dashes
/// filling what the title leaves of the interior.
pub open spec fn device_top_row(inner_w: nat, dev_w: nat, gutter: nat, tag: Seq<char>,
    name: Seq<char>, conn: Seq<char>, id: Seq<char>) -> LineView {
    let tag_text = seq!['['] + tag + seq![']'];
    let right_text = conn + seq![' ', '\u{b7}', ' '] + id;
    let interior_w = gap(dev_w as int, 2);
    let tag_span_w = unicode_str_width(tag_text) + 1 + unicode_str_width(name);
    let dashes = gap(interior_w as int, 3 + tag_span_w + 3 + unicode_str_width(right_text) + 2);
    (seq![
        blank_span(gutter, Tone::Base),
        (seq!['\u{256d}'], Some(Tone::Surface0), Tone::Mantle, false),
        (seq!['\u{2500}', '\u{2500}', ' '], Some(Tone::Surface0), Tone::Mantle, false),
        (tag_text, Some(Tone::Sapphire), Tone::Mantle, true),
        blank_span(1, Tone::Mantle),
        (name, Some(Tone::Text), Tone::Mantle, true),
        blank_span(1, Tone::Mantle),
        (run('\u{2500}', dashes), Some(Tone::Surface0), Tone::Mantle, false),
        blank_span(1, Tone::Mantle),
        (right_text, Some(Tone::Overlay0), Tone::Mantle, false),
        blank_span(1, Tone::Mantle),
        (seq!['\u{2500}', '\u{2500}'], Some(Tone::Surface0), Tone::Mantle, false),
        (seq!['\u{256e}'], Some(Tone::Surface0), Tone::Mantle, false),
    ] + right_tail(inner_w, gutter + dev_w), None)
}

/// Append the device's top border with its platform tag, name, connection
/// and short id.
pub fn push_device_top(lines: &mut Vec<PickerLine>, inner_w: usize, dev_w: usize, gutter: u16,
    platform_tag: &str, name: &str, conn_label: &str, id_short: &str)
    requires
        gutter + dev_w <= usize::MAX,
    ensures
        lines_view(final(lines)@) == lines_view(old(lines)@).push(device_top_row(inner_w as nat,
            dev_w as nat, gutter as nat, platform_tag@, name@, conn_label@, id_short@)),
{
    let mut tag_text = String::new();
    push_char(&mut tag_text, '[');
    push_str(&mut tag_text, platform_tag);
    push_char(&mut tag_text, ']');
    let mut right_text = owned(conn_label);
    push_char(&mut right_text, ' ');
    push_char(&mut right_text, '\u{b7}');
    push_char(&mut right_text, ' ');
    push_str(&mut right_text, id_short);
    let ghost tag_v = tag_text@;
    let ghost right_v = right_text@;
    assert(tag_v =~= seq!['['] + platform_tag@ + seq![']']);
    assert(right_v =~= conn_label@ + seq![' ', '\u{b7}', ' '] + id_short@);

    let tag_span_w = str_width(tag_text.as_str()).saturating_add(1).saturating_add(str_width(name));
    let right_span_w = str_width(right_text.as_str());
    let interior_w = dev_w.saturating_sub(2);
    let fixed = 3usize.saturating_add(tag_span_w).saturating_add(3).saturating_add(right_span_w).saturating_add(2);
    let dashes = interior_w.saturating_sub(fixed);
    assert(dashes == gap(gap(dev_w as int, 2) as int, 3 + (unicode_str_width(tag_v) + 1
        + unicode_str_width(name@)) + 3 + unicode_str_width(right_v) + 2));

    let mut spans: Vec<PickerSpan> = Vec::new();
    put(&mut spans, repeat_char(' ', gutter as usize), None, Tone::Base);
    put(&mut spans, repeat_char('\u{256d}', 1), Some(Tone::Surface0), Tone::Mantle);
    let mut lead = repeat_char('\u{2500}', 2);
    push_char(&mut lead, ' ');
    put(&mut spans, lead, Some(Tone::Surface0), Tone::Mantle);
    put_styled(&mut spans, tag_text, Some(Tone::Sapphire), Tone::Mantle, true);
    put(&mut spans, repeat_char(' ', 1), None, Tone::Mantle);
    put_styled(&mut spans, owned(name), Some(Tone::Text), Tone::Mantle, true);
    put(&mut spans, repeat_char(' ', 1), None, Tone::Mantle);
    put(&mut spans, repeat_char('\u{2500}', dashes), Some(Tone::Surface0), Tone::Mantle);
    put(&mut spans, repeat_char(' ', 1), None, Tone::Mantle);
    put(&mut spans, right_text, Some(Tone::Overlay0), Tone::Mantle);
    put(&mut spans, repeat_char(' ', 1), None, Tone::Mantle);
    put(&mut spans, repeat_char('\u{2500}', 2), Some(Tone::Surface0), Tone::Mantle);
    put(&mut spans, repeat_char('\u{256e}', 1), Some(Tone::Surface0), Tone::Mantle);
    put_right_tail(&mut spans, inner_w, gutter as usize + dev_w);
    assert(run('\u{256d}', 1) =~= seq!['\u{256d}']);
    assert(run('\u{256e}', 1) =~= seq!['\u{256e}']);
    assert(run('\u{2500}', 2).push(' ') =~= seq!['\u{2500}', '\u{2500}', ' ']);
    assert(run('\u{2500}', 2) =~= seq!['\u{2500}', '\u{2500}']);
    assert(spans_view(spans@) =~= device_top_row(inner_w as nat, dev_w as nat, gutter as nat,
        platform_tag@, name@, conn_label@, id_short@).0);
    put_line(lines, spans, None);
}

/// A device row between its two side borders: `│` + interior + `│`.
pub open spec fn device_row(inner_w: nat, dev_w: nat, gutter: nat, interior: Seq<SpanView>) -> LineView {
    (seq![blank_span(gutter, Tone::Base), device_side()] + interior + seq![device_side()]
        + right_tail(inner_w, gutter + dev_w), None)
}

/// The device's bottom border: `╰──...──╯`.
pub open spec fn device_bottom_row(inner_w: nat, dev_w: nat, gutter: nat) -> LineView {
    (seq![
        blank_span(gutter, Tone::Base),
        (seq!['\u{2570}'], Some(Tone::Surface0), Tone::Mantle, false),
        (run('\u{2500}', gap(dev_w as int, 2)), Some(Tone::Surface0), Tone::Mantle, false),
        (seq!['\u{256f}'], Some(Tone::Surface0), Tone::Mantle, false),
    ] + right_tail(inner_w, gutter + dev_w), None)
}

/// Append the device's bottom border.
pub fn push_device_bottom(lines: &mut Vec<PickerLine>, inner_w: usize, dev_w: usize, gutter: u16)
    requires
        gutter + dev_w <= usize::MAX,
    ensures
        lines_view(final(lines)@) == lines_view(old(lines)@).push(
            device_bottom_row(inner_w as nat, dev_w as nat, gutter as nat)),
{
    let mut spans: Vec<PickerSpan> = Vec::new();
    put(&mut spans, repeat_char(' ', gutter as usize), None, Tone::Base);
    put(&mut spans, repeat_char('\u{2570}', 1), Some(Tone::Surface0), Tone::Mantle);
    put(&mut spans, repeat_char('\u{2500}', dev_w.saturating_sub(2)), Some(Tone::Surface0), Tone::Mantle);
    put(&mut spans, repeat_char('\u{256f}', 1), Some(Tone::Surface0), Tone::Mantle);
    put_right_tail(&mut spans, inner_w, gutter as usize + dev_w);
    assert(run('\u{2570}', 1) =~= seq!['\u{2570}']);
    assert(run('\u{256f}', 1) =~= seq!['\u{256f}']);
    assert(spans_view(spans@) =~= device_bottom_row(inner_w as nat, dev_w as nat, gutter as nat).0);
    put_line(lines, spans, None);
}

/// Append a device's row with the given interior spans.
fn push_device_row(lines: &mut Vec<PickerLine>, inner_w: usize, dev_w: usize, gutter: u16,
    interior: Vec<PickerSpan>)
    requires
        gutter + dev_w <= usize::MAX,
    ensures
        lines_view(final(lines)@) == lines_view(old(lines)@).push(
            device_row(inner_w as nat, dev_w as nat, gutter as nat, spans_view(interior@))),
{
    let ghost iv = spans_view(interior@);
    let mut interior = interior;
    let mut spans: Vec<PickerSpan> = Vec::new();
    put(&mut spans, repeat_char(' ', gutter as usize), None, Tone::Base);
    put(&mut spans, repeat_char('\u{2502}', 1), Some(Tone::Surface0), Tone::Mantle);
    let ghost before = spans@;
    spans.append(&mut interior);
    assert(spans_view(spans@) =~= spans_view(before) + iv);
    put(&mut spans, repeat_char('\u{2502}', 1), Some(Tone::Surface0), Tone::Mantle);
    put_right_tail(&mut spans, inner_w, gutter as usize + dev_w);
    assert(run('\u{2502}', 1) =~= seq!['\u{2502}']);
    assert(spans_view(spans@) =~= device_row(inner_w as nat, dev_w as nat, gutter as nat, iv).0);
    put_line(lines, spans, None);
}

/// Append a blank row inside the device container.
pub fn push_device_inner_blank(lines: &mut Vec<PickerLine>, inner_w: usize, dev_w: usize, gutter: u16)
    requires
        gutter + dev_w <= usize::MAX,
    ensures
        lines_view(final(lines)@) == lines_view(old(lines)@).push(device_row(inner_w as nat,
            dev_w as nat, gutter as nat, seq![blank_span(gap(dev_w as int, 2), Tone::Mantle)])),
{
    let mut interior: Vec<PickerSpan> = Vec::new();
    put(&mut interior, repeat_char(' ', dev_w.saturating_sub(2)), None, Tone::Mantle);
    assert(spans_view(interior@) =~= seq![blank_span(gap(dev_w as int, 2), Tone::Mantle)]);
    push_device_row(lines, inner_w, dev_w, gutter, interior);
}

/// The text of the row shown while a device has no app.
pub open spec fn waiting_text() -> Seq<char> {
    seq!['\u{25cb}', ' ', 'W', 'a', 'i', 't', 'i', 'n', 'g', ' ', 'f', 'o', 'r', ' ', 'a', 'p', 'p', '.', '.', '.']
}

/// The interior of the waiting row: three spaces, the text, and a fill.
pub open spec fn waiting_interior(dev_w: nat) -> Seq<SpanView> {
    let right_pad = gap(gap(dev_w as int, 2) as int, 3 + unicode_str_width(waiting_text()));
    seq![
        blank_span(3, Tone::Mantle),
        (waiting_text(), Some(Tone::Overlay0), Tone::Mantle, false),
        blank_span(right_pad, Tone::Mantle),
    ]
}

/// Append the "waiting for app" row of a device with no app.
pub fn push_waiting_row(lines: &mut Vec<PickerLine>, inner_w: usize, dev_w: usize, gutter: u16)
    requires
        gutter + dev_w <= usize::MAX,
    ensures
        lines_view(final(lines)@) == lines_view(old(lines)@).push(device_row(inner_w as nat,
            dev_w as nat, gutter as nat, waiting_interior(dev_w as nat))),
{
    let mut text = String::new();
    push_char(&mut text, '\u{25cb}');
    push_str(&mut text, " Waiting for app...");
    proof { reveal_strlit(" Waiting for app..."); }
    assert(text@ =~= waiting_text());
    let text_w = str_width(text.as_str());
    let right_pad = dev_w.saturating_sub(2).saturating_sub(3usize.saturating_add(text_w));
    let mut interior: Vec<PickerSpan> = Vec::new();
    put(&mut interior, repeat_char(' ', 3), None, Tone::Mantle);
    put(&mut interior, text, Some(Tone::Overlay0), Tone::Mantle);
    put(&mut interior, repeat_char(' ', right_pad), None, Tone::Mantle);
    assert(spans_view(interior@) =~= waiting_interior(dev_w as nat));
    push_device_row(lines, inner_w, dev_w, gutter, interior);
}

// ── App cards ─────────────────────────────────────────────────────

/// `s` padded with spaces on the right to `n` chars (`format!("{:<n}")`).
pub open spec fn left_aligned(s: Seq<char>, n: nat) -> Seq<char> {
    if s.len() < n { s + run(' ', (n - s.len()) as nat) } else { s }
}

/// `s` padded with spaces on the right to `n` chars.
pub fn left_align(s: &str, n: usize) -> (r: String)
    ensures
        r@ == left_aligned(s@, n as nat),
{
    let mut r = owned(s);
    let len = s.unicode_len();
    if len < n {
        let fill = repeat_char(' ', n - len);
        push_str(&mut r, fill.as_str());
    }
    r
}

/// A card's border colour and glyphs `(fg, top-left, top-right,
/// bottom-left, bottom-right, horizontal, vertical)`: double lines in
/// sapphire for the active app, thin grey lines otherwise.
pub open spec fn card_frame(active: bool) -> (Tone, char, char, char, char, char, char) {
    if active {
        (Tone::Sapphire, '\u{2554}', '\u{2557}', '\u{255a}', '\u{255d}', '\u{2550}', '\u{2551}')
    } else {
        (Tone::Surface0, '\u{250c}', '\u{2510}', '\u{2514}', '\u{2518}', '\u{2500}', '\u{2502}')
    }
}

/// The indent left of a card: plain, or ending in a sapphire `▎` cursor
/// when the card is selected but not active.
pub open spec fn left_indent(card_indent: nat, show_cursor: bool) -> Seq<SpanView> {
    if show_cursor {
        let pre = gap(card_indent as int, 1);
        (if pre > 0 { seq![blank_span(pre, Tone::Mantle)] } else { seq![] })
            + seq![(seq!['\u{258e}'], Some(Tone::Sapphire), Tone::Mantle, false)]
    } else {
        seq![blank_span(card_indent, Tone::Mantle)]
    }
}

/// A card row: gutter, device side, indent, the card's own spans, the
/// right indent, device side and the fill right of the device.
pub open spec fn card_row(inner_w: nat, dev_w: nat, gutter: nat, card_indent: nat, show_cursor: bool,
    middle: Seq<SpanView>) -> Seq<SpanView> {
    seq![blank_span(gutter, Tone::Base), device_side()] + left_indent(card_indent, show_cursor) + middle
        + seq![blank_span(card_indent, Tone::Mantle), device_side()] + right_tail(inner_w, gutter + dev_w)
}

/// The card title: the app name, then ` v` and the version when there is one.
pub open spec fn card_label(name: Seq<char>, version: Seq<char>) -> Seq<char> {
    if version.len() == 0 { name } else { name + seq![' ', 'v'] + version }
}

/// `Port: ` and the port in decimal.
pub open spec fn port_text(port: u16) -> Seq<char> {
    seq!['P', 'o', 'r', 't', ':', ' '] + decimal(port as nat)
}

/// The pill shown on the active app's card.
pub open spec fn active_pill() -> Seq<char> {
    seq![' ', 'A', 'C', 'T', 'I', 'V', 'E', ' ']
}

/// The card's top border with the status dot, title, pill and port, the
/// dashes filling what they leave of the card's interior.
pub open spec fn card_top_middle(card_w: nat, active: bool, name: Seq<char>, version: Seq<char>,
    port: u16) -> Seq<SpanView> {
    let (fg, tl, tr, _bl, _br, h, _v) = card_frame(active);
    let inner = gap(card_w as int, 2);
    let label = card_label(name, version);
    let pt = port_text(port);
    let left_w = 4 + unicode_str_width(label) + (if active { 10int } else { 0int });
    let right_w = 3 + unicode_str_width(pt);
    let dashes = gap(inner as int, left_w + right_w);
    let dot = if active { '\u{25cf}' } else { '\u{25cb}' };
    let dot_fg = if active { Tone::Green } else { Tone::Teal };
    seq![
        (seq![tl], Some(fg), Tone::Mantle, false),
        (seq![h, ' '], Some(fg), Tone::Mantle, false),
        (seq![dot], Some(dot_fg), Tone::Mantle, true),
        blank_span(1, Tone::Mantle),
        (label, Some(Tone::Text), Tone::Mantle, true),
    ] + (if active {
        seq![blank_span(2, Tone::Mantle), (active_pill(), Some(Tone::Mantle), Tone::Green, true)]
    } else {
        seq![]
    }) + seq![
        (run(h, dashes), Some(fg), Tone::Mantle, false),
        blank_span(1, Tone::Mantle),
        (pt, Some(Tone::Sapphire), Tone::Mantle, false),
        blank_span(1, Tone::Mantle),
        (seq![h], Some(fg), Tone::Mantle, false),
        (seq![tr], Some(fg), Tone::Mantle, false),
    ]
}

/// The blank row under the card's title.
pub open spec fn card_blank_middle(card_w: nat, active: bool) -> Seq<SpanView> {
    let (fg, _tl, _tr, _bl, _br, _h, v) = card_frame(active);
    seq![
        (seq![v], Some(fg), Tone::Mantle, false),
        blank_span(gap(card_w as int, 2), Tone::Mantle),
        (seq![v], Some(fg), Tone::Mantle, false),
    ]
}

/// A detail row: the label padded to ten chars, then the value (or
/// `unknown` in a faint tone when it is empty), bold on the active card.
pub open spec fn card_detail_middle(card_w: nat, active: bool, label: Seq<char>, value: Seq<char>)
    -> Seq<SpanView> {
    let (fg, _tl, _tr, _bl, _br, _h, v) = card_frame(active);
    let padded = left_aligned(label, 10);
    let display = if value.len() == 0 { "unknown"@ } else { value };
    let value_fg = if value.len() == 0 {
        Tone::Surface1
    } else if active {
        Tone::Text
    } else {
        Tone::Subtext0
    };
    let content_w = 4 + unicode_str_width(padded) + unicode_str_width(display);
    seq![
        (seq![v], Some(fg), Tone::Mantle, false),
        blank_span(4, Tone::Mantle),
        (padded, Some(Tone::Overlay0), Tone::Mantle, false),
        (display, Some(value_fg), Tone::Mantle, active),
        blank_span(gap(gap(card_w as int, 2) as int, content_w), Tone::Mantle),
        (seq![v], Some(fg), Tone::Mantle, false),
    ]
}

/// The card's bottom border.
pub open spec fn card_bottom_middle(card_w: nat, active: bool) -> Seq<SpanView> {
    let (fg, _tl, _tr, bl, br, h, _v) = card_frame(active);
    seq![
        (seq![bl], Some(fg), Tone::Mantle, false),
        (run(h, gap(card_w as int, 2)), Some(fg), Tone::Mantle, false),
        (seq![br], Some(fg), Tone::Mantle, false),
    ]
}

/// The six rows of an app card (title border, blank, package, platform,
/// mode, bottom border), each selecting card `sel`.
pub open spec fn app_card_rows(inner_w: nat, dev_w: nat, gutter: nat, card_indent: nat, card_w: nat,
    sel: usize, active: bool, selected: bool, name: Seq<char>, version: Seq<char>, package: Seq<char>,
    os: Seq<char>, mode: Seq<char>, port: u16) -> Seq<LineView> {
    let cursor = selected && !active;
    let row = |m: Seq<SpanView>| (card_row(inner_w, dev_w, gutter, card_indent, cursor, m), Some(sel));
    seq![
        row(card_top_middle(card_w, active, name, version, port)),
        row(card_blank_middle(card_w, active)),
        row(card_detail_middle(card_w, active, "Package"@, package)),
        row(card_detail_middle(card_w, active, "Platform"@, os)),
        row(card_detail_middle(card_w, active, "Mode"@, mode)),
        row(card_bottom_middle(card_w, active)),
    ]
}

/// Append the indent left of a card.
fn put_left_indent(spans: &mut Vec<PickerSpan>, card_indent: u16, show_cursor: bool)
    ensures
        spans_view(final(spans)@) == spans_view(old(spans)@) + left_indent(card_indent as nat, show_cursor),
{
    if show_cursor {
        let pre = (card_indent as usize).saturating_sub(1);
        if pre > 0 {
            put(spans, repeat_char(' ', pre), None, Tone::Mantle);
        }
        put(spans, repeat_char('\u{258e}', 1), Some(Tone::Sapphire), Tone::Mantle);
        assert(run('\u{258e}', 1) =~= seq!['\u{258e}']);
    } else {
        put(spans, repeat_char(' ', card_indent as usize), None, Tone::Mantle);
    }
    assert(spans_view(spans@) =~= spans_view(old(spans)@) + left_indent(card_indent as nat, show_cursor));
}

/// Append a card row with the card's own spans `middle`.
fn push_card_row(lines: &mut Vec<PickerLine>, inner_w: usize, dev_w: usize, gutter: u16,
    card_indent: u16, show_cursor: bool, middle: Vec<PickerSpan>, sel: usize)
    requires
        gutter + dev_w <= usize::MAX,
    ensures
        lines_view(final(lines)@) == lines_view(old(lines)@).push((card_row(inner_w as nat, dev_w as nat,
            gutter as nat, card_indent as nat, show_cursor, spans_view(middle@)), Some(sel))),
{
    let ghost mv = spans_view(middle@);
    let mut middle = middle;
    let mut spans: Vec<PickerSpan> = Vec::new();
    put(&mut spans, repeat_char(' ', gutter as usize), None, Tone::Base);
    put(&mut spans, repeat_char('\u{2502}', 1), Some(Tone::Surface0), Tone::Mantle);
    put_left_indent(&mut spans, card_indent, show_cursor);
    let ghost before = spans@;
    spans.append(&mut middle);
    assert(spans_view(spans@) =~= spans_view(before) + mv);
    put(&mut spans, repeat_char(' ', card_indent as usize), None, Tone::Mantle);
    put(&mut spans, repeat_char('\u{2502}', 1), Some(Tone::Surface0), Tone::Mantle);
    put_right_tail(&mut spans, inner_w, gutter as usize + dev_w);
    assert(run('\u{2502}', 1) =~= seq!['\u{2502}']);
    assert(spans_view(spans@) =~= card_row(inner_w as nat, dev_w as nat, gutter as nat,
        card_indent as nat, show_cursor, mv));
    put_line(lines, spans, Some(sel));
}

/// The border colour and glyphs of a card.
fn frame_of(active: bool) -> (r: (Tone, char, char, char, char, char, char))
    ensures
        r == card_frame(active),
{
    if active {
        (Tone::Sapphire, '\u{2554}', '\u{2557}', '\u{255a}', '\u{255d}', '\u{2550}', '\u{2551}')
    } else {
        (Tone::Surface0, '\u{250c}', '\u{2510}', '\u{2514}', '\u{2518}', '\u{2500}', '\u{2502}')
    }
}

/// The spans of a card's top border.
fn card_top_spans(card_w: usize, active: bool, name: &str, version: &str, port: u16)
    -> (r: Vec<PickerSpan>)
    ensures
        spans_view(r@) == card_top_middle(card_w as nat, active, name@, version@, port),
{
    let (fg, tl, tr, _bl, _br, h, _v) = frame_of(active);
    let inner = card_w.saturating_sub(2);
    let mut label = owned(name);
    if !version.is_empty() {
        push_str(&mut label, " v");
        push_str(&mut label, version);
    }
    proof { reveal_strlit(" v"); }
    assert(label@ =~= card_label(name@, version@));
    let mut pt = owned("Port: ");
    let digits = decimal_string(port as usize);
    push_str(&mut pt, digits.as_str());
    proof { reveal_strlit("Port: "); }
    assert(pt@ =~= port_text(port));
    let mut left_w = 4usize.saturating_add(str_width(label.as_str()));
    if active {
        left_w = left_w.saturating_add(10);
    }
    let right_w = 3usize.saturating_add(str_width(pt.as_str()));
    let dashes = inner.saturating_sub(left_w.saturating_add(right_w));
    let dot = if active { '\u{25cf}' } else { '\u{25cb}' };
    let dot_fg = if active { Tone::Green } else { Tone::Teal };

    let mut spans: Vec<PickerSpan> = Vec::new();
    put(&mut spans, repeat_char(tl, 1), Some(fg), Tone::Mantle);
    let mut lead = repeat_char(h, 1);
    push_char(&mut lead, ' ');
    put(&mut spans, lead, Some(fg), Tone::Mantle);
    put_styled(&mut spans, repeat_char(dot, 1), Some(dot_fg), Tone::Mantle, true);
    put(&mut spans, repeat_char(' ', 1), None, Tone::Mantle);
    put_styled(&mut spans, label, Some(Tone::Text), Tone::Mantle, true);
    if active {
        put(&mut spans, repeat_char(' ', 2), None, Tone::Mantle);
        let pill = owned(" ACTIVE ");
        proof { reveal_strlit(" ACTIVE "); }
        assert(pill@ =~= active_pill());
        put_styled(&mut spans, pill, Some(Tone::Mantle), Tone::Green, true);
    }
    put(&mut spans, repeat_char(h, dashes), Some(fg), Tone::Mantle);
    put(&mut spans, repeat_char(' ', 1), None, Tone::Mantle);
    put(&mut spans, pt, Some(Tone::Sapphire), Tone::Mantle);
    put(&mut spans, repeat_char(' ', 1), None, Tone::Mantle);
    put(&mut spans, repeat_char(h, 1), Some(fg), Tone::Mantle);
    put(&mut spans, repeat_char(tr, 1), Some(fg), Tone::Mantle);
    assert(run(tl, 1) =~= seq![tl]);
    assert(run(tr, 1) =~= seq![tr]);
    assert(run(h, 1) =~= seq![h]);
    assert(run(h, 1).push(' ') =~= seq![h, ' ']);
    assert(run(dot, 1) =~= seq![dot]);
    assert(spans_view(spans@) =~= card_top_middle(card_w as nat, active, name@, version@, port));
    spans
}

/// The spans of the blank row under a card's title.
fn card_blank_spans(card_w: usize, active: bool) -> (r: Vec<PickerSpan>)
    ensures
        spans_view(r@) == card_blank_middle(card_w as nat, active),
{
    let (fg, _tl, _tr, _bl, _br, _h, v) = frame_of(active);
    let mut spans: Vec<PickerSpan> = Vec::new();
    put(&mut spans, repeat_char(v, 1), Some(fg), Tone::Mantle);
    put(&mut spans, repeat_char(' ', card_w.saturating_sub(2)), None, Tone::Mantle);
    put(&mut spans, repeat_char(v, 1), Some(fg), Tone::Mantle);
    assert(run(v, 1) =~= seq![v]);
    assert(spans_view(spans@) =~= card_blank_middle(card_w as nat, active));
    spans
}

/// The spans of a card's detail row.
fn card_detail_spans(card_w: usize, active: bool, label: &str, value: &str) -> (r: Vec<PickerSpan>)
    ensures
        spans_view(r@) == card_detail_middle(card_w as nat, active, label@, value@),
{
    let (fg, _tl, _tr, _bl, _br, _h, v) = frame_of(active);
    let padded = left_align(label, 10);
    let empty = value.is_empty();
    let display = if empty { owned("unknown") } else { owned(value) };
    let value_fg = if empty {
        Tone::Surface1
    } else if active {
        Tone::Text
    } else {
        Tone::Subtext0
    };
    let content_w = 4usize.saturating_add(str_width(padded.as_str())).saturating_add(str_width(display.as_str()));
    let pad = card_w.saturating_sub(2).saturating_sub(content_w);
    let mut spans: Vec<PickerSpan> = Vec::new();
    put(&mut spans, repeat_char(v, 1), Some(fg), Tone::Mantle);
    put(&mut spans, repeat_char(' ', 4), None, Tone::Mantle);
    put(&mut spans, padded, Some(Tone::Overlay0), Tone::Mantle);
    put_styled(&mut spans, display, Some(value_fg), Tone::Mantle, active);
    put(&mut spans, repeat_char(' ', pad), None, Tone::Mantle);
    put(&mut spans, repeat_char(v, 1), Some(fg), Tone::Mantle);
    assert(run(v, 1) =~= seq![v]);
    assert(spans_view(spans@) =~= card_detail_middle(card_w as nat, active, label@, value@));
    spans
}

/// The spans of a card's bottom border.
fn card_bottom_spans(card_w: usize, active: bool) -> (r: Vec<PickerSpan>)
    ensures
        spans_view(r@) == card_bottom_middle(card_w as nat, active),
{
    let (fg, _tl, _tr, bl, br, h, _v) = frame_of(active);
    let mut spans: Vec<PickerSpan> = Vec::new();
    put(&mut spans, repeat_char(bl, 1), Some(fg), Tone::Mantle);
    put(&mut spans, repeat_char(h, card_w.saturating_sub(2)), Some(fg), Tone::Mantle);
    put(&mut spans, repeat_char(br, 1), Some(fg), Tone::Mantle);
    assert(run(bl, 1) =~= seq![bl]);
    assert(run(br, 1) =~= seq![br]);
    assert(spans_view(spans@) =~= card_bottom_middle(card_w as nat, active));
    spans
}

/// Append the six rows of an app card: the title border with status dot,
/// name, version, `ACTIVE` pill and port; a blank row; package, platform
/// and build mode; the bottom border. The active app's card has double
/// borders; a selected card that is not active shows a cursor at its left.
pub fn push_app_card(lines: &mut Vec<PickerLine>, inner_w: usize, dev_w: usize, gutter: u16,
    card_indent: u16, card_w: usize, sel_idx: usize, is_active: bool, is_selected: bool,
    app_name: &str, app_version: &str, package_name: &str, os: &str, build_mode: &str, port: u16)
    requires
        gutter + dev_w <= usize::MAX,
    ensures
        lines_view(final(lines)@) == lines_view(old(lines)@) + app_card_rows(inner_w as nat, dev_w as nat,
            gutter as nat, card_indent as nat, card_w as nat, sel_idx, is_active, is_selected,
            app_name@, app_version@, package_name@, os@, build_mode@, port),
{
    let show_cursor = is_selected && !is_active;
    let ghost l0 = lines_view(old(lines)@);
    let top = card_top_spans(card_w, is_active, app_name, app_version, port);
    push_card_row(lines, inner_w, dev_w, gutter, card_indent, show_cursor, top, sel_idx);
    let blank = card_blank_spans(card_w, is_active);
    push_card_row(lines, inner_w, dev_w, gutter, card_indent, show_cursor, blank, sel_idx);
    let package = card_detail_spans(card_w, is_active, "Package", package_name);
    push_card_row(lines, inner_w, dev_w, gutter, card_indent, show_cursor, package, sel_idx);
    let platform = card_detail_spans(card_w, is_active, "Platform", os);
    push_card_row(lines, inner_w, dev_w, gutter, card_indent, show_cursor, platform, sel_idx);
    let mode = card_detail_spans(card_w, is_active, "Mode", build_mode);
    push_card_row(lines, inner_w, dev_w, gutter, card_indent, show_cursor, mode, sel_idx);
    let bottom = card_bottom_spans(card_w, is_active);
    push_card_row(lines, inner_w, dev_w, gutter, card_indent, show_cursor, bottom, sel_idx);
    assert(lines_view(lines@) =~= l0 + app_card_rows(inner_w as nat, dev_w as nat, gutter as nat,
        card_indent as nat, card_w as nat, sel_idx, is_active, is_selected, app_name@, app_version@,
        package_name@, os@, build_mode@, port));
}

} // verus!
