//! The scroll window of a single-line input field.

use vstd::prelude::*;
use crate::text::strings::{char_utf8_len, push_char, to_chars, utf8_len};
use crate::text::width::{char_cols, col, cols, lemma_cols_push, lemma_cols_take_step, measurable};
use crate::text::wrap::{fit_prefix, greedy_fit, sat_sub};
use crate::text::strings::{owned, push_str, repeat_char, run};
use crate::text::width::{str_width, unicode_str_width};

verus! {

/// `cursor` falls on a char boundary of the UTF-8 encoding of `v`, or at or
/// past its end.
pub open spec fn at_boundary(v: Seq<char>, cursor: nat) -> bool
    decreases v.len(),
{
    if cursor == 0 || v.len() == 0 {
        true
    } else {
        utf8_len(v[0]) <= cursor && at_boundary(v.drop_first(), (cursor - utf8_len(v[0])) as nat)
    }
}

/// What the active scroll needs of the cursor: when the field is active
/// and its text is wider than a non-empty box, the window is measured up
/// to the cursor, which must then sit on a char boundary (or past the end).
pub open spec fn cursor_ok(v: Seq<char>, cursor: nat, box_w: nat, active: bool) -> bool {
    active && box_w > 0 && cols(v) > box_w ==> at_boundary(v, cursor)
}

/// Number of chars that lie before byte `cursor`.
pub open spec fn chars_before(v: Seq<char>, cursor: nat) -> nat
    decreases v.len(),
{
    if cursor == 0 || v.len() == 0 || utf8_len(v[0]) > cursor {
        0
    } else {
        1 + chars_before(v.drop_first(), (cursor - utf8_len(v[0])) as nat)
    }
}

/// `…`
pub open spec fn ellipsis() -> char {
    '\u{2026}'
}

/// State of the active-window scan after some chars: (output, ellipsis
/// placed, scan stopped).
pub open spec fn window_fold(
    v: Seq<char>,
    left: nat,
    right: nat,
    box_w: nat,
    ell_left: bool,
    budget_check: bool,
) -> (Seq<char>, bool, bool)
    decreases v.len(),
{
    if v.len() == 0 {
        (seq![], false, false)
    } else {
        let p = v.drop_last();
        let st = window_fold(p, left, right, box_w, ell_left, budget_check);
        let c = v.last();
        let start = cols(p);
        let end = start + col(c);
        if st.2 || end <= left {
            st
        } else if start >= right {
            (st.0, st.1, true)
        } else {
            let placing = ell_left && !st.1;
            let out2 = if placing { st.0.push(ellipsis()) } else { st.0 };
            let skip = if budget_check { start < left } else { end - left <= 1 };
            if placing && skip {
                (out2, true, false)
            } else if budget_check && cols(out2) + col(c) > box_w {
                (out2, placing || st.1, true)
            } else {
                (out2.push(c), placing || st.1, false)
            }
        }
    }
}

/// The window shown for an input value: `(text, ellipsis on the left,
/// ellipsis on the right)`.
///
/// A value that fits is shown whole. When idle, the head that fits in
/// `box_width - 1` columns is shown (followed by `…` when `embed`). When
/// active, the window ends one column past the cursor (room for the `_`
/// caret) and spans `box_width` columns; a `…` marks cut text on the left.
/// `budget_check` selects the variant that drops the char straddling the
/// left edge and never exceeds `box_width` columns.
pub open spec fn window_spec(v: Seq<char>, cursor: nat, box_w: nat, active: bool, embed: bool) -> (Seq<char>, bool, bool) {
    if box_w == 0 {
        (seq![], false, false)
    } else if cols(v) <= box_w {
        (v, false, false)
    } else if !active {
        let head = greedy_fit(v, (box_w - 1) as nat);
        (if embed { head.push(ellipsis()) } else { head }, false, true)
    } else {
        let right = cols(v.take(chars_before(v, cursor) as int)) + 1;
        let left = sat_sub(right, box_w);
        (window_fold(v, left, right, box_w, left > 0, embed).0, left > 0, right < cols(v))
    }
}

/// While scanning with the budget check, the shown text stays within the
/// box, and nothing is shown before the left `…` is placed.
proof fn lemma_window_fold_fits(v: Seq<char>, left: nat, right: nat, box_w: nat, ell: bool)
    requires
        box_w >= 1,
    ensures
        cols(window_fold(v, left, right, box_w, ell, true).0) <= box_w,
        ell && !window_fold(v, left, right, box_w, ell, true).1 ==> window_fold(v, left, right, box_w, ell, true).0
            == Seq::<char>::empty(),
    decreases v.len(),
{
    assert(cols(Seq::<char>::empty()) == 0);
    if v.len() > 0 {
        let p = v.drop_last();
        lemma_window_fold_fits(p, left, right, box_w, ell);
        let st = window_fold(p, left, right, box_w, ell, true);
        let c = v.last();
        if ell && !st.1 {
            lemma_cols_push(st.0, ellipsis());
        }
        let placing = ell && !st.1;
        let out2 = if placing { st.0.push(ellipsis()) } else { st.0 };
        lemma_cols_push(out2, c);
    }
}

/// An input field's window never spans more than its box: the text shown
/// fits in `box_w` columns, whether the field is idle or active.
pub proof fn lemma_window_fits(v: Seq<char>, cursor: nat, box_w: nat, active: bool)
    ensures
        cols(window_spec(v, cursor, box_w, active, true).0) <= box_w,
{
    assert(cols(Seq::<char>::empty()) == 0);
    if box_w > 0 && cols(v) > box_w {
        if !active {
            let head = greedy_fit(v, (box_w - 1) as nat);
            crate::text::wrap::lemma_greedy_fit_cols(v, (box_w - 1) as nat);
            lemma_cols_push(head, ellipsis());
        } else {
            let right = cols(v.take(chars_before(v, cursor) as int)) + 1;
            let left = sat_sub(right, box_w);
            lemma_window_fold_fits(v, left, right, box_w, left > 0);
        }
    }
}

/// Inputs small enough that no column sum overflows.
pub open spec fn window_measurable(v: Seq<char>) -> bool {
    3 * v.len() + 6 <= usize::MAX
}

/// Once the scan stops, later chars change nothing.
proof fn lemma_window_stopped(v: Seq<char>, j: int, k: int, left: nat, right: nat, box_w: nat, ell: bool, bc: bool)
    requires
        0 <= j <= k <= v.len(),
        window_fold(v.take(j), left, right, box_w, ell, bc).2,
    ensures
        window_fold(v.take(k), left, right, box_w, ell, bc) == window_fold(v.take(j), left, right, box_w, ell, bc),
    decreases k - j,
{
    if j < k {
        lemma_window_stopped(v, j, k - 1, left, right, box_w, ell, bc);
        assert(v.take(k).drop_last() == v.take(k - 1));
    }
}

/// Columns of the chars before byte `cursor`.
fn prefix_cols(value: &str, cursor: usize) -> (w: usize)
    requires
        window_measurable(value@),
    ensures
        w == cols(value@.take(chars_before(value@, cursor as nat) as int)),
        w <= 3 * value@.len(),
{
    let mut remaining = cursor;
    let mut w: usize = 0;
    let mut counting = true;
    let ghost mut k: int = 0;
    assert(value@.skip(0) == value@);
    for ch in it: value.chars()
        invariant
            it.seq() == value@,
            window_measurable(value@),
            0 <= k <= it.index(),
            it.index() <= value@.len(),
            w == cols(value@.take(k)),
            w <= 3 * k,
            counting ==> k == it.index(),
            counting ==> chars_before(value@, cursor as nat) == k + chars_before(value@.skip(k), remaining as nat),
            !counting ==> chars_before(value@, cursor as nat) == k,
    {
        let ghost i = it.index();
        if counting {
            let l = char_utf8_len(ch);
            assert(value@.skip(i as int)[0] == ch);
            assert(value@.skip(i as int).drop_first() == value@.skip(i as int + 1));
            if remaining == 0 || l > remaining {
                counting = false;
            } else {
                let cw = char_cols(ch);
                proof { lemma_cols_take_step(value@, i as int); }
                w = w + cw;
                remaining = remaining - l;
                proof { k = k + 1; }
            }
        }
    }
    proof {
        if counting {
            assert(value@.skip(value@.len() as int).len() == 0);
        }
    }
    w
}

/// The scan window of `value` for a `box_width`-column box, shared by the
/// two window variants.
pub(crate) fn window_core(value: &str, cursor_byte: usize, box_width: usize, active: bool, embed: bool) -> (r: (String, bool, bool))
    requires
        window_measurable(value@),
    ensures
        (r.0@, r.1, r.2) == window_spec(value@, cursor_byte as nat, box_width as nat, active, embed),
{
    if box_width == 0 {
        return (String::new(), false, false);
    }
    let mut total: usize = 0;
    for c in it: value.chars()
        invariant
            it.seq() == value@,
            window_measurable(value@),
            total == cols(value@.take(it.index() as int)),
            total <= 3 * it.index(),
    {
        proof { lemma_cols_take_step(value@, it.index() as int); }
        total = total + char_cols(c);
    }
    assert(value@.take(value@.len() as int) == value@);
    if total <= box_width {
        return (value.to_owned(), false, false);
    }
    if !active {
        let (mut out, _) = fit_prefix(value, box_width - 1);
        if embed {
            push_char(&mut out, '\u{2026}');
        }
        return (out, false, true);
    }
    let prefix_width = prefix_cols(value, cursor_byte);
    let right_edge = prefix_width + 1;
    let left_edge = right_edge.saturating_sub(box_width);
    let ellipsis_left = left_edge > 0;
    let v = to_chars(value);
    let mut out = String::new();
    let mut out_w: usize = 0;
    let mut col_: usize = 0;
    let mut started = false;
    let mut i: usize = 0;
    assert(value@.take(0) == Seq::<char>::empty());
    while i < v.len()
        invariant_except_break
            window_fold(value@.take(i as int), left_edge as nat, right_edge as nat, box_width as nat, ellipsis_left, embed)
                == (out@, started, false),
            col_ == cols(value@.take(i as int)),
            col_ <= 3 * i,
        invariant
            v@ == value@,
            i <= v@.len(),
            window_measurable(value@),
            out_w == cols(out@),
            out_w <= 3 * i + (if started { 3int } else { 0int }),
            value@.take(value@.len() as int) == value@,
        ensures
            window_fold(value@, left_edge as nat, right_edge as nat, box_width as nat, ellipsis_left, embed).0 == out@,
        decreases v@.len() - i,
    {
        let ch = v[i];
        proof {
            assert(value@.take(i as int + 1).drop_last() == value@.take(i as int));
            assert(value@.take(i as int + 1).last() == ch);
            lemma_cols_take_step(value@, i as int);
        }
        let w = char_cols(ch);
        let ch_start = col_;
        let ch_end = col_ + w;
        col_ = ch_end;
        if ch_end <= left_edge {
        } else if ch_start >= right_edge {
            proof {
                lemma_window_stopped(value@, i as int + 1, value@.len() as int, left_edge as nat, right_edge as nat, box_width as nat, ellipsis_left, embed);
            }
            break;
        } else {
            let mut proceed = true;
            if ellipsis_left && !started {
                let ghost before = out@;
                push_char(&mut out, '\u{2026}');
                let ew = char_cols('\u{2026}');
                proof { lemma_cols_push(before, '\u{2026}'); }
                out_w = out_w + ew;
                started = true;
                let skip = if embed { ch_start < left_edge } else { ch_end - left_edge <= 1 };
                if skip {
                    proceed = false;
                }
            }
            if proceed {
                if embed && out_w + w > box_width {
                    proof {
                        lemma_window_stopped(value@, i as int + 1, value@.len() as int, left_edge as nat, right_edge as nat, box_width as nat, ellipsis_left, embed);
                    }
                    break;
                }
                let ghost before = out@;
                push_char(&mut out, ch);
                proof { lemma_cols_push(before, ch); }
                out_w = out_w + w;
            }
        }
        i = i + 1;
    }
    (out, ellipsis_left, right_edge < total)
}

/// The part of `value` that fits a `box_width`-column box, keeping the
/// cursor visible: `(text, ellipsis on the left, ellipsis on the right)`.
/// Idle fields show their head with `…` embedded; active fields slide so
/// the cursor (plus one column for the `_` caret) stays in view, never
/// exceeding `box_width` columns after the left `…`.
pub fn visible_window(value: &str, cursor_byte: usize, box_width: usize, active: bool) -> (r: (String, bool, bool))
    requires
        window_measurable(value@),
        cursor_ok(value@, cursor_byte as nat, box_width as nat, active),
    ensures
        (r.0@, r.1, r.2) == window_spec(value@, cursor_byte as nat, box_width as nat, active, true),
{
    window_core(value, cursor_byte, box_width, active, true)
}

/// A terminal colour: the terminal's default, one of the 16 named colours
/// (by number), a 256-colour index, or an RGB triple.
#[derive(Debug, Clone, Copy, PartialEq, Eq, Structural)]
pub enum FieldColor {
    Reset,
    Named(u8),
    Indexed(u8),
    Rgb(u8, u8, u8),
}

/// A text style: foreground, background and underline colours (none keeps
/// the terminal's), and the modifier bits added and removed.
#[derive(Debug, Clone, Copy, PartialEq, Eq, Structural)]
pub struct FieldStyle {
    pub fg: Option<FieldColor>,
    pub bg: Option<FieldColor>,
    pub underline_color: Option<FieldColor>,
    pub add_modifier: u16,
    pub sub_modifier: u16,
}

/// The bold modifier bit.
pub const BOLD: u16 = 1;

pub open spec fn rgb(r: u8, g: u8, b: u8) -> FieldColor {
    FieldColor::Rgb(r, g, b)
}

/// A style with these colours and added modifiers.
pub open spec fn colored(fg: FieldColor, bg: FieldColor, add: u16) -> FieldStyle {
    FieldStyle { fg: Some(fg), bg: Some(bg), underline_color: None, add_modifier: add, sub_modifier: 0 }
}

fn style_of(fg: FieldColor, bg: FieldColor, add: u16) -> (r: FieldStyle)
    ensures
        r == colored(fg, bg, add),
{
    FieldStyle { fg: Some(fg), bg: Some(bg), underline_color: None, add_modifier: add, sub_modifier: 0 }
}

/// Inputs for rendering one input field.
pub struct InputFieldProps<'a> {
    pub label: &'a str,
    pub hint: &'a str,
    pub value: &'a str,
    pub active: bool,
    /// Cursor byte offset into `value` (ignored when idle).
    pub cursor_byte: usize,
    /// Total width the field may use (label and value box).
    pub total_width: u16,
    /// Box background while active.
    pub bg: FieldColor,
    /// Text colour while active.
    pub fg: FieldColor,
    /// Style of the `_` caret while active.
    pub cursor_style: FieldStyle,
}

impl<'a> InputFieldProps<'a> {
    /// Props with the default active colours: text on the lighter surface,
    /// caret in the same style.
    pub fn with_default_style(label: &'a str, hint: &'a str, value: &'a str, active: bool,
        cursor_byte: usize, total_width: u16) -> (p: Self)
        ensures
            p.label == label,
            p.hint == hint,
            p.value == value,
            p.active == active,
            p.cursor_byte == cursor_byte,
            p.total_width == total_width,
            p.bg == rgb(73, 77, 100),
            p.fg == rgb(202, 211, 245),
            p.cursor_style == colored(rgb(202, 211, 245), rgb(73, 77, 100), 0),
    {
        InputFieldProps {
            label,
            hint,
            value,
            active,
            cursor_byte,
            total_width,
            bg: FieldColor::Rgb(73, 77, 100),
            fg: FieldColor::Rgb(202, 211, 245),
            cursor_style: style_of(FieldColor::Rgb(202, 211, 245), FieldColor::Rgb(73, 77, 100), 0),
        }
    }
}

/// A styled run of the rendered field.
#[derive(Debug)]
pub struct FieldSpan {
    pub text: String,
    pub style: FieldStyle,
}

/// A rendered field: its spans, the columns a click hits (start inclusive,
/// end exclusive, from the caller's origin), and the columns used.
pub struct RenderedInputField {
    pub spans: Vec<FieldSpan>,
    pub hit_x: (u16, u16),
    pub used_width: u16,
}

pub open spec fn field_spans_view(v: Seq<FieldSpan>) -> Seq<(Seq<char>, FieldStyle)> {
    v.map_values(|s: FieldSpan| (s.text@, s.style))
}

/// The label segment ` Label: `.
pub open spec fn field_label(label: Seq<char>) -> Seq<char> {
    seq![' '] + label + seq![':', ' ']
}

/// Columns of the label segment, as a 16-bit count.
pub open spec fn label_width(p: InputFieldProps) -> u16 {
    unicode_str_width(field_label(p.label@)) as u16
}

/// Columns of the value box: what the label leaves, at least 4.
pub open spec fn box_width(p: InputFieldProps) -> nat {
    let b = if p.total_width >= label_width(p) { (p.total_width - label_width(p)) as nat } else { 0 };
    if b > 4 { b } else { 4 }
}

/// The label and the minimum box do not fit.
pub open spec fn field_degraded(p: InputFieldProps) -> bool {
    label_width(p) + box_width(p) > p.total_width
}

/// The degraded field: `…` followed by spaces, `total_width` columns.
pub open spec fn degraded_text(w: nat) -> Seq<char> {
    if w >= 1 { seq![ellipsis()] + run(' ', (w - 1) as nat) } else { seq![] }
}

/// Whether the value is non-empty.
pub open spec fn has_text(p: InputFieldProps) -> bool {
    p.value@.len() > 0
}

/// Label style, box background and text colour: yellow bold label and the
/// caller's colours while active; dim label, surface box and yellow text
/// when idle with text; everything dim when idle and empty.
pub open spec fn field_colors(p: InputFieldProps) -> (FieldStyle, FieldColor, FieldColor) {
    if p.active {
        (colored(rgb(238, 212, 159), rgb(30, 32, 48), BOLD), p.bg, p.fg)
    } else if has_text(p) {
        (colored(rgb(165, 173, 206), rgb(30, 32, 48), 0), rgb(54, 58, 79), rgb(238, 212, 159))
    } else {
        (colored(rgb(110, 115, 141), rgb(30, 32, 48), 0), rgb(54, 58, 79), rgb(110, 115, 141))
    }
}

/// The text in the box before padding: the hint when idle and empty, else
/// the value's window (one column narrower while active, for the caret).
pub open spec fn field_body(p: InputFieldProps) -> Seq<char> {
    let inner_w = if p.active { sat_sub(box_width(p), 1) } else { box_width(p) };
    if !has_text(p) && !p.active {
        p.hint@
    } else {
        window_spec(p.value@, p.cursor_byte as nat, inner_w, p.active, true).0
    }
}

/// The spans of a rendered field.
pub open spec fn field_spans(p: InputFieldProps) -> Seq<(Seq<char>, FieldStyle)> {
    if field_degraded(p) {
        seq![(degraded_text(p.total_width as nat), colored(rgb(110, 115, 141),
            if p.active { rgb(73, 77, 100) } else { rgb(54, 58, 79) }, 0))]
    } else {
        let (label_style, box_bg, text_fg) = field_colors(p);
        let body = field_body(p);
        let body_style = colored(text_fg, box_bg, 0);
        let body_w = unicode_str_width(body) as int;
        let label = (field_label(p.label@), label_style);
        if p.active {
            let pad_w = sat_sub(box_width(p), (body_w + 1) as nat);
            if p.cursor_style == body_style {
                seq![label, (body + seq!['_'] + run(' ', pad_w), body_style)]
            } else {
                seq![label] + (if body.len() > 0 { seq![(body, body_style)] } else { seq![] })
                    + seq![(seq!['_'], p.cursor_style)]
                    + (if pad_w > 0 { seq![(run(' ', pad_w), body_style)] } else { seq![] })
            }
        } else {
            let padded = if body_w < box_width(p) { body + run(' ', (box_width(p) - body_w) as nat) } else { body };
            seq![label, (padded, body_style)]
        }
    }
}

/// Columns used by the rendered field.
pub open spec fn field_used_width(p: InputFieldProps) -> nat {
    if field_degraded(p) { p.total_width as nat } else { (label_width(p) + box_width(p)) as nat }
}

/// A rendered field always uses exactly its total width: either the label
/// and the box fill it, or the degraded field does.
pub proof fn lemma_field_fills_width(p: InputFieldProps)
    ensures
        field_used_width(p) == p.total_width,
{
}

/// Append a span.
fn put_span(spans: &mut Vec<FieldSpan>, text: String, style: FieldStyle)
    ensures
        field_spans_view(final(spans)@) == field_spans_view(old(spans)@).push((text@, style)),
{
    let ghost t = text@;
    spans.push(FieldSpan { text, style });
    assert(field_spans_view(spans@) =~= field_spans_view(old(spans)@).push((t, style)));
}

/// Render an input field: ` Label: ` then a value box. While active the
/// box shows the window around the cursor and a `_` caret; idle with text
/// it shows the value's head in yellow; idle and empty it shows the hint.
/// When the label and a four-column box do not fit, the field is a dim
/// `…` and spaces over the whole width.
pub fn render_input_field(props: InputFieldProps, x_offset: u16) -> (r: RenderedInputField)
    requires
        !field_degraded(props) && (has_text(props) || props.active) ==> window_measurable(props.value@),
        !field_degraded(props) ==> cursor_ok(props.value@, props.cursor_byte as nat,
            sat_sub(box_width(props), 1), props.active),
        x_offset + field_used_width(props) <= u16::MAX,
    ensures
        field_spans_view(r.spans@) == field_spans(props),
        r.used_width == field_used_width(props),
        r.used_width == props.total_width,
        r.hit_x == (x_offset, (x_offset + field_used_width(props)) as u16),
{
    let mut label_text = owned(" ");
    push_str(&mut label_text, props.label);
    push_str(&mut label_text, ": ");
    proof {
        reveal_strlit(" ");
        reveal_strlit(": ");
    }
    assert(label_text@ =~= field_label(props.label@));
    let label_w = str_width(label_text.as_str()) as u16;
    let b0 = props.total_width.saturating_sub(label_w) as usize;
    let box_w: usize = if b0 > 4 { b0 } else { 4 };
    let mut spans: Vec<FieldSpan> = Vec::new();
    if (label_w as usize) + box_w > props.total_width as usize {
        let out_bg = if props.active { FieldColor::Rgb(73, 77, 100) } else { FieldColor::Rgb(54, 58, 79) };
        let width = props.total_width as usize;
        let mut body = String::new();
        if width >= 1 {
            body = repeat_char('\u{2026}', 1);
            let rest = repeat_char(' ', width - 1);
            push_str(&mut body, rest.as_str());
        }
        assert(body@ =~= degraded_text(width as nat));
        put_span(&mut spans, body, style_of(FieldColor::Rgb(110, 115, 141), out_bg, 0));
        assert(field_spans_view(spans@) =~= field_spans(props));
        return RenderedInputField {
            spans,
            hit_x: (x_offset, x_offset + props.total_width),
            used_width: props.total_width,
        };
    }
    let nonempty = !props.value.is_empty();
    let (label_style, box_bg, text_fg) = if props.active {
        (style_of(FieldColor::Rgb(238, 212, 159), FieldColor::Rgb(30, 32, 48), BOLD), props.bg, props.fg)
    } else if nonempty {
        (style_of(FieldColor::Rgb(165, 173, 206), FieldColor::Rgb(30, 32, 48), 0), FieldColor::Rgb(54, 58, 79),
            FieldColor::Rgb(238, 212, 159))
    } else {
        (style_of(FieldColor::Rgb(110, 115, 141), FieldColor::Rgb(30, 32, 48), 0), FieldColor::Rgb(54, 58, 79),
            FieldColor::Rgb(110, 115, 141))
    };
    let ghost label_v = label_text@;
    put_span(&mut spans, label_text, label_style);
    let inner_w = if props.active { box_w.saturating_sub(1) } else { box_w };
    let body_text = if !nonempty && !props.active {
        owned(props.hint)
    } else {
        let (t, _l, _r) = visible_window(props.value, props.cursor_byte, inner_w, props.active);
        t
    };
    assert(body_text@ == field_body(props));
    let body_style = style_of(text_fg, box_bg, 0);
    let body_w = str_width(body_text.as_str());
    if props.active {
        let pad_w = box_w.saturating_sub(body_w.saturating_add(1));
        if props.cursor_style == body_style {
            let mut merged = body_text;
            let ghost bv = merged@;
            let caret = repeat_char('_', 1);
            push_str(&mut merged, caret.as_str());
            let fill = repeat_char(' ', pad_w);
            push_str(&mut merged, fill.as_str());
            assert(merged@ =~= bv + seq!['_'] + run(' ', pad_w as nat));
            put_span(&mut spans, merged, body_style);
        } else {
            if !body_text.as_str().is_empty() {
                put_span(&mut spans, body_text, body_style);
            }
            let caret = repeat_char('_', 1);
            assert(caret@ =~= seq!['_']);
            put_span(&mut spans, caret, props.cursor_style);
            if pad_w > 0 {
                put_span(&mut spans, repeat_char(' ', pad_w), body_style);
            }
        }
    } else {
        let mut body = body_text;
        let ghost bv = body@;
        if body_w < box_w {
            let fill = repeat_char(' ', box_w - body_w);
            push_str(&mut body, fill.as_str());
        }
        put_span(&mut spans, body, body_style);
    }
    assert(field_spans_view(spans@) =~= field_spans(props));
    proof { lemma_field_fills_width(props); }
    RenderedInputField {
        spans,
        hit_x: (x_offset, x_offset + label_w + box_w as u16),
        used_width: label_w + box_w as u16,
    }
}

} // verus!
