//! Device picker list arithmetic: shortened device ids, the scroll offset
//! that keeps the selected card in view, and the viewport's rows and
//! click regions.

use vstd::prelude::*;
use crate::text::strings::{from_chars, push_str, to_chars};
use crate::text::width::{str_width, unicode_str_width};
use crate::ui::picker_rows::{blank_span, copy_spans, lines_view, spans_view, LineView, PickerLine, PickerSpan, SpanView, Tone};

verus! {

/// A long device id shown as its first 8 chars, `...` and its last 4
/// chars; ids at most 22 columns wide, or of at most 14 chars, stay whole.
pub open spec fn short_id_spec(id: Seq<char>) -> Seq<char> {
    if unicode_str_width(id) <= 22 || id.len() <= 14 {
        id
    } else {
        id.take(8) + seq!['.', '.', '.'] + id.skip(id.len() - 4)
    }
}

/// Shorten a long device id or UDID for display.
pub fn shorten_id(id: &str) -> (r: String)
    ensures
        r@ == short_id_spec(id@),
{
    let v = to_chars(id);
    let n = v.len();
    let w = str_width(id);
    if w <= 22 || n <= 14 {
        assert(v@.subrange(0, n as int) == v@);
        return from_chars(v.as_slice(), 0, n);
    }
    let mut r = from_chars(v.as_slice(), 0, 8);
    proof { reveal_strlit("..."); }
    push_str(&mut r, "...");
    let tail = from_chars(v.as_slice(), n - 4, n);
    push_str(&mut r, tail.as_str());
    assert(r@ =~= short_id_spec(id@));
    r
}

/// The scroll position applied to the picker list.
#[derive(Debug, Clone, Copy, PartialEq, Eq)]
pub struct ScrollResult {
    pub scroll_offset: usize,
    pub total_lines: usize,
    pub max_scroll: usize,
    pub visible_h: usize,
}

/// Whether some line belongs to card `sel`.
pub open spec fn has_card(targets: Seq<Option<usize>>, sel: usize) -> bool {
    exists|i: int| 0 <= i < targets.len() && targets[i] == Some(sel)
}

/// The first line of card `sel`.
pub open spec fn card_top(targets: Seq<Option<usize>>, sel: usize) -> int {
    choose|i: int| 0 <= i < targets.len() && targets[i] == Some(sel)
        && forall|j: int| 0 <= j < i ==> targets[j] != Some(sel)
}

/// The last line of card `sel`.
pub open spec fn card_bottom(targets: Seq<Option<usize>>, sel: usize) -> int {
    choose|i: int| 0 <= i < targets.len() && targets[i] == Some(sel)
        && forall|j: int| i < j < targets.len() ==> targets[j] != Some(sel)
}

/// The selection clamped to the selectable cards.
pub open spec fn clamped_selection(selected: usize, count: usize) -> usize {
    let max_sel: int = if count >= 1 { count - 1 } else { 0 };
    if selected > max_sel { max_sel as usize } else { selected }
}

/// The scroll offset after keeping card `sel` in view (when it has lines)
/// and clamping to the last full page.
pub open spec fn clamped_scroll(targets: Seq<Option<usize>>, sel: usize, scroll: usize, h: usize) -> int {
    let s1: int = if has_card(targets, sel) {
        let top = card_top(targets, sel);
        let bot = card_bottom(targets, sel);
        if top < scroll { top } else if bot >= scroll + h { bot + 1 - h } else { scroll as int }
    } else {
        scroll as int
    };
    let max_scroll: int = if targets.len() >= h { targets.len() - h } else { 0 };
    if s1 > max_scroll { max_scroll } else { s1 }
}

/// The line of card `sel` found by scanning from the top or the bottom.
proof fn lemma_card_bounds(targets: Seq<Option<usize>>, sel: usize, top: int, bot: int)
    requires
        0 <= top <= bot < targets.len(),
        targets[top] == Some(sel),
        targets[bot] == Some(sel),
        forall|j: int| 0 <= j < top ==> targets[j] != Some(sel),
        forall|j: int| bot < j < targets.len() ==> targets[j] != Some(sel),
    ensures
        has_card(targets, sel),
        card_top(targets, sel) == top,
        card_bottom(targets, sel) == bot,
{
    let t = card_top(targets, sel);
    let b = card_bottom(targets, sel);
    assert(0 <= top < targets.len() && targets[top] == Some(sel) && forall|j: int| 0 <= j < top ==> targets[j] != Some(sel));
    assert(0 <= bot < targets.len() && targets[bot] == Some(sel) && forall|j: int| bot < j < targets.len() ==> targets[j] != Some(sel));
    if t < top { assert(targets[t] != Some(sel)); }
    if top < t { assert(targets[top] != Some(sel)); }
    if b > bot { assert(targets[b] != Some(sel)); }
    if bot > b { assert(targets[bot] != Some(sel)); }
}

/// The card each picker line selects.
pub open spec fn click_targets(lines: Seq<PickerLine>) -> Seq<Option<usize>> {
    lines.map_values(|l: PickerLine| l.click_target)
}

/// Clamp the selection to the selectable cards and the scroll offset so
/// that the selected card stays visible in `inner_h` rows.
pub fn clamp_scroll(lines: &[PickerLine], selected: &mut usize, scroll: &mut usize,
    selectable_count: usize, inner_h: usize) -> (r: ScrollResult)
    ensures
        *final(selected) == clamped_selection(*old(selected), selectable_count),
        *final(scroll) == clamped_scroll(click_targets(lines@), *final(selected), *old(scroll), inner_h),
        r.scroll_offset == *final(scroll),
        r.total_lines == lines@.len(),
        r.max_scroll == (if lines@.len() >= inner_h { lines@.len() - inner_h } else { 0 }),
        r.visible_h == inner_h,
{
    let ghost targets = click_targets(lines@);
    let max_sel = if selectable_count >= 1 { selectable_count - 1 } else { 0 };
    if *selected > max_sel {
        *selected = max_sel;
    }
    let sel = *selected;
    let mut top: Option<usize> = None;
    let mut bot: usize = 0;
    let mut idx: usize = 0;
    while idx < lines.len()
        invariant
            idx <= targets.len(),
            targets == click_targets(lines@),
            match top {
                None => forall|j: int| 0 <= j < idx ==> targets[j] != Some(sel),
                Some(t) => t <= bot < idx && targets[t as int] == Some(sel) && targets[bot as int] == Some(sel)
                    && (forall|j: int| 0 <= j < t ==> targets[j] != Some(sel))
                    && (forall|j: int| bot < j < idx ==> targets[j] != Some(sel)),
            },
        decreases targets.len() - idx,
    {
        if lines[idx].click_target == Some(sel) {
            if top.is_none() {
                top = Some(idx);
            }
            bot = idx;
        }
        idx = idx + 1;
    }
    let total = lines.len();
    let h = inner_h;
    match top {
        Some(t) => {
            proof { lemma_card_bounds(targets, sel, t as int, bot as int); }
            if t < *scroll {
                *scroll = t;
            } else if bot - *scroll >= h {
                *scroll = bot + 1 - h;
            }
        },
        None => {
            assert(!has_card(targets, sel));
        },
    }
    let max_scroll = if total >= h { total - h } else { 0 };
    if *scroll > max_scroll {
        *scroll = max_scroll;
    }
    ScrollResult { scroll_offset: *scroll, total_lines: total, max_scroll, visible_h: h }
}

/// After clamping, a selected card that fits in the rows is fully
/// visible: its first line is at or below the scroll offset and its last
/// line above the offset plus the visible height.
pub proof fn lemma_selected_card_visible(targets: Seq<Option<usize>>, sel: usize, scroll: usize, h: usize)
    requires
        has_card(targets, sel),
        card_bottom(targets, sel) - card_top(targets, sel) < h,
    ensures
        clamped_scroll(targets, sel, scroll, h) <= card_top(targets, sel),
        card_bottom(targets, sel) < clamped_scroll(targets, sel, scroll, h) + h,
{
    let w = choose|i: int| 0 <= i < targets.len() && targets[i] == Some(sel);
    lemma_first_exists(targets, sel, w);
    lemma_last_exists(targets, sel, w);
}

/// A line of card `sel` gives a first one.
proof fn lemma_first_exists(targets: Seq<Option<usize>>, sel: usize, w: int)
    requires
        0 <= w < targets.len(),
        targets[w] == Some(sel),
    ensures
        0 <= card_top(targets, sel) < targets.len(),
        targets[card_top(targets, sel)] == Some(sel),
        forall|j: int| 0 <= j < card_top(targets, sel) ==> targets[j] != Some(sel),
    decreases w,
{
    if exists|j: int| 0 <= j < w && targets[j] == Some(sel) {
        let j = choose|j: int| 0 <= j < w && targets[j] == Some(sel);
        lemma_first_exists(targets, sel, j);
    } else {
        assert(0 <= w < targets.len() && targets[w] == Some(sel)
            && forall|j: int| 0 <= j < w ==> targets[j] != Some(sel));
    }
}

/// A line of card `sel` gives a last one.
proof fn lemma_last_exists(targets: Seq<Option<usize>>, sel: usize, w: int)
    requires
        0 <= w < targets.len(),
        targets[w] == Some(sel),
    ensures
        0 <= card_bottom(targets, sel) < targets.len(),
        targets[card_bottom(targets, sel)] == Some(sel),
        forall|j: int| card_bottom(targets, sel) < j < targets.len() ==> targets[j] != Some(sel),
    decreases targets.len() - w,
{
    if exists|j: int| w < j < targets.len() && targets[j] == Some(sel) {
        let j = choose|j: int| w < j < targets.len() && targets[j] == Some(sel);
        lemma_last_exists(targets, sel, j);
    } else {
        assert(0 <= w < targets.len() && targets[w] == Some(sel)
            && forall|j: int| w < j < targets.len() ==> targets[j] != Some(sel));
    }
}

/// The picker modal `(x, y, width, height)` inside an area of the given
/// size: two thirds of the width but at least 60 columns and at most the
/// width less 4, three quarters of the height but at least 8 rows,
/// centred.
pub open spec fn modal_area_spec(width: u16, height: u16) -> (u16, u16, u16, u16) {
    let w0: int = width * 2 / 3;
    let w1: int = if w0 > 60 { w0 } else { 60 };
    let cap: int = if width >= 4 { width - 4 } else { 0 };
    let pw: int = if w1 < cap { w1 } else { cap };
    let h0: int = height * 3 / 4;
    let ph: int = if h0 > 8 { h0 } else { 8 };
    let px: int = (if width >= pw { width - pw } else { 0 }) / 2;
    let py: int = (if height >= ph { height - ph } else { 0 }) / 2;
    (px as u16, py as u16, pw as u16, ph as u16)
}

/// Compute the centred rectangle that the picker renders into.
pub fn compute_modal_area(width: u16, height: u16) -> (r: (u16, u16, u16, u16))
    requires
        width * 2 <= u16::MAX,
        height * 3 <= u16::MAX,
    ensures
        r == modal_area_spec(width, height),
{
    let picker_w = {
        let w0 = width * 2 / 3;
        let w1 = if w0 > 60 { w0 } else { 60 };
        let cap = width.saturating_sub(4);
        if w1 < cap { w1 } else { cap }
    };
    let h0 = height * 3 / 4;
    let picker_h = if h0 > 8 { h0 } else { 8 };
    let picker_x = width.saturating_sub(picker_w) / 2;
    let picker_y = height.saturating_sub(picker_h) / 2;
    (picker_x, picker_y, picker_w, picker_h)
}

/// The rows shown in the viewport and the click regions `(y, x_start,
/// x_end, card)` of the cards among them.
pub struct Viewport {
    pub out_lines: Vec<Vec<PickerSpan>>,
    pub click_regions: Vec<(u16, u16, u16, usize)>,
}

/// The spans of each viewport row: the list line at the scroll offset plus
/// the row, or a blank row past the end of the list.
pub open spec fn view_rows(lines: Seq<LineView>, inner_w: nat, offset: nat, total: nat, h: nat)
    -> Seq<Seq<SpanView>> {
    Seq::new(h, |row: int| if offset + row >= total {
        seq![blank_span(inner_w, Tone::Base)]
    } else {
        lines[offset + row].0
    })
}

/// Whether viewport row `row` shows a line of some card.
pub open spec fn row_has_card(targets: Seq<Option<usize>>, offset: nat, total: nat, row: int) -> bool {
    offset + row < total && targets[offset + row] is Some
}

/// The click regions of the first `k` viewport rows, top to bottom: one
/// per row that shows a card's line, spanning the card's columns.
pub open spec fn view_regions(targets: Seq<Option<usize>>, y0: u16, x_start: u16, x_end: u16,
    offset: nat, total: nat, k: nat) -> Seq<(u16, u16, u16, usize)>
    decreases k,
{
    if k == 0 {
        seq![]
    } else {
        let prev = view_regions(targets, y0, x_start, x_end, offset, total, (k - 1) as nat);
        let row = k - 1;
        if row_has_card(targets, offset, total, row) {
            prev.push(((y0 + row) as u16, x_start, x_end, targets[offset + row]->0))
        } else {
            prev
        }
    }
}

/// Render the visible slice of `lines` and collect the click regions of
/// the cards in view. `inner_x`, `inner_y` are the modal interior's origin.
pub fn build_viewport(lines: &[PickerLine], inner_x: u16, inner_y: u16, inner_w: usize, dev_w: usize,
    device_gutter: u16, card_indent: u16, scroll: &ScrollResult) -> (v: Viewport)
    requires
        scroll.total_lines <= lines@.len(),
        scroll.visible_h == 0 || scroll.scroll_offset + scroll.visible_h - 1 <= usize::MAX,
        (exists|row: int| 0 <= row < scroll.visible_h
            && #[trigger] row_has_card(click_targets(lines@), scroll.scroll_offset as nat,
                scroll.total_lines as nat, row)) ==> {
            &&& inner_x + device_gutter + card_indent <= u16::MAX
            &&& inner_x + device_gutter + (dev_w as u16) <= u16::MAX
            &&& inner_x + device_gutter + (dev_w as u16) >= card_indent
        },
        forall|row: int| 0 <= row < scroll.visible_h && #[trigger] row_has_card(click_targets(lines@),
            scroll.scroll_offset as nat, scroll.total_lines as nat, row) ==> inner_y + row <= u16::MAX,
    ensures
        v.out_lines@.map_values(|r: Vec<PickerSpan>| spans_view(r@)) == view_rows(lines_view(lines@),
            inner_w as nat, scroll.scroll_offset as nat, scroll.total_lines as nat, scroll.visible_h as nat),
        v.click_regions@ == view_regions(click_targets(lines@), inner_y,
            (inner_x + device_gutter + card_indent) as u16,
            (inner_x + device_gutter + (dev_w as u16) - card_indent) as u16,
            scroll.scroll_offset as nat, scroll.total_lines as nat, scroll.visible_h as nat),
{
    let ghost targets = click_targets(lines@);
    let ghost rows = view_rows(lines_view(lines@), inner_w as nat, scroll.scroll_offset as nat,
        scroll.total_lines as nat, scroll.visible_h as nat);
    let ghost xs = (inner_x + device_gutter + card_indent) as u16;
    let ghost xe = (inner_x + device_gutter + (dev_w as u16) - card_indent) as u16;
    let mut click_regions: Vec<(u16, u16, u16, usize)> = Vec::new();
    let mut out_lines: Vec<Vec<PickerSpan>> = Vec::new();
    let mut row: usize = 0;
    while row < scroll.visible_h
        invariant
            row <= scroll.visible_h,
            targets == click_targets(lines@),
            scroll.total_lines <= lines@.len(),
            scroll.visible_h == 0 || scroll.scroll_offset + scroll.visible_h - 1 <= usize::MAX,
            (exists|r: int| 0 <= r < scroll.visible_h
                && #[trigger] row_has_card(targets, scroll.scroll_offset as nat, scroll.total_lines as nat, r)) ==> {
                &&& inner_x + device_gutter + card_indent <= u16::MAX
                &&& inner_x + device_gutter + (dev_w as u16) <= u16::MAX
                &&& inner_x + device_gutter + (dev_w as u16) >= card_indent
            },
            forall|r: int| 0 <= r < scroll.visible_h && #[trigger] row_has_card(targets,
                scroll.scroll_offset as nat, scroll.total_lines as nat, r) ==> inner_y + r <= u16::MAX,
            xs == (inner_x + device_gutter + card_indent) as u16,
            xe == (inner_x + device_gutter + (dev_w as u16) - card_indent) as u16,
            rows == view_rows(lines_view(lines@), inner_w as nat, scroll.scroll_offset as nat,
                scroll.total_lines as nat, scroll.visible_h as nat),
            out_lines@.len() == row,
            forall|i: int| 0 <= i < row ==> spans_view(#[trigger] out_lines@[i]@) == rows[i],
            click_regions@ == view_regions(targets, inner_y, xs, xe, scroll.scroll_offset as nat,
                scroll.total_lines as nat, row as nat),
        decreases scroll.visible_h - row,
    {
        let src = scroll.scroll_offset + row;
        if src >= scroll.total_lines {
            let blank = PickerLine::plain(inner_w, Tone::Base);
            out_lines.push(blank.spans);
        } else {
            let l = &lines[src];
            out_lines.push(copy_spans(&l.spans));
            match l.click_target {
                Some(sel) => {
                    assert(row_has_card(targets, scroll.scroll_offset as nat, scroll.total_lines as nat, row as int));
                    let x_start = inner_x + device_gutter + card_indent;
                    let x_end = inner_x + device_gutter + dev_w as u16 - card_indent;
                    let y = inner_y + row as u16;
                    click_regions.push((y, x_start, x_end, sel));
                },
                None => {},
            }
        }
        row = row + 1;
    }
    assert(out_lines@.map_values(|r: Vec<PickerSpan>| spans_view(r@)) =~= rows);
    Viewport { out_lines, click_regions }
}

} // verus!
