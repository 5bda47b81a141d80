//! The logs status bar: the pill on the left (following, new logs, or the
//! scroll position), the attached app's context, and where the buttons on
//! the right go.

use vstd::prelude::*;
use crate::text::strings::{decimal, decimal_string, owned, push_char, push_str};

verus! {

/// The dot of the LIVE pill, pulsing every 8 ticks through `●◉●○`.
pub open spec fn live_dot(tick: u64) -> char {
    let phase = (tick / 8) % 4;
    if phase == 0 { '\u{25cf}' } else if phase == 1 { '\u{25c9}' } else if phase == 2 { '\u{25cf}' } else { '\u{25cb}' }
}

/// ` ● LIVE ` with the dot for `tick`.
pub open spec fn live_text_spec(tick: u64) -> Seq<char> {
    seq![' ', live_dot(tick), ' ', 'L', 'I', 'V', 'E', ' ']
}

/// The LIVE pill's text while the list follows new logs.
pub fn live_text(tick: u64) -> (r: String)
    ensures
        r@ == live_text_spec(tick),
{
    let phase = (tick / 8) % 4;
    let dot = if phase == 0 { '\u{25cf}' } else if phase == 1 { '\u{25c9}' } else if phase == 2 { '\u{25cf}' } else { '\u{25cb}' };
    let mut r = owned(" ");
    proof { reveal_strlit(" "); reveal_strlit(" LIVE "); }
    push_char(&mut r, dot);
    push_str(&mut r, " LIVE ");
    assert(r@ =~= live_text_spec(tick));
    r
}

/// ` n new `: logs that arrived while paused.
pub open spec fn new_logs_text_spec(n: nat) -> Seq<char> {
    seq![' '] + decimal(n) + seq![' ', 'n', 'e', 'w', ' ']
}

/// The pill shown while paused with logs arrived since.
pub fn new_logs_text(n: usize) -> (r: String)
    ensures
        r@ == new_logs_text_spec(n as nat),
{
    let mut r = owned(" ");
    proof { reveal_strlit(" "); reveal_strlit(" new "); }
    let d = decimal_string(n);
    push_str(&mut r, d.as_str());
    push_str(&mut r, " new ");
    assert(r@ =~= new_logs_text_spec(n as nat));
    r
}

/// How far down the list the viewport is, in percent: the offset over the
/// largest offset (total entries less the visible ones, at least one
/// visible), 100 when the whole list fits.
pub open spec fn scroll_percent_spec(total: nat, visible: nat, offset: nat) -> nat {
    let vis = if visible > 1 { visible } else { 1 };
    let max_off = if total > vis { (total - vis) as nat } else { 0 };
    let pct = if max_off > 0 { ((if offset < max_off { offset } else { max_off }) * 100) / max_off } else { 100 };
    if pct < 100 { pct } else { 100 }
}

/// The scroll position in percent.
pub fn scroll_percent(total: usize, visible: usize, offset: usize) -> (p: usize)
    requires
        total <= usize::MAX / 100,
    ensures
        p as nat == scroll_percent_spec(total as nat, visible as nat, offset as nat),
        p <= 100,
{
    let vis = if visible > 1 { visible } else { 1 };
    let max_off = total.saturating_sub(vis);
    let pct = if max_off > 0 {
        let o = if offset < max_off { offset } else { max_off };
        assert(o * 100 <= max_off * 100) by (nonlinear_arith) requires o <= max_off;
        (o * 100) / max_off
    } else {
        100
    };
    if pct < 100 { pct } else { 100 }
}

/// ` p% `
pub open spec fn percent_text_spec(p: nat) -> Seq<char> {
    seq![' '] + decimal(p) + seq!['%', ' ']
}

/// The pill shown while paused with nothing new: the scroll position.
pub fn percent_text(p: usize) -> (r: String)
    ensures
        r@ == percent_text_spec(p as nat),
{
    let mut r = owned(" ");
    proof { reveal_strlit(" "); reveal_strlit("% "); }
    let d = decimal_string(p);
    push_str(&mut r, d.as_str());
    push_str(&mut r, "% ");
    assert(r@ =~= percent_text_spec(p as nat));
    r
}

/// The attached app's context: `name[ vversion] · device · :port`, the
/// device by name, or by id when it has no name.
pub open spec fn app_context_spec(app_name: Seq<char>, app_version: Seq<char>, device_name: Seq<char>,
    device_id: Seq<char>, port: u16) -> Seq<char> {
    let v = if app_version.len() == 0 { seq![] } else { seq![' ', 'v'] + app_version };
    let dev = if device_name.len() == 0 { device_id } else { device_name };
    app_name + v + seq![' ', '\u{b7}', ' '] + dev + seq![' ', '\u{b7}', ' ', ':'] + decimal(port as nat)
}

/// The status bar's description of the attached app.
pub fn app_context(app_name: &str, app_version: &str, device_name: &str, device_id: &str, port: u16) -> (r: String)
    ensures
        r@ == app_context_spec(app_name@, app_version@, device_name@, device_id@, port),
{
    proof { reveal_strlit(" v"); reveal_strlit(" \u{b7} "); reveal_strlit(" \u{b7} :"); }
    let mut r = owned(app_name);
    if !app_version.is_empty() {
        push_str(&mut r, " v");
        push_str(&mut r, app_version);
    }
    push_str(&mut r, " \u{b7} ");
    if device_name.is_empty() {
        push_str(&mut r, device_id);
    } else {
        push_str(&mut r, device_name);
    }
    push_str(&mut r, " \u{b7} :");
    let d = decimal_string(port as usize);
    push_str(&mut r, d.as_str());
    assert(r@ =~= app_context_spec(app_name@, app_version@, device_name@, device_id@, port));
    r
}

/// Columns the right-hand buttons are given: `  Clear  `, `  Export  `,
/// `  Stats  `, `  Help  ` and `  Quit  `, each counted with one blank.
pub const BUTTONS_WIDTH: u16 = 49;

/// The blank run between the left group and the buttons: what the row
/// leaves, at least one column.
pub open spec fn spacer_spec(width: u16, left_width: u16) -> u16 {
    let room = if width >= left_width + BUTTONS_WIDTH { (width - left_width - BUTTONS_WIDTH) as u16 } else { 0u16 };
    if room > 1 { room } else { 1 }
}

/// The click range `[start, end)` of each button, left to right, from
/// where the first one starts.
pub open spec fn button_ranges(x: u16) -> Seq<(u16, u16)> {
    seq![
        (x, (x + 9) as u16),
        ((x + 10) as u16, (x + 20) as u16),
        ((x + 21) as u16, (x + 30) as u16),
        ((x + 31) as u16, (x + 39) as u16),
        ((x + 40) as u16, (x + 48) as u16),
    ]
}

/// Lay out the buttons after a left group `left_width` columns wide in a
/// row `width` columns wide: the spacer before them, and each button's
/// click range.
pub fn bottom_buttons(width: u16, left_width: u16) -> (r: (u16, Vec<(u16, u16)>))
    requires
        left_width + BUTTONS_WIDTH <= u16::MAX,
    ensures
        r.0 == spacer_spec(width, left_width),
        r.1@ == button_ranges((left_width + spacer_spec(width, left_width)) as u16),
{
    let room = width.saturating_sub(left_width + BUTTONS_WIDTH);
    let spacer = if room > 1 { room } else { 1 };
    let x = left_width + spacer;
    let mut ranges: Vec<(u16, u16)> = Vec::new();
    ranges.push((x, x + 9));
    ranges.push((x + 10, x + 20));
    ranges.push((x + 21, x + 30));
    ranges.push((x + 31, x + 39));
    ranges.push((x + 40, x + 48));
    assert(ranges@ =~= button_ranges(x));
    (spacer, ranges)
}

} // verus!
