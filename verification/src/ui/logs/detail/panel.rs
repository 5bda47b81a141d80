//! Layout of the log detail side panel: its inner size, the window of body
//! rows shown under the header, and the copy pill on its title row.

use vstd::prelude::*;

verus! {

/// Where things go in the side panel.
pub struct PanelLayout {
    /// Columns and rows inside the panel's border.
    pub inner_w: usize,
    pub inner_h: usize,
    /// Rows left for the body under the header.
    pub body_height: usize,
    /// The first body row shown.
    pub scroll: usize,
    /// The body rows shown: `[scroll, end)`.
    pub end: usize,
    /// The copy pill's click range: its row and `[x_start, x_end)`.
    pub copy_btn: (u16, u16, u16),
}

/// Columns of the ` Copy ` pill.
pub const COPY_WIDTH: u16 = 6;

/// `a - b`, or zero when `b > a`.
pub open spec fn sub0(a: int, b: int) -> int {
    if a >= b { a - b } else { 0 }
}

/// The side panel's layout for a panel at `(x, y)` of `width` by `height`
/// cells, a header of `header_rows` rows, `body_rows` body rows, and a
/// requested body scroll: the border takes two columns and two rows, the
/// scroll stops at the body's end, and the copy pill sits at the right end
/// of the top row.
pub open spec fn panel_spec(x: u16, y: u16, width: u16, height: u16, header_rows: nat, body_rows: nat,
    scroll: nat) -> (nat, nat, nat, nat, nat, (u16, u16, u16)) {
    let inner_w = sub0(width as int, 2) as nat;
    let inner_h = sub0(height as int, 2) as nat;
    let body_height = sub0(inner_h as int, header_rows as int) as nat;
    let s = if scroll < body_rows { scroll } else { body_rows };
    let end = if s + body_height < body_rows { s + body_height } else { body_rows };
    let x_end = (x + width) as u16;
    (inner_w, inner_h, body_height, s, end as nat, (y, sub0(x_end as int, COPY_WIDTH as int) as u16, x_end))
}

/// Lay out the side panel (see [`panel_spec`]).
pub fn panel_layout(x: u16, y: u16, width: u16, height: u16, header_rows: usize, body_rows: usize,
    scroll: usize) -> (r: PanelLayout)
    requires
        x + width <= u16::MAX,
    ensures
        (r.inner_w as nat, r.inner_h as nat, r.body_height as nat, r.scroll as nat, r.end as nat, r.copy_btn)
            == panel_spec(x, y, width, height, header_rows as nat, body_rows as nat, scroll as nat),
{
    let inner_w = width.saturating_sub(2) as usize;
    let inner_h = height.saturating_sub(2) as usize;
    let body_height = inner_h.saturating_sub(header_rows);
    let s = if scroll < body_rows { scroll } else { body_rows };
    let end = if body_height < body_rows - s { s + body_height } else { body_rows };
    let x_end = x + width;
    PanelLayout {
        inner_w,
        inner_h,
        body_height,
        scroll: s,
        end,
        copy_btn: (y, x_end.saturating_sub(COPY_WIDTH), x_end),
    }
}

} // verus!
