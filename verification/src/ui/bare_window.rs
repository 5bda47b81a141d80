//! The input-field scroll window for callers that paint the idle ellipsis
//! themselves.

use vstd::prelude::*;
use crate::ui::input_field::{cursor_ok, window_core, window_measurable, window_spec};

verus! {

/// The part of `value` that fits a `box_width`-column box, keeping the
/// cursor visible: `(text, ellipsis on the left, ellipsis on the right)`.
/// Idle fields get only the head that fits in `box_width - 1` columns (the
/// caller adds `…`); the active scan keeps every char after the left `…`
/// except one that would show by a single column.
pub fn visible_window(value: &str, cursor_byte: usize, box_width: usize, active: bool) -> (r: (String, bool, bool))
    requires
        window_measurable(value@),
        cursor_ok(value@, cursor_byte as nat, box_width as nat, active),
    ensures
        (r.0@, r.1, r.2) == window_spec(value@, cursor_byte as nat, box_width as nat, active, false),
{
    window_core(value, cursor_byte, box_width, active, false)
}

} // verus!
