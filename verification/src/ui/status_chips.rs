//! The chips shown in the status bar while no app is attached.

use vstd::prelude::*;
use crate::text::strings::{decimal, decimal_string, owned, push_str};
use crate::text::width::{all_printable_ascii, str_width, unicode_str_width};
use crate::ui::input_field::{colored, rgb, FieldColor, FieldSpan, FieldStyle, BOLD};

verus! {

/// The text of the offline chip.
pub open spec fn offline_text() -> Seq<char> {
    seq![' ', 'O', 'F', 'F', 'L', 'I', 'N', 'E', ' ']
}

/// The `OFFLINE` chip, bold on the surface colour, and its width in
/// columns.
pub fn offline_chip() -> (r: (Vec<FieldSpan>, u16))
    ensures
        r.0@.len() == 1,
        r.0@[0].text@ == offline_text(),
        r.0@[0].style == colored(rgb(165, 173, 206), rgb(54, 58, 79), BOLD),
        r.1 == 9,
{
    let text = owned(" OFFLINE ");
    proof { reveal_strlit(" OFFLINE "); }
    assert(text@ =~= offline_text());
    assert(all_printable_ascii(text@));
    let w = str_width(text.as_str()) as u16;
    let style = FieldStyle {
        fg: Some(FieldColor::Rgb(165, 173, 206)),
        bg: Some(FieldColor::Rgb(54, 58, 79)),
        underline_color: None,
        add_modifier: BOLD,
        sub_modifier: 0,
    };
    let mut spans: Vec<FieldSpan> = Vec::new();
    spans.push(FieldSpan { text, style });
    (spans, w)
}

/// The label of the discovered-devices hint: ` ⇅ No devices `,
/// ` ⇅ 1 device ` or ` ⇅ N devices `.
pub open spec fn devices_hint_text(count: nat) -> Seq<char> {
    if count == 0 {
        seq![' ', '\u{21c5}', ' ', 'N', 'o', ' ', 'd', 'e', 'v', 'i', 'c', 'e', 's', ' ']
    } else if count == 1 {
        seq![' ', '\u{21c5}', ' ', '1', ' ', 'd', 'e', 'v', 'i', 'c', 'e', ' ']
    } else {
        seq![' ', '\u{21c5}', ' '] + decimal(count) + seq![' ', 'd', 'e', 'v', 'i', 'c', 'e', 's', ' ']
    }
}

/// The discovered-devices hint next to the offline chip, on background
/// `bg`, and its width in columns.
pub fn offline_devices_hint(device_count: usize, bg: FieldColor) -> (r: (Vec<FieldSpan>, u16))
    ensures
        r.0@.len() == 1,
        r.0@[0].text@ == devices_hint_text(device_count as nat),
        r.0@[0].style == colored(rgb(165, 173, 206), bg, 0),
        r.1 == unicode_str_width(devices_hint_text(device_count as nat)) as u16,
{
    let label = if device_count == 0 {
        let t = owned(" \u{21c5} No devices ");
        proof { reveal_strlit(" \u{21c5} No devices "); }
        assert(t@ =~= devices_hint_text(0));
        t
    } else if device_count == 1 {
        let t = owned(" \u{21c5} 1 device ");
        proof { reveal_strlit(" \u{21c5} 1 device "); }
        assert(t@ =~= devices_hint_text(1));
        t
    } else {
        let mut t = owned(" \u{21c5} ");
        let digits = decimal_string(device_count);
        push_str(&mut t, digits.as_str());
        push_str(&mut t, " devices ");
        proof {
            reveal_strlit(" \u{21c5} ");
            reveal_strlit(" devices ");
        }
        assert(t@ =~= devices_hint_text(device_count as nat));
        t
    };
    let w = str_width(label.as_str()) as u16;
    let style = FieldStyle { fg: Some(FieldColor::Rgb(165, 173, 206)), bg: Some(bg), underline_color: None,
        add_modifier: 0, sub_modifier: 0 };
    let mut spans: Vec<FieldSpan> = Vec::new();
    spans.push(FieldSpan { text: label, style });
    (spans, w)
}

} // verus!
