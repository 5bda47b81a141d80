//! The flog logo's colour gradient: each char of a line bold, cycling
//! blue, sapphire, teal, green, teal, sapphire.

use vstd::prelude::*;
use crate::text::strings::{push_char, to_chars};
use crate::ui::highlight::{field_spans, fg_style, spans_text, lemma_spans_text_push};
use crate::ui::input_field::{BOLD, FieldColor, FieldSpan, FieldStyle};

verus! {

/// Number of colours in the gradient.
pub const GRADIENT_LEN: usize = 6;

/// The `k`-th colour of the gradient.
pub open spec fn gradient_color(k: int) -> FieldColor {
    if k == 0 {
        FieldColor::Rgb(138, 173, 244)
    } else if k == 1 || k == 5 {
        FieldColor::Rgb(125, 196, 228)
    } else if k == 2 || k == 4 {
        FieldColor::Rgb(139, 213, 202)
    } else {
        FieldColor::Rgb(166, 218, 149)
    }
}

fn gradient_at(k: usize) -> (c: FieldColor)
    requires
        k < GRADIENT_LEN,
    ensures
        c == gradient_color(k as int),
{
    if k == 0 {
        FieldColor::Rgb(138, 173, 244)
    } else if k == 1 || k == 5 {
        FieldColor::Rgb(125, 196, 228)
    } else if k == 2 || k == 4 {
        FieldColor::Rgb(139, 213, 202)
    } else {
        FieldColor::Rgb(166, 218, 149)
    }
}

/// The spans of a gradient line: one per char, the `i`-th in the
/// gradient's `i mod 6`-th colour, bold.
pub open spec fn gradient_spans(t: Seq<char>) -> Seq<(Seq<char>, FieldStyle)> {
    Seq::new(t.len(), |i: int| (seq![t[i]], fg_style(gradient_color(i % 6), BOLD)))
}

/// Colour a line of the logo char by char along the gradient; the chars,
/// joined, give back the line.
pub fn gradient_line(text: &str) -> (r: Vec<FieldSpan>)
    ensures
        field_spans(r@) == gradient_spans(text@),
        spans_text(field_spans(r@)) == text@,
{
    let chars = to_chars(text);
    let mut spans: Vec<FieldSpan> = Vec::new();
    let mut i: usize = 0;
    while i < chars.len()
        invariant
            i <= chars@.len(),
            chars@ == text@,
            field_spans(spans@) == gradient_spans(text@).take(i as int),
            spans_text(field_spans(spans@)) == text@.take(i as int),
        decreases chars@.len() - i,
    {
        let mut one = String::new();
        push_char(&mut one, chars[i]);
        let style = FieldStyle { fg: Some(gradient_at(i % 6)), bg: None, underline_color: None,
            add_modifier: BOLD, sub_modifier: 0 };
        let ghost before = field_spans(spans@);
        let ghost ov = one@;
        spans.push(FieldSpan { text: one, style });
        proof {
            assert(field_spans(spans@) =~= before.push((ov, style)));
            lemma_spans_text_push(before, (ov, style));
            assert(ov =~= seq![text@[i as int]]);
            assert(gradient_spans(text@).take(i + 1) =~= gradient_spans(text@).take(i as int).push((ov, style)));
            assert(text@.take(i as int) + ov =~= text@.take(i + 1));
        }
        i = i + 1;
    }
    assert(gradient_spans(text@).take(chars@.len() as int) =~= gradient_spans(text@));
    assert(text@.take(chars@.len() as int) =~= text@);
    spans
}

/// Number of lines of the logo.
pub const LOGO_LINES: usize = 6;

/// The `k`-th line of the logo.
pub open spec fn logo_text(k: int) -> Seq<char> {
    if k == 0 {
        "███████╗██╗      ██████╗  ██████╗ "@
    } else 
    if k == 1 {
        "██╔════╝██║     ██╔═══██╗██╔════╝ "@
    } else 
    if k == 2 {
        "█████╗  ██║     ██║   ██║██║  ███╗"@
    } else 
    if k == 3 {
        "██╔══╝  ██║     ██║   ██║██║   ██║"@
    } else 
    if k == 4 {
        "██║     ███████╗╚██████╔╝╚██████╔╝"@
    } else 
    {
        "╚═╝     ╚══════╝ ╚═════╝  ╚═════╝ "@
    }
}

fn logo_line(k: usize) -> (t: &'static str)
    requires
        k < LOGO_LINES,
    ensures
        t@ == logo_text(k as int),
{
    if k == 0 {
        "███████╗██╗      ██████╗  ██████╗ "
    } else 
    if k == 1 {
        "██╔════╝██║     ██╔═══██╗██╔════╝ "
    } else 
    if k == 2 {
        "█████╗  ██║     ██║   ██║██║  ███╗"
    } else 
    if k == 3 {
        "██╔══╝  ██║     ██║   ██║██║   ██║"
    } else 
    if k == 4 {
        "██║     ███████╗╚██████╔╝╚██████╔╝"
    } else 
    {
        "╚═╝     ╚══════╝ ╚═════╝  ╚═════╝ "
    }
}

/// The logo, each line coloured along the gradient.
pub fn logo_lines() -> (rows: Vec<Vec<FieldSpan>>)
    ensures
        rows@.len() == LOGO_LINES,
        forall|k: int| 0 <= k < LOGO_LINES ==> field_spans(#[trigger] rows@[k]@) == gradient_spans(logo_text(k)),
{
    let mut rows: Vec<Vec<FieldSpan>> = Vec::new();
    let mut k: usize = 0;
    while k < LOGO_LINES
        invariant
            k <= LOGO_LINES,
            rows@.len() == k,
            forall|j: int| 0 <= j < k ==> field_spans(#[trigger] rows@[j]@) == gradient_spans(logo_text(j)),
        decreases LOGO_LINES - k,
    {
        rows.push(gradient_line(logo_line(k)));
        k = k + 1;
    }
    rows
}

} // verus!
