//! Line-level styling of detail sections: stack frames split into their
//! parts, SDK frames told apart from user code, and heading rules.

use vstd::prelude::*;
use crate::text::strings::{
    char_utf8_len, from_chars, is_whitespace, lead_ws, lemma_lead_ws_bound, push_char, skip_ws_forward,
    str_starts_with, to_chars, trim,
    trim_spec, trim_start_spec, utf8_len,
};
use crate::text::wrap::{multiline_spec, sat_sub, wrap_multiline};
use crate::text::width::measurable;
use crate::text::strings::{owned, trim_start, views};
use crate::ui::highlight::{auto_highlight, byte_len, field_spans, fg_style, highlight_spec, spans_text, lemma_spans_text_push};
use crate::ui::input_field::{rgb, FieldColor, FieldSpan, FieldStyle, BOLD};
use crate::ui::logs::detail::section::{async_marker_line, async_marker_text, digit_run, is_async_marker};
use crate::ui::json_viewer::render::{append_render, render_rows, rows_view, spans_view, JsonSpan, RowV, SpanV};
use crate::ui::json_viewer::state::{init_state, starts_expanded, JsonViewerState};
use crate::ui::json_viewer::tree::{Tree, tree_wf};

verus! {

/// How a piece of detail text is shown.
#[derive(Debug, Clone, Copy, PartialEq, Eq)]
pub enum DetailStyle {
    /// Ordinary text.
    Text,
    /// Unstyled text (indents, gaps, blank rows).
    Raw,
    /// An `<asynchronous suspension>` marker.
    AsyncMarker,
    /// The frame part of a collapsed `× N` row.
    CollapsedFrame,
    /// The `× N` count of a collapsed row.
    RepeatCount,
    /// `#N` of a frame.
    FrameNumber,
    /// The function of a user-code frame.
    Function,
    /// The function of an SDK or framework frame.
    SdkFunction,
    /// The location of a user-code frame.
    Location,
    /// The location of an SDK or framework frame.
    SdkLocation,
    /// The rule of a heading row.
    Rule,
    /// The label of a heading row.
    HeadingLabel,
}

/// A piece of a rendered row.
#[derive(Debug)]
pub struct DetailSpan {
    pub text: String,
    pub style: DetailStyle,
}

/// A span as text and style.
pub open spec fn span_view(s: DetailSpan) -> (Seq<char>, DetailStyle) {
    (s.text@, s.style)
}

/// The views of a row's spans.
pub open spec fn row_view(v: Seq<DetailSpan>) -> Seq<(Seq<char>, DetailStyle)> {
    v.map_values(|s: DetailSpan| span_view(s))
}

/// Pushing a span pushes its view.
pub proof fn lemma_row_view_push(v: Seq<DetailSpan>, x: DetailSpan)
    ensures
        row_view(v.push(x)) == row_view(v).push(span_view(x)),
{
    assert(row_view(v.push(x)) =~= row_view(v).push(span_view(x)));
}

/// Number of leading `(` chars.
pub open spec fn lead_parens(s: Seq<char>) -> nat
    decreases s.len(),
{
    if s.len() > 0 && s[0] == '(' { 1 + lead_parens(s.drop_first()) } else { 0 }
}

/// `dart:`
pub open spec fn dart_prefix() -> Seq<char> { seq!['d', 'a', 'r', 't', ':'] }

/// `package:flutter`
pub open spec fn flutter_package() -> Seq<char> {
    seq!['p', 'a', 'c', 'k', 'a', 'g', 'e', ':', 'f', 'l', 'u', 't', 't', 'e', 'r']
}

/// A location in the Dart SDK or the Flutter framework: past its opening
/// parens it starts with `dart:`, `package:flutter/` or
/// `package:flutter_`.
pub open spec fn sdk_loc(loc: Seq<char>) -> bool {
    let inner = loc.skip(lead_parens(loc) as int);
    dart_prefix().is_prefix_of(inner)
        || flutter_package().push('/').is_prefix_of(inner)
        || flutter_package().push('_').is_prefix_of(inner)
}

/// Whether a frame location like `(dart:io/common.dart:58:9)` belongs to
/// the Dart SDK or the Flutter framework, whose frames are dimmed.
pub fn is_sdk_frame_loc(loc: &str) -> (r: bool)
    ensures
        r == sdk_loc(loc@),
{
    let v = to_chars(loc);
    let mut k: usize = 0;
    assert(v@.skip(0) == v@);
    while k < v.len() && v[k] == '('
        invariant
            k <= v@.len(),
            lead_parens(v@) == k + lead_parens(v@.skip(k as int)),
        decreases v@.len() - k,
    {
        assert(v@.skip(k as int).drop_first() == v@.skip(k as int + 1));
        k = k + 1;
    }
    let inner = from_chars(v.as_slice(), k, v.len());
    assert(inner@ == loc@.skip(lead_parens(loc@) as int));
    let a = "dart:";
    let b = "package:flutter/";
    let c = "package:flutter_";
    proof {
        reveal_strlit("dart:");
        reveal_strlit("package:flutter/");
        reveal_strlit("package:flutter_");
        assert(a@ =~= dart_prefix());
        assert(b@ =~= flutter_package().push('/'));
        assert(c@ =~= flutter_package().push('_'));
    }
    str_starts_with(inner.as_str(), a) || str_starts_with(inner.as_str(), b) || str_starts_with(inner.as_str(), c)
}

/// The first index at or after `j` holding `c`.
pub open spec fn find_from(s: Seq<char>, c: char, j: int) -> Option<int>
    decreases s.len() - j,
{
    if j < 0 || j >= s.len() { None } else if s[j] == c { Some(j) } else { find_from(s, c, j + 1) }
}

/// A found index lies in the searched range.
pub proof fn lemma_find_from_bounds(s: Seq<char>, c: char, j: int)
    requires
        0 <= j,
    ensures
        find_from(s, c, j) matches Some(k) ==> j <= k < s.len() && s[k] == c,
    decreases s.len() - j,
{
    if j < s.len() && s[j] != c {
        lemma_find_from_bounds(s, c, j + 1);
    }
}

/// Bytes of the UTF-8 encoding of `s`.
pub open spec fn utf8_bytes(s: Seq<char>) -> nat
    decreases s.len(),
{
    if s.len() == 0 { 0 } else { utf8_bytes(s.drop_last()) + utf8_len(s.last()) }
}

/// The smaller of two naturals.
pub open spec fn min_nat(a: nat, b: nat) -> nat {
    if a <= b { a } else { b }
}

/// Digits counted from `j` stay inside the text.
pub proof fn lemma_digit_run_bound(t: Seq<char>, j: int)
    requires
        0 <= j <= t.len(),
    ensures
        j + digit_run(t, j) <= t.len(),
    decreases t.len() - j,
{
    if j < t.len() && ('0' <= t[j] && t[j] <= '9') {
        lemma_digit_run_bound(t, j + 1);
    }
}

/// The styled spans of one stack trace row. An `<asynchronous
/// suspension>` marker is one span; a collapsed row is split at its `×`
/// into frame and count; a frame `#N  func (loc)` is split into its indent
/// (as many chars as its leading whitespace has UTF-8 bytes), `#N`, the
/// gap, the function up to the first `(`, and the location, dimmed as a
/// whole for SDK frames; anything else is one text span.
pub open spec fn stack_spans(line: Seq<char>) -> Seq<(Seq<char>, DetailStyle)> {
    let n = line.len() as int;
    if async_marker_line(line) {
        seq![(line, DetailStyle::AsyncMarker)]
    } else if find_from(line, '\u{d7}', 0) is Some {
        let p = find_from(line, '\u{d7}', 0)->0;
        seq![(line.take(p), DetailStyle::CollapsedFrame), (line.skip(p), DetailStyle::RepeatCount)]
    } else {
        let lw = lead_ws(line) as int;
        if lw < n && line[lw] == '#' {
            let ind = line.take(min_nat(utf8_bytes(line.take(lw)), line.len()) as int);
            let h = lw + 1 + digit_run(line, lw + 1);
            let g = h + lead_ws(line.skip(h));
            let q = match find_from(line, '(', g) { Some(q) => q, None => n };
            let loc = line.subrange(q, n);
            let sdk = sdk_loc(loc);
            (if ind.len() > 0 { seq![(ind, DetailStyle::Raw)] } else { seq![] })
                + seq![(line.subrange(lw, h), DetailStyle::FrameNumber), (line.subrange(h, g), DetailStyle::Raw),
                    (line.subrange(g, q), if sdk { DetailStyle::SdkFunction } else { DetailStyle::Function })]
                + (if loc.len() > 0 { seq![(loc, if sdk { DetailStyle::SdkLocation } else { DetailStyle::Location })] } else { seq![] })
        } else {
            seq![(line, DetailStyle::Text)]
        }
    }
}

/// The first index at or after `j` holding `c`.
fn find_char_from(v: &[char], c: char, j: usize) -> (r: Option<usize>)
    requires
        j <= v@.len(),
    ensures
        match r { Some(k) => find_from(v@, c, j as int) == Some(k as int), None => find_from(v@, c, j as int) is None },
{
    let mut k = j;
    while k < v.len()
        invariant
            j <= k <= v@.len(),
            find_from(v@, c, k as int) == find_from(v@, c, j as int),
        decreases v@.len() - k,
    {
        if v[k] == c {
            return Some(k);
        }
        k = k + 1;
    }
    None
}

/// Push a span.
fn push_span(row: &mut Vec<DetailSpan>, text: String, style: DetailStyle)
    ensures
        row_view(final(row)@) == row_view(old(row)@).push((text@, style)),
{
    proof { lemma_row_view_push(row@, DetailSpan { text, style }); }
    row.push(DetailSpan { text, style });
}

/// Split one stack trace row into styled spans.
pub fn style_stack_line(line: &str) -> (row: Vec<DetailSpan>)
    ensures
        row_view(row@) == stack_spans(line@),
{
    let v = to_chars(line);
    let n = v.len();
    let mut row: Vec<DetailSpan> = Vec::new();
    if is_async_marker(line) {
        push_span(&mut row, from_chars(v.as_slice(), 0, n), DetailStyle::AsyncMarker);
        assert(v@.subrange(0, n as int) == v@);
        return row;
    }
    match find_char_from(v.as_slice(), '\u{d7}', 0) {
        Some(p) => {
            proof { lemma_find_from_bounds(v@, '\u{d7}', 0); }
            push_span(&mut row, from_chars(v.as_slice(), 0, p), DetailStyle::CollapsedFrame);
            push_span(&mut row, from_chars(v.as_slice(), p, n), DetailStyle::RepeatCount);
            assert(v@.subrange(0, p as int) == v@.take(p as int));
            assert(v@.subrange(p as int, n as int) == v@.skip(p as int));
            return row;
        },
        None => {},
    }
    let lw = skip_ws_forward(v.as_slice(), 0);
    assert(v@.skip(0) == v@);
    if lw < n && v[lw] == '#' {
        let mut ib: usize = 0;
        let mut k: usize = 0;
        assert(v@.take(0) =~= Seq::<char>::empty());
        while k < lw
            invariant
                k <= lw < n,
                n == v@.len(),
                ib as nat == min_nat(utf8_bytes(v@.take(k as int)), n as nat),
            decreases lw - k,
        {
            let w = char_utf8_len(v[k]);
            assert(v@.take(k as int + 1).drop_last() == v@.take(k as int));
            if w >= n - ib {
                ib = n;
            } else {
                ib = ib + w;
            }
            k = k + 1;
        }
        if ib > 0 {
            push_span(&mut row, from_chars(v.as_slice(), 0, ib), DetailStyle::Raw);
            assert(v@.subrange(0, ib as int) == v@.take(ib as int));
        }
        let mut h = lw + 1;
        proof { lemma_digit_run_bound(v@, lw + 1); }
        while h < n && '0' <= v[h] && v[h] <= '9'
            invariant
                lw + 1 <= h <= n,
                n == v@.len(),
                lw + 1 + digit_run(v@, lw + 1) == h + digit_run(v@, h as int),
            decreases n - h,
        {
            h = h + 1;
        }
        let g = skip_ws_forward(v.as_slice(), h);
        let q = match find_char_from(v.as_slice(), '(', g) {
            Some(q) => q,
            None => n,
        };
        proof { lemma_find_from_bounds(v@, '(', g as int); }
        let loc = from_chars(v.as_slice(), q, n);
        let sdk = is_sdk_frame_loc(loc.as_str());
        push_span(&mut row, from_chars(v.as_slice(), lw, h), DetailStyle::FrameNumber);
        push_span(&mut row, from_chars(v.as_slice(), h, g), DetailStyle::Raw);
        push_span(&mut row, from_chars(v.as_slice(), g, q), if sdk { DetailStyle::SdkFunction } else { DetailStyle::Function });
        if q < n {
            push_span(&mut row, loc, if sdk { DetailStyle::SdkLocation } else { DetailStyle::Location });
        }
        return row;
    }
    push_span(&mut row, from_chars(v.as_slice(), 0, n), DetailStyle::Text);
    assert(v@.subrange(0, n as int) == v@);
    row
}

/// `c` is `─` or a space.
pub open spec fn rule_char(c: char) -> bool {
    c == '\u{2500}' || c == ' '
}

/// Leading rule chars.
pub open spec fn lead_rule(s: Seq<char>) -> nat
    decreases s.len(),
{
    if s.len() > 0 && rule_char(s[0]) { 1 + lead_rule(s.drop_first()) } else { 0 }
}

/// Trailing rule chars.
pub open spec fn trail_rule(s: Seq<char>) -> nat
    decreases s.len(),
{
    if s.len() > 0 && rule_char(s.last()) { 1 + trail_rule(s.drop_last()) } else { 0 }
}

/// A heading's label: its text without surrounding `─` and spaces.
pub open spec fn heading_label(s: Seq<char>) -> Seq<char> {
    let t = s.skip(lead_rule(s) as int);
    t.take(t.len() - trail_rule(t))
}

/// `n` copies of `─`.
pub open spec fn rule(n: nat) -> Seq<char> {
    Seq::new(n, |_i: int| '\u{2500}')
}

/// The divider row of a heading: `── `, the label between spaces, and a
/// rule that fills the panel width `w` (at least three `─`).
pub open spec fn heading_row(text: Seq<char>, w: nat) -> Seq<(Seq<char>, DetailStyle)> {
    let label = heading_label(text);
    let right = sat_sub(w, label.len() + 8);
    seq![
        (seq!['\u{2500}', '\u{2500}', ' '], DetailStyle::Rule),
        (seq![' '] + label + seq![' '], DetailStyle::HeadingLabel),
        (rule(if right >= 3 { right } else { 3 }), DetailStyle::Rule),
    ]
}

// ── Prose ──

/// The keyword a prose line starts with, after its indent: `Error:` or
/// `Exception:`.
pub open spec fn prose_keyword(t: Seq<char>) -> Option<Seq<char>> {
    let tr = trim_start_spec(t);
    if "Error:"@.is_prefix_of(tr) {
        Some("Error:"@)
    } else if "Exception:"@.is_prefix_of(tr) {
        Some("Exception:"@)
    } else {
        None
    }
}

/// The base style of prose text.
pub open spec fn prose_base() -> FieldStyle {
    fg_style(rgb(202, 211, 245), 0)
}

/// The style of a leading `Error:` / `Exception:` keyword.
pub open spec fn keyword_style() -> FieldStyle {
    fg_style(rgb(237, 135, 150), BOLD)
}

/// The first `n` chars of `t` (all of them when it is shorter).
pub open spec fn first_chars(t: Seq<char>, n: int) -> Seq<char> {
    if n < t.len() { t.take(n) } else { t }
}

/// `t` without its first `n` chars.
pub open spec fn after_chars(t: Seq<char>, n: int) -> Seq<char> {
    if n < t.len() { t.skip(n) } else { seq![] }
}

/// The spans of a prose line. A line whose text after the indent starts
/// with `Error:` or `Exception:` keeps its indent, shows the keyword in
/// red bold and highlights the rest; the indent and the keyword are
/// measured in bytes and then taken as that many chars. Any other line is
/// highlighted whole.
pub open spec fn prose_line_spans(t: Seq<char>) -> Seq<(Seq<char>, FieldStyle)> {
    match prose_keyword(t) {
        Some(kw) => {
            let ib = byte_len(t.take(lead_ws(t) as int)) as int;
            let indent = first_chars(t, ib);
            (if indent.len() > 0 { seq![(indent, prose_base())] } else { seq![] })
                + seq![(kw, keyword_style())]
                + highlight_spec(after_chars(t, ib + kw.len()), prose_base())
        },
        None => highlight_spec(t, prose_base()),
    }
}

/// Joining the texts of two runs of spans joins their texts.
proof fn lemma_spans_text_concat(a: Seq<(Seq<char>, FieldStyle)>, b: Seq<(Seq<char>, FieldStyle)>)
    ensures
        spans_text(a + b) == spans_text(a) + spans_text(b),
    decreases b.len(),
{
    if b.len() == 0 {
        assert(a + b =~= a);
        assert(spans_text(a) + Seq::<char>::empty() =~= spans_text(a));
    } else {
        lemma_spans_text_concat(a, b.drop_last());
        assert((a + b).drop_last() =~= a + b.drop_last());
        assert(spans_text(a) + spans_text(b.drop_last()) + b.last().0 =~= spans_text(a) + (spans_text(b.drop_last()) + b.last().0));
    }
}

/// The first `k` chars of `t` are ASCII.
pub open spec fn ascii_head(t: Seq<char>, k: int) -> bool {
    forall|i: int| 0 <= i < k ==> (#[trigger] t[i] as u32) < 0x80
}

/// ASCII chars take one byte each.
proof fn lemma_ascii_byte_len(t: Seq<char>, k: int)
    requires
        0 <= k <= t.len(),
        ascii_head(t, k),
    ensures
        byte_len(t.take(k)) == k,
    decreases k,
{
    if k > 0 {
        assert(t.take(k).drop_last() =~= t.take(k - 1));
        assert(t.take(k).last() == t[k - 1]);
        lemma_ascii_byte_len(t, k - 1);
    }
}

/// Style a wrapped prose line: highlight it, with an extra red bold span for
/// a leading `Error:` or `Exception:`. When the indent is ASCII, the spans'
/// texts joined give back the line.
pub fn style_prose_line(text: String) -> (r: Vec<FieldSpan>)
    ensures
        field_spans(r@) == prose_line_spans(text@),
        ascii_head(text@, lead_ws(text@) as int) ==> spans_text(field_spans(r@)) == text@,
{
    let base = FieldStyle { fg: Some(FieldColor::Rgb(202, 211, 245)), bg: None, underline_color: None,
        add_modifier: 0, sub_modifier: 0 };
    let trimmed = trim_start(text.as_str());
    let is_err = str_starts_with(trimmed.as_str(), "Error:");
    let is_exc = str_starts_with(trimmed.as_str(), "Exception:");
    if !is_err && !is_exc {
        return auto_highlight(text.as_str(), base);
    }
    let kw: &str = if is_err { "Error:" } else { "Exception:" };
    proof {
        reveal_strlit("Error:");
        reveal_strlit("Exception:");
    }
    let chars = to_chars(text.as_str());
    let n = chars.len();
    proof { lemma_lead_ws_bound(text@); }
    let ws = n - trimmed.unicode_len();
    assert(ws == lead_ws(text@));
    let mut ib: usize = 0;
    let mut i: usize = 0;
    while i < ws
        invariant
            i <= ws <= n,
            n == chars@.len(),
            ib as int == if byte_len(chars@.take(i as int)) > usize::MAX { usize::MAX as int } else {
                byte_len(chars@.take(i as int)) as int },
        decreases ws - i,
    {
        assert(chars@.take(i + 1).drop_last() =~= chars@.take(i as int));
        ib = ib.saturating_add(char_utf8_len(chars[i]));
        i = i + 1;
    }
    let ghost exact = byte_len(text@.take(lead_ws(text@) as int)) as int;
    assert(chars@.take(ws as int) == text@.take(lead_ws(text@) as int));
    let indent_n = if ib < n { ib } else { n };
    let rest_start = ib.saturating_add(kw.unicode_len());
    let rest_n = if rest_start < n { rest_start } else { n };
    let indent = from_chars(chars.as_slice(), 0, indent_n);
    let rest = from_chars(chars.as_slice(), rest_n, n);
    assert(indent@ =~= first_chars(text@, exact));
    assert(rest@ =~= after_chars(text@, exact + kw@.len()));
    let mut spans: Vec<FieldSpan> = Vec::new();
    let ghost s0 = field_spans(spans@);
    if indent_n > 0 {
        let ghost iv = indent@;
        spans.push(FieldSpan { text: indent, style: base });
        assert(field_spans(spans@) =~= seq![(iv, base)]);
    }
    let ghost s1 = field_spans(spans@);
    spans.push(FieldSpan { text: owned(kw), style: FieldStyle { fg: Some(FieldColor::Rgb(237, 135, 150)),
        bg: None, underline_color: None, add_modifier: BOLD, sub_modifier: 0 } });
    assert(field_spans(spans@) =~= s1.push((kw@, keyword_style())));
    let mut tail = auto_highlight(rest.as_str(), base);
    let ghost s2 = field_spans(spans@);
    let ghost tv = field_spans(tail@);
    spans.append(&mut tail);
    assert(field_spans(spans@) =~= s2 + tv);
    assert(field_spans(spans@) =~= prose_line_spans(text@));
    proof {
        lemma_spans_text_concat(s2, tv);
        lemma_spans_text_push(s1, (kw@, keyword_style()));
        if indent_n > 0 {
            lemma_spans_text_push(Seq::empty(), (indent@, base));
            assert(s1 =~= Seq::<(Seq<char>, FieldStyle)>::empty().push((indent@, base)));
            assert(spans_text(s1) =~= indent@);
        } else {
            assert(s1 =~= Seq::<(Seq<char>, FieldStyle)>::empty());
            assert(spans_text(s1) =~= indent@);
        }
        if ascii_head(text@, lead_ws(text@) as int) {
            lemma_ascii_byte_len(text@, lead_ws(text@) as int);
            assert(kw@.is_prefix_of(trimmed@));
            assert(indent@ + kw@ + rest@ =~= text@) by {
                assert(trimmed@ == text@.skip(lead_ws(text@) as int));
            }
        }
    }
    spans
}

/// Renders prose sections.
pub struct ProseRenderer;

impl ProseRenderer {
    /// The prose wrapped to `inner_w` columns (at most 500 rows), each row
    /// styled by `style_prose_line`.
    pub fn render(&self, text: &str, inner_w: usize) -> (rows: Vec<Vec<FieldSpan>>)
        requires
            measurable(text@),
        ensures
            rows@.len() == multiline_spec(text@, inner_w as nat, 500).len(),
            forall|i: int| 0 <= i < rows@.len() ==> field_spans(#[trigger] rows@[i]@)
                == prose_line_spans(multiline_spec(text@, inner_w as nat, 500)[i]),
    {
        let lines = wrap_multiline(text, inner_w, 500);
        let mut rows: Vec<Vec<FieldSpan>> = Vec::new();
        let mut i: usize = 0;
        while i < lines.len()
            invariant
                i <= lines@.len(),
                views(lines@) == multiline_spec(text@, inner_w as nat, 500),
                rows@.len() == i,
                forall|k: int| 0 <= k < i ==> field_spans(#[trigger] rows@[k]@)
                    == prose_line_spans(multiline_spec(text@, inner_w as nat, 500)[k]),
            decreases lines@.len() - i,
        {
            let line = lines[i].clone();
            assert(views(lines@)[i as int] == lines@[i as int]@);
            rows.push(style_prose_line(line));
            i = i + 1;
        }
        rows
    }
}


/// Renders a heading section.
pub struct HeadingRenderer;

impl HeadingRenderer {
    /// A blank row, then the heading's divider row for a panel `inner_w`
    /// columns wide.
    pub fn render(&self, text: &str, inner_w: usize) -> (rows: Vec<Vec<DetailSpan>>)
        ensures
            rows@.len() == 2,
            row_view(rows@[0]@) == Seq::<(Seq<char>, DetailStyle)>::empty(),
            row_view(rows@[1]@) == heading_row(text@, inner_w as nat),
    {
        let v = to_chars(text);
        let n = v.len();
        let mut lo: usize = 0;
        assert(v@.subrange(0, n as int) == v@);
        while lo < n && (v[lo] == '\u{2500}' || v[lo] == ' ')
            invariant
                lo <= n,
                n == v@.len(),
                lead_rule(v@) == lo + lead_rule(v@.subrange(lo as int, n as int)),
            decreases n - lo,
        {
            assert(v@.subrange(lo as int, n as int).drop_first() == v@.subrange(lo + 1, n as int));
            lo = lo + 1;
        }
        assert(v@.skip(lead_rule(v@) as int) == v@.subrange(lo as int, n as int));
        let mut hi = n;
        while hi > lo && (v[hi - 1] == '\u{2500}' || v[hi - 1] == ' ')
            invariant
                lo <= hi <= n,
                n == v@.len(),
                trail_rule(v@.subrange(lo as int, n as int)) == (n - hi) + trail_rule(v@.subrange(lo as int, hi as int)),
            decreases hi - lo,
        {
            assert(v@.subrange(lo as int, hi as int).drop_last() == v@.subrange(lo as int, hi - 1));
            hi = hi - 1;
        }
        assert(v@.subrange(lo as int, n as int).take(hi - lo) == v@.subrange(lo as int, hi as int));
        let label_len = hi - lo;
        let right = if inner_w >= 8 && label_len <= inner_w - 8 { inner_w - 8 - label_len } else { 0 };
        let fill = if right >= 3 { right } else { 3 };
        let mut left = String::new();
        push_char(&mut left, '\u{2500}');
        push_char(&mut left, '\u{2500}');
        push_char(&mut left, ' ');
        let mut mid = String::new();
        push_char(&mut mid, ' ');
        let mut k = lo;
        while k < hi
            invariant
                lo <= k <= hi <= n,
                n == v@.len(),
                mid@ == seq![' '] + v@.subrange(lo as int, k as int),
            decreases hi - k,
        {
            push_char(&mut mid, v[k]);
            assert(v@.subrange(lo as int, k + 1) == v@.subrange(lo as int, k as int).push(v@[k as int]));
            k = k + 1;
        }
        push_char(&mut mid, ' ');
        let mut bar = String::new();
        let mut j: usize = 0;
        while j < fill
            invariant
                j <= fill,
                bar@ == rule(j as nat),
            decreases fill - j,
        {
            push_char(&mut bar, '\u{2500}');
            j = j + 1;
            assert(bar@ =~= rule(j as nat));
        }
        let mut divider: Vec<DetailSpan> = Vec::new();
        push_span(&mut divider, left, DetailStyle::Rule);
        push_span(&mut divider, mid, DetailStyle::HeadingLabel);
        push_span(&mut divider, bar, DetailStyle::Rule);
        let blank: Vec<DetailSpan> = Vec::new();
        assert(row_view(blank@) =~= Seq::<(Seq<char>, DetailStyle)>::empty());
        proof {
            let label = heading_label(text@);
            assert(label == v@.subrange(lo as int, hi as int));
            assert(mid@ =~= seq![' '] + label + seq![' ']);
            assert(sat_sub(inner_w as nat, label.len() + 8) == right);
            let hr = heading_row(text@, inner_w as nat);
            assert(row_view(divider@)[0] == hr[0]);
            assert(row_view(divider@)[1] == hr[1]);
            assert(row_view(divider@)[2] == hr[2]);
        }
        assert(row_view(divider@) =~= heading_row(text@, inner_w as nat));
        let mut rows: Vec<Vec<DetailSpan>> = Vec::new();
        rows.push(blank);
        rows.push(divider);
        rows
    }
}

/// Renders a stack trace section.
pub struct StackRenderer;

impl StackRenderer {
    /// One styled row per line of the stack trace, the lines as they are
    /// after repeated frames were collapsed into `× N` rows.
    pub fn render(&self, collapsed: &Vec<String>, inner_w: usize) -> (rows: Vec<Vec<DetailSpan>>)
        ensures
            rows@.len() == collapsed@.len(),
            forall|k: int| 0 <= k < rows@.len() ==> row_view(#[trigger] rows@[k]@) == stack_spans(collapsed@[k]@),
    {
        let mut rows: Vec<Vec<DetailSpan>> = Vec::new();
        let mut k: usize = 0;
        while k < collapsed.len()
            invariant
                k <= collapsed@.len(),
                rows@.len() == k,
                forall|m: int| 0 <= m < k ==> row_view(#[trigger] rows@[m]@) == stack_spans(collapsed@[m]@),
            decreases collapsed@.len() - k,
        {
            rows.push(style_stack_line(collapsed[k].as_str()));
            k = k + 1;
        }
        rows
    }
}

/// The fold flags the JSON section renders with: kept when they match the
/// tree's node count, otherwise reset so that containers at depth 0 and 1
/// start expanded.
pub open spec fn json_flags(tree: Tree, old_flags: Seq<bool>) -> Seq<bool> {
    if old_flags.len() == tree.nodes@.len() {
        old_flags
    } else {
        Seq::new(tree.nodes@.len(), |i: int| starts_expanded(tree.nodes@[i], 1))
    }
}

/// `log_detail`
pub open spec fn detail_key() -> Seq<char> {
    seq!['l', 'o', 'g', '_', 'd', 'e', 't', 'a', 'i', 'l']
}

/// A rendered JSON row with the node a click on it toggles.
pub open spec fn json_row_view(r: RowV) -> (Seq<(Seq<char>, crate::ui::json_viewer::render::JsonStyle)>, Option<nat>) {
    (r.0, match r.1 { Some((_, id)) => Some(id), None => None })
}

/// Renders a JSON section.
pub struct JsonRenderer;

impl JsonRenderer {
    /// The rows of a JSON section's tree at the panel width, each with the
    /// container its click toggles. The fold state is reset when it does
    /// not belong to a tree of this size.
    pub fn render(&self, tree: &Tree, inner_w: usize, viewer_state: &mut JsonViewerState)
        -> (rows: Vec<(Vec<JsonSpan>, Option<u32>)>)
        requires
            tree_wf(tree@),
        ensures
            final(viewer_state).expanded@ == json_flags(*tree, old(viewer_state).expanded@),
            rows@.len() == render_rows(tree@, final(viewer_state).expanded@, detail_key(), seq![], inner_w as nat, 0, false).len(),
            forall|k: int| 0 <= k < rows@.len() ==>
                (spans_view((#[trigger] rows@[k]).0@), match rows@[k].1 { Some(id) => Some(id as nat), None => None })
                == json_row_view(render_rows(tree@, final(viewer_state).expanded@, detail_key(), seq![], inner_w as nat, 0, false)[k]),
    {
        if viewer_state.expanded.len() != tree.nodes.len() {
            *viewer_state = init_state(tree, 1);
        }
        let mut lines: Vec<Vec<JsonSpan>> = Vec::new();
        let mut click_map: Vec<Option<(String, u32)>> = Vec::new();
        let key = "log_detail";
        proof {
            reveal_strlit("log_detail");
            reveal_strlit("");
            assert(key@ =~= detail_key());
            assert(""@ =~= Seq::<char>::empty());
            assert(rows_view(lines@, click_map@) =~= Seq::<RowV>::empty());
        }
        append_render(&mut lines, &mut click_map, tree, viewer_state, key, "", inner_w);
        let ghost all = rows_view(lines@, click_map@);
        assert(all =~= render_rows(tree@, viewer_state.expanded@, detail_key(), seq![], inner_w as nat, 0, false));
        let mut rows: Vec<(Vec<JsonSpan>, Option<u32>)> = Vec::new();
        let mut lines = lines;
        let mut clicks = click_map;
        let ghost n = lines@.len();
        while lines.len() > 0
            invariant
                lines@.len() == clicks@.len(),
                lines@.len() + rows@.len() == n,
                all.len() == n,
                forall|k: int| 0 <= k < lines@.len() ==> (spans_view(#[trigger] lines@[k]@), crate::ui::json_viewer::render::click_view(clicks@[k])) == all[k],
                forall|k: int| 0 <= k < rows@.len() ==>
                    (spans_view((#[trigger] rows@[k]).0@), match rows@[k].1 { Some(id) => Some(id as nat), None => None })
                    == json_row_view(all[n - 1 - k]),
            decreases lines@.len(),
        {
            let line = lines.pop().unwrap();
            let click = clicks.pop().unwrap();
            let target = match click { Some((_, id)) => Some(id), None => None };
            rows.push((line, target));
        }
        let mut out: Vec<(Vec<JsonSpan>, Option<u32>)> = Vec::new();
        while rows.len() > 0
            invariant
                rows@.len() + out@.len() == n,
                all.len() == n,
                forall|k: int| 0 <= k < rows@.len() ==>
                    (spans_view((#[trigger] rows@[k]).0@), match rows@[k].1 { Some(id) => Some(id as nat), None => None })
                    == json_row_view(all[n - 1 - k]),
                forall|k: int| 0 <= k < out@.len() ==>
                    (spans_view((#[trigger] out@[k]).0@), match out@[k].1 { Some(id) => Some(id as nat), None => None })
                    == json_row_view(all[k]),
            decreases rows@.len(),
        {
            let r = rows.pop().unwrap();
            out.push(r);
        }
        out
    }
}

} // verus!
