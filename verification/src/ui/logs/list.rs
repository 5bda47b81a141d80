//! The rows of the log list: each entry's header (cursor, bookmark, time,
//! level pill, tag), its wrapped message, extra lines and stack preview,
//! under a row budget, with the entry each row belongs to.

use vstd::prelude::*;
use vstd::string::StringSliceAdditionalSpecFns;
use crate::text::strings::{decimal, decimal_string, from_chars, owned, push_char, push_str, repeat_char, run, to_chars};
use crate::text::width::{measurable, str_width, unicode_str_width};
use crate::text::wrap::{lemma_wrap_spec_len, pad_spec, safe_pad, sat_sub, spaces, wrap_spec, wrap_text};
use crate::ui::highlight::{auto_highlight, field_spans, highlight_spec};
use crate::ui::input_field::{colored, rgb, FieldColor, FieldSpan, FieldStyle, BOLD};
use crate::ui::logs::{blocks, repeat_bar, repeat_bar_len, tag_color_index, tag_hash};
use crate::ui::logs::toolbar::{
    badge_spec, bg_only, blue, level_badge, level_color, level_color_spec, mantle, overlay0, red, subtext0, surface1,
    text_color, yellow, LogLevel, DIM,
};

verus! {

/// What one row of the log list reads of a log entry.
#[derive(Clone, Debug)]
pub struct LogRow {
    pub level: LogLevel,
    /// The level's name as shown in its pill.
    pub level_label: String,
    pub timestamp: String,
    pub tag: String,
    pub message: String,
    pub extra_lines: Vec<String>,
    pub repeat_count: usize,
    pub bookmarked: bool,
    /// The entry carries an error.
    pub has_error: bool,
    /// The entry carries an error or a stack trace.
    pub has_stack: bool,
    /// The first lines of its stack preview, and how many more there are.
    pub stack_preview: Vec<String>,
    pub stack_more: usize,
}

/// A rendered row: its spans, the text still to be search-highlighted (in
/// its base style) when a search is active, and the row's background,
/// which pads a search-highlighted row to the list's width.
pub struct LogLine {
    pub spans: Vec<FieldSpan>,
    pub body: Option<FieldSpan>,
    pub bg: FieldColor,
}

pub type LineView = (Seq<(Seq<char>, FieldStyle)>, Option<(Seq<char>, FieldStyle)>, FieldColor);

pub open spec fn line_view(l: LogLine) -> LineView {
    (field_spans(l.spans@), match l.body { Some(b) => Some((b.text@, b.style)), None => None }, l.bg)
}

pub open spec fn lines_view(v: Seq<LogLine>) -> Seq<LineView> {
    v.map_values(|l: LogLine| line_view(l))
}

/// Column widths of the list.
pub const TAG_WIDTH: usize = 14;
pub const TIME_WIDTH: usize = 12;
pub const LEVEL_WIDTH: usize = 9;
/// Rows of message (or of one extra line) at most.
pub const MAX_WRAP_LINES: usize = 3;
/// The italic modifier bit.
pub const ITALIC: u16 = 4;

pub open spec fn base_bg() -> FieldColor { rgb(36, 39, 58) }
pub open spec fn error_row_bg() -> FieldColor { rgb(50, 30, 35) }
pub open spec fn warning_row_bg() -> FieldColor { rgb(50, 45, 30) }
pub open spec fn pink() -> FieldColor { rgb(245, 189, 230) }

/// The tag of a separator entry: `────`.
pub open spec fn separator_tag() -> Seq<char> {
    seq!['\u{2500}', '\u{2500}', '\u{2500}', '\u{2500}']
}

/// The row background: highlighted when selected, tinted for errors and
/// warnings, the base colour otherwise.
pub open spec fn row_bg(l: LogLevel, selected: bool) -> FieldColor {
    if selected { surface1() } else {
        match l { LogLevel::Error => error_row_bg(), LogLevel::Warning => warning_row_bg(), _ => base_bg() }
    }
}

/// The colour of a level's message text.
pub open spec fn message_color(l: LogLevel) -> FieldColor {
    match l {
        LogLevel::Error => red(),
        LogLevel::Warning => yellow(),
        LogLevel::Info => text_color(),
        LogLevel::Debug => subtext0(),
        LogLevel::Verbose => overlay0(),
        LogLevel::System => overlay0(),
    }
}

/// The colour of the selection cursor.
pub open spec fn cursor_color(l: LogLevel) -> FieldColor {
    if l == LogLevel::Error { red() } else { blue() }
}

/// The colour of a tag, by its hash.
pub open spec fn tag_color(tag: Seq<u8>) -> FieldColor {
    let i = tag_hash(tag) % 5;
    if i == 0 { blue() } else if i == 1 { rgb(166, 218, 149) } else if i == 2 { rgb(245, 169, 127) }
    else if i == 3 { rgb(198, 160, 246) } else { rgb(125, 196, 228) }
}

/// The level pill: the level's name centred in `LEVEL_WIDTH` columns (by
/// its byte length), in the level's badge colours; for the quiet levels
/// the pill sits on the mantle colour on a tinted row.
pub open spec fn level_pill(l: LogLevel, label: Seq<char>, bg: FieldColor) -> (Seq<char>, FieldStyle) {
    let (fg, b, bold) = badge_spec(l);
    let quiet = l == LogLevel::Debug || l == LogLevel::Verbose || l == LogLevel::System;
    let pill_bg = if (bg == error_row_bg() || bg == warning_row_bg()) && quiet { mantle() } else { b };
    let total = sat_sub(LEVEL_WIDTH as nat, vstd::utf8::encode_utf8(label).len());
    let left = total / 2;
    (spaces(left) + label + spaces((total - left) as nat), colored(fg, pill_bg, if bold { BOLD } else { 0 }))
}

/// The selection cursor cell.
pub open spec fn cursor_cell(l: LogLevel, selected: bool, bg: FieldColor) -> (Seq<char>, FieldStyle) {
    if selected { (seq!['\u{258e}'], colored(cursor_color(l), bg, 0)) } else { (seq![' '], bg_only(bg)) }
}

/// An entry's header: cursor, bookmark, time, level pill and tag, each
/// followed by one dim blank.
pub open spec fn header_spec(e: LogRow, selected: bool) -> Seq<(Seq<char>, FieldStyle)> {
    let bg = row_bg(e.level, selected);
    let dim = colored(surface1(), bg, 0);
    seq![
        cursor_cell(e.level, selected, bg),
        if e.bookmarked { (seq!['\u{25cf}', ' '], colored(yellow(), bg, 0)) } else { (seq![' ', ' '], bg_only(bg)) },
        (pad_spec(e.timestamp@, TIME_WIDTH as nat), colored(overlay0(), bg, DIM)),
        (seq![' '], dim),
        level_pill(e.level, e.level_label@, bg),
        (seq![' '], dim),
        (pad_spec(e.tag@, TAG_WIDTH as nat), colored(tag_color(vstd::utf8::encode_utf8(e.tag@)), bg, 0)),
        (seq![' '], dim),
    ]
}

/// The blank header of a continuation row: the cursor, then blanks as wide
/// as the header's columns.
pub open spec fn empty_prefix(l: LogLevel, selected: bool, bg: FieldColor) -> Seq<(Seq<char>, FieldStyle)> {
    let b = bg_only(bg);
    seq![
        cursor_cell(l, selected, bg),
        (spaces(2), b),
        (spaces(TIME_WIDTH as nat), b),
        (spaces(1), b),
        (spaces(LEVEL_WIDTH as nat), b),
        (spaces(1), b),
        (spaces(TAG_WIDTH as nat), b),
        (spaces(1), b),
    ]
}

/// `a + b`, or the largest `usize` when that is larger.
pub open spec fn sat_add(a: nat, b: nat) -> nat {
    if a + b <= usize::MAX { a + b } else { usize::MAX as nat }
}

/// The display columns of some spans, summed (saturating at the largest
/// `usize`).
pub open spec fn spans_width(v: Seq<(Seq<char>, FieldStyle)>) -> nat
    decreases v.len(),
{
    if v.len() == 0 { 0 } else { sat_add(spans_width(v.drop_last()), unicode_str_width(v.last().0) as nat) }
}

/// Spans filled with blanks in `bg` up to `width` columns.
pub open spec fn padded(v: Seq<(Seq<char>, FieldStyle)>, bg: FieldColor, width: nat) -> Seq<(Seq<char>, FieldStyle)> {
    let used = spans_width(v);
    if used < width { v.push((spaces((width - used) as nat), bg_only(bg))) } else { v }
}

/// A finished row of `spans`.
pub open spec fn plain_line(spans: Seq<(Seq<char>, FieldStyle)>, bg: FieldColor, width: nat) -> LineView {
    (padded(spans, bg, width), None, bg)
}

/// A row showing `text` after `prefix`: highlighted and padded, or, while
/// searching, left for the search highlight.
pub open spec fn text_line(prefix: Seq<(Seq<char>, FieldStyle)>, text: Seq<char>, style: FieldStyle, bg: FieldColor,
    width: nat, search: bool) -> LineView {
    if search { (prefix, Some((text, style)), bg) } else { plain_line(prefix + highlight_spec(text, style), bg, width) }
}

/// `x<count> ` and the bar for `count` in 8 columns.
pub open spec fn repeat_text(count: nat) -> Seq<char> {
    seq!['x'] + decimal(count) + seq![' '] + blocks(repeat_bar_len(count, 8))
}

/// The message as shown: behind its repeat bar when repeated.
pub open spec fn full_message(e: LogRow) -> Seq<char> {
    if e.repeat_count > 1 { repeat_text(e.repeat_count as nat) + seq![' '] + e.message@ } else { e.message@ }
}

/// `... n more frames`
pub open spec fn more_frames_text(n: nat) -> Seq<char> {
    seq!['.', '.', '.', ' '] + decimal(n) + seq![' ', 'm', 'o', 'r', 'e', ' ', 'f', 'r', 'a', 'm', 'e', 's']
}

/// The rows of the extra lines `xs[k..]`, each wrapped to `ww` columns.
pub open spec fn extra_rows(xs: Seq<String>, k: int, prefix: Seq<(Seq<char>, FieldStyle)>, style: FieldStyle,
    bg: FieldColor, ww: nat, width: nat, search: bool) -> Seq<LineView>
    decreases xs.len() - k,
{
    if k < 0 || k >= xs.len() {
        seq![]
    } else {
        wrap_spec(xs[k]@, ww, MAX_WRAP_LINES as nat).map_values(|l: Seq<char>| text_line(prefix, l, style, bg, width, search))
            + extra_rows(xs, k + 1, prefix, style, bg, ww, width, search)
    }
}

/// The rows of the stack preview: the preview lines padded to `ww`
/// columns (the first in dim red when the entry has an error), then
/// `... n more frames` when frames were left out.
pub open spec fn stack_rows(e: LogRow, prefix: Seq<(Seq<char>, FieldStyle)>, bg: FieldColor, ww: nat, width: nat)
    -> Seq<LineView> {
    if !e.has_stack {
        seq![]
    } else {
        Seq::new(e.stack_preview@.len(), |pi: int| plain_line(prefix.push((pad_spec(e.stack_preview@[pi]@, ww),
            if pi == 0 && e.has_error { colored(red(), bg, DIM) } else { colored(overlay0(), bg, 0) })), bg, width))
            + if e.stack_more > 0 {
                seq![plain_line(prefix.push((more_frames_text(e.stack_more as nat), colored(overlay0(), bg, ITALIC))), bg, width)]
            } else {
                seq![]
            }
    }
}

/// The three rows of a separator entry: blank, a rule, blank.
pub open spec fn separator_rows(width: nat) -> Seq<LineView> {
    let blank = (seq![(spaces(width), bg_only(base_bg()))], None, base_bg());
    seq![blank, (seq![(seq![' '], bg_only(base_bg())), (run('\u{2500}', sat_sub(width, 1)), colored(surface1(), base_bg(), 0))],
        None, base_bg()), blank]
}

/// The columns left for the message: the full width less the header's
/// columns and one.
pub open spec fn wrap_width(e: LogRow, selected: bool, full_width: nat) -> nat {
    sat_sub(full_width, sat_add(spans_width(header_spec(e, selected)), 1))
}

/// The first row of an entry: the header, the repeat bar's share of the
/// first message line in pink when repeated, then the rest of that line.
pub open spec fn first_row(e: LogRow, selected: bool, width: nat, full_width: nat, search: bool) -> LineView {
    let bg = row_bg(e.level, selected);
    let base = colored(message_color(e.level), bg, 0);
    let first = wrap_spec(full_message(e), wrap_width(e, selected, full_width), MAX_WRAP_LINES as nat)[0];
    let header = header_spec(e, selected);
    if e.repeat_count > 1 && first.len() > 0 {
        let bw = unicode_str_width(repeat_text(e.repeat_count as nat)) as nat;
        let split = if sat_add(bw, 1) < unicode_str_width(first) { sat_add(bw, 1) } else { unicode_str_width(first) as nat };
        let k = if split < first.len() { split } else { first.len() };
        let bar = first.take(k as int);
        let prefix = if bar.len() > 0 { header.push((bar, colored(pink(), bg, 0))) } else { header };
        text_line(prefix, first.skip(k as int), base, bg, width, search)
    } else {
        text_line(header, first, base, bg, width, search)
    }
}

/// Every row of an entry, before the row budget: a separator's three rows,
/// or the first row, the message's further lines, the extra lines and the
/// stack preview.
#[verifier::opaque]
pub open spec fn entry_rows(e: LogRow, selected: bool, width: nat, full_width: nat, search: bool) -> Seq<LineView> {
    if e.tag@ == separator_tag() {
        separator_rows(width)
    } else {
        let bg = row_bg(e.level, selected);
        let ww = wrap_width(e, selected, full_width);
        let prefix = empty_prefix(e.level, selected, bg);
        let base = colored(message_color(e.level), bg, 0);
        let cont = colored(level_color_spec(e.level), bg, 0);
        seq![first_row(e, selected, width, full_width, search)]
            + wrap_spec(full_message(e), ww, MAX_WRAP_LINES as nat).skip(1).map_values(
                |l: Seq<char>| text_line(prefix, l, base, bg, width, search))
            + extra_rows(e.extra_lines@, 0, prefix, cont, bg, ww, width, search)
            + stack_rows(e, prefix, bg, ww, width)
    }
}

/// The rows an entry adds when `have` rows are already there: a
/// separator's rows while rows remain; a message entry's first row always,
/// then its other rows while rows remain.
pub open spec fn budgeted(rows: Seq<LineView>, separator: bool, have: nat, height: nat) -> Seq<LineView> {
    let room = sat_sub(height, have);
    if separator {
        rows.take(if room < rows.len() { room as int } else { rows.len() as int })
    } else {
        let room2 = sat_sub(height, have + 1);
        seq![rows[0]] + rows.skip(1).take(if room2 < rows.len() - 1 { room2 as int } else { rows.len() - 1 })
    }
}

/// The rows of the list from entry `k` on, with `acc` rows and their
/// entries `map` so far: entries are laid out in order until the rows
/// reach `height`.
pub open spec fn rows_from(entries: Seq<LogRow>, k: int, selected: nat, height: nat, width: nat, full_width: nat,
    search: bool, acc: Seq<LineView>, map: Seq<usize>) -> (Seq<LineView>, Seq<usize>)
    decreases entries.len() - k,
{
    if k < 0 || k >= entries.len() {
        (acc, map)
    } else {
        let e = entries[k];
        let pushed = budgeted(entry_rows(e, k == selected, width, full_width, search), e.tag@ == separator_tag(),
            acc.len(), height);
        let acc2 = acc + pushed;
        let map2 = map + Seq::new(pushed.len(), |_i: int| k as usize);
        if acc2.len() >= height { (acc2, map2) } else { rows_from(entries, k + 1, selected, height, width, full_width,
            search, acc2, map2) }
    }
}

/// What the list needs of an entry: texts short enough to measure and
/// wrap, and counts that cannot overflow.
pub open spec fn row_ok(e: LogRow) -> bool {
    &&& 3 * (e.message@.len() + 64) <= usize::MAX
    &&& forall|k: int| 0 <= k < e.extra_lines@.len() ==> measurable(#[trigger] e.extra_lines@[k]@)
    &&& 3 * e.extra_lines@.len() + e.stack_preview@.len() + 8 <= usize::MAX
    &&& vstd::utf8::encode_utf8(e.level_label@).len() <= usize::MAX
}

fn put(spans: &mut Vec<FieldSpan>, text: String, style: FieldStyle)
    ensures
        field_spans(final(spans)@) == field_spans(old(spans)@).push((text@, style)),
{
    let ghost t = text@;
    spans.push(FieldSpan { text, style });
    assert(field_spans(spans@) =~= field_spans(old(spans)@).push((t, style)));
}

fn style(fg: FieldColor, bg: FieldColor, m: u16) -> (r: FieldStyle)
    ensures
        r == colored(fg, bg, m),
{
    FieldStyle { fg: Some(fg), bg: Some(bg), underline_color: None, add_modifier: m, sub_modifier: 0 }
}

fn bg_style(bg: FieldColor) -> (r: FieldStyle)
    ensures
        r == bg_only(bg),
{
    FieldStyle { fg: None, bg: Some(bg), underline_color: None, add_modifier: 0, sub_modifier: 0 }
}

fn row_bg_of(l: LogLevel, selected: bool) -> (c: FieldColor)
    ensures
        c == row_bg(l, selected),
{
    if selected {
        FieldColor::Rgb(73, 77, 100)
    } else {
        match l {
            LogLevel::Error => FieldColor::Rgb(50, 30, 35),
            LogLevel::Warning => FieldColor::Rgb(50, 45, 30),
            _ => FieldColor::Rgb(36, 39, 58),
        }
    }
}

fn message_color_of(l: LogLevel) -> (c: FieldColor)
    ensures
        c == message_color(l),
{
    match l {
        LogLevel::Error => FieldColor::Rgb(237, 135, 150),
        LogLevel::Warning => FieldColor::Rgb(238, 212, 159),
        LogLevel::Info => FieldColor::Rgb(202, 211, 245),
        LogLevel::Debug => FieldColor::Rgb(165, 173, 206),
        LogLevel::Verbose => FieldColor::Rgb(110, 115, 141),
        LogLevel::System => FieldColor::Rgb(110, 115, 141),
    }
}

fn cursor_cell_of(l: LogLevel, selected: bool, bg: FieldColor) -> (r: (String, FieldStyle))
    ensures
        (r.0@, r.1) == cursor_cell(l, selected, bg),
{
    if selected {
        let c = match l { LogLevel::Error => FieldColor::Rgb(237, 135, 150), _ => FieldColor::Rgb(138, 173, 244) };
        (repeat_char('\u{258e}', 1), style(c, bg, 0))
    } else {
        (repeat_char(' ', 1), bg_style(bg))
    }
}

fn tag_color_of(tag: &str) -> (c: FieldColor)
    ensures
        c == tag_color(vstd::utf8::encode_utf8(tag@)),
{
    let i = tag_color_index(tag);
    if i == 0 { FieldColor::Rgb(138, 173, 244) } else if i == 1 { FieldColor::Rgb(166, 218, 149) }
    else if i == 2 { FieldColor::Rgb(245, 169, 127) } else if i == 3 { FieldColor::Rgb(198, 160, 246) }
    else { FieldColor::Rgb(125, 196, 228) }
}

fn level_pill_of(l: LogLevel, label: &str, bg: FieldColor) -> (r: (String, FieldStyle))
    requires
        vstd::utf8::encode_utf8(label@).len() <= usize::MAX,
    ensures
        (r.0@, r.1) == level_pill(l, label@, bg),
{
    let (fg, b, bold) = level_badge(l);
    let tinted = match bg {
        FieldColor::Rgb(50, 30, 35) => true,
        FieldColor::Rgb(50, 45, 30) => true,
        _ => false,
    };
    let quiet = match l { LogLevel::Debug | LogLevel::Verbose | LogLevel::System => true, _ => false };
    let pill_bg = if tinted && quiet { FieldColor::Rgb(30, 32, 48) } else { b };
    assert(tinted == (bg == error_row_bg() || bg == warning_row_bg()));
    assert(quiet == (l == LogLevel::Debug || l == LogLevel::Verbose || l == LogLevel::System));
    assert(label.spec_bytes() == vstd::utf8::encode_utf8(label@));
    let n = label.len();
    let total = LEVEL_WIDTH.saturating_sub(n);
    let left = total / 2;
    let mut t = repeat_char(' ', left);
    push_str(&mut t, label);
    let right = repeat_char(' ', total - left);
    push_str(&mut t, right.as_str());
    assert(run(' ', left as nat) =~= spaces(left as nat));
    assert(run(' ', (total - left) as nat) =~= spaces((total - left) as nat));
    (t, style(fg, pill_bg, if bold { BOLD } else { 0 }))
}

/// The header spans of an entry (see [`header_spec`]).
fn header_of(e: &LogRow, selected: bool) -> (r: Vec<FieldSpan>)
    requires
        row_ok(*e),
    ensures
        field_spans(r@) == header_spec(*e, selected),
{
    proof { reveal_strlit(" "); reveal_strlit("  "); }
    let bg = row_bg_of(e.level, selected);
    let dim = style(FieldColor::Rgb(73, 77, 100), bg, 0);
    let mut v: Vec<FieldSpan> = Vec::new();
    let (c, cs) = cursor_cell_of(e.level, selected, bg);
    put(&mut v, c, cs);
    if e.bookmarked {
        let mut b = repeat_char('\u{25cf}', 1);
        push_char(&mut b, ' ');
        assert(b@ =~= seq!['\u{25cf}', ' ']);
        put(&mut v, b, style(FieldColor::Rgb(238, 212, 159), bg, 0));
    } else {
        let b = repeat_char(' ', 2);
        assert(b@ =~= seq![' ', ' ']);
        put(&mut v, b, bg_style(bg));
    }
    put(&mut v, safe_pad(e.timestamp.as_str(), TIME_WIDTH), style(FieldColor::Rgb(110, 115, 141), bg, DIM));
    let sp = repeat_char(' ', 1);
    assert(sp@ =~= seq![' ']);
    put(&mut v, sp, dim);
    let (p, ps) = level_pill_of(e.level, e.level_label.as_str(), bg);
    put(&mut v, p, ps);
    let sp = repeat_char(' ', 1);
    assert(sp@ =~= seq![' ']);
    put(&mut v, sp, dim);
    put(&mut v, safe_pad(e.tag.as_str(), TAG_WIDTH), style(tag_color_of(e.tag.as_str()), bg, 0));
    let sp = repeat_char(' ', 1);
    assert(sp@ =~= seq![' ']);
    put(&mut v, sp, dim);
    assert(field_spans(v@) =~= header_spec(*e, selected));
    v
}

/// The blank header of a continuation row (see [`empty_prefix`]).
fn empty_prefix_of(l: LogLevel, selected: bool, bg: FieldColor) -> (r: Vec<FieldSpan>)
    ensures
        field_spans(r@) == empty_prefix(l, selected, bg),
{
    let mut v: Vec<FieldSpan> = Vec::new();
    let (c, cs) = cursor_cell_of(l, selected, bg);
    put(&mut v, c, cs);
    let widths: [usize; 7] = [2, TIME_WIDTH, 1, LEVEL_WIDTH, 1, TAG_WIDTH, 1];
    let mut k: usize = 0;
    while k < 7
        invariant
            k <= 7,
            widths@ == seq![2usize, 12usize, 1usize, 9usize, 1usize, 14usize, 1usize],
            field_spans(v@) == empty_prefix(l, selected, bg).take(k as int + 1),
        decreases 7 - k,
    {
        let w = widths[k];
        let b = repeat_char(' ', w);
        assert(run(' ', w as nat) =~= spaces(w as nat));
        put(&mut v, b, bg_style(bg));
        assert(empty_prefix(l, selected, bg).take(k as int + 2) =~= empty_prefix(l, selected, bg).take(k as int + 1).push(
            (spaces(w as nat), bg_only(bg))));
        k = k + 1;
    }
    assert(empty_prefix(l, selected, bg).take(8) =~= empty_prefix(l, selected, bg));
    v
}

/// The summed display columns of some spans (see [`spans_width`]).
fn width_of(v: &Vec<FieldSpan>) -> (w: usize)
    ensures
        w as nat == spans_width(field_spans(v@)),
{
    let mut w: usize = 0;
    let mut k: usize = 0;
    while k < v.len()
        invariant
            k <= v@.len(),
            w as nat == spans_width(field_spans(v@).take(k as int)),
        decreases v@.len() - k,
    {
        assert(field_spans(v@).take(k as int + 1).drop_last() =~= field_spans(v@).take(k as int));
        w = w.saturating_add(str_width(v[k].text.as_str()));
        k = k + 1;
    }
    assert(field_spans(v@).take(k as int) =~= field_spans(v@));
    w
}

/// Fill spans with blanks up to `width` columns (see [`padded`]).
fn pad_row(v: &mut Vec<FieldSpan>, bg: FieldColor, width: usize)
    ensures
        field_spans(final(v)@) == padded(field_spans(old(v)@), bg, width as nat),
{
    let used = width_of(v);
    if used < width {
        let b = repeat_char(' ', width - used);
        assert(run(' ', (width - used) as nat) =~= spaces((width - used) as nat));
        put(v, b, bg_style(bg));
    }
}

/// A row of `prefix` then `text` (see [`text_line`]).
fn text_row(prefix: Vec<FieldSpan>, text: String, st: FieldStyle, bg: FieldColor, width: usize, search: bool)
    -> (r: LogLine)
    ensures
        line_view(r) == text_line(field_spans(prefix@), text@, st, bg, width as nat, search),
{
    if search {
        LogLine { spans: prefix, body: Some(FieldSpan { text, style: st }), bg }
    } else {
        let mut v = prefix;
        let ghost p = field_spans(v@);
        let h = auto_highlight(text.as_str(), st);
        let mut k: usize = 0;
        while k < h.len()
            invariant
                k <= h@.len(),
                field_spans(v@) == p + field_spans(h@).take(k as int),
            decreases h@.len() - k,
        {
            let s = FieldSpan { text: h[k].text.clone(), style: h[k].style };
            put(&mut v, s.text, s.style);
            assert(field_spans(h@).take(k as int + 1) =~= field_spans(h@).take(k as int).push(field_spans(h@)[k as int]));
            k = k + 1;
        }
        assert(field_spans(h@).take(k as int) =~= field_spans(h@));
        pad_row(&mut v, bg, width);
        LogLine { spans: v, body: None, bg }
    }
}

/// `10^k`
pub open spec fn pow10(k: nat) -> nat
    decreases k,
{
    if k == 0 { 1 } else { 10 * pow10((k - 1) as nat) }
}

proof fn lemma_decimal_len(n: nat, k: nat)
    requires
        k >= 1,
        n < pow10(k),
    ensures
        decimal(n).len() <= k,
    decreases n,
{
    if n >= 10 {
        assert(k >= 2) by {
            if k == 1 { assert(pow10(1) == 10); }
        }
        assert(n / 10 < pow10((k - 1) as nat)) by (nonlinear_arith)
            requires n < pow10(k), pow10(k) == 10 * pow10((k - 1) as nat);
        lemma_decimal_len(n / 10, (k - 1) as nat);
    }
}

/// A `usize` has at most 20 digits.
proof fn lemma_usize_digits(n: usize)
    ensures
        decimal(n as nat).len() <= 20,
{
    assert(pow10(20) == 100000000000000000000) by {
        reveal_with_fuel(pow10, 21);
    }
    lemma_decimal_len(n as nat, 20);
}

/// The message as shown (see [`full_message`]).
fn full_message_of(e: &LogRow) -> (r: String)
    requires
        row_ok(*e),
    ensures
        r@ == full_message(*e),
        3 * r@.len() <= usize::MAX,
{
    if e.repeat_count > 1 {
        let mut r = repeat_bar(e.repeat_count, 8);
        proof {
            lemma_usize_digits(e.repeat_count);
            assert(repeat_bar_len(e.repeat_count as nat, 8) <= 8);
        }
        push_char(&mut r, ' ');
        push_str(&mut r, e.message.as_str());
        r
    } else {
        owned(e.message.as_str())
    }
}

/// The first row of an entry (see [`first_row`]), given the wrapped
/// message and the header.
fn first_row_of(e: &LogRow, selected: bool, header: Vec<FieldSpan>, first: &String, width: usize, search: bool)
    -> (r: LogLine)
    ensures
        ({
            let bg = row_bg(e.level, selected);
            let base = colored(message_color(e.level), bg, 0);
            let h = field_spans(header@);
            line_view(r) == if e.repeat_count > 1 && first@.len() > 0 {
                let bw = unicode_str_width(repeat_text(e.repeat_count as nat)) as nat;
                let split = if sat_add(bw, 1) < unicode_str_width(first@) { sat_add(bw, 1) }
                    else { unicode_str_width(first@) as nat };
                let k = if split < first@.len() { split } else { first@.len() };
                let bar = first@.take(k as int);
                let prefix = if bar.len() > 0 { h.push((bar, colored(pink(), bg, 0))) } else { h };
                text_line(prefix, first@.skip(k as int), base, bg, width as nat, search)
            } else {
                text_line(h, first@, base, bg, width as nat, search)
            }
        }),
{
    let bg = row_bg_of(e.level, selected);
    let base = style(message_color_of(e.level), bg, 0);
    if e.repeat_count > 1 && !first.as_str().is_empty() {
        let bar_text = repeat_bar(e.repeat_count, 8);
        let bw = str_width(bar_text.as_str());
        let fw = str_width(first.as_str());
        let split = if bw.saturating_add(1) < fw { bw.saturating_add(1) } else { fw };
        let v = to_chars(first.as_str());
        let k = if split < v.len() { split } else { v.len() };
        let bar = from_chars(v.as_slice(), 0, k);
        let rest = from_chars(v.as_slice(), k, v.len());
        assert(first@.take(k as int) =~= v@.subrange(0, k as int));
        assert(first@.skip(k as int) =~= v@.subrange(k as int, v@.len() as int));
        let mut prefix = header;
        if k > 0 {
            put(&mut prefix, bar, style(FieldColor::Rgb(245, 189, 230), bg, 0));
        }
        text_row(prefix, rest, base, bg, width, search)
    } else {
        text_row(header, owned(first.as_str()), base, bg, width, search)
    }
}

/// Append `line` to `out`.
fn push_line(out: &mut Vec<LogLine>, line: LogLine)
    ensures
        lines_view(final(out)@) == lines_view(old(out)@).push(line_view(line)),
{
    let ghost l = line_view(line);
    out.push(line);
    assert(lines_view(out@) =~= lines_view(old(out)@).push(l));
}

/// The rows of some wrapped lines after the blank header.
fn wrapped_rows(out: &mut Vec<LogLine>, ls: &Vec<String>, from: usize, l: LogLevel, selected: bool, st: FieldStyle,
    bg: FieldColor, width: usize, search: bool)
    requires
        from <= ls@.len(),
    ensures
        lines_view(final(out)@) == lines_view(old(out)@) + ls@.map_values(|x: String| x@).skip(from as int).map_values(
            |t: Seq<char>| text_line(empty_prefix(l, selected, bg), t, st, bg, width as nat, search)),
{
    let ghost start = lines_view(out@);
    let ghost f = |t: Seq<char>| text_line(empty_prefix(l, selected, bg), t, st, bg, width as nat, search);
    let ghost src = ls@.map_values(|x: String| x@).skip(from as int);
    let mut k = from;
    while k < ls.len()
        invariant
            from <= k <= ls@.len(),
            src == ls@.map_values(|x: String| x@).skip(from as int),
            f == (|t: Seq<char>| text_line(empty_prefix(l, selected, bg), t, st, bg, width as nat, search)),
            lines_view(out@) == start + src.take(k - from).map_values(f),
        decreases ls@.len() - k,
    {
        let p = empty_prefix_of(l, selected, bg);
        let t = owned(ls[k].as_str());
        let row = text_row(p, t, st, bg, width, search);
        push_line(out, row);
        assert(src.take(k - from + 1) =~= src.take(k - from).push(ls@[k as int]@));
        assert(src.take(k - from + 1).map_values(f) =~= src.take(k - from).map_values(f).push(f(ls@[k as int]@)));
        k = k + 1;
    }
    assert(src.take(k - from) =~= src);
}

/// The rows of the extra lines (see [`extra_rows`]).
fn extra_rows_of(out: &mut Vec<LogLine>, e: &LogRow, selected: bool, ww: usize, width: usize, search: bool)
    requires
        row_ok(*e),
    ensures
        ({
            let bg = row_bg(e.level, selected);
            lines_view(final(out)@) == lines_view(old(out)@) + extra_rows(e.extra_lines@, 0, empty_prefix(e.level, selected, bg),
                colored(level_color_spec(e.level), bg, 0), bg, ww as nat, width as nat, search)
        }),
{
    let bg = row_bg_of(e.level, selected);
    let cont = style(level_color(e.level), bg, 0);
    let ghost prefix = empty_prefix(e.level, selected, bg);
    let ghost start = lines_view(out@);
    let ghost all = extra_rows(e.extra_lines@, 0, prefix, cont, bg, ww as nat, width as nat, search);
    let mut k: usize = 0;
    while k < e.extra_lines.len()
        invariant
            k <= e.extra_lines@.len(),
            row_ok(*e),
            bg == row_bg(e.level, selected),
            cont == colored(level_color_spec(e.level), bg, 0),
            prefix == empty_prefix(e.level, selected, bg),
            all == extra_rows(e.extra_lines@, 0, prefix, cont, bg, ww as nat, width as nat, search),
            lines_view(out@) + extra_rows(e.extra_lines@, k as int, prefix, cont, bg, ww as nat, width as nat, search)
                == start + all,
        decreases e.extra_lines@.len() - k,
    {
        let ghost before = lines_view(out@);
        assert(measurable(e.extra_lines@[k as int]@));
        let w = wrap_text(e.extra_lines[k].as_str(), ww, MAX_WRAP_LINES);
        wrapped_rows(out, &w, 0, e.level, selected, cont, bg, width, search);
        proof {
            let ws = wrap_spec(e.extra_lines@[k as int]@, ww as nat, MAX_WRAP_LINES as nat);
            assert(w@.map_values(|x: String| x@) =~= ws);
            assert(w@.map_values(|x: String| x@).skip(0) =~= ws);
            let g = |l: Seq<char>| text_line(prefix, l, cont, bg, width as nat, search);
            assert(ws.map_values(g) =~= ws.map_values(|t: Seq<char>| text_line(empty_prefix(e.level, selected, bg), t, cont, bg,
                width as nat, search)));
            assert(extra_rows(e.extra_lines@, k as int, prefix, cont, bg, ww as nat, width as nat, search)
                == ws.map_values(g) + extra_rows(e.extra_lines@, k as int + 1, prefix, cont, bg, ww as nat, width as nat, search));
            assert(lines_view(out@) + extra_rows(e.extra_lines@, k as int + 1, prefix, cont, bg, ww as nat, width as nat, search)
                =~= before + extra_rows(e.extra_lines@, k as int, prefix, cont, bg, ww as nat, width as nat, search));
        }
        k = k + 1;
    }
    assert(extra_rows(e.extra_lines@, k as int, prefix, cont, bg, ww as nat, width as nat, search) == Seq::<LineView>::empty());
    assert(lines_view(out@) + Seq::<LineView>::empty() =~= lines_view(out@));
}

/// A finished row of `spans` (see [`plain_line`]).
fn plain_row(spans: Vec<FieldSpan>, bg: FieldColor, width: usize) -> (r: LogLine)
    ensures
        line_view(r) == plain_line(field_spans(spans@), bg, width as nat),
{
    let mut v = spans;
    pad_row(&mut v, bg, width);
    LogLine { spans: v, body: None, bg }
}

/// `... n more frames`
fn more_frames_of(n: usize) -> (r: String)
    ensures
        r@ == more_frames_text(n as nat),
{
    proof { reveal_strlit("... "); reveal_strlit(" more frames"); }
    let mut r = owned("... ");
    let d = decimal_string(n);
    push_str(&mut r, d.as_str());
    push_str(&mut r, " more frames");
    assert(r@ =~= more_frames_text(n as nat));
    r
}

/// The rows of the stack preview (see [`stack_rows`]).
fn stack_rows_of(out: &mut Vec<LogLine>, e: &LogRow, selected: bool, ww: usize, width: usize)
    ensures
        lines_view(final(out)@) == lines_view(old(out)@) + stack_rows(*e, empty_prefix(e.level, selected,
            row_bg(e.level, selected)), row_bg(e.level, selected), ww as nat, width as nat),
{
    if !e.has_stack {
        assert(lines_view(out@) + Seq::<LineView>::empty() =~= lines_view(out@));
        return;
    }
    let bg = row_bg_of(e.level, selected);
    let ghost prefix = empty_prefix(e.level, selected, bg);
    let ghost start = lines_view(out@);
    let ghost f = |pi: int| plain_line(prefix.push((pad_spec(e.stack_preview@[pi]@, ww as nat),
        if pi == 0 && e.has_error { colored(red(), bg, DIM) } else { colored(overlay0(), bg, 0) })), bg, width as nat);
    let mut pi: usize = 0;
    while pi < e.stack_preview.len()
        invariant
            pi <= e.stack_preview@.len(),
            bg == row_bg(e.level, selected),
            prefix == empty_prefix(e.level, selected, bg),
            f == (|pi: int| plain_line(prefix.push((pad_spec(e.stack_preview@[pi]@, ww as nat),
                if pi == 0 && e.has_error { colored(red(), bg, DIM) } else { colored(overlay0(), bg, 0) })), bg, width as nat)),
            lines_view(out@) == start + Seq::new(pi as nat, f),
        decreases e.stack_preview@.len() - pi,
    {
        let mut p = empty_prefix_of(e.level, selected, bg);
        let st = if pi == 0 && e.has_error { style(FieldColor::Rgb(237, 135, 150), bg, DIM) }
            else { style(FieldColor::Rgb(110, 115, 141), bg, 0) };
        put(&mut p, safe_pad(e.stack_preview[pi].as_str(), ww), st);
        let row = plain_row(p, bg, width);
        push_line(out, row);
        assert(Seq::new(pi as nat + 1, f) =~= Seq::new(pi as nat, f).push(f(pi as int)));
        pi = pi + 1;
    }
    if e.stack_more > 0 {
        let mut p = empty_prefix_of(e.level, selected, bg);
        put(&mut p, more_frames_of(e.stack_more), style(FieldColor::Rgb(110, 115, 141), bg, ITALIC));
        let row = plain_row(p, bg, width);
        push_line(out, row);
    }
    assert(Seq::new(e.stack_preview@.len(), f) =~= Seq::new(e.stack_preview@.len(), |pi: int| plain_line(prefix.push(
        (pad_spec(e.stack_preview@[pi]@, ww as nat), if pi == 0 && e.has_error { colored(red(), bg, DIM) }
        else { colored(overlay0(), bg, 0) })), bg, width as nat)));
    assert(lines_view(out@) =~= start + stack_rows(*e, prefix, bg, ww as nat, width as nat));
}

/// The three rows of a separator (see [`separator_rows`]).
fn separator_rows_of(out: &mut Vec<LogLine>, width: usize)
    ensures
        lines_view(final(out)@) == lines_view(old(out)@) + separator_rows(width as nat),
{
    let base = FieldColor::Rgb(36, 39, 58);
    let mut k: usize = 0;
    let ghost start = lines_view(out@);
    while k < 3
        invariant
            k <= 3,
            base == base_bg(),
            lines_view(out@) == start + separator_rows(width as nat).take(k as int),
        decreases 3 - k,
    {
        let mut v: Vec<FieldSpan> = Vec::new();
        if k == 1 {
            put(&mut v, repeat_char(' ', 1), bg_style(base));
            put(&mut v, repeat_char('\u{2500}', width.saturating_sub(1)), style(FieldColor::Rgb(73, 77, 100), base, 0));
            assert(run(' ', 1) =~= seq![' ']);
        } else {
            put(&mut v, repeat_char(' ', width), bg_style(base));
            assert(run(' ', width as nat) =~= spaces(width as nat));
        }
        let line = LogLine { spans: v, body: None, bg: base };
        assert(field_spans(line.spans@) =~= separator_rows(width as nat)[k as int].0);
        assert(line_view(line) == separator_rows(width as nat)[k as int]);
        push_line(out, line);
        assert(separator_rows(width as nat).take(k as int + 1) =~= separator_rows(width as nat).take(k as int).push(
            separator_rows(width as nat)[k as int]));
        k = k + 1;
    }
    assert(separator_rows(width as nat).take(3) =~= separator_rows(width as nat));
}

/// Whether an entry is a separator.
fn is_separator(e: &LogRow) -> (r: bool)
    ensures
        r == (e.tag@ == separator_tag()),
{
    proof { reveal_strlit("\u{2500}\u{2500}\u{2500}\u{2500}"); }
    let sep = "\u{2500}\u{2500}\u{2500}\u{2500}";
    assert(sep@ =~= separator_tag());
    crate::text::strings::same_text(e.tag.as_str(), sep)
}

/// Every row of an entry, before the row budget (see [`entry_rows`]).
fn entry_rows_of(e: &LogRow, selected: bool, width: usize, full_width: usize, search: bool) -> (r: Vec<LogLine>)
    requires
        row_ok(*e),
    ensures
        lines_view(r@) == entry_rows(*e, selected, width as nat, full_width as nat, search),
        r@.len() >= 1,
{
    reveal(entry_rows);
    let mut out: Vec<LogLine> = Vec::new();
    if is_separator(e) {
        separator_rows_of(&mut out, width);
        assert(lines_view(out@) =~= entry_rows(*e, selected, width as nat, full_width as nat, search));
        return out;
    }
    let bg = row_bg_of(e.level, selected);
    let base = style(message_color_of(e.level), bg, 0);
    let header = header_of(e, selected);
    let hw = width_of(&header);
    let ww = full_width.saturating_sub(hw.saturating_add(1));
    assert(ww as nat == wrap_width(*e, selected, full_width as nat));
    let msg = full_message_of(e);
    let wrapped = wrap_text(msg.as_str(), ww, MAX_WRAP_LINES);
    let ghost ws = wrap_spec(full_message(*e), ww as nat, MAX_WRAP_LINES as nat);
    assert(wrapped@.map_values(|x: String| x@) =~= ws);
    assert(wrapped@[0]@ == ws[0]);
    let first = first_row_of(e, selected, header, &wrapped[0], width, search);
    push_line(&mut out, first);
    assert(lines_view(out@) =~= seq![first_row(*e, selected, width as nat, full_width as nat, search)]);
    wrapped_rows(&mut out, &wrapped, 1, e.level, selected, base, bg, width, search);
    extra_rows_of(&mut out, e, selected, ww, width, search);
    stack_rows_of(&mut out, e, selected, ww, width);
    proof {
        let prefix = empty_prefix(e.level, selected, bg);
        assert(wrapped@.map_values(|x: String| x@).skip(1).map_values(
            |t: Seq<char>| text_line(empty_prefix(e.level, selected, bg), t, base, bg, width as nat, search))
            =~= ws.skip(1).map_values(|l: Seq<char>| text_line(prefix, l, base, bg, width as nat, search)));
    }
    assert(lines_view(out@) =~= entry_rows(*e, selected, width as nat, full_width as nat, search));
    out
}

/// How many rows an entry takes when the header is the usual 41 columns:
/// three for a separator, else the message's wrapped lines, the extra
/// lines' wrapped lines and the stack preview's rows.
pub open spec fn row_count_spec(e: LogRow, full_width: nat) -> nat {
    if e.tag@ == separator_tag() {
        3
    } else {
        let ww = sat_sub(full_width, 42);
        wrap_spec(full_message(e), ww, MAX_WRAP_LINES as nat).len()
            + extra_count(e.extra_lines@, 0, ww)
            + if e.has_stack { e.stack_preview@.len() + if e.stack_more > 0 { 1nat } else { 0nat } } else { 0nat }
    }
}

/// Wrapped lines of the extra lines `xs[k..]`.
pub open spec fn extra_count(xs: Seq<String>, k: int, ww: nat) -> nat
    decreases xs.len() - k,
{
    if k < 0 || k >= xs.len() { 0 } else { wrap_spec(xs[k]@, ww, MAX_WRAP_LINES as nat).len() + extra_count(xs, k + 1, ww) }
}

proof fn lemma_extra_count_bound(xs: Seq<String>, k: int, ww: nat)
    requires
        0 <= k <= xs.len(),
    ensures
        extra_count(xs, k, ww) <= 3 * (xs.len() - k),
    decreases xs.len() - k,
{
    if k < xs.len() {
        lemma_extra_count_bound(xs, k + 1, ww);
        lemma_wrap_spec_len(xs[k]@, ww, MAX_WRAP_LINES as nat);
    }
}

/// The rows of the extra lines are as many as their wrapped lines.
proof fn lemma_extra_rows_len(xs: Seq<String>, k: int, prefix: Seq<(Seq<char>, FieldStyle)>, style: FieldStyle,
    bg: FieldColor, ww: nat, width: nat, search: bool)
    ensures
        extra_rows(xs, k, prefix, style, bg, ww, width, search).len() == extra_count(xs, k, ww),
    decreases xs.len() - k,
{
    if 0 <= k < xs.len() {
        lemma_extra_rows_len(xs, k + 1, prefix, style, bg, ww, width, search);
    }
}

/// The count of an entry's rows matches the rows laid out, whenever its
/// header takes the usual 41 columns.
pub proof fn lemma_row_count_matches(e: LogRow, selected: bool, width: nat, full_width: nat, search: bool)
    requires
        spans_width(header_spec(e, selected)) == 41,
    ensures
        entry_rows(e, selected, width, full_width, search).len() == row_count_spec(e, full_width),
{
    reveal(entry_rows);
    if e.tag@ != separator_tag() {
        let bg = row_bg(e.level, selected);
        let ww = wrap_width(e, selected, full_width);
        assert(ww == sat_sub(full_width, 42));
        lemma_wrap_spec_len(full_message(e), ww, MAX_WRAP_LINES as nat);
        lemma_extra_rows_len(e.extra_lines@, 0, empty_prefix(e.level, selected, bg), colored(level_color_spec(e.level),
            bg, 0), bg, ww, width, search);
    }
}

/// How many rows an entry takes in a list `full_width` columns wide.
pub fn entry_row_count(e: &LogRow, full_width: usize) -> (n: usize)
    requires
        row_ok(*e),
    ensures
        n == row_count_spec(*e, full_width as nat),
        1 <= n,
{
    if is_separator(e) {
        return 3;
    }
    let ww = full_width.saturating_sub(42);
    let msg = full_message_of(e);
    let wrapped = wrap_text(msg.as_str(), ww, MAX_WRAP_LINES);
    let mut extra: usize = 0;
    let mut k: usize = 0;
    proof { lemma_extra_count_bound(e.extra_lines@, 0, ww as nat); }
    while k < e.extra_lines.len()
        invariant
            k <= e.extra_lines@.len(),
            row_ok(*e),
            extra as nat + extra_count(e.extra_lines@, k as int, ww as nat) == extra_count(e.extra_lines@, 0, ww as nat),
            extra_count(e.extra_lines@, 0, ww as nat) <= 3 * e.extra_lines@.len(),
        decreases e.extra_lines@.len() - k,
    {
        assert(measurable(e.extra_lines@[k as int]@));
        let w = wrap_text(e.extra_lines[k].as_str(), ww, MAX_WRAP_LINES);
        extra = extra + w.len();
        k = k + 1;
    }
    let mut stack: usize = 0;
    if e.has_stack {
        stack = e.stack_preview.len();
        if e.stack_more > 0 {
            stack = stack + 1;
        }
    }
    wrapped.len() + extra + stack
}

/// How many of an entry's `len` rows show when `have` rows are already
/// there (see [`budgeted`]).
fn budget(len: usize, separator: bool, have: usize, height: usize) -> (n: usize)
    requires
        len >= 1,
    ensures
        n <= len,
        !separator ==> n >= 1,
        separator ==> n == if sat_sub(height as nat, have as nat) < len { sat_sub(height as nat, have as nat) }
            else { len as nat },
        !separator ==> n == 1 + if sat_sub(height as nat, have as nat + 1) < len - 1 {
            sat_sub(height as nat, have as nat + 1) } else { (len - 1) as nat },
{
    let room = height.saturating_sub(have);
    if separator {
        if room < len { room } else { len }
    } else {
        let room2 = room.saturating_sub(1);
        if room2 < len - 1 { 1 + room2 } else { len }
    }
}

/// One step of [`rows_from`]: entry `k`'s budgeted rows are added, and the
/// layout stops once they reach `height`.
proof fn lemma_rows_from_step(entries: Seq<LogRow>, k: int, selected: nat, height: nat, width: nat, full_width: nat,
    search: bool, acc: Seq<LineView>, map: Seq<usize>)
    requires
        0 <= k < entries.len(),
    ensures
        ({
            let e = entries[k];
            let pushed = budgeted(entry_rows(e, k == selected, width, full_width, search), e.tag@ == separator_tag(),
                acc.len(), height);
            let acc2 = acc + pushed;
            let map2 = map + Seq::new(pushed.len(), |_i: int| k as usize);
            rows_from(entries, k, selected, height, width, full_width, search, acc, map)
                == if acc2.len() >= height { (acc2, map2) } else {
                    rows_from(entries, k + 1, selected, height, width, full_width, search, acc2, map2) }
        }),
{
}

/// Add entry `k`'s rows within the budget, and its index for each.
fn push_entry(rows: &mut Vec<LogLine>, map: &mut Vec<usize>, e: &LogRow, k: usize, selected: bool, height: usize,
    width: usize, full_width: usize, search: bool)
    requires
        row_ok(*e),
        old(rows)@.len() == old(map)@.len(),
        old(rows)@.len() == 0 || old(rows)@.len() < height,
    ensures
        ({
            let pushed = budgeted(entry_rows(*e, selected, width as nat, full_width as nat, search),
                e.tag@ == separator_tag(), old(rows)@.len() as nat, height as nat);
            &&& lines_view(final(rows)@) == lines_view(old(rows)@) + pushed
            &&& final(map)@ == old(map)@ + Seq::new(pushed.len(), |_i: int| k)
            &&& final(rows)@.len() == final(map)@.len()
            &&& height >= 1 ==> final(rows)@.len() <= height
        }),
{
    let sep = is_separator(e);
    let mut all = entry_rows_of(e, selected, width, full_width, search);
    let ghost acc0 = lines_view(rows@);
    let ghost map0 = map@;
    let ghost rows_all = lines_view(all@);
    let ghost pushed = budgeted(rows_all, sep, rows@.len() as nat, height as nat);
    let n = budget(all.len(), sep, rows.len(), height);
    all.truncate(n);
    assert(rows_all.take(n as int) =~= pushed);
    assert(lines_view(all@) =~= rows_all.take(n as int));
    rows.append(&mut all);
    assert(lines_view(rows@) =~= acc0 + pushed);
    let mut i: usize = 0;
    while i < n
        invariant
            i <= n,
            map@ == map0 + Seq::new(i as nat, |_j: int| k),
        decreases n - i,
    {
        map.push(k);
        assert(Seq::new(i as nat + 1, |_j: int| k) =~= Seq::new(i as nat, |_j: int| k).push(k));
        i = i + 1;
    }
}

/// The rows of the log list: the entries from `start` on, laid out until
/// `height` rows are filled (see [`rows_from`]), and for each row the
/// index of the entry it belongs to. A message entry's first row always
/// shows, so with a positive height the rows never exceed it.
pub fn log_rows(entries: &Vec<LogRow>, start: usize, selected: usize, height: usize, width: usize, full_width: usize,
    search: bool) -> (r: (Vec<LogLine>, Vec<usize>))
    requires
        forall|k: int| 0 <= k < entries@.len() ==> row_ok(#[trigger] entries@[k]),
    ensures
        (lines_view(r.0@), r.1@) == rows_from(entries@, start as int, selected as nat, height as nat, width as nat,
            full_width as nat, search, Seq::empty(), Seq::empty()),
        r.0@.len() == r.1@.len(),
        height >= 1 ==> r.0@.len() <= height,
{
    let mut rows: Vec<LogLine> = Vec::new();
    let mut map: Vec<usize> = Vec::new();
    let mut k = start;
    while k < entries.len()
        invariant
            forall|j: int| 0 <= j < entries@.len() ==> row_ok(#[trigger] entries@[j]),
            rows@.len() == map@.len(),
            rows@.len() == 0 || rows@.len() < height,
            rows_from(entries@, k as int, selected as nat, height as nat, width as nat, full_width as nat, search,
                lines_view(rows@), map@)
                == rows_from(entries@, start as int, selected as nat, height as nat, width as nat, full_width as nat,
                    search, Seq::empty(), Seq::empty()),
        decreases entries@.len() - k,
    {
        assert(row_ok(entries@[k as int]));
        let ghost acc0 = lines_view(rows@);
        let ghost map0 = map@;
        push_entry(&mut rows, &mut map, &entries[k], k, k == selected, height, width, full_width, search);
        proof {
            lemma_rows_from_step(entries@, k as int, selected as nat, height as nat, width as nat, full_width as nat,
                search, acc0, map0);
        }
        if rows.len() >= height {
            return (rows, map);
        }
        k = k + 1;
    }
    (rows, map)
}

/// How many runs of equal neighbours a row map has: the entries shown.
pub open spec fn runs(map: Seq<usize>) -> nat
    decreases map.len(),
{
    if map.len() == 0 {
        0
    } else if map.len() == 1 {
        1
    } else {
        runs(map.drop_last()) + if map.last() != map[map.len() - 2] { 1nat } else { 0nat }
    }
}

/// What the rows leave for the status bar: whether they reach the last of
/// `count` entries (an empty map counts as entry 0), and how many entries
/// they show.
pub fn visible_summary(row_map: &Vec<usize>, count: usize) -> (r: (bool, usize))
    ensures
        r.0 == ((if row_map@.len() == 0 { 0 } else { row_map@.last() as int }) + 1 >= count),
        r.1 as nat == runs(row_map@),
{
    let n = row_map.len();
    let last = if n == 0 { 0 } else { row_map[n - 1] };
    let to_end = count == 0 || last >= count - 1;
    let mut unique: usize = 0;
    let mut k: usize = 0;
    while k < n
        invariant
            k <= n == row_map@.len(),
            unique as nat == runs(row_map@.take(k as int)),
            unique <= k,
        decreases n - k,
    {
        assert(row_map@.take(k as int + 1).drop_last() =~= row_map@.take(k as int));
        if k == 0 || row_map[k] != row_map[k - 1] {
            unique = unique + 1;
        }
        k = k + 1;
    }
    assert(row_map@.take(n as int) =~= row_map@);
    (to_end, unique)
}

} // verus!
