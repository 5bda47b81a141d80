//! The level row of the logs toolbar: the level pills with the minimum
//! level highlighted, then the filtered count, the search position and the
//! bookmark count, padded to the row's width.

use vstd::prelude::*;
use crate::text::strings::{decimal, decimal_string, owned, push_char, push_str, run, repeat_char};
use crate::text::width::{all_printable_ascii, str_width, unicode_str_width};
use crate::ui::highlight::field_spans;
use crate::ui::input_field::{colored, rgb, FieldColor, FieldSpan, FieldStyle, BOLD};

verus! {

/// A log level, from the least to the most severe; `System` is the
/// lowest, so a minimum of `System` shows everything.
#[derive(Debug, Clone, Copy, PartialEq, Eq, Structural)]
pub enum LogLevel {
    System,
    Verbose,
    Debug,
    Info,
    Warning,
    Error,
}

/// The position of a level in severity order.
pub open spec fn level_rank(l: LogLevel) -> nat {
    match l {
        LogLevel::System => 0,
        LogLevel::Verbose => 1,
        LogLevel::Debug => 2,
        LogLevel::Info => 3,
        LogLevel::Warning => 4,
        LogLevel::Error => 5,
    }
}

fn rank(l: LogLevel) -> (r: u8)
    ensures
        r as nat == level_rank(l),
{
    match l {
        LogLevel::System => 0,
        LogLevel::Verbose => 1,
        LogLevel::Debug => 2,
        LogLevel::Info => 3,
        LogLevel::Warning => 4,
        LogLevel::Error => 5,
    }
}

/// The dim modifier bit.
pub const DIM: u16 = 2;

/// Palette colours of the level row.
pub open spec fn mantle() -> FieldColor { rgb(30, 32, 48) }
pub open spec fn surface0() -> FieldColor { rgb(54, 58, 79) }
pub open spec fn surface1() -> FieldColor { rgb(73, 77, 100) }
pub open spec fn overlay0() -> FieldColor { rgb(110, 115, 141) }
pub open spec fn subtext0() -> FieldColor { rgb(165, 173, 206) }
pub open spec fn text_color() -> FieldColor { rgb(202, 211, 245) }
pub open spec fn blue() -> FieldColor { rgb(138, 173, 244) }
pub open spec fn yellow() -> FieldColor { rgb(238, 212, 159) }
pub open spec fn red() -> FieldColor { rgb(237, 135, 150) }

/// Foreground, background and boldness of a level's badge.
pub open spec fn badge_spec(l: LogLevel) -> (FieldColor, FieldColor, bool) {
    match l {
        LogLevel::Verbose => (overlay0(), surface0(), false),
        LogLevel::Debug => (subtext0(), surface0(), false),
        LogLevel::Info => (mantle(), blue(), true),
        LogLevel::Warning => (mantle(), yellow(), true),
        LogLevel::Error => (mantle(), red(), true),
        LogLevel::System => (overlay0(), surface0(), false),
    }
}

/// Foreground, background and boldness of a level's badge.
pub fn level_badge(l: LogLevel) -> (r: (FieldColor, FieldColor, bool))
    ensures
        r == badge_spec(l),
{
    match l {
        LogLevel::Verbose => (FieldColor::Rgb(110, 115, 141), FieldColor::Rgb(54, 58, 79), false),
        LogLevel::Debug => (FieldColor::Rgb(165, 173, 206), FieldColor::Rgb(54, 58, 79), false),
        LogLevel::Info => (FieldColor::Rgb(30, 32, 48), FieldColor::Rgb(138, 173, 244), true),
        LogLevel::Warning => (FieldColor::Rgb(30, 32, 48), FieldColor::Rgb(238, 212, 159), true),
        LogLevel::Error => (FieldColor::Rgb(30, 32, 48), FieldColor::Rgb(237, 135, 150), true),
        LogLevel::System => (FieldColor::Rgb(110, 115, 141), FieldColor::Rgb(54, 58, 79), false),
    }
}

/// The text colour of a level.
pub open spec fn level_color_spec(l: LogLevel) -> FieldColor {
    match l {
        LogLevel::Verbose => overlay0(),
        LogLevel::Debug => subtext0(),
        LogLevel::Info => blue(),
        LogLevel::Warning => yellow(),
        LogLevel::Error => red(),
        LogLevel::System => overlay0(),
    }
}

/// The text colour of a level.
pub fn level_color(l: LogLevel) -> (c: FieldColor)
    ensures
        c == level_color_spec(l),
{
    match l {
        LogLevel::Verbose => FieldColor::Rgb(110, 115, 141),
        LogLevel::Debug => FieldColor::Rgb(165, 173, 206),
        LogLevel::Info => FieldColor::Rgb(138, 173, 244),
        LogLevel::Warning => FieldColor::Rgb(238, 212, 159),
        LogLevel::Error => FieldColor::Rgb(237, 135, 150),
        LogLevel::System => FieldColor::Rgb(110, 115, 141),
    }
}

/// The pills, left to right: System, Verbose, Debug, Info, Warning, Error.
pub open spec fn pill_level(k: int) -> LogLevel {
    if k == 0 { LogLevel::System } else if k == 1 { LogLevel::Verbose } else if k == 2 { LogLevel::Debug }
    else if k == 3 { LogLevel::Info } else if k == 4 { LogLevel::Warning } else { LogLevel::Error }
}

/// The letter on a pill.
pub open spec fn pill_letter(l: LogLevel) -> char {
    match l {
        LogLevel::System => 'S',
        LogLevel::Verbose => 'V',
        LogLevel::Debug => 'D',
        LogLevel::Info => 'I',
        LogLevel::Warning => 'W',
        LogLevel::Error => 'E',
    }
}

/// A style that only sets the background.
pub open spec fn bg_only(c: FieldColor) -> FieldStyle {
    FieldStyle { fg: None, bg: Some(c), underline_color: None, add_modifier: 0, sub_modifier: 0 }
}

/// The style of a pill: the badge colours for the minimum level, dimmed
/// for levels below it, the level's colour for levels above it.
pub open spec fn pill_style(min: LogLevel, l: LogLevel) -> FieldStyle {
    let (fg, bg, bold) = badge_spec(l);
    if min == l {
        colored(fg, if bg == FieldColor::Reset { surface1() } else { bg }, if bold { BOLD } else { 0 })
    } else if level_rank(min) > level_rank(l) {
        colored(surface0(), mantle(), DIM)
    } else {
        colored(level_color_spec(l), mantle(), 0)
    }
}

/// The first `k` pills: ` X ` in the pill's style.
pub open spec fn pills(min: LogLevel, k: nat) -> Seq<(Seq<char>, FieldStyle)>
    decreases k,
{
    if k == 0 {
        seq![]
    } else {
        let l = pill_level(k - 1);
        pills(min, (k - 1) as nat).push((seq![' ', pill_letter(l), ' '], pill_style(min, l)))
    }
}

/// Width of a text as the toolbar counts it: its display width, as 16 bits.
pub open spec fn w16(t: Seq<char>) -> int {
    (unicode_str_width(t) as u16) as int
}

pub open spec fn level_label() -> Seq<char> { seq!['L', 'e', 'v', 'e', 'l', ':', ' '] }
pub open spec fn filtered_label() -> Seq<char> { seq!['F', 'i', 'l', 't', 'e', 'r', 'e', 'd', ':', ' '] }
pub open spec fn match_label() -> Seq<char> { seq!['M', 'a', 't', 'c', 'h', ':', ' '] }
pub open spec fn bookmarks_label() -> Seq<char> {
    seq!['B', 'o', 'o', 'k', 'm', 'a', 'r', 'k', 's', ':', ' ']
}

/// `a/b`
pub open spec fn ratio(a: nat, b: nat) -> Seq<char> {
    decimal(a) + seq!['/'] + decimal(b)
}

/// `●n`
pub open spec fn bookmark_text(n: nat) -> Seq<char> {
    seq!['\u{25cf}'] + decimal(n)
}

/// The spans of the level row before its padding, and the columns they
/// take: a blank, `Level: `, the six pills, `Filtered: f/t`, then
/// `Match: i+1/n` while a search has matches and `Bookmarks: ●b` while
/// there are bookmarks, each group set off by four blanks.
pub open spec fn level_row_body(min: LogLevel, filtered: nat, total: nat, search: Option<(nat, nat)>, bookmarks: nat)
    -> (Seq<(Seq<char>, FieldStyle)>, int) {
    let bg = bg_only(mantle());
    let label = colored(subtext0(), mantle(), 0);
    let gap = run(' ', 4);
    let count = ratio(filtered, total);
    let head = seq![(seq![' '], bg), (level_label(), label)] + pills(min, 6)
        + seq![(gap, bg), (filtered_label(), label), (count, colored(text_color(), mantle(), BOLD))];
    let x0 = 1 + 7 + 18 + 4 + 10 + w16(count);
    let (with_match, x1) = match search {
        Some((idx, n)) => if n > 0 {
            let m = ratio(idx + 1, n);
            (head + seq![(gap, bg), (match_label(), label), (m, colored(yellow(), mantle(), BOLD))],
                x0 + 4 + 7 + w16(m))
        } else {
            (head, x0)
        },
        None => (head, x0),
    };
    if bookmarks > 0 {
        let b = bookmark_text(bookmarks);
        (with_match + seq![(gap, bg), (bookmarks_label(), label), (b, colored(yellow(), mantle(), 0))],
            x1 + 4 + 11 + w16(b))
    } else {
        (with_match, x1)
    }
}

/// The whole level row: the body, then blanks up to `width` columns.
pub open spec fn level_row_spec(min: LogLevel, filtered: nat, total: nat, search: Option<(nat, nat)>,
    bookmarks: nat, width: nat) -> Seq<(Seq<char>, FieldStyle)> {
    let (body, x) = level_row_body(min, filtered, total, search, bookmarks);
    if x < width {
        body.push((run(' ', (width - x) as nat), bg_only(mantle())))
    } else {
        body
    }
}

fn pill_at(k: usize) -> (l: LogLevel)
    ensures
        l == pill_level(k as int),
{
    if k == 0 { LogLevel::System } else if k == 1 { LogLevel::Verbose } else if k == 2 { LogLevel::Debug }
    else if k == 3 { LogLevel::Info } else if k == 4 { LogLevel::Warning } else { LogLevel::Error }
}

fn letter_of(l: LogLevel) -> (c: char)
    ensures
        c == pill_letter(l),
{
    match l {
        LogLevel::System => 'S',
        LogLevel::Verbose => 'V',
        LogLevel::Debug => 'D',
        LogLevel::Info => 'I',
        LogLevel::Warning => 'W',
        LogLevel::Error => 'E',
    }
}

fn put(spans: &mut Vec<FieldSpan>, text: String, style: FieldStyle)
    ensures
        field_spans(final(spans)@) == field_spans(old(spans)@).push((text@, style)),
{
    let ghost t = text@;
    spans.push(FieldSpan { text, style });
    assert(field_spans(spans@) =~= field_spans(old(spans)@).push((t, style)));
}

fn width16(t: &str) -> (w: u32)
    ensures
        w as int == w16(t@),
        all_printable_ascii(t@) && t@.len() < 0x10000 ==> w == t@.len(),
{
    (str_width(t) as u16) as u32
}

/// `a/b` as text.
fn ratio_text(a: usize, b: usize) -> (r: String)
    ensures
        r@ == ratio(a as nat, b as nat),
{
    let mut r = decimal_string(a);
    push_char(&mut r, '/');
    let d = decimal_string(b);
    push_str(&mut r, d.as_str());
    r
}

/// Build the level row of the logs toolbar for a row `width` columns wide:
/// its spans, and the column where the first pill starts. `search` is the
/// current match and the number of matches, when a search is active.
pub fn level_row(min_level: LogLevel, filtered: usize, total: usize, search: Option<(usize, usize)>,
    bookmarks: usize, width: u16) -> (r: (Vec<FieldSpan>, u16))
    requires
        search matches Some((idx, n)) ==> (n > 0 ==> idx < usize::MAX),
    ensures
        field_spans(r.0@) == level_row_spec(min_level, filtered as nat, total as nat,
            match search { Some((i, n)) => Some((i as nat, n as nat)), None => None }, bookmarks as nat, width as nat),
        r.1 == 8,
{
    proof {
        reveal_strlit(" ");
        reveal_strlit("Level: ");
        reveal_strlit("    ");
        reveal_strlit("Filtered: ");
        reveal_strlit("Match: ");
        reveal_strlit("Bookmarks: ");
    }
    let bg = FieldStyle { fg: None, bg: Some(FieldColor::Rgb(30, 32, 48)), underline_color: None, add_modifier: 0, sub_modifier: 0 };
    let label = FieldStyle {
        fg: Some(FieldColor::Rgb(165, 173, 206)),
        bg: Some(FieldColor::Rgb(30, 32, 48)),
        underline_color: None,
        add_modifier: 0,
        sub_modifier: 0,
    };
    let ghost sv = match search { Some((i, n)) => Some((i as nat, n as nat)), None => None };
    let mut spans: Vec<FieldSpan> = Vec::new();
    let mut x: u32 = 1;
    assert(bg == bg_only(mantle()));
    assert(label == colored(subtext0(), mantle(), 0));
    let sp = owned(" ");
    assert(sp@ =~= seq![' ']);
    put(&mut spans, sp, bg);
    let level_text = owned("Level: ");
    assert(level_text@ =~= level_label());
    assert(all_printable_ascii(level_text@));
    x = x + width16(level_text.as_str());
    let levels_x = x as u16;
    put(&mut spans, level_text, label);
    let mut k: usize = 0;
    let ghost start = field_spans(spans@);
    assert(start == seq![(seq![' '], bg_only(mantle())), (level_label(), colored(subtext0(), mantle(), 0))]);
    while k < 6
        invariant
            k <= 6,
            field_spans(spans@) == start + pills(min_level, k as nat),
        decreases 6 - k,
    {
        let l = pill_at(k);
        let letter = letter_of(l);
        let (fg, bg_c, bold) = level_badge(l);
        let style = if min_level == l {
            let b = match bg_c { FieldColor::Reset => FieldColor::Rgb(73, 77, 100), _ => bg_c };
            FieldStyle { fg: Some(fg), bg: Some(b), underline_color: None, add_modifier: if bold { BOLD } else { 0 }, sub_modifier: 0 }
        } else if rank(min_level) > rank(l) {
            FieldStyle { fg: Some(FieldColor::Rgb(54, 58, 79)), bg: Some(FieldColor::Rgb(30, 32, 48)), underline_color: None, add_modifier: DIM, sub_modifier: 0 }
        } else {
            FieldStyle { fg: Some(level_color(l)), bg: Some(FieldColor::Rgb(30, 32, 48)), underline_color: None, add_modifier: 0, sub_modifier: 0 }
        };
        proof { reveal_strlit(" "); }
        let mut t = owned(" ");
        push_char(&mut t, letter);
        push_char(&mut t, ' ');
        assert(t@ =~= seq![' ', pill_letter(pill_level(k as int)), ' ']);
        assert(l == pill_level(k as int));
        assert(style == pill_style(min_level, l));
        put(&mut spans, t, style);
        assert(start + pills(min_level, (k + 1) as nat) == (start + pills(min_level, k as nat)).push(
            (seq![' ', pill_letter(l), ' '], pill_style(min_level, l))));
        k = k + 1;
    }
    x = x + 18;
    let gap = owned("    ");
    assert(gap@ =~= run(' ', 4));
    put(&mut spans, gap, bg);
    x = x + 4;
    let fl = owned("Filtered: ");
    assert(fl@ =~= filtered_label());
    assert(all_printable_ascii(fl@));
    x = x + width16(fl.as_str());
    put(&mut spans, fl, label);
    let count = ratio_text(filtered, total);
    x = x + width16(count.as_str());
    put(&mut spans, count, FieldStyle {
        fg: Some(FieldColor::Rgb(202, 211, 245)),
        bg: Some(FieldColor::Rgb(30, 32, 48)),
        underline_color: None,
        add_modifier: BOLD,
        sub_modifier: 0,
    });
    let ghost head_spans = field_spans(spans@);
    let ghost head_x = x as int;
    assert(head_spans == seq![(seq![' '], bg_only(mantle())), (level_label(), colored(subtext0(), mantle(), 0))]
        + pills(min_level, 6) + seq![(run(' ', 4), bg_only(mantle())), (filtered_label(), colored(subtext0(), mantle(), 0)),
        (ratio(filtered as nat, total as nat), colored(text_color(), mantle(), BOLD))]);
    match search {
        Some((idx, n)) => {
            if n > 0 {
                let gap = owned("    ");
                assert(gap@ =~= run(' ', 4));
                put(&mut spans, gap, bg);
                x = x + 4;
                let ml = owned("Match: ");
                assert(ml@ =~= match_label());
                assert(all_printable_ascii(ml@));
                x = x + width16(ml.as_str());
                put(&mut spans, ml, label);
                let m = ratio_text(idx + 1, n);
                x = x + width16(m.as_str());
                put(&mut spans, m, FieldStyle {
                    fg: Some(FieldColor::Rgb(238, 212, 159)),
                    bg: Some(FieldColor::Rgb(30, 32, 48)),
                    underline_color: None,
                    add_modifier: BOLD,
                    sub_modifier: 0,
                });
            }
        },
        None => {},
    }
    if bookmarks > 0 {
        let gap = owned("    ");
        assert(gap@ =~= run(' ', 4));
        put(&mut spans, gap, bg);
        x = x + 4;
        let bl = owned("Bookmarks: ");
        assert(bl@ =~= bookmarks_label());
        assert(all_printable_ascii(bl@));
        x = x + width16(bl.as_str());
        put(&mut spans, bl, label);
        let mut b = String::new();
        push_char(&mut b, '\u{25cf}');
        let d = decimal_string(bookmarks);
        push_str(&mut b, d.as_str());
        assert(b@ =~= bookmark_text(bookmarks as nat));
        x = x + width16(b.as_str());
        put(&mut spans, b, FieldStyle {
            fg: Some(FieldColor::Rgb(238, 212, 159)),
            bg: Some(FieldColor::Rgb(30, 32, 48)),
            underline_color: None,
            add_modifier: 0,
            sub_modifier: 0,
        });
    }
    let ghost body = level_row_body(min_level, filtered as nat, total as nat, sv, bookmarks as nat);
    assert(field_spans(spans@) == body.0 && x as int == body.1);
    if x < width as u32 {
        let pad = repeat_char(' ', (width as u32 - x) as usize);
        put(&mut spans, pad, bg);
    }
    (spans, levels_x)
}

} // verus!
