//! Log list arithmetic: the jump-to-bottom pill, the visible window start,
//! repeat bars, tag color selection and search-match highlighting.

use vstd::prelude::*;
use crate::text::strings::{char_utf8_len, decimal, decimal_string, from_chars, owned, push_char, push_str, to_chars, utf8_len};
use crate::ui::highlight::{byte_len, char_pos, field_spans};
use crate::ui::input_field::{at_boundary, chars_before, colored, rgb, FieldColor, FieldSpan, FieldStyle, BOLD};
use vstd::string::StringSliceAdditionalSpecFns;

pub mod detail;
pub mod toolbar;
pub mod status_bar;
pub mod viewport;
pub mod list;
pub mod timeline;
pub mod stats;

verus! {

/// The pill is shown whenever the list is not following its tail.
pub fn should_show(auto_scroll: bool) -> (r: bool)
    ensures
        r == !auto_scroll,
{
    !auto_scroll
}

/// `  ↓ Jump to bottom  `
pub open spec fn jump_text() -> Seq<char> {
    seq![' ', ' ', '\u{2193}', ' ', 'J', 'u', 'm', 'p', ' ', 't', 'o', ' ', 'b', 'o', 't', 't', 'o', 'm', ' ', ' ']
}

/// The pill text: the jump label, followed by `N new  ` when logs arrived
/// since the list was paused.
pub open spec fn label_spec(n: nat) -> Seq<char> {
    if n == 0 {
        jump_text()
    } else {
        jump_text() + decimal(n) + seq![' ', 'n', 'e', 'w', ' ', ' ']
    }
}

/// The label of the jump-to-bottom pill.
pub fn label(new_since_pause: usize) -> (r: String)
    ensures
        r@ == label_spec(new_since_pause as nat),
{
    let base = "  \u{2193} Jump to bottom  ";
    proof {
        reveal_strlit("  \u{2193} Jump to bottom  ");
        reveal_strlit(" new  ");
    }
    assert(base@ =~= jump_text());
    let mut r = base.to_owned();
    if new_since_pause != 0 {
        let digits = decimal_string(new_since_pause);
        push_str(&mut r, digits.as_str());
        let tail = " new  ";
        assert(tail@ =~= seq![' ', 'n', 'e', 'w', ' ', ' ']);
        push_str(&mut r, tail);
    }
    r
}

/// First filtered entry to draw: the scroll offset, clamped to the number
/// of filtered entries.
pub fn compute_visible_entry_start(total_filtered: usize, offset: usize) -> (start: usize)
    ensures
        start == if offset < total_filtered { offset } else { total_filtered },
{
    if offset < total_filtered { offset } else { total_filtered }
}

/// Repeat count at which the repeat bar is full.
pub const REPEAT_BAR_FULL_COUNT: usize = 50;

/// Cells of the repeat bar for a repeat count: proportional to the count
/// up to 50, where the bar fills `max_w`.
pub open spec fn repeat_bar_len(count: nat, max_w: nat) -> nat {
    let c = if count < 50 { count } else { 50 };
    let len = (c * max_w) / 50;
    if len < max_w { len } else { max_w }
}

/// Number of bar cells to draw for a repeat count.
pub fn repeat_bar_normalized(count: usize, max_w: usize) -> (len: usize)
    requires
        max_w <= usize::MAX / 50,
    ensures
        len == repeat_bar_len(count as nat, max_w as nat),
        len <= max_w,
        count >= 50 ==> len == max_w,
{
    let c = if count < 50 { count } else { 50 };
    assert(c * max_w <= 50 * max_w) by (nonlinear_arith)
        requires c <= 50;
    let len = (c * max_w) / 50;
    assert(count >= 50 ==> len == max_w) by (nonlinear_arith)
        requires count >= 50 ==> c == 50, len == (c * max_w) / 50;
    if len < max_w { len } else { max_w }
}

/// `█` repeated `n` times.
pub open spec fn blocks(n: nat) -> Seq<char> {
    Seq::new(n, |_i: int| '\u{2588}')
}

/// The repeat badge: `x<count> ` and the bar for that count.
pub fn repeat_bar(count: usize, max_w: usize) -> (r: String)
    requires
        max_w <= usize::MAX / 50,
    ensures
        r@ == seq!['x'] + decimal(count as nat) + seq![' '] + blocks(repeat_bar_len(count as nat, max_w as nat)),
{
    let len = repeat_bar_normalized(count, max_w);
    let mut r = String::new();
    push_char(&mut r, 'x');
    let digits = decimal_string(count);
    push_str(&mut r, digits.as_str());
    push_char(&mut r, ' ');
    let ghost head = r@;
    let mut k: usize = 0;
    while k < len
        invariant
            k <= len,
            r@ == head + blocks(k as nat),
        decreases len - k,
    {
        push_char(&mut r, '\u{2588}');
        k = k + 1;
        assert(r@ =~= head + blocks(k as nat));
    }
    assert(head =~= seq!['x'] + decimal(count as nat) + seq![' ']);
    r
}

/// The hash that picks a tag's color: `h * 31 + byte` over the UTF-8
/// bytes, wrapping at the width of `usize`.
pub open spec fn tag_hash(bytes: Seq<u8>) -> usize
    decreases bytes.len(),
{
    if bytes.len() == 0 {
        0
    } else {
        vstd::wrapping::usize_specs::wrapping_add(
            vstd::wrapping::usize_specs::wrapping_mul(tag_hash(bytes.drop_last()), 31),
            bytes.last() as usize,
        )
    }
}

/// Number of tag colors in the palette.
pub const TAG_COLOR_COUNT: usize = 5;

/// Index into the tag palette for a tag name; the same tag always gets the
/// same color.
pub fn tag_color_index(tag: &str) -> (i: usize)
    ensures
        i == tag_hash(tag.spec_bytes()) % 5,
        i < TAG_COLOR_COUNT,
{
    let bytes = tag.as_bytes();
    let mut h: usize = 0;
    let mut k: usize = 0;
    assert(bytes@.take(0) == Seq::<u8>::empty());
    while k < bytes.len()
        invariant
            k <= bytes@.len(),
            bytes@ == tag.spec_bytes(),
            h == tag_hash(bytes@.take(k as int)),
        decreases bytes@.len() - k,
    {
        assert(bytes@.take(k as int + 1).drop_last() == bytes@.take(k as int));
        h = h.wrapping_mul(31).wrapping_add(bytes[k] as usize);
        k = k + 1;
    }
    assert(bytes@.take(bytes@.len() as int) == bytes@);
    h % 5
}

/// `x`, or the text's byte length when `x` is past it.
pub open spec fn clip(x: usize, bl: nat) -> nat {
    if x < bl { x as nat } else { bl }
}

/// The chars between two byte offsets of `text`.
pub open spec fn byte_slice(text: Seq<char>, a: nat, b: nat) -> Seq<char> {
    text.subrange(chars_before(text, a) as int, chars_before(text, b) as int)
}

/// The style of a search match: dark text on yellow, bold.
pub open spec fn match_style() -> FieldStyle {
    colored(rgb(30, 32, 48), rgb(238, 212, 159), BOLD)
}

/// The spans for the first matches of `ps` (byte ranges, clipped to the
/// text) and the byte offset where the text resumes after them: before a
/// match, the text since the previous one when there is any; a non-empty
/// match in the match style.
pub open spec fn search_spans(text: Seq<char>, base: FieldStyle, ps: Seq<(usize, usize)>)
    -> (Seq<(Seq<char>, FieldStyle)>, nat)
    decreases ps.len(),
{
    if ps.len() == 0 {
        (seq![], 0)
    } else {
        let (sp, last) = search_spans(text, base, ps.drop_last());
        let bl = byte_len(text);
        let s = clip(ps.last().0, bl);
        let e = clip(ps.last().1, bl);
        (sp + (if s > last { seq![(byte_slice(text, last, s), base)] } else { seq![] })
            + (if s < e { seq![(byte_slice(text, s, e), match_style())] } else { seq![] }), e)
    }
}

/// The spans of a text with its search matches highlighted: the whole text
/// in the base style when there is no match (or nothing came out), else
/// the match spans and the text after the last match.
pub open spec fn search_highlight(text: Seq<char>, base: FieldStyle, ps: Seq<(usize, usize)>)
    -> Seq<(Seq<char>, FieldStyle)> {
    if ps.len() == 0 {
        seq![(text, base)]
    } else {
        let (sp, last) = search_spans(text, base, ps);
        let bl = byte_len(text);
        let all = sp + (if last < bl { seq![(byte_slice(text, last, bl), base)] } else { seq![] });
        if all.len() == 0 { seq![(text, base)] } else { all }
    }
}

/// Where the text resumes before range `i`: the clipped end of the range
/// before it, or the start of the text.
pub open spec fn resume_before(ps: Seq<(usize, usize)>, i: int, bl: nat) -> nat {
    if i == 0 { 0 } else { clip(ps[i - 1].1, bl) }
}

/// Every byte offset at which the text is cut falls on a char boundary:
/// the resume point and the start before a gap, the two ends of a
/// non-empty match, and the resume point before the tail.
pub open spec fn cuts_on_boundaries(text: Seq<char>, ps: Seq<(usize, usize)>) -> bool {
    let bl = byte_len(text);
    &&& forall|i: int| 0 <= i < ps.len() ==> {
        let s = clip((#[trigger] ps[i]).0, bl);
        let e = clip(ps[i].1, bl);
        let last = resume_before(ps, i, bl);
        &&& s > last ==> at_boundary(text, last) && at_boundary(text, s)
        &&& s < e ==> at_boundary(text, s) && at_boundary(text, e)
    }
    &&& ps.len() > 0 && resume_before(ps, ps.len() as int, bl) < bl ==> at_boundary(text,
        resume_before(ps, ps.len() as int, bl))
}

/// Append a span.
fn put_span(spans: &mut Vec<FieldSpan>, text: String, style: FieldStyle)
    ensures
        field_spans(final(spans)@) == field_spans(old(spans)@).push((text@, style)),
{
    let ghost t = text@;
    spans.push(FieldSpan { text, style });
    assert(field_spans(spans@) =~= field_spans(old(spans)@).push((t, style)));
}

/// Bytes of the UTF-8 encoding of `v`.
fn utf8_bytes(v: &Vec<char>) -> (n: usize)
    requires
        byte_len(v@) <= usize::MAX,
    ensures
        n == byte_len(v@),
{
    let mut n: usize = 0;
    let mut i: usize = 0;
    while i < v.len()
        invariant
            i <= v@.len(),
            byte_len(v@) <= usize::MAX,
            n == byte_len(v@.take(i as int)),
        decreases v@.len() - i,
    {
        assert(v@.take(i + 1).drop_last() =~= v@.take(i as int));
        proof { lemma_byte_len_prefix(v@, i + 1); }
        n = n + char_utf8_len(v[i]);
        i = i + 1;
    }
    assert(v@.take(v@.len() as int) =~= v@);
    n
}

/// A prefix takes no more bytes than the whole.
proof fn lemma_byte_len_prefix(v: Seq<char>, k: int)
    requires
        0 <= k <= v.len(),
    ensures
        byte_len(v.take(k)) <= byte_len(v),
    decreases v.len() - k,
{
    if k < v.len() {
        lemma_byte_len_prefix(v, k + 1);
        assert(v.take(k + 1).drop_last() =~= v.take(k));
    } else {
        assert(v.take(k) =~= v);
    }
}

/// Highlight the search matches of a log line: `positions` are the byte
/// ranges the filter's search found, in order; each is clipped to the
/// text, the text between matches keeps the base style and a non-empty
/// match is shown dark on yellow, bold.
pub fn highlight_with_filter(text: &str, positions: &Vec<(usize, usize)>, base: FieldStyle) -> (r: Vec<FieldSpan>)
    requires
        byte_len(text@) <= usize::MAX,
        cuts_on_boundaries(text@, positions@),
    ensures
        field_spans(r@) == search_highlight(text@, base, positions@),
{
    let mut spans: Vec<FieldSpan> = Vec::new();
    if positions.len() == 0 {
        put_span(&mut spans, owned(text), base);
        assert(field_spans(spans@) =~= search_highlight(text@, base, positions@));
        return spans;
    }
    let chars = to_chars(text);
    let bl = utf8_bytes(&chars);
    let hl = FieldStyle { fg: Some(FieldColor::Rgb(30, 32, 48)), bg: Some(FieldColor::Rgb(238, 212, 159)),
        underline_color: None, add_modifier: BOLD, sub_modifier: 0 };
    let mut last: usize = 0;
    let mut i: usize = 0;
    while i < positions.len()
        invariant
            i <= positions@.len(),
            chars@ == text@,
            bl == byte_len(text@),
            hl == match_style(),
            (field_spans(spans@), last as nat) == search_spans(text@, base, positions@.take(i as int)),
            last <= bl,
        decreases positions@.len() - i,
    {
        let (a, b) = positions[i];
        let s = if a < bl { a } else { bl };
        let e = if b < bl { b } else { bl };
        assert(positions@.take(i + 1).drop_last() =~= positions@.take(i as int));
        assert(positions@.take(i + 1).last() == positions@[i as int]);
        if s > last {
            proof { crate::ui::highlight::lemma_chars_before_le(text@, last as nat, s as nat); }
            let ls = char_pos(&chars, last);
            let ss = char_pos(&chars, s);
            put_span(&mut spans, from_chars(chars.as_slice(), ls, ss), base);
        }
        if s < e {
            proof { crate::ui::highlight::lemma_chars_before_le(text@, s as nat, e as nat); }
            let ss = char_pos(&chars, s);
            let es = char_pos(&chars, e);
            put_span(&mut spans, from_chars(chars.as_slice(), ss, es), hl);
        }
        last = e;
        i = i + 1;
    }
    assert(positions@.take(positions@.len() as int) =~= positions@);
    if last < bl {
        proof { crate::ui::highlight::lemma_chars_before_le(text@, last as nat, bl as nat); }
        let ls = char_pos(&chars, last);
        let bs = char_pos(&chars, bl);
        put_span(&mut spans, from_chars(chars.as_slice(), ls, bs), base);
    }
    if spans.len() == 0 {
        put_span(&mut spans, owned(text), base);
    }
    assert(field_spans(spans@) =~= search_highlight(text@, base, positions@));
    spans
}

} // verus!
