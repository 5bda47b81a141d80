//! Raw JSON text syntax highlighting. The tokenizer tolerates any input —
//! unterminated strings, missing brackets, half-typed text — and keeps
//! classifying through errors; every char of the input lands in exactly
//! one span.

use vstd::prelude::*;
use crate::text::strings::{from_chars, push_char, split_char, split_spec, to_chars, views, ascii_digit, total_len, lemma_split_total_len, lemma_total_len_take};
use crate::ui::json_viewer::lexer::{scan_string, scan_string_continuation, is_key_after, scan_number, match_keyword, string_body, key_follows, num_end, keyword_at, kw_true, kw_false, kw_null, lemma_string_body_bounds, lemma_num_end_bounds};

verus! {

/// The role of a highlighted span; `Key` and `Brace` carry the nesting
/// depth that picks their color.
#[derive(Debug, Clone, Copy, PartialEq, Eq)]
pub enum SpanClass {
    Plain,
    Str,
    Key(usize),
    Brace(usize),
    Punct,
    Bool,
    Null,
    Num,
}

/// A run of text with one highlight class.
#[derive(Debug)]
pub struct ColoredSpan {
    pub text: String,
    pub class: SpanClass,
}

/// A span as text and class.
pub type SpanView = (Seq<char>, SpanClass);

/// The view of a line of spans.
pub open spec fn line_view(v: Seq<ColoredSpan>) -> Seq<SpanView> {
    v.map_values(|s: ColoredSpan| (s.text@, s.class))
}

/// The view of all lines.
pub open spec fn lines_view(v: Seq<Vec<ColoredSpan>>) -> Seq<Seq<SpanView>> {
    v.map_values(|l: Vec<ColoredSpan>| line_view(l@))
}

/// Put a plain char in front of spans, joining a leading plain span.
pub open spec fn prepend_plain(buf: Seq<char>, r: Seq<SpanView>) -> Seq<SpanView> {
    if buf.len() == 0 {
        r
    } else if r.len() > 0 && r[0].1 == SpanClass::Plain {
        seq![(buf + r[0].0, SpanClass::Plain)] + r.drop_first()
    } else {
        seq![(buf, SpanClass::Plain)] + r
    }
}

/// The spans of `chars[i..]` at nesting `depth`, outside any string:
/// `(spans, depth after, whether a string is still open)`.
pub open spec fn main_scan(chars: Seq<char>, i: int, depth: nat) -> (Seq<SpanView>, nat, bool)
    decreases chars.len() - i, 0int,
{
    if i < 0 || i >= chars.len() {
        (seq![], depth, false)
    } else {
        let c = chars[i];
        if c == '"' {
            let b = string_body(chars, i + 1);
            proof { lemma_string_body_bounds(chars, i + 1); }
            let lit = seq!['"'] + b.0;
            if !b.2 {
                (seq![(lit, SpanClass::Str)], depth, true)
            } else {
                let r = main_scan(chars, b.1, depth);
                let class = if key_follows(chars, b.1) { SpanClass::Key(depth as usize) } else { SpanClass::Str };
                (seq![(lit, class)] + r.0, r.1, r.2)
            }
        } else if c == '{' || c == '[' {
            let r = main_scan(chars, i + 1, depth + 1);
            (seq![(seq![c], SpanClass::Brace(depth as usize))] + r.0, r.1, r.2)
        } else if c == '}' || c == ']' {
            let d = if depth > 0 { (depth - 1) as nat } else { 0 };
            let r = main_scan(chars, i + 1, d);
            (seq![(seq![c], SpanClass::Brace(d as usize))] + r.0, r.1, r.2)
        } else if c == ':' || c == ',' {
            let r = main_scan(chars, i + 1, depth);
            (seq![(seq![c], SpanClass::Punct)] + r.0, r.1, r.2)
        } else if c == 't' && keyword_at(chars, i, kw_true()) {
            let r = main_scan(chars, i + 4, depth);
            (seq![(kw_true(), SpanClass::Bool)] + r.0, r.1, r.2)
        } else if c == 'f' && keyword_at(chars, i, kw_false()) {
            let r = main_scan(chars, i + 5, depth);
            (seq![(kw_false(), SpanClass::Bool)] + r.0, r.1, r.2)
        } else if c == 'n' && keyword_at(chars, i, kw_null()) {
            let r = main_scan(chars, i + 4, depth);
            (seq![(kw_null(), SpanClass::Null)] + r.0, r.1, r.2)
        } else if ascii_digit(c) || (c == '-' && i + 1 < chars.len() && ascii_digit(chars[i + 1])) {
            let e = num_end(chars, i + 1);
            proof { lemma_num_end_bounds(chars, i + 1); }
            let r = main_scan(chars, e, depth);
            (seq![(chars.subrange(i, e), SpanClass::Num)] + r.0, r.1, r.2)
        } else {
            let r = main_scan(chars, i + 1, depth);
            (prepend_plain(seq![c], r.0), r.1, r.2)
        }
    }
}

/// The spans of one non-empty line entered at `depth`, possibly inside a
/// string left open by an earlier line.
pub open spec fn line_scan(chars: Seq<char>, depth: nat, in_string: bool) -> (Seq<SpanView>, nat, bool) {
    if in_string {
        let b = string_body(chars, 0);
        let head = if b.0.len() > 0 { seq![(b.0, SpanClass::Str)] } else { seq![] };
        if !b.2 {
            (head, depth, true)
        } else {
            let r = main_scan(chars, b.1, depth);
            (head + r.0, r.1, r.2)
        }
    } else {
        main_scan(chars, 0, depth)
    }
}

/// Highlight every `\n`-separated line in turn, carrying the nesting depth
/// and an open string from line to line; an empty line has no spans.
pub open spec fn colorize_fold(lines: Seq<Seq<char>>) -> (Seq<Seq<SpanView>>, nat, bool)
    decreases lines.len(),
{
    if lines.len() == 0 {
        (seq![], 0, false)
    } else {
        let p = colorize_fold(lines.drop_last());
        let l = lines.last();
        if l.len() == 0 {
            (p.0.push(seq![]), p.1, p.2)
        } else {
            let r = line_scan(l, p.1, p.2);
            (p.0.push(r.0), r.1, r.2)
        }
    }
}

/// The highlighted lines of a text.
pub open spec fn colorize_spec(text: Seq<char>) -> Seq<Seq<SpanView>> {
    colorize_fold(split_spec(text, '\n')).0
}

/// Pushing a span pushes its view.
pub proof fn lemma_line_view_push(v: Seq<ColoredSpan>, x: ColoredSpan)
    ensures
        line_view(v.push(x)) == line_view(v).push((x.text@, x.class)),
{
    assert(line_view(v.push(x)) =~= line_view(v).push((x.text@, x.class)));
}

/// One more plain char joins the pending plain run.
pub proof fn lemma_prepend_plain_push(buf: Seq<char>, c: char, r: Seq<SpanView>)
    ensures
        prepend_plain(buf, prepend_plain(seq![c], r)) == prepend_plain(buf.push(c), r),
{
    let x = prepend_plain(seq![c], r);
    if buf.len() > 0 {
        if r.len() > 0 && r[0].1 == SpanClass::Plain {
            assert(x == seq![(seq![c] + r[0].0, SpanClass::Plain)] + r.drop_first());
            assert(x[0] == (seq![c] + r[0].0, SpanClass::Plain));
            assert(x.drop_first() =~= r.drop_first());
            assert(buf + (seq![c] + r[0].0) =~= buf.push(c) + r[0].0);
        } else {
            assert(x == seq![(seq![c], SpanClass::Plain)] + r);
            assert(x[0] == (seq![c], SpanClass::Plain));
            assert(x.drop_first() =~= r);
            assert(buf + seq![c] =~= buf.push(c));
        }
    } else {
        assert(buf.push(c) =~= seq![c]);
    }
}

/// The spans a pending plain run becomes when it is flushed.
pub open spec fn flushed(buf: Seq<char>) -> Seq<SpanView> {
    if buf.len() == 0 { seq![] } else { seq![(buf, SpanClass::Plain)] }
}

/// A token that is not plain text ends the pending plain run.
pub proof fn lemma_prepend_token(buf: Seq<char>, t: SpanView, r: Seq<SpanView>)
    requires
        t.1 != SpanClass::Plain,
    ensures
        prepend_plain(buf, seq![t] + r) == flushed(buf) + seq![t] + r,
{
    if buf.len() == 0 {
        assert(flushed(buf) + seq![t] + r == seq![t] + r);
    } else {
        assert(seq![(buf, SpanClass::Plain)] + (seq![t] + r) == flushed(buf) + seq![t] + r);
    }
}

/// Emit the pending plain run, if any, as a span of its own.
fn flush_plain(spans: &mut Vec<ColoredSpan>, buf: &mut String)
    ensures
        line_view(final(spans)@) == line_view(old(spans)@) + flushed(old(buf)@),
        final(buf)@.len() == 0,
{
    if !buf.as_str().is_empty() {
        let mut text = String::new();
        std::mem::swap(&mut text, buf);
        proof { lemma_line_view_push(spans@, ColoredSpan { text, class: SpanClass::Plain }); }
        spans.push(ColoredSpan { text, class: SpanClass::Plain });
    } else {
        assert(line_view(spans@) + flushed(buf@) == line_view(spans@));
    }
}

/// Emit the pending plain run, then a token span.
fn push_token(spans: &mut Vec<ColoredSpan>, buf: &mut String, text: String, class: SpanClass)
    ensures
        line_view(final(spans)@) == line_view(old(spans)@) + flushed(old(buf)@) + seq![(text@, class)],
        final(buf)@.len() == 0,
{
    flush_plain(spans, buf);
    proof { lemma_line_view_push(spans@, ColoredSpan { text, class }); }
    spans.push(ColoredSpan { text, class });
}

/// A string holding just `c`.
fn one_char(c: char) -> (r: String)
    ensures
        r@ == seq![c],
{
    let mut r = String::new();
    push_char(&mut r, c);
    r
}

/// Highlight `chars[start..]` outside any string at nesting `depth0`,
/// appending the spans; returns the nesting after the line and whether a
/// string is left open.
fn scan_main(chars: &[char], start: usize, depth0: usize, spans: &mut Vec<ColoredSpan>) -> (r: (usize, bool))
    requires
        start <= chars@.len(),
        depth0 + chars@.len() <= usize::MAX,
    ensures
        line_view(final(spans)@) == line_view(old(spans)@) + main_scan(chars@, start as int, depth0 as nat).0,
        r.0 as nat == main_scan(chars@, start as int, depth0 as nat).1,
        r.1 == main_scan(chars@, start as int, depth0 as nat).2,
        r.0 <= depth0 + chars@.len(),
{
    let ghost target = main_scan(chars@, start as int, depth0 as nat);
    let ghost base = line_view(spans@);
    let len = chars.len();
    let mut buf = String::new();
    let mut i = start;
    let mut depth = depth0;
    while i < len
        invariant
            start <= i <= len,
            len == chars@.len(),
            depth <= depth0 + i,
            depth0 + len <= usize::MAX,
            target == main_scan(chars@, start as int, depth0 as nat),
            base == line_view(old(spans)@),
            line_view(spans@) + prepend_plain(buf@, main_scan(chars@, i as int, depth as nat).0) == base + target.0,
            main_scan(chars@, i as int, depth as nat).1 == target.1,
            main_scan(chars@, i as int, depth as nat).2 == target.2,
        decreases len - i,
    {
        let c = chars[i];
        let ghost cur = main_scan(chars@, i as int, depth as nat);
        if c == '"' {
            let sc = scan_string(chars, i);
            proof { lemma_string_body_bounds(chars@, i + 1); }
            if !sc.terminated {
                proof { lemma_prepend_token(buf@, (sc.literal@, SpanClass::Str), seq![]); }
                push_token(spans, &mut buf, sc.literal, SpanClass::Str);
                assert(line_view(spans@) == base + target.0);
                return (depth, true);
            }
            let is_key = is_key_after(chars, sc.end);
            let class = if is_key { SpanClass::Key(depth) } else { SpanClass::Str };
            let ghost rest = main_scan(chars@, sc.end as int, depth as nat);
            proof { lemma_prepend_token(buf@, (sc.literal@, class), rest.0); }
            push_token(spans, &mut buf, sc.literal, class);
            i = sc.end;
        } else if c == '{' || c == '[' {
            let ghost rest = main_scan(chars@, i + 1, (depth + 1) as nat);
            proof { lemma_prepend_token(buf@, (seq![c], SpanClass::Brace(depth)), rest.0); }
            push_token(spans, &mut buf, one_char(c), SpanClass::Brace(depth));
            depth = depth + 1;
            i = i + 1;
        } else if c == '}' || c == ']' {
            let d = if depth > 0 { depth - 1 } else { 0 };
            let ghost rest = main_scan(chars@, i + 1, d as nat);
            proof { lemma_prepend_token(buf@, (seq![c], SpanClass::Brace(d)), rest.0); }
            push_token(spans, &mut buf, one_char(c), SpanClass::Brace(d));
            depth = d;
            i = i + 1;
        } else if c == ':' || c == ',' {
            let ghost rest = main_scan(chars@, i + 1, depth as nat);
            proof { lemma_prepend_token(buf@, (seq![c], SpanClass::Punct), rest.0); }
            push_token(spans, &mut buf, one_char(c), SpanClass::Punct);
            i = i + 1;
        } else if c == 't' && match_keyword(chars, i, "true") {
            proof { reveal_strlit("true"); assert("true"@ =~= kw_true()); }
            let ghost rest = main_scan(chars@, i + 4, depth as nat);
            proof { lemma_prepend_token(buf@, (kw_true(), SpanClass::Bool), rest.0); }
            push_token(spans, &mut buf, from_chars(chars, i, i + 4), SpanClass::Bool);
            i = i + 4;
        } else if c == 'f' && match_keyword(chars, i, "false") {
            proof { reveal_strlit("false"); assert("false"@ =~= kw_false()); }
            let ghost rest = main_scan(chars@, i + 5, depth as nat);
            proof { lemma_prepend_token(buf@, (kw_false(), SpanClass::Bool), rest.0); }
            push_token(spans, &mut buf, from_chars(chars, i, i + 5), SpanClass::Bool);
            i = i + 5;
        } else if c == 'n' && match_keyword(chars, i, "null") {
            proof { reveal_strlit("null"); assert("null"@ =~= kw_null()); }
            let ghost rest = main_scan(chars@, i + 4, depth as nat);
            proof { lemma_prepend_token(buf@, (kw_null(), SpanClass::Null), rest.0); }
            push_token(spans, &mut buf, from_chars(chars, i, i + 4), SpanClass::Null);
            i = i + 4;
        } else if ('0' <= c && c <= '9') || (c == '-' && i + 1 < len && '0' <= chars[i + 1] && chars[i + 1] <= '9') {
            let (num, e) = scan_number(chars, i);
            proof { lemma_num_end_bounds(chars@, i + 1); }
            let ghost rest = main_scan(chars@, e as int, depth as nat);
            proof { lemma_prepend_token(buf@, (num@, SpanClass::Num), rest.0); }
            push_token(spans, &mut buf, num, SpanClass::Num);
            i = e;
        } else {
            proof {
                reveal_strlit("true");
                reveal_strlit("false");
                reveal_strlit("null");
                assert("true"@ =~= kw_true());
                assert("false"@ =~= kw_false());
                assert("null"@ =~= kw_null());
                lemma_prepend_plain_push(buf@, c, main_scan(chars@, i + 1, depth as nat).0);
            }
            push_char(&mut buf, c);
            i = i + 1;
        }
    }
    assert(main_scan(chars@, i as int, depth as nat).0 == Seq::<SpanView>::empty());
    flush_plain(spans, &mut buf);
    (depth, false)
}

/// Highlight one non-empty line entered at `depth`, possibly inside a
/// string left open by an earlier line.
fn colorize_line(chars: &[char], depth: usize, in_string: bool) -> (r: (Vec<ColoredSpan>, usize, bool))
    requires
        chars@.len() > 0,
        depth + chars@.len() <= usize::MAX,
    ensures
        (line_view(r.0@), r.1 as nat, r.2) == line_scan(chars@, depth as nat, in_string),
        r.1 <= depth + chars@.len(),
{
    let mut spans: Vec<ColoredSpan> = Vec::new();
    if in_string {
        let (head, i, closed) = scan_string_continuation(chars);
        proof { lemma_string_body_bounds(chars@, 0); }
        let mut pending = head;
        flush_plain_as(&mut spans, &mut pending, SpanClass::Str);
        if !closed {
            return (spans, depth, true);
        }
        let (d, open) = scan_main(chars, i, depth, &mut spans);
        (spans, d, open)
    } else {
        assert(line_view(spans@) == Seq::<SpanView>::empty());
        let (d, open) = scan_main(chars, 0, depth, &mut spans);
        (spans, d, open)
    }
}

/// Emit a pending run, if any, as a span of class `class`.
fn flush_plain_as(spans: &mut Vec<ColoredSpan>, buf: &mut String, class: SpanClass)
    ensures
        line_view(final(spans)@) == line_view(old(spans)@)
            + (if old(buf)@.len() == 0 { Seq::<SpanView>::empty() } else { seq![(old(buf)@, class)] }),
{
    if !buf.as_str().is_empty() {
        let mut text = String::new();
        std::mem::swap(&mut text, buf);
        proof { lemma_line_view_push(spans@, ColoredSpan { text, class }); }
        spans.push(ColoredSpan { text, class });
    } else {
        assert(line_view(spans@) + Seq::<SpanView>::empty() == line_view(spans@));
    }
}

/// Pushing a line pushes its view.
pub proof fn lemma_lines_view_push(v: Seq<Vec<ColoredSpan>>, x: Vec<ColoredSpan>)
    ensures
        lines_view(v.push(x)) == lines_view(v).push(line_view(x@)),
{
    assert(lines_view(v.push(x)) =~= lines_view(v).push(line_view(x@)));
}

/// Highlight a text line by line: every `\n`-separated line becomes one
/// line of spans, with the nesting depth and an open string carried from
/// one line to the next.
pub fn colorize_json_text(text: &str) -> (lines: Vec<Vec<ColoredSpan>>)
    ensures
        lines_view(lines@) == colorize_spec(text@),
{
    let all = to_chars(text);
    let total = all.len();
    let parts = split_char(text, '\n');
    let ghost split = split_spec(text@, '\n');
    proof { lemma_split_total_len(text@, '\n'); }
    let mut depth: usize = 0;
    let mut in_string = false;
    let mut result: Vec<Vec<ColoredSpan>> = Vec::new();
    let mut idx: usize = 0;
    assert(split.take(0) =~= Seq::<Seq<char>>::empty());
    while idx < parts.len()
        invariant
            split == split_spec(text@, '\n'),
            views(parts@) == split,
            total_len(split) <= all@.len(),
            all@.len() <= usize::MAX,
            idx <= parts@.len(),
            colorize_fold(split.take(idx as int)) == (lines_view(result@), depth as nat, in_string),
            depth <= total_len(split.take(idx as int)),
        decreases parts@.len() - idx,
    {
        let chars = to_chars(parts[idx].as_str());
        proof {
            assert(split[idx as int] == parts@[idx as int]@);
            lemma_total_len_take(split, idx as int);
            let t = split.take(idx as int + 1);
            assert(t.drop_last() == split.take(idx as int));
            assert(t.last() == split[idx as int]);
        }
        if chars.len() == 0 {
            let empty: Vec<ColoredSpan> = Vec::new();
            proof {
                lemma_lines_view_push(result@, empty);
                assert(line_view(empty@) =~= Seq::<SpanView>::empty());
            }
            result.push(empty);
        } else {
            let (spans, d, open) = colorize_line(&chars, depth, in_string);
            proof { lemma_lines_view_push(result@, spans); }
            result.push(spans);
            depth = d;
            in_string = open;
        }
        idx = idx + 1;
    }
    assert(split.take(idx as int) == split);
    result
}

/// The text of a line of spans, in order.
pub open spec fn span_text(line: Seq<SpanView>) -> Seq<char>
    decreases line.len(),
{
    if line.len() == 0 { seq![] } else { line[0].0 + span_text(line.drop_first()) }
}

/// The text of a span followed by more spans.
pub proof fn lemma_span_text_cons(x: SpanView, r: Seq<SpanView>)
    ensures
        span_text(seq![x] + r) == x.0 + span_text(r),
{
    assert((seq![x] + r).drop_first() =~= r);
}

/// A pending plain run adds its chars in front.
pub proof fn lemma_span_text_prepend(buf: Seq<char>, r: Seq<SpanView>)
    ensures
        span_text(prepend_plain(buf, r)) == buf + span_text(r),
{
    if buf.len() == 0 {
        assert(buf + span_text(r) =~= span_text(r));
    } else if r.len() > 0 && r[0].1 == SpanClass::Plain {
        lemma_span_text_cons((buf + r[0].0, SpanClass::Plain), r.drop_first());
        assert((buf + r[0].0) + span_text(r.drop_first()) =~= buf + (r[0].0 + span_text(r.drop_first())));
    } else {
        lemma_span_text_cons((buf, SpanClass::Plain), r);
    }
}

/// The spans of `chars[i..]` hold exactly those chars, in order.
pub proof fn lemma_main_scan_text(chars: Seq<char>, i: int, depth: nat)
    requires
        0 <= i <= chars.len(),
    ensures
        span_text(main_scan(chars, i, depth).0) == chars.subrange(i, chars.len() as int),
    decreases chars.len() - i,
{
    let n = chars.len() as int;
    if i == n {
        assert(chars.subrange(n, n) =~= Seq::<char>::empty());
    } else {
        let c = chars[i];
        if c == '"' {
            let b = string_body(chars, i + 1);
            lemma_string_body_bounds(chars, i + 1);
            let lit = seq!['"'] + b.0;
            if !b.2 {
                lemma_span_text_cons((lit, SpanClass::Str), seq![]);
                assert(seq![(lit, SpanClass::Str)] + Seq::<SpanView>::empty() =~= seq![(lit, SpanClass::Str)]);
                assert(lit + Seq::<char>::empty() =~= chars.subrange(i, n));
            } else {
                let class = if key_follows(chars, b.1) { SpanClass::Key(depth as usize) } else { SpanClass::Str };
                lemma_main_scan_text(chars, b.1, depth);
                lemma_span_text_cons((lit, class), main_scan(chars, b.1, depth).0);
                assert(lit + chars.subrange(b.1, n) =~= chars.subrange(i, n));
            }
        } else if c == '{' || c == '[' {
            lemma_main_scan_text(chars, i + 1, depth + 1);
            lemma_span_text_cons((seq![c], SpanClass::Brace(depth as usize)), main_scan(chars, i + 1, depth + 1).0);
            assert(seq![c] + chars.subrange(i + 1, n) =~= chars.subrange(i, n));
        } else if c == '}' || c == ']' {
            let d = if depth > 0 { (depth - 1) as nat } else { 0 };
            lemma_main_scan_text(chars, i + 1, d);
            lemma_span_text_cons((seq![c], SpanClass::Brace(d as usize)), main_scan(chars, i + 1, d).0);
            assert(seq![c] + chars.subrange(i + 1, n) =~= chars.subrange(i, n));
        } else if c == ':' || c == ',' {
            lemma_main_scan_text(chars, i + 1, depth);
            lemma_span_text_cons((seq![c], SpanClass::Punct), main_scan(chars, i + 1, depth).0);
            assert(seq![c] + chars.subrange(i + 1, n) =~= chars.subrange(i, n));
        } else if c == 't' && keyword_at(chars, i, kw_true()) {
            lemma_main_scan_text(chars, i + 4, depth);
            lemma_span_text_cons((kw_true(), SpanClass::Bool), main_scan(chars, i + 4, depth).0);
            assert(kw_true() + chars.subrange(i + 4, n) =~= chars.subrange(i, n));
        } else if c == 'f' && keyword_at(chars, i, kw_false()) {
            lemma_main_scan_text(chars, i + 5, depth);
            lemma_span_text_cons((kw_false(), SpanClass::Bool), main_scan(chars, i + 5, depth).0);
            assert(kw_false() + chars.subrange(i + 5, n) =~= chars.subrange(i, n));
        } else if c == 'n' && keyword_at(chars, i, kw_null()) {
            lemma_main_scan_text(chars, i + 4, depth);
            lemma_span_text_cons((kw_null(), SpanClass::Null), main_scan(chars, i + 4, depth).0);
            assert(kw_null() + chars.subrange(i + 4, n) =~= chars.subrange(i, n));
        } else if ascii_digit(c) || (c == '-' && i + 1 < n && ascii_digit(chars[i + 1])) {
            let e = num_end(chars, i + 1);
            lemma_num_end_bounds(chars, i + 1);
            lemma_main_scan_text(chars, e, depth);
            lemma_span_text_cons((chars.subrange(i, e), SpanClass::Num), main_scan(chars, e, depth).0);
            assert(chars.subrange(i, e) + chars.subrange(e, n) =~= chars.subrange(i, n));
        } else {
            lemma_main_scan_text(chars, i + 1, depth);
            lemma_span_text_prepend(seq![c], main_scan(chars, i + 1, depth).0);
            assert(seq![c] + chars.subrange(i + 1, n) =~= chars.subrange(i, n));
        }
    }
}

/// The spans of a non-empty line hold exactly its chars, in order.
pub proof fn lemma_line_scan_text(chars: Seq<char>, depth: nat, in_string: bool)
    ensures
        span_text(line_scan(chars, depth, in_string).0) == chars,
{
    let n = chars.len() as int;
    assert(chars.subrange(0, n) =~= chars);
    if in_string {
        let b = string_body(chars, 0);
        lemma_string_body_bounds(chars, 0);
        let head: Seq<SpanView> = if b.0.len() > 0 { seq![(b.0, SpanClass::Str)] } else { seq![] };
        if b.0.len() > 0 {
            lemma_span_text_cons((b.0, SpanClass::Str), seq![]);
            assert(seq![(b.0, SpanClass::Str)] + Seq::<SpanView>::empty() =~= head);
        }
        assert(span_text(head) =~= b.0);
        if b.2 {
            let r = main_scan(chars, b.1, depth);
            lemma_main_scan_text(chars, b.1, depth);
            if b.0.len() > 0 {
                lemma_span_text_cons((b.0, SpanClass::Str), r.0);
            } else {
                assert(head + r.0 =~= r.0);
            }
            assert(b.0 + chars.subrange(b.1, n) =~= chars);
        }
    } else {
        lemma_main_scan_text(chars, 0, depth);
    }
}

/// Line `k` of the highlighted lines holds exactly the chars of line `k`.
pub proof fn lemma_fold_keeps_text(lines: Seq<Seq<char>>)
    ensures
        colorize_fold(lines).0.len() == lines.len(),
        forall|k: int| 0 <= k < lines.len() ==> span_text(#[trigger] colorize_fold(lines).0[k]) == lines[k],
    decreases lines.len(),
{
    if lines.len() > 0 {
        let p = colorize_fold(lines.drop_last());
        lemma_fold_keeps_text(lines.drop_last());
        let l = lines.last();
        if l.len() > 0 {
            lemma_line_scan_text(l, p.1, p.2);
        } else {
            assert(span_text(Seq::<SpanView>::empty()) =~= l);
        }
        assert forall|k: int| 0 <= k < lines.len() implies span_text(#[trigger] colorize_fold(lines).0[k]) == lines[k] by {
            if k < lines.len() - 1 {
                assert(colorize_fold(lines).0[k] == p.0[k]);
                assert(lines.drop_last()[k] == lines[k]);
            }
        }
    }
}

/// Highlighting keeps the text: there is one line of spans per
/// `\n`-separated line, and the spans of each hold exactly its chars, in
/// order.
pub proof fn lemma_colorize_keeps_text(text: Seq<char>)
    ensures
        colorize_spec(text).len() == split_spec(text, '\n').len(),
        forall|k: int| 0 <= k < colorize_spec(text).len() ==>
            span_text(#[trigger] colorize_spec(text)[k]) == split_spec(text, '\n')[k],
{
    lemma_fold_keeps_text(split_spec(text, '\n'));
}

} // verus!
