//! Automatic highlighting of log text. Each rule is a regular expression
//! with a style: HTTP status codes, durations, error words, URLs, arrows,
//! HTTP methods and API paths. Where matches overlap, the one that starts
//! first (then ends first, then belongs to the earlier rule) wins.

use vstd::prelude::*;
use crate::text::strings::{owned, to_chars, from_chars, utf8_len};
use crate::ui::input_field::{at_boundary, chars_before, FieldColor, FieldSpan, FieldStyle, BOLD};

verus! {

/// The underline modifier bit.
pub const UNDERLINED: u16 = 8;

/// Bytes of the UTF-8 encoding of `v`.
pub open spec fn byte_len(v: Seq<char>) -> nat
    decreases v.len(),
{
    if v.len() == 0 { 0 } else { byte_len(v.drop_last()) + utf8_len(v.last()) }
}

/// What the `regex` crate finds for `pattern` in `text`: `None` when the
/// pattern does not compile, else the byte range of each match that
/// `find_iter` yields, in order.
pub uninterp spec fn regex_find_all(pattern: Seq<char>, text: Seq<char>) -> Option<Seq<(usize, usize)>>;

/// Byte ranges as `find_iter` documents them: each starts no later than it
/// ends, lies within the text with both ends on char boundaries, and the
/// ranges do not overlap and come in order.
pub open spec fn ranges_ok(text: Seq<char>, v: Seq<(usize, usize)>) -> bool {
    &&& forall|i: int| 0 <= i < v.len() ==> {
        &&& (#[trigger] v[i]).0 <= v[i].1
        &&& v[i].1 <= byte_len(text)
        &&& at_boundary(text, v[i].0 as nat)
        &&& at_boundary(text, v[i].1 as nat)
    }
    &&& forall|i: int, j: int| 0 <= i < j < v.len() ==> (#[trigger] v[i]).1 <= (#[trigger] v[j]).0
}

/// `Regex::new(pattern)` and `Regex::find_iter(text)`, each match taken as
/// its start and end byte offsets. Claims that the result is the named one
/// and that the ranges are as the crate documents them.
#[verifier::external_body]
pub(crate) fn regex_find(pattern: &str, text: &str) -> (r: Option<Vec<(usize, usize)>>)
    ensures
        r is None ==> regex_find_all(pattern@, text@) is None,
        r matches Some(v) ==> regex_find_all(pattern@, text@) == Some(v@) && ranges_ok(text@, v@),
{
    let re = regex::Regex::new(pattern).ok()?;
    Some(re.find_iter(text).map(|m| (m.start(), m.end())).collect())
}

/// Number of highlight rules.
pub const RULE_COUNT: usize = 10;

/// The pattern of each rule.
pub open spec fn rule_pattern(r: int) -> Seq<char> {
    if r == 0 {
        "\\b[2]\\d{2}\\b"@
    } else if r == 1 {
        "\\b[4]\\d{2}\\b"@
    } else if r == 2 {
        "\\b[5]\\d{2}\\b"@
    } else if r == 3 {
        "\\((\\d{4,})ms\\)"@
    } else if r == 4 {
        "\\(\\d+ms\\)"@
    } else if r == 5 {
        "(?i)\\b(error|exception|failed|failure|crash)\\b"@
    } else if r == 6 {
        "https?://\\S+"@
    } else if r == 7 {
        "[\u{2192}\u{2190}]|->|<-"@
    } else if r == 8 {
        "\\b(GET|POST|PUT|DELETE|PATCH|HEAD|OPTIONS)\\b"@
    } else {
        "/[\\w\\-]+(?:/[\\w\\-.]+)+"@
    }
}

fn pattern_of(r: usize) -> (p: &'static str)
    ensures
        p@ == rule_pattern(r as int),
{
    if r == 0 {
        "\\b[2]\\d{2}\\b"
    } else if r == 1 {
        "\\b[4]\\d{2}\\b"
    } else if r == 2 {
        "\\b[5]\\d{2}\\b"
    } else if r == 3 {
        "\\((\\d{4,})ms\\)"
    } else if r == 4 {
        "\\(\\d+ms\\)"
    } else if r == 5 {
        "(?i)\\b(error|exception|failed|failure|crash)\\b"
    } else if r == 6 {
        "https?://\\S+"
    } else if r == 7 {
        "[\u{2192}\u{2190}]|->|<-"
    } else if r == 8 {
        "\\b(GET|POST|PUT|DELETE|PATCH|HEAD|OPTIONS)\\b"
    } else {
        "/[\\w\\-]+(?:/[\\w\\-.]+)+"
    }
}

/// A style with a foreground and modifiers only.
pub open spec fn fg_style(fg: FieldColor, add: u16) -> FieldStyle {
    FieldStyle { fg: Some(fg), bg: None, underline_color: None, add_modifier: add, sub_modifier: 0 }
}

/// The style of each rule: 2xx green, 4xx yellow, 5xx red bold, slow
/// durations red bold, durations cyan, error words red bold, URLs blue
/// underlined, arrows peach bold, methods magenta bold, paths subtext.
/// Named colours count from black (0): red 1, green 2, yellow 3, blue 4,
/// magenta 5, cyan 6.
pub open spec fn rule_style(r: int) -> FieldStyle {
    if r == 0 {
        fg_style(FieldColor::Named(2), 0)
    } else if r == 1 {
        fg_style(FieldColor::Named(3), 0)
    } else if r == 2 || r == 3 || r == 5 {
        fg_style(FieldColor::Named(1), BOLD)
    } else if r == 4 {
        fg_style(FieldColor::Named(6), 0)
    } else if r == 6 {
        fg_style(FieldColor::Named(4), UNDERLINED)
    } else if r == 7 {
        fg_style(FieldColor::Rgb(245, 169, 127), BOLD)
    } else if r == 8 {
        fg_style(FieldColor::Named(5), BOLD)
    } else {
        fg_style(FieldColor::Rgb(165, 173, 206), 0)
    }
}

/// A rule's style on the base style's background, when it has one.
pub open spec fn styled_on(r: int, base: FieldStyle) -> FieldStyle {
    match base.bg {
        Some(bg) => FieldStyle { bg: Some(bg), ..rule_style(r) },
        None => rule_style(r),
    }
}

fn style_on(r: usize, base: FieldStyle) -> (s: FieldStyle)
    ensures
        s == styled_on(r as int, base),
{
    let st = if r == 0 {
        FieldStyle { fg: Some(FieldColor::Named(2)), bg: None, underline_color: None, add_modifier: 0, sub_modifier: 0 }
    } else if r == 1 {
        FieldStyle { fg: Some(FieldColor::Named(3)), bg: None, underline_color: None, add_modifier: 0, sub_modifier: 0 }
    } else if r == 2 || r == 3 || r == 5 {
        FieldStyle { fg: Some(FieldColor::Named(1)), bg: None, underline_color: None, add_modifier: BOLD, sub_modifier: 0 }
    } else if r == 4 {
        FieldStyle { fg: Some(FieldColor::Named(6)), bg: None, underline_color: None, add_modifier: 0, sub_modifier: 0 }
    } else if r == 6 {
        FieldStyle { fg: Some(FieldColor::Named(4)), bg: None, underline_color: None, add_modifier: UNDERLINED, sub_modifier: 0 }
    } else if r == 7 {
        FieldStyle { fg: Some(FieldColor::Rgb(245, 169, 127)), bg: None, underline_color: None, add_modifier: BOLD, sub_modifier: 0 }
    } else if r == 8 {
        FieldStyle { fg: Some(FieldColor::Named(5)), bg: None, underline_color: None, add_modifier: BOLD, sub_modifier: 0 }
    } else {
        FieldStyle { fg: Some(FieldColor::Rgb(165, 173, 206)), bg: None, underline_color: None, add_modifier: 0, sub_modifier: 0 }
    };
    match base.bg {
        Some(bg) => FieldStyle { bg: Some(bg), ..st },
        None => st,
    }
}

/// A match as (start char, end char, rule, index among the rule's matches).
pub type Hit = (usize, usize, usize, usize);

/// The matches of rule `r` in `text`, as char positions.
pub open spec fn rule_hits(text: Seq<char>, r: int) -> Seq<Hit> {
    match regex_find_all(rule_pattern(r), text) {
        Some(v) => Seq::new(v.len(), |j: int| (chars_before(text, v[j].0 as nat) as usize,
            chars_before(text, v[j].1 as nat) as usize, r as usize, j as usize)),
        None => seq![],
    }
}

/// The matches of the first `k` rules, rule by rule.
pub open spec fn hits_upto(text: Seq<char>, k: nat) -> Seq<Hit>
    decreases k,
{
    if k == 0 { seq![] } else { hits_upto(text, (k - 1) as nat) + rule_hits(text, k - 1) }
}

/// `a` comes before `b`: by start, then end, then rule, then index.
pub open spec fn hit_before(a: Hit, b: Hit) -> bool {
    ||| a.0 < b.0
    ||| a.0 == b.0 && a.1 < b.1
    ||| a.0 == b.0 && a.1 == b.1 && a.2 < b.2
    ||| a.0 == b.0 && a.1 == b.1 && a.2 == b.2 && a.3 < b.3
}

/// `m` may be chosen next: it starts at or after `bound` and comes after
/// the previous choice.
pub open spec fn eligible(hits: Seq<Hit>, bound: int, after: Option<Hit>, m: Hit) -> bool {
    &&& hits.contains(m)
    &&& m.0 >= bound
    &&& (after matches Some(a) ==> hit_before(a, m))
}

/// `m` is the earliest eligible match.
pub open spec fn first_eligible(hits: Seq<Hit>, bound: int, after: Option<Hit>, m: Hit) -> bool {
    &&& eligible(hits, bound, after, m)
    &&& forall|x: Hit| eligible(hits, bound, after, x) ==> !hit_before(x, m)
}

/// The matches kept, in order: repeatedly the earliest match that starts
/// at or after the end of the previous one (at most `fuel` of them).
pub open spec fn chosen(hits: Seq<Hit>, bound: int, after: Option<Hit>, fuel: nat) -> Seq<Hit>
    decreases fuel,
{
    if fuel == 0 || !exists|m: Hit| first_eligible(hits, bound, after, m) {
        seq![]
    } else {
        let m = choose|m: Hit| first_eligible(hits, bound, after, m);
        seq![m] + chosen(hits, m.1 as int, Some(m), (fuel - 1) as nat)
    }
}

/// Where the text after some kept matches resumes.
pub open spec fn resume(kept: Seq<Hit>) -> int {
    if kept.len() == 0 { 0 } else { kept.last().1 as int }
}

/// The spans for some kept matches: before each, the plain text since the
/// previous one (when there is any), then the match in its rule's style.
pub open spec fn kept_spans(text: Seq<char>, base: FieldStyle, kept: Seq<Hit>) -> Seq<(Seq<char>, FieldStyle)>
    decreases kept.len(),
{
    if kept.len() == 0 {
        seq![]
    } else {
        let prev = kept.drop_last();
        let pos = resume(prev);
        let h = kept.last();
        kept_spans(text, base, prev)
            + (if h.0 > pos { seq![(text.subrange(pos, h.0 as int), base)] } else { seq![] })
            + seq![(text.subrange(h.0 as int, h.1 as int), styled_on(h.2 as int, base))]
    }
}

/// The highlighted spans of `text`: the whole text in the base style when
/// no rule matches; else the kept matches with the plain text between
/// them and after the last.
pub open spec fn highlight_spec(text: Seq<char>, base: FieldStyle) -> Seq<(Seq<char>, FieldStyle)> {
    let hits = hits_upto(text, RULE_COUNT as nat);
    if hits.len() == 0 {
        seq![(text, base)]
    } else {
        let kept = chosen(hits, 0, None, hits.len());
        let pos = resume(kept);
        kept_spans(text, base, kept) + (if pos < text.len() { seq![(text.subrange(pos, text.len() as int), base)] } else { seq![] })
    }
}

pub open spec fn field_spans(v: Seq<FieldSpan>) -> Seq<(Seq<char>, FieldStyle)> {
    v.map_values(|s: FieldSpan| (s.text@, s.style))
}

/// The texts of some spans, joined.
pub open spec fn spans_text(v: Seq<(Seq<char>, FieldStyle)>) -> Seq<char>
    decreases v.len(),
{
    if v.len() == 0 { seq![] } else { spans_text(v.drop_last()) + v.last().0 }
}

/// Joining the texts of spans with one more span appends its text.
pub proof fn lemma_spans_text_push(v: Seq<(Seq<char>, FieldStyle)>, x: (Seq<char>, FieldStyle))
    ensures
        spans_text(v.push(x)) == spans_text(v) + x.0,
{
    assert(v.push(x).drop_last() =~= v);
}

/// Chars before a byte offset never outnumber the text, and grow with it.
pub(crate) proof fn lemma_chars_before_bounds(v: Seq<char>, a: nat, b: nat)
    requires
        a <= b,
    ensures
        chars_before(v, a) <= chars_before(v, b),
        chars_before(v, b) <= v.len(),
    decreases v.len(),
{
    if v.len() > 0 && a > 0 && utf8_len(v[0]) <= a {
        lemma_chars_before_bounds(v.drop_first(), (a - utf8_len(v[0])) as nat, (b - utf8_len(v[0])) as nat);
    } else if v.len() > 0 && b > 0 && utf8_len(v[0]) <= b {
        lemma_chars_before_bounds(v.drop_first(), 0, (b - utf8_len(v[0])) as nat);
    }
}

/// Chars before a byte offset never outnumber the text, and grow with it.
pub proof fn lemma_chars_before_le(v: Seq<char>, a: nat, b: nat)
    requires
        a <= b,
    ensures
        chars_before(v, a) <= chars_before(v, b),
        chars_before(v, b) <= v.len(),
{
    lemma_chars_before_bounds(v, a, b);
}

/// The char position of byte offset `byte`.
pub(crate) fn char_pos(v: &Vec<char>, byte: usize) -> (k: usize)
    ensures
        k == chars_before(v@, byte as nat),
{
    let mut i: usize = 0;
    let mut rem = byte;
    assert(v@.skip(0) =~= v@);
    while i < v.len() && rem > 0 && crate::text::strings::char_utf8_len(v[i]) <= rem
        invariant
            i <= v@.len(),
            chars_before(v@, byte as nat) == i + chars_before(v@.skip(i as int), rem as nat),
        decreases v@.len() - i,
    {
        let n = crate::text::strings::char_utf8_len(v[i]);
        assert(v@.skip(i as int).drop_first() =~= v@.skip(i + 1));
        rem = rem - n;
        i = i + 1;
    }
    proof {
        if i == v@.len() {
            assert(v@.skip(i as int).len() == 0);
        } else {
            assert(v@.skip(i as int)[0] == v@[i as int]);
        }
    }
    i
}

/// The matches of every rule, rule by rule, as char positions.
fn collect_hits(text: &str, chars: &Vec<char>) -> (hits: Vec<Hit>)
    requires
        chars@ == text@,
    ensures
        hits@ == hits_upto(text@, RULE_COUNT as nat),
        forall|i: int| 0 <= i < hits@.len() ==> (#[trigger] hits@[i]).0 <= hits@[i].1 <= text@.len(),
{
    let mut hits: Vec<Hit> = Vec::new();
    let mut r: usize = 0;
    while r < RULE_COUNT
        invariant
            r <= RULE_COUNT,
            chars@ == text@,
            hits@ == hits_upto(text@, r as nat),
            forall|i: int| 0 <= i < hits@.len() ==> (#[trigger] hits@[i]).0 <= hits@[i].1 <= text@.len(),
        decreases RULE_COUNT - r,
    {
        let ghost before = hits@;
        match regex_find(pattern_of(r), text) {
            Some(v) => {
                let mut j: usize = 0;
                while j < v.len()
                    invariant
                        j <= v@.len(),
                        chars@ == text@,
                        regex_find_all(rule_pattern(r as int), text@) == Some(v@),
                        ranges_ok(text@, v@),
                        hits@ == before + rule_hits(text@, r as int).take(j as int),
                        forall|i: int| 0 <= i < hits@.len() ==> (#[trigger] hits@[i]).0 <= hits@[i].1 <= text@.len(),
                    decreases v@.len() - j,
                {
                    let (s, e) = v[j];
                    proof {
                        assert(v@[j as int].0 <= v@[j as int].1);
                        lemma_chars_before_bounds(text@, s as nat, e as nat);
                    }
                    let cs = char_pos(chars, s);
                    let ce = char_pos(chars, e);
                    hits.push((cs, ce, r, j));
                    assert(rule_hits(text@, r as int).take(j + 1) =~= rule_hits(text@, r as int).take(j as int).push((cs, ce, r, j)));
                    j = j + 1;
                }
                assert(rule_hits(text@, r as int).take(v@.len() as int) =~= rule_hits(text@, r as int));
            },
            None => {
                assert(rule_hits(text@, r as int) =~= Seq::<Hit>::empty());
            },
        }
        assert(hits_upto(text@, (r + 1) as nat) == hits_upto(text@, r as nat) + rule_hits(text@, r as int));
        r = r + 1;
    }
    hits
}

fn before(a: Hit, b: Hit) -> (r: bool)
    ensures
        r == hit_before(a, b),
{
    a.0 < b.0 || (a.0 == b.0 && a.1 < b.1) || (a.0 == b.0 && a.1 == b.1 && a.2 < b.2)
        || (a.0 == b.0 && a.1 == b.1 && a.2 == b.2 && a.3 < b.3)
}

/// The earliest eligible match, when there is one.
fn first_eligible_hit(hits: &Vec<Hit>, bound: usize, after: Option<Hit>) -> (r: Option<Hit>)
    ensures
        match r {
            Some(m) => first_eligible(hits@, bound as int, after, m),
            None => !exists|m: Hit| eligible(hits@, bound as int, after, m),
        },
{
    let mut best: Option<Hit> = None;
    let mut i: usize = 0;
    while i < hits.len()
        invariant
            i <= hits@.len(),
            match best {
                Some(b) => eligible(hits@, bound as int, after, b)
                    && forall|j: int| 0 <= j < i && eligible(hits@, bound as int, after, #[trigger] hits@[j])
                        ==> !hit_before(hits@[j], b),
                None => forall|j: int| 0 <= j < i ==> !eligible(hits@, bound as int, after, #[trigger] hits@[j]),
            },
        decreases hits@.len() - i,
    {
        let m = hits[i];
        let ok = m.0 >= bound && match after {
            Some(a) => before(a, m),
            None => true,
        };
        if ok {
            assert(hits@.contains(m)) by { assert(hits@[i as int] == m); }
            match best {
                Some(b) => {
                    if before(m, b) {
                        best = Some(m);
                    }
                },
                None => {
                    best = Some(m);
                },
            }
        }
        i = i + 1;
    }
    match best {
        Some(b) => {
            assert forall|x: Hit| eligible(hits@, bound as int, after, x) implies !hit_before(x, b) by {
                let j = choose|j: int| 0 <= j < hits@.len() && hits@[j] == x;
                assert(eligible(hits@, bound as int, after, hits@[j]));
            }
        },
        None => {
            assert forall|x: Hit| !eligible(hits@, bound as int, after, x) by {
                if hits@.contains(x) {
                    let j = choose|j: int| 0 <= j < hits@.len() && hits@[j] == x;
                    assert(!eligible(hits@, bound as int, after, hits@[j]));
                }
            }
        },
    }
    best
}

/// Only one match is the earliest eligible.
proof fn lemma_first_eligible_unique(hits: Seq<Hit>, bound: int, after: Option<Hit>, a: Hit, b: Hit)
    requires
        first_eligible(hits, bound, after, a),
        first_eligible(hits, bound, after, b),
    ensures
        a == b,
{
    assert(!hit_before(a, b));
    assert(!hit_before(b, a));
}

/// Append a span.
fn put(spans: &mut Vec<FieldSpan>, text: String, style: FieldStyle)
    ensures
        field_spans(final(spans)@) == field_spans(old(spans)@).push((text@, style)),
{
    let ghost t = text@;
    spans.push(FieldSpan { text, style });
    assert(field_spans(spans@) =~= field_spans(old(spans)@).push((t, style)));
}

/// Highlight `text`: split it into spans, the matches of the highlight
/// rules in their styles (on the base background, when it has one) and the
/// rest in `base_style`. The spans' texts, joined, give back the text.
pub fn auto_highlight(text: &str, base_style: FieldStyle) -> (r: Vec<FieldSpan>)
    ensures
        field_spans(r@) == highlight_spec(text@, base_style),
        spans_text(field_spans(r@)) == text@,
{
    let chars = to_chars(text);
    let hits = collect_hits(text, &chars);
    let mut spans: Vec<FieldSpan> = Vec::new();
    if hits.len() == 0 {
        put(&mut spans, owned(text), base_style);
        assert(field_spans(spans@) =~= highlight_spec(text@, base_style));
        proof {
            lemma_spans_text_push(Seq::empty(), (text@, base_style));
            assert(field_spans(spans@) =~= Seq::<(Seq<char>, FieldStyle)>::empty().push((text@, base_style)));
            assert(Seq::<char>::empty() + text@ =~= text@);
        }
        return spans;
    }
    let n = hits.len();
    let ghost all = chosen(hits@, 0, None, n as nat);
    let ghost mut kept: Seq<Hit> = seq![];
    let mut bound: usize = 0;
    let mut after: Option<Hit> = None;
    let mut count: usize = 0;
    loop
        invariant
            n == hits@.len(),
            chars@ == text@,
            count <= n,
            forall|i: int| 0 <= i < hits@.len() ==> (#[trigger] hits@[i]).0 <= hits@[i].1 <= text@.len(),
            all == chosen(hits@, 0, None, n as nat),
            kept + chosen(hits@, bound as int, after, (n - count) as nat) == all,
            bound as int == resume(kept),
            kept.len() == 0 ==> after is None,
            kept.len() > 0 ==> after == Some(kept.last()),
            bound <= text@.len(),
            field_spans(spans@) == kept_spans(text@, base_style, kept),
            spans_text(field_spans(spans@)) == text@.subrange(0, bound as int),
        ensures
            kept == all,
            bound as int == resume(kept),
            bound <= text@.len(),
            field_spans(spans@) == kept_spans(text@, base_style, kept),
            spans_text(field_spans(spans@)) == text@.subrange(0, bound as int),
        decreases n - count,
    {
        if count >= n {
            assert(chosen(hits@, bound as int, after, 0) =~= Seq::<Hit>::empty());
            assert(kept =~= all);
            break;
        }
        match first_eligible_hit(&hits, bound, after) {
            Some(m) => {
                proof {
                    let c = choose|x: Hit| first_eligible(hits@, bound as int, after, x);
                    lemma_first_eligible_unique(hits@, bound as int, after, m, c);
                    let j = choose|j: int| 0 <= j < hits@.len() && hits@[j] == m;
                    assert(hits@[j].0 <= hits@[j].1 <= text@.len());
                    assert(chosen(hits@, bound as int, after, (n - count) as nat)
                        == seq![m] + chosen(hits@, m.1 as int, Some(m), (n - count - 1) as nat));
                }
                let ghost prev_kept = kept;
                if m.0 > bound {
                    let ghost s0 = field_spans(spans@);
                    let gap = from_chars(chars.as_slice(), bound, m.0);
                    let ghost gv = gap@;
                    put(&mut spans, gap, base_style);
                    proof {
                        lemma_spans_text_push(s0, (gv, base_style));
                        assert(text@.subrange(0, bound as int) + gv =~= text@.subrange(0, m.0 as int));
                    }
                }
                let ghost s1 = field_spans(spans@);
                let piece = from_chars(chars.as_slice(), m.0, m.1);
                let ghost pv = piece@;
                let st = style_on(m.2, base_style);
                put(&mut spans, piece, st);
                proof {
                    lemma_spans_text_push(s1, (pv, st));
                    assert(spans_text(s1) == text@.subrange(0, m.0 as int));
                    assert(text@.subrange(0, m.0 as int) + pv =~= text@.subrange(0, m.1 as int));
                }
                proof {
                    kept = kept.push(m);
                    assert(kept.drop_last() =~= prev_kept);
                    assert(kept + chosen(hits@, m.1 as int, Some(m), (n - count - 1) as nat) =~= all);
                }
                bound = m.1;
                after = Some(m);
                count = count + 1;
            },
            None => {
                assert(!exists|x: Hit| first_eligible(hits@, bound as int, after, x));
                assert(chosen(hits@, bound as int, after, (n - count) as nat) =~= Seq::<Hit>::empty());
                assert(kept =~= all);
                break;
            },
        }
    }
    if bound < chars.len() {
        let ghost s0 = field_spans(spans@);
        let rest = from_chars(chars.as_slice(), bound, chars.len());
        let ghost rv = rest@;
        put(&mut spans, rest, base_style);
        proof {
            lemma_spans_text_push(s0, (rv, base_style));
            assert(text@.subrange(0, bound as int) + rv =~= text@);
        }
    } else {
        assert(text@.subrange(0, bound as int) =~= text@);
    }
    assert(field_spans(spans@) =~= highlight_spec(text@, base_style));
    spans
}

} // verus!
