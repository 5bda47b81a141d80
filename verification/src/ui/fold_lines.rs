//! Rows of the folding JSON viewer: collapsed markers, fold arrows and
//! depth-toned lines over the formatted lines and their fold state, each
//! wrapped when too wide, with the source line of every row.

use vstd::prelude::*;
use crate::text::strings::{
    char_utf8_len, decimal, decimal_string, from_chars, is_alphanumeric, lead_ws, push_char, push_str, repeat_char,
    run, same_text, to_chars, trim, trim_spec, trim_start, trim_start_spec, unicode_alphanumeric,
};
use crate::text::width::{measurable, str_width, unicode_str_width};
use crate::text::wrap::{spaces, wrap_spec, wrap_text};
use crate::ui::fold_view::{fold_ready, fold_rows, fold_rows_from, FmtLine, FoldRow, FoldRowKind, JsonViewerState};
use crate::ui::highlight::{byte_len, char_pos, regex_find, regex_find_all};
use crate::ui::input_field::chars_before;

verus! {

/// How a piece of a row is coloured.
#[derive(Debug, Clone, Copy, PartialEq, Eq, Structural)]
pub enum FoldTone {
    /// Uncoloured: indentation.
    Plain,
    /// A fold arrow, `▶` or `▼`.
    Arrow,
    /// The `{...}` or `[...]` of a collapsed block.
    Folded,
    /// A collapsed block's child count.
    Count,
    /// An object key, by the depth's colour index (depth modulo 6).
    Key(usize),
    /// A bracket, by the depth's colour index.
    Brace(usize),
    /// `: ` and `,`.
    Punct,
    Str,
    Null,
    Bool,
    /// A bare value: a number when it reads as a floating-point number,
    /// else text.
    Bare,
    /// A wrapped continuation line.
    Wrapped,
}

/// A run of text in one tone.
pub struct FoldPiece {
    pub text: String,
    pub tone: FoldTone,
}

pub type PieceV = (Seq<char>, FoldTone);

pub open spec fn pieces_view(v: Seq<FoldPiece>) -> Seq<PieceV> {
    v.map_values(|p: FoldPiece| (p.text@, p.tone))
}

pub open spec fn rows_view(v: Seq<Vec<FoldPiece>>) -> Seq<Seq<PieceV>> {
    v.map_values(|r: Vec<FoldPiece>| pieces_view(r@))
}

/// `t` without its trailing commas.
pub open spec fn strip_commas(t: Seq<char>) -> Seq<char>
    decreases t.len(),
{
    if t.len() > 0 && t.last() == ',' { strip_commas(t.drop_last()) } else { t }
}

/// The tone of a trimmed value: a quoted string, `null`, a boolean, an
/// opening bracket, or a bare value.
pub open spec fn value_tone(v: Seq<char>) -> FoldTone {
    if v.len() > 0 && v[0] == '"' && v.last() == '"' {
        FoldTone::Str
    } else if v == seq!['n', 'u', 'l', 'l'] {
        FoldTone::Null
    } else if v == seq!['t', 'r', 'u', 'e'] || v == seq!['f', 'a', 'l', 's', 'e'] {
        FoldTone::Bool
    } else if v.len() > 0 && (v[0] == '{' || v[0] == '[') {
        FoldTone::Brace(0)
    } else {
        FoldTone::Bare
    }
}

/// A value: trimmed, without its trailing commas, then one `,` when it had
/// any.
pub open spec fn value_spec(text: Seq<char>) -> Seq<PieceV> {
    let bare = strip_commas(text);
    let v = trim_spec(bare);
    seq![(v, value_tone(v))] + if bare.len() < text.len() { seq![(seq![','], FoldTone::Punct)] } else { seq![] }
}

/// A line that is only a bracket, with or without a comma.
pub open spec fn brace_line(t: Seq<char>) -> bool {
    t == seq!['{'] || t == seq!['}'] || t == seq!['}', ','] || t == seq!['['] || t == seq![']'] || t == seq![']', ',']
}

/// A quoted key at the start of a line, then `:`.
pub open spec fn key_pattern() -> Seq<char> {
    "^\"([^\"]+)\"\\s*:\\s*"@
}

/// The first `"` in `t` at or after `i`, else the end.
pub open spec fn quote_from(t: Seq<char>, i: int) -> int
    decreases t.len() - i,
{
    if i < 0 || i >= t.len() { t.len() as int } else if t[i] == '"' { i } else { quote_from(t, i + 1) }
}

/// The key that [`key_pattern`]'s group captures where it matches: the
/// text between the opening quote and the next one.
pub open spec fn key_of(t: Seq<char>) -> Seq<char> {
    if t.len() == 0 { seq![] } else { t.subrange(1, quote_from(t, 1)) }
}

/// The first `: ` in `t` at or after `i`.
pub open spec fn colon_from(t: Seq<char>, i: int) -> Option<int>
    decreases t.len() - i,
{
    if i < 0 || i + 1 >= t.len() {
        None
    } else if t[i] == ':' && t[i + 1] == ' ' {
        Some(i)
    } else {
        colon_from(t, i + 1)
    }
}

/// A char of an unquoted key: alphanumeric, `_` or `"`.
pub open spec fn key_char(c: char) -> bool {
    unicode_alphanumeric(c) || c == '_' || c == '"'
}

pub open spec fn plain_key(k: Seq<char>) -> bool {
    forall|i: int| 0 <= i < k.len() ==> key_char(#[trigger] k[i])
}

/// The colour index of a depth.
pub open spec fn tone_index(depth: nat) -> usize {
    (depth % 6) as usize
}

/// A line's content, its indentation gone: a lone bracket; a quoted key
/// (as [`key_pattern`] finds it), `: ` and the value; an unquoted key
/// before the first `: `, `: ` and the value; or a value.
pub open spec fn content_spec(t: Seq<char>, depth: nat) -> Seq<PieceV> {
    let m = regex_find_all(key_pattern(), t);
    let colon = seq![(seq![':', ' '], FoldTone::Punct)];
    if brace_line(t) {
        seq![(t, FoldTone::Brace(tone_index(depth)))]
    } else if m is Some && m->0.len() > 0 {
        seq![(seq!['"'] + key_of(t) + seq!['"'], FoldTone::Key(tone_index(depth)))] + colon
            + value_spec(t.skip(chars_before(t, m->0[0].1 as nat) as int))
    } else if colon_from(t, 0) is Some && plain_key(t.take(colon_from(t, 0)->0)) {
        let cp = colon_from(t, 0)->0;
        seq![(t.take(cp), FoldTone::Key(tone_index(depth)))] + colon + value_spec(t.skip(cp + 2))
    } else {
        value_spec(t)
    }
}

/// Bytes of a line's leading whitespace (capped at the largest `usize`,
/// which no line in memory reaches).
pub open spec fn indent_bytes(line: Seq<char>) -> nat {
    let b = byte_len(line.take(lead_ws(line) as int));
    if b <= usize::MAX { b } else { usize::MAX as nat }
}

/// A line: as many blanks as its indentation has bytes, then its content.
pub open spec fn line_spec(line: Seq<char>, depth: nat) -> Seq<PieceV> {
    let n = indent_bytes(line);
    (if n > 0 { seq![(spaces(n), FoldTone::Plain)] } else { seq![] }) + content_spec(trim_start_spec(line), depth)
}

/// A collapsed block: indentation, `▶`, `{...}` or `[...]`, and the
/// number of its children.
pub open spec fn collapsed_pieces(depth: nat, square: bool, children: nat) -> Seq<PieceV> {
    seq![
        (spaces(2 * depth) + seq![' '], FoldTone::Plain),
        (seq!['\u{25b6}', ' '], FoldTone::Arrow),
        (if square { seq!['[', '.', '.', '.', ']'] } else { seq!['{', '.', '.', '.', '}'] }, FoldTone::Folded),
        (seq![' ', '('] + decimal(children) + seq![')'], FoldTone::Count),
    ]
}

/// The text of some pieces, joined.
pub open spec fn pieces_text(p: Seq<PieceV>) -> Seq<char>
    decreases p.len(),
{
    if p.len() == 0 { seq![] } else { pieces_text(p.drop_last()) + p.last().0 }
}

/// A shown source line: an open block's line after its indentation and
/// `▼`, or any other line.
pub open spec fn source_line(text: Seq<char>, depth: nat, foldable: bool) -> Seq<PieceV> {
    if foldable {
        seq![(spaces(2 * depth), FoldTone::Plain), (seq!['\u{25bc}', ' '], FoldTone::Arrow)]
            + content_spec(trim_start_spec(text), depth)
    } else {
        line_spec(text, depth)
    }
}

/// The rows of a shown line: itself; or, when `max_width` is set and its
/// text is wider, that text wrapped into at most 30 lines, the first
/// coloured again as a line and the others indented one level deeper.
/// (A text of more than a third of the largest `usize` in chars, which no
/// memory holds, is left unwrapped.)
pub open spec fn wrapped_rows(line: Seq<PieceV>, depth: nat, max_width: nat) -> Seq<Seq<PieceV>> {
    let raw = pieces_text(line);
    if max_width > 0 && measurable(raw) && unicode_str_width(raw) > max_width {
        let w = wrap_spec(raw, max_width, 30);
        Seq::new(w.len(), |i: int| if i == 0 { line_spec(w[0], depth) } else {
            seq![(spaces(2 * (depth + 1)) + w[i], FoldTone::Wrapped)] })
    } else {
        seq![line]
    }
}

/// The rows of one visible fold row.
pub open spec fn row_rows(lines: Seq<FmtLine>, row: FoldRow, max_width: nat) -> Seq<Seq<PieceV>> {
    match row.kind {
        FoldRowKind::Collapsed { square, children } => seq![collapsed_pieces(row.depth as nat, square, children as nat)],
        FoldRowKind::Foldable => wrapped_rows(source_line(lines[row.source as int].text@, row.depth as nat, true),
            row.depth as nat, max_width),
        FoldRowKind::Plain => wrapped_rows(source_line(lines[row.source as int].text@, row.depth as nat, false),
            row.depth as nat, max_width),
    }
}

/// The rows of the fold rows `frs[di..]`, with `acc` rows and their
/// source lines `map` so far: fold rows before `scroll` are skipped, and
/// rows stop at `max_lines`.
pub open spec fn json_rows_from(lines: Seq<FmtLine>, frs: Seq<FoldRow>, di: int, scroll: nat, max_lines: nat,
    max_width: nat, acc: Seq<Seq<PieceV>>, map: Seq<usize>) -> (Seq<Seq<PieceV>>, Seq<usize>)
    decreases frs.len() - di,
{
    if di < 0 || di >= frs.len() {
        (acc, map)
    } else if di < scroll || acc.len() >= max_lines {
        json_rows_from(lines, frs, di + 1, scroll, max_lines, max_width, acc, map)
    } else {
        let rs = row_rows(lines, frs[di], max_width);
        let n: nat = if rs.len() <= max_lines - acc.len() { rs.len() } else { (max_lines - acc.len()) as nat };
        json_rows_from(lines, frs, di + 1, scroll, max_lines, max_width, acc + rs.take(n as int),
            map + Seq::new(n, |_i: int| frs[di].source))
    }
}

/// What the rows need of the lines: indentation one level deeper than any
/// line's depth fits in a `usize`.
pub open spec fn depths_ok(lines: Seq<FmtLine>) -> bool {
    forall|i: int| 0 <= i < lines.len() ==> 2 * (#[trigger] lines[i]).depth + 2 <= usize::MAX
}

fn piece(out: &mut Vec<FoldPiece>, text: String, tone: FoldTone)
    ensures
        pieces_view(final(out)@) == pieces_view(old(out)@).push((text@, tone)),
{
    let ghost t = text@;
    out.push(FoldPiece { text, tone });
    assert(pieces_view(out@) =~= pieces_view(old(out)@).push((t, tone)));
}

/// Where the trailing commas of `v` start.
fn bare_end(v: &Vec<char>) -> (k: usize)
    ensures
        k <= v@.len(),
        strip_commas(v@) == v@.take(k as int),
{
    let mut k = v.len();
    assert(v@.take(k as int) =~= v@);
    while k > 0 && v[k - 1] == ','
        invariant
            k <= v@.len(),
            strip_commas(v@) == strip_commas(v@.take(k as int)),
        decreases k,
    {
        assert(v@.take(k as int).drop_last() =~= v@.take(k as int - 1));
        k = k - 1;
    }
    k
}

/// The tone of a trimmed value (see [`value_tone`]).
fn tone_of(v: &str) -> (t: FoldTone)
    ensures
        t == value_tone(v@),
{
    proof {
        reveal_strlit("null");
        reveal_strlit("true");
        reveal_strlit("false");
    }
    let c = to_chars(v);
    let n = c.len();
    if n > 0 && c[0] == '"' && c[n - 1] == '"' {
        FoldTone::Str
    } else if same_text(v, "null") {
        assert("null"@ =~= seq!['n', 'u', 'l', 'l']);
        FoldTone::Null
    } else if same_text(v, "true") || same_text(v, "false") {
        assert("true"@ =~= seq!['t', 'r', 'u', 'e']);
        assert("false"@ =~= seq!['f', 'a', 'l', 's', 'e']);
        FoldTone::Bool
    } else {
        assert("null"@ =~= seq!['n', 'u', 'l', 'l']);
        assert("true"@ =~= seq!['t', 'r', 'u', 'e']);
        assert("false"@ =~= seq!['f', 'a', 'l', 's', 'e']);
        if n > 0 && (c[0] == '{' || c[0] == '[') { FoldTone::Brace(0) } else { FoldTone::Bare }
    }
}

/// A value's pieces (see [`value_spec`]).
fn value_of(out: &mut Vec<FoldPiece>, text: &str)
    ensures
        pieces_view(final(out)@) == pieces_view(old(out)@) + value_spec(text@),
{
    let c = to_chars(text);
    let k = bare_end(&c);
    let bare = from_chars(c.as_slice(), 0, k);
    assert(bare@ =~= strip_commas(text@));
    let v = trim(bare.as_str());
    let tone = tone_of(v.as_str());
    let ghost start = pieces_view(out@);
    piece(out, v, tone);
    if k < c.len() {
        piece(out, repeat_char(',', 1), FoldTone::Punct);
        assert(run(',', 1) =~= seq![',']);
    }
    assert(pieces_view(out@) =~= start + value_spec(text@));
}

/// Whether a line is a lone bracket (see [`brace_line`]).
fn is_brace_line(c: &Vec<char>) -> (r: bool)
    ensures
        r == brace_line(c@),
{
    let n = c.len();
    let r = if n == 1 {
        c[0] == '{' || c[0] == '}' || c[0] == '[' || c[0] == ']'
    } else if n == 2 {
        (c[0] == '}' || c[0] == ']') && c[1] == ','
    } else {
        false
    };
    proof {
        if r && n == 1 {
            if c@[0] == '{' { assert(c@ =~= seq!['{']); }
            else if c@[0] == '}' { assert(c@ =~= seq!['}']); }
            else if c@[0] == '[' { assert(c@ =~= seq!['[']); }
            else { assert(c@ =~= seq![']']); }
        }
        if r && n == 2 {
            if c@[0] == '}' { assert(c@ =~= seq!['}', ',']); } else { assert(c@ =~= seq![']', ',']); }
        }
        if brace_line(c@) {
            assert(c@.len() == 1 || c@.len() == 2);
        }
    }
    r
}

/// The first `"` at or after `i` (see [`quote_from`]).
fn quote_index(c: &Vec<char>, i: usize) -> (q: usize)
    requires
        i <= c@.len(),
    ensures
        q as int == quote_from(c@, i as int),
        i <= q <= c@.len(),
{
    let mut k = i;
    while k < c.len() && c[k] != '"'
        invariant
            i <= k <= c@.len(),
            quote_from(c@, i as int) == quote_from(c@, k as int),
        decreases c@.len() - k,
    {
        k = k + 1;
    }
    k
}

/// The first `: ` (see [`colon_from`]).
fn colon_index(c: &Vec<char>) -> (r: Option<usize>)
    ensures
        match r { Some(k) => colon_from(c@, 0) == Some(k as int) && k + 2 <= c@.len(), None => colon_from(c@, 0) is None },
{
    let mut k: usize = 0;
    while c.len() > 0 && k < c.len() - 1
        invariant
            k <= c@.len(),
            colon_from(c@, 0) == colon_from(c@, k as int),
        decreases c@.len() - k,
    {
        if c[k] == ':' && c[k + 1] == ' ' {
            return Some(k);
        }
        k = k + 1;
    }
    None
}

/// Whether `c[..n]` is an unquoted key (see [`plain_key`]).
fn is_plain_key(c: &Vec<char>, n: usize) -> (r: bool)
    requires
        n <= c@.len(),
    ensures
        r == plain_key(c@.take(n as int)),
{
    let mut k: usize = 0;
    while k < n
        invariant
            k <= n <= c@.len(),
            forall|i: int| 0 <= i < k ==> key_char(#[trigger] c@.take(n as int)[i]),
        decreases n - k,
    {
        let ch = c[k];
        if !(is_alphanumeric(ch) || ch == '_' || ch == '"') {
            assert(!key_char(c@.take(n as int)[k as int]));
            return false;
        }
        k = k + 1;
    }
    true
}

/// The pieces of a line's content (see [`content_spec`]).
fn content_of(out: &mut Vec<FoldPiece>, t: &str, depth: usize)
    ensures
        pieces_view(final(out)@) == pieces_view(old(out)@) + content_spec(t@, depth as nat),
{
    let ghost start = pieces_view(out@);
    let c = to_chars(t);
    let ti = depth % 6;
    let ghost colon = seq![(seq![':', ' '], FoldTone::Punct)];
    if is_brace_line(&c) {
        piece(out, from_chars(c.as_slice(), 0, c.len()), FoldTone::Brace(ti));
        assert(c@.subrange(0, c@.len() as int) =~= t@);
        assert(pieces_view(out@) =~= start + content_spec(t@, depth as nat));
        return;
    }
    let m = regex_find("^\"([^\"]+)\"\\s*:\\s*", t);
    let found = match &m { Some(v) => v.len() > 0, None => false };
    if found {
        let v = m.unwrap();
        let (_, e) = v[0];
        proof {
            assert(v@[0].0 <= v@[0].1);
            crate::ui::highlight::lemma_chars_before_bounds(t@, 0, e as nat);
        }
        let mut key = repeat_char('"', 1);
        if c.len() > 0 {
            let q = quote_index(&c, 1);
            push_str(&mut key, from_chars(c.as_slice(), 1, q).as_str());
        }
        push_char(&mut key, '"');
        assert(key@ =~= seq!['"'] + key_of(t@) + seq!['"']);
        piece(out, key, FoldTone::Key(ti));
        let mut sep = repeat_char(':', 1);
        push_char(&mut sep, ' ');
        assert(sep@ =~= seq![':', ' ']);
        piece(out, sep, FoldTone::Punct);
        let end = char_pos(&c, e);
        let after = from_chars(c.as_slice(), end, c.len());
        assert(after@ =~= t@.skip(chars_before(t@, e as nat) as int));
        value_of(out, after.as_str());
        assert(pieces_view(out@) =~= start + content_spec(t@, depth as nat));
        return;
    }
    let ci = colon_index(&c);
    match ci {
        Some(cp) => {
            let n = c.len();
            assert(cp + 2 <= n);
            if is_plain_key(&c, cp) {
                piece(out, from_chars(c.as_slice(), 0, cp), FoldTone::Key(ti));
                assert(c@.subrange(0, cp as int) =~= t@.take(cp as int));
                let mut sep = repeat_char(':', 1);
                push_char(&mut sep, ' ');
                assert(sep@ =~= seq![':', ' ']);
                piece(out, sep, FoldTone::Punct);
                let after = from_chars(c.as_slice(), cp + 2, c.len());
                assert(after@ =~= t@.skip(cp + 2));
                value_of(out, after.as_str());
                assert(pieces_view(out@) =~= start + content_spec(t@, depth as nat));
                return;
            }
        },
        None => {},
    }
    value_of(out, t);
}

/// Bytes of a line's leading whitespace (see [`indent_bytes`]).
fn indent_of(c: &Vec<char>) -> (n: usize)
    ensures
        n == indent_bytes(c@),
{
    let k = crate::text::strings::skip_ws_forward(c.as_slice(), 0);
    assert(c@.skip(0) =~= c@);
    let mut b: usize = 0;
    let mut i: usize = 0;
    while i < k
        invariant
            i <= k <= c@.len(),
            k == lead_ws(c@),
            b as nat == if byte_len(c@.take(i as int)) <= usize::MAX { byte_len(c@.take(i as int)) }
                else { usize::MAX as nat },
        decreases k - i,
    {
        assert(c@.take(i as int + 1).drop_last() =~= c@.take(i as int));
        b = b.saturating_add(char_utf8_len(c[i]));
        i = i + 1;
    }
    b
}

/// The pieces of a line (see [`line_spec`]).
fn line_of(out: &mut Vec<FoldPiece>, line: &str, depth: usize)
    ensures
        pieces_view(final(out)@) == pieces_view(old(out)@) + line_spec(line@, depth as nat),
{
    let ghost start = pieces_view(out@);
    let c = to_chars(line);
    let n = indent_of(&c);
    if n > 0 {
        piece(out, repeat_char(' ', n), FoldTone::Plain);
        assert(run(' ', n as nat) =~= spaces(n as nat));
    }
    let ghost mid = pieces_view(out@);
    let t = trim_start(line);
    content_of(out, t.as_str(), depth);
    assert(pieces_view(out@) =~= start + line_spec(line@, depth as nat));
}

/// A collapsed block's pieces (see [`collapsed_pieces`]).
fn collapsed_of(depth: usize, square: bool, children: usize) -> (r: Vec<FoldPiece>)
    requires
        2 * depth + 2 <= usize::MAX,
    ensures
        pieces_view(r@) == collapsed_pieces(depth as nat, square, children as nat),
{
    let mut out: Vec<FoldPiece> = Vec::new();
    let mut ind = repeat_char(' ', 2 * depth);
    push_char(&mut ind, ' ');
    assert(ind@ =~= spaces(2 * depth as nat) + seq![' ']);
    piece(&mut out, ind, FoldTone::Plain);
    let mut arrow = repeat_char('\u{25b6}', 1);
    push_char(&mut arrow, ' ');
    assert(arrow@ =~= seq!['\u{25b6}', ' ']);
    piece(&mut out, arrow, FoldTone::Arrow);
    let (open, close) = if square { ('[', ']') } else { ('{', '}') };
    let mut folded = repeat_char(open, 1);
    push_str(&mut folded, repeat_char('.', 3).as_str());
    push_char(&mut folded, close);
    assert(folded@ =~= if square { seq!['[', '.', '.', '.', ']'] } else { seq!['{', '.', '.', '.', '}'] });
    piece(&mut out, folded, FoldTone::Folded);
    let mut count = repeat_char(' ', 1);
    push_char(&mut count, '(');
    push_str(&mut count, decimal_string(children).as_str());
    push_char(&mut count, ')');
    assert(count@ =~= seq![' ', '('] + decimal(children as nat) + seq![')']);
    piece(&mut out, count, FoldTone::Count);
    assert(pieces_view(out@) =~= collapsed_pieces(depth as nat, square, children as nat));
    out
}

/// A shown source line's pieces (see [`source_line`]).
fn source_line_of(text: &str, depth: usize, foldable: bool) -> (r: Vec<FoldPiece>)
    requires
        2 * depth + 2 <= usize::MAX,
    ensures
        pieces_view(r@) == source_line(text@, depth as nat, foldable),
{
    let mut out: Vec<FoldPiece> = Vec::new();
    if foldable {
        piece(&mut out, repeat_char(' ', 2 * depth), FoldTone::Plain);
        assert(run(' ', 2 * depth as nat) =~= spaces(2 * depth as nat));
        let mut arrow = repeat_char('\u{25bc}', 1);
        push_char(&mut arrow, ' ');
        assert(arrow@ =~= seq!['\u{25bc}', ' ']);
        piece(&mut out, arrow, FoldTone::Arrow);
        let t = trim_start(text);
        content_of(&mut out, t.as_str(), depth);
    } else {
        line_of(&mut out, text, depth);
    }
    assert(pieces_view(out@) =~= source_line(text@, depth as nat, foldable));
    out
}

/// The text of some pieces, joined (see [`pieces_text`]).
fn pieces_text_of(p: &Vec<FoldPiece>) -> (s: String)
    ensures
        s@ == pieces_text(pieces_view(p@)),
{
    let mut s = repeat_char(' ', 0);
    assert(s@ =~= Seq::<char>::empty());
    let mut k: usize = 0;
    while k < p.len()
        invariant
            k <= p@.len(),
            s@ == pieces_text(pieces_view(p@).take(k as int)),
        decreases p@.len() - k,
    {
        assert(pieces_view(p@).take(k as int + 1).drop_last() =~= pieces_view(p@).take(k as int));
        push_str(&mut s, p[k].text.as_str());
        k = k + 1;
    }
    assert(pieces_view(p@).take(k as int) =~= pieces_view(p@));
    s
}

/// The rows of a shown line (see [`wrapped_rows`]).
fn wrapped_rows_of(line: Vec<FoldPiece>, depth: usize, max_width: usize) -> (r: Vec<Vec<FoldPiece>>)
    requires
        2 * depth + 2 <= usize::MAX,
    ensures
        rows_view(r@) == wrapped_rows(pieces_view(line@), depth as nat, max_width as nat),
{
    let raw = pieces_text_of(&line);
    let n = to_chars(raw.as_str()).len();
    if max_width > 0 && n <= usize::MAX / 3 && str_width(raw.as_str()) > max_width {
        let w = wrap_text(raw.as_str(), max_width, 30);
        let ghost ws = wrap_spec(raw@, max_width as nat, 30);
        assert(crate::text::strings::views(w@) == ws);
        let ghost f = |i: int| if i == 0 { line_spec(ws[0], depth as nat) } else {
            seq![(spaces(2 * (depth as nat + 1)) + ws[i], FoldTone::Wrapped)] };
        let mut out: Vec<Vec<FoldPiece>> = Vec::new();
        let mut i: usize = 0;
        while i < w.len()
            invariant
                i <= w@.len(),
                crate::text::strings::views(w@) == ws,
                2 * depth + 2 <= usize::MAX,
                f == (|i: int| if i == 0 { line_spec(ws[0], depth as nat) } else {
                    seq![(spaces(2 * (depth as nat + 1)) + ws[i], FoldTone::Wrapped)] }),
                rows_view(out@) == Seq::new(i as nat, f),
            decreases w@.len() - i,
        {
            assert(w@[i as int]@ == ws[i as int]);
            let mut row: Vec<FoldPiece> = Vec::new();
            if i == 0 {
                line_of(&mut row, w[0].as_str(), depth);
                assert(pieces_view(row@) =~= line_spec(ws[0], depth as nat));
            } else {
                let mut t = repeat_char(' ', 2 * (depth + 1));
                push_str(&mut t, w[i].as_str());
                assert(t@ =~= spaces(2 * (depth as nat + 1)) + ws[i as int]);
                piece(&mut row, t, FoldTone::Wrapped);
                assert(pieces_view(row@) =~= seq![(spaces(2 * (depth as nat + 1)) + ws[i as int], FoldTone::Wrapped)]);
            }
            let ghost rv = pieces_view(row@);
            assert(rv == f(i as int));
            let ghost before = rows_view(out@);
            out.push(row);
            assert(rows_view(out@) =~= before.push(rv));
            assert(rows_view(out@) =~= Seq::new(i as nat + 1, f));
            i = i + 1;
        }
        out
    } else {
        let ghost lv = pieces_view(line@);
        let mut out: Vec<Vec<FoldPiece>> = Vec::new();
        out.push(line);
        assert(rows_view(out@) =~= seq![lv]);
        out
    }
}

/// Every fold row names a line within the lines, at that line's depth.
proof fn lemma_fold_rows_sources(lines: Seq<FmtLine>, collapsed: Set<usize>, i: int)
    requires
        lines.len() <= usize::MAX,
    ensures
        forall|k: int| 0 <= k < fold_rows_from(lines, collapsed, i).len() ==> {
            let r = #[trigger] fold_rows_from(lines, collapsed, i)[k];
            &&& (r.source as int) < lines.len()
            &&& r.depth == lines[r.source as int].depth
        },
    decreases lines.len() - i,
{
    if 0 <= i < lines.len() {
        let f = lines[i];
        let rest_from = match f.close_line {
            Some(c) => if collapsed.contains(i as usize) {
                if c >= i { if c + 1 < lines.len() { c + 1 } else { lines.len() as int } } else { i + 1 }
            } else { i + 1 },
            None => i + 1,
        };
        lemma_fold_rows_sources(lines, collapsed, rest_from);
        let all = fold_rows_from(lines, collapsed, i);
        let rest = fold_rows_from(lines, collapsed, rest_from);
        assert(all == seq![all[0]] + rest);
        assert forall|k: int| 0 <= k < all.len() implies {
            let r = #[trigger] all[k];
            &&& (r.source as int) < lines.len()
            &&& r.depth == lines[r.source as int].depth
        } by {
            if k > 0 {
                assert(all[k] == rest[k - 1]);
            }
        }
    }
}

/// The rows of one fold row (see [`row_rows`]).
fn row_rows_of(lines: &[FmtLine], row: FoldRow, max_width: usize) -> (r: Vec<Vec<FoldPiece>>)
    requires
        (row.source as int) < lines@.len(),
        row.depth == lines@[row.source as int].depth,
        depths_ok(lines@),
    ensures
        rows_view(r@) == row_rows(lines@, row, max_width as nat),
{
    assert(2 * lines@[row.source as int].depth + 2 <= usize::MAX);
    match row.kind {
        FoldRowKind::Collapsed { square, children } => {
            let p = collapsed_of(row.depth, square, children);
            let ghost pv = pieces_view(p@);
            let mut out: Vec<Vec<FoldPiece>> = Vec::new();
            out.push(p);
            assert(rows_view(out@) =~= seq![pv]);
            out
        },
        FoldRowKind::Foldable => {
            let p = source_line_of(lines[row.source].text.as_str(), row.depth, true);
            wrapped_rows_of(p, row.depth, max_width)
        },
        FoldRowKind::Plain => {
            let p = source_line_of(lines[row.source].text.as_str(), row.depth, false);
            wrapped_rows_of(p, row.depth, max_width)
        },
    }
}

/// One step of [`json_rows_from`].
proof fn lemma_json_rows_step(lines: Seq<FmtLine>, frs: Seq<FoldRow>, di: int, scroll: nat, max_lines: nat,
    max_width: nat, acc: Seq<Seq<PieceV>>, map: Seq<usize>)
    requires
        0 <= di < frs.len(),
    ensures
        json_rows_from(lines, frs, di, scroll, max_lines, max_width, acc, map) == if di < scroll
            || acc.len() >= max_lines {
            json_rows_from(lines, frs, di + 1, scroll, max_lines, max_width, acc, map)
        } else {
            let rs = row_rows(lines, frs[di], max_width);
            let n: nat = if rs.len() <= max_lines - acc.len() { rs.len() } else { (max_lines - acc.len()) as nat };
            json_rows_from(lines, frs, di + 1, scroll, max_lines, max_width, acc + rs.take(n as int),
                map + Seq::new(n, |_i: int| frs[di].source))
        },
{
}

/// Render the folding JSON view: the visible fold rows of `fmt_lines`
/// under `state`'s folds, from the `scroll`-th on, as at most `max_lines`
/// rows of toned pieces; a line wider than `max_width` (when that is not
/// 0) is wrapped. Records in `state` the source line of every row.
pub fn render_json(fmt_lines: &[FmtLine], state: &mut JsonViewerState, scroll: usize, max_lines: usize,
    max_width: usize) -> (r: Vec<Vec<FoldPiece>>)
    requires
        fold_ready(fmt_lines@, old(state).collapsed@),
        depths_ok(fmt_lines@),
    ensures
        ({
            let frs = fold_rows_from(fmt_lines@, old(state).collapsed@, 0);
            let res = json_rows_from(fmt_lines@, frs, 0, scroll as nat, max_lines as nat, max_width as nat, seq![],
                seq![]);
            &&& rows_view(r@) == res.0
            &&& final(state).row_to_source@ == res.1
        }),
        r@.len() <= max_lines,
        r@.len() == final(state).row_to_source@.len(),
        final(state).collapsed@ == old(state).collapsed@,
        final(state).foldable@ == old(state).foldable@,
        final(state).total_lines == old(state).total_lines,
{
    let rows = fold_rows(fmt_lines, &*state);
    let ghost frs = rows@;
    let total = fmt_lines.len();
    proof { lemma_fold_rows_sources(fmt_lines@, state.collapsed@, 0); }
    let mut out: Vec<Vec<FoldPiece>> = Vec::new();
    let mut map: Vec<usize> = Vec::new();
    assert(rows_view(out@) =~= Seq::<Seq<PieceV>>::empty());
    assert(map@ =~= Seq::<usize>::empty());
    let mut di: usize = 0;
    while di < rows.len()
        invariant
            di <= rows@.len(),
            rows@ == frs,
            frs == fold_rows_from(fmt_lines@, state.collapsed@, 0),
            depths_ok(fmt_lines@),
            forall|k: int| 0 <= k < frs.len() ==> {
                let r = #[trigger] frs[k];
                &&& (r.source as int) < fmt_lines@.len()
                &&& r.depth == fmt_lines@[r.source as int].depth
            },
            out@.len() <= max_lines,
            out@.len() == map@.len(),
            json_rows_from(fmt_lines@, frs, di as int, scroll as nat, max_lines as nat, max_width as nat,
                rows_view(out@), map@) == json_rows_from(fmt_lines@, frs, 0, scroll as nat, max_lines as nat,
                max_width as nat, seq![], seq![]),
        decreases rows@.len() - di,
    {
        proof {
            lemma_json_rows_step(fmt_lines@, frs, di as int, scroll as nat, max_lines as nat, max_width as nat,
                rows_view(out@), map@);
        }
        if di < scroll || out.len() >= max_lines {
            di = di + 1;
        } else {
            let row = rows[di];
            assert(frs[di as int] == row);
            let mut rs = row_rows_of(fmt_lines, row, max_width);
            let ghost rsv = rows_view(rs@);
            let room = max_lines - out.len();
            let n = if rs.len() <= room { rs.len() } else { room };
            rs.truncate(n);
            let ghost acc0 = rows_view(out@);
            let ghost map0 = map@;
            assert(rows_view(rs@) =~= rsv.take(n as int));
            out.append(&mut rs);
            assert(rows_view(out@) =~= acc0 + rsv.take(n as int));
            let mut i: usize = 0;
            while i < n
                invariant
                    i <= n,
                    map@ == map0 + Seq::new(i as nat, |_j: int| row.source),
                decreases n - i,
            {
                map.push(row.source);
                assert(Seq::new(i as nat + 1, |_j: int| row.source) =~= Seq::new(i as nat, |_j: int| row.source).push(
                    row.source));
                i = i + 1;
            }
            assert(map@ =~= map0 + Seq::new(n as nat, |_j: int| frs[di as int].source));
            di = di + 1;
        }
    }
    state.row_to_source = map;
    out
}

} // verus!
