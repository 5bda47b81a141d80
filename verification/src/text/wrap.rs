//! Width-aware wrapping, truncation and padding of display text.

use vstd::prelude::*;
use crate::text::strings::{push_char, split_char, split_spec, views, lemma_views_push, lemma_split_nonempty};
use crate::text::width::{char_cols, col, cols, lemma_cols_take_step, lemma_cols_push, measurable, str_width, unicode_str_width};

verus! {

/// `"..."`
pub open spec fn dots() -> Seq<char> {
    seq!['.', '.', '.']
}

/// Greedy left-to-right fill: the longest run of leading chars, taken one
/// at a time, whose columns stay within `budget`.
pub open spec fn greedy_fit(line: Seq<char>, budget: nat) -> Seq<char>
    decreases line.len(),
{
    if line.len() == 0 {
        seq![]
    } else if col(line[0]) > budget {
        seq![]
    } else {
        seq![line[0]] + greedy_fit(line.drop_first(), (budget - col(line[0])) as nat)
    }
}

/// Greedy line filling of `s` into lines of at most `max_w` columns, as
/// (finished lines, line being filled, its columns). A char that does
/// not fit on the current line starts a new one.
pub open spec fn wrap_fold(s: Seq<char>, max_w: nat) -> (Seq<Seq<char>>, Seq<char>, nat)
    decreases s.len(),
{
    if s.len() == 0 {
        (seq![], seq![], 0)
    } else {
        let prev = wrap_fold(s.drop_last(), max_w);
        let c = s.last();
        if prev.2 + col(c) > max_w {
            (prev.0.push(prev.1), seq![c], col(c))
        } else {
            (prev.0, prev.1.push(c), prev.2 + col(c))
        }
    }
}

/// `a - b`, or zero when `b > a`.
pub open spec fn sat_sub(a: nat, b: nat) -> nat {
    if a >= b { (a - b) as nat } else { 0 }
}

/// The cut marker for a line of `max_w` columns: `...`, or as many of its
/// dots as fit when `max_w` is below 3.
pub open spec fn marker(max_w: nat) -> Seq<char> {
    if max_w < 3 { dots().take(max_w as int) } else { dots() }
}

/// `line` cut to `max_w - 3` columns and ended with the cut marker.
pub open spec fn mark_line(line: Seq<char>, max_w: nat) -> Seq<char> {
    greedy_fit(line, sat_sub(max_w, 3)) + marker(max_w)
}

/// The lines that `wrap_text` yields: greedy filling to `max_w` columns,
/// at most `max_lines` lines; when the text needs more, the kept lines stop
/// at `max_lines` and the last is cut to `max_w - 3` columns plus `...`
/// (the dots themselves cut to `max_w` columns when `max_w` is below 3).
/// Degenerate sizes yield one empty line.
pub open spec fn wrap_spec(s: Seq<char>, max_w: nat, max_lines: nat) -> Seq<Seq<char>> {
    if max_w == 0 || max_lines == 0 {
        seq![seq![]]
    } else {
        let f = wrap_fold(s, max_w);
        if f.0.len() >= max_lines {
            let kept = f.0.take(max_lines as int);
            kept.update(max_lines - 1, mark_line(kept[max_lines - 1], max_w))
        } else if f.1.len() > 0 || f.0.len() == 0 {
            f.0.push(f.1)
        } else {
            f.0
        }
    }
}

/// A greedy fill stays within its budget.
pub proof fn lemma_greedy_fit_cols(line: Seq<char>, budget: nat)
    ensures
        cols(greedy_fit(line, budget)) <= budget,
    decreases line.len(),
{
    assert(cols(Seq::<char>::empty()) == 0);
    if line.len() > 0 && col(line[0]) <= budget {
        let rest = greedy_fit(line.drop_first(), (budget - col(line[0])) as nat);
        lemma_greedy_fit_cols(line.drop_first(), (budget - col(line[0])) as nat);
        crate::text::width::lemma_cols_concat(seq![line[0]], rest);
        assert(seq![line[0]].drop_last() =~= Seq::<char>::empty());
        assert(cols(seq![line[0]]) == col(line[0]));
    }
}

/// While filling, every finished line and the line being filled stay
/// within `max_w` columns, and the count kept is the line's columns.
proof fn lemma_wrap_fold_fits(s: Seq<char>, max_w: nat)
    requires
        forall|i: int| 0 <= i < s.len() ==> col(#[trigger] s[i]) <= max_w,
    ensures
        forall|k: int| 0 <= k < wrap_fold(s, max_w).0.len() ==> cols(#[trigger] wrap_fold(s, max_w).0[k]) <= max_w,
        cols(wrap_fold(s, max_w).1) == wrap_fold(s, max_w).2,
        wrap_fold(s, max_w).2 <= max_w,
    decreases s.len(),
{
    if s.len() > 0 {
        let p = s.drop_last();
        assert forall|i: int| 0 <= i < p.len() implies col(#[trigger] p[i]) <= max_w by {
            assert(p[i] == s[i]);
        }
        lemma_wrap_fold_fits(p, max_w);
        let prev = wrap_fold(p, max_w);
        let c = s.last();
        assert(col(c) <= max_w) by { assert(c == s[s.len() - 1]); }
        if prev.2 + col(c) > max_w {
            assert(seq![c].drop_last() =~= Seq::<char>::empty());
            assert(cols(Seq::<char>::empty()) == 0);
            assert(cols(seq![c]) == col(c));
            assert(wrap_fold(s, max_w).0 == prev.0.push(prev.1));
        } else {
            lemma_cols_push(prev.1, c);
        }
    }
}

/// A marked line stays within the width.
pub proof fn lemma_mark_line_cols(line: Seq<char>, max_w: nat)
    ensures
        cols(mark_line(line, max_w)) <= max_w,
{
    let cut = greedy_fit(line, sat_sub(max_w, 3));
    lemma_greedy_fit_cols(line, sat_sub(max_w, 3));
    crate::text::width::lemma_cols_concat(cut, marker(max_w));
    let m = marker(max_w);
    assert(cols(m) == m.len()) by {
        assert forall|k: int| 0 <= k < m.len() implies m[k] == '.' by {}
        lemma_dots_cols(m);
    }
}

/// A run of dots has one column per dot.
proof fn lemma_dots_cols(m: Seq<char>)
    requires
        forall|k: int| 0 <= k < m.len() ==> m[k] == '.',
    ensures
        cols(m) == m.len(),
    decreases m.len(),
{
    if m.len() > 0 {
        lemma_dots_cols(m.drop_last());
        assert(m.last() == m[m.len() - 1]);
    }
}

/// Wrapped lines stay within the width: when no char is wider than
/// `max_w`, every line of `wrap_text` spans at most `max_w` columns, the
/// cut last line with its marker included.
pub proof fn lemma_wrap_lines_fit(s: Seq<char>, max_w: nat, max_lines: nat)
    requires
        forall|i: int| 0 <= i < s.len() ==> col(#[trigger] s[i]) <= max_w,
    ensures
        forall|k: int| 0 <= k < wrap_spec(s, max_w, max_lines).len() ==>
            cols(#[trigger] wrap_spec(s, max_w, max_lines)[k]) <= max_w,
{
    if max_w > 0 && max_lines > 0 {
        lemma_wrap_fold_fits(s, max_w);
        let f = wrap_fold(s, max_w);
        if f.0.len() >= max_lines {
            let kept = f.0.take(max_lines as int);
            lemma_mark_line_cols(kept[max_lines - 1], max_w);
            assert forall|k: int| 0 <= k < wrap_spec(s, max_w, max_lines).len() implies
                cols(#[trigger] wrap_spec(s, max_w, max_lines)[k]) <= max_w by {
                if k < max_lines - 1 {
                    assert(wrap_spec(s, max_w, max_lines)[k] == f.0[k]);
                }
            }
        } else {
            assert forall|k: int| 0 <= k < wrap_spec(s, max_w, max_lines).len() implies
                cols(#[trigger] wrap_spec(s, max_w, max_lines)[k]) <= max_w by {
                if k < f.0.len() {
                    assert(wrap_spec(s, max_w, max_lines)[k] == f.0[k]);
                }
            }
        }
    } else {
        assert(cols(Seq::<char>::empty()) == 0);
    }
}

/// The finished lines of a prefix are a prefix of the finished lines of
/// the whole text.
proof fn lemma_wrap_fold_prefix(s: Seq<char>, i: int, j: int, max_w: nat)
    requires
        0 <= i <= j <= s.len(),
    ensures
        wrap_fold(s.take(i), max_w).0.len() <= wrap_fold(s.take(j), max_w).0.len(),
        wrap_fold(s.take(j), max_w).0.take(wrap_fold(s.take(i), max_w).0.len() as int)
            == wrap_fold(s.take(i), max_w).0,
    decreases j - i,
{
    if i < j {
        lemma_wrap_fold_prefix(s, i, j - 1, max_w);
        assert(s.take(j).drop_last() == s.take(j - 1));
        let a = wrap_fold(s.take(i), max_w).0;
        let b = wrap_fold(s.take(j - 1), max_w).0;
        let c = wrap_fold(s.take(j), max_w).0;
        assert(c.take(a.len() as int) == a) by {
            assert forall|k: int| 0 <= k < a.len() implies c.take(a.len() as int)[k] == a[k] by {
                assert(b.take(a.len() as int)[k] == a[k]);
            }
        }
    }
}

/// Fill `line` greedily within `budget` columns (see [`greedy_fit`]).
pub(crate) fn fit_prefix(line: &str, budget: usize) -> (res: (String, usize))
    ensures
        res.0@ == greedy_fit(line@, budget as nat),
        res.1 == cols(res.0@),
        res.1 <= budget,
{
    let mut r = String::new();
    let mut tw: usize = 0;
    assert(line@.skip(0) == line@);
    assert(r@ + greedy_fit(line@, budget as nat) == greedy_fit(line@, budget as nat));
    for tc in it: line.chars()
        invariant
            it.seq() == line@,
            tw <= budget,
            tw == cols(r@),
            greedy_fit(line@, budget as nat) == r@ + greedy_fit(line@.skip(it.index() as int), (budget - tw) as nat),
    {
        let ghost i = it.index();
        let tcw = char_cols(tc);
        assert(line@.skip(i as int)[0] == tc);
        assert(line@.skip(i as int).drop_first() == line@.skip(i as int + 1));
        if tcw > budget - tw {
            assert(greedy_fit(line@.skip(i as int), (budget - tw) as nat) == Seq::<char>::empty());
            assert(r@ + Seq::<char>::empty() == r@);
            return (r, tw);
        }
        proof {
            lemma_cols_push(r@, tc);
            assert(r@.push(tc) + greedy_fit(line@.skip(i as int + 1), (budget - (tw + tcw)) as nat)
                == r@ + (seq![tc] + greedy_fit(line@.skip(i as int + 1), (budget - (tw + tcw)) as nat)));
        }
        push_char(&mut r, tc);
        tw = tw + tcw;
    }
    assert(line@.skip(line@.len() as int).len() == 0);
    assert(r@ + Seq::<char>::empty() == r@);
    (r, tw)
}

/// Append the cut marker for width `max_w` to `s`.
fn push_marker(s: &mut String, max_w: usize)
    ensures
        final(s)@ == old(s)@ + marker(max_w as nat),
{
    let n: usize = if max_w < 3 { max_w } else { 3 };
    let mut k: usize = 0;
    while k < n
        invariant
            k <= n,
            n == if max_w < 3 { max_w } else { 3 },
            s@ == old(s)@ + dots().take(k as int),
        decreases n - k,
    {
        push_char(s, '.');
        assert(dots().take(k as int + 1) == dots().take(k as int).push('.'));
        k = k + 1;
    }
    assert(dots().take(3) == dots());
}

/// Cut `line` for a width of `max_w` and end it with the cut marker.
fn marked_line(line: &str, max_w: usize) -> (r: String)
    ensures
        r@ == mark_line(line@, max_w as nat),
{
    let (mut r, _) = fit_prefix(line, max_w.saturating_sub(3));
    push_marker(&mut r, max_w);
    r
}

/// Wrapping yields at least one line, and at most `max_lines` of them
/// when that is positive.
pub proof fn lemma_wrap_spec_len(s: Seq<char>, max_w: nat, max_lines: nat)
    ensures
        1 <= wrap_spec(s, max_w, max_lines).len(),
        max_lines > 0 ==> wrap_spec(s, max_w, max_lines).len() <= max_lines,
{
}

/// Whether `wrap_text` cuts the text: it needs more than `max_lines` lines.
pub open spec fn wrap_cut(s: Seq<char>, max_w: nat, max_lines: nat) -> bool {
    max_w > 0 && max_lines > 0 && wrap_fold(s, max_w).0.len() >= max_lines
}

/// Wrap text into lines of at most `max_w` display columns, returning at
/// most `max_lines` lines; when the text needs more, the last kept line is
/// cut and ends in `...`.
pub fn wrap_text(s: &str, max_w: usize, max_lines: usize) -> (lines: Vec<String>)
    requires
        measurable(s@),
    ensures
        views(lines@) == wrap_spec(s@, max_w as nat, max_lines as nat),
        1 <= lines.len(),
        max_lines > 0 ==> lines.len() <= max_lines,
        (forall|i: int| 0 <= i < s@.len() ==> col(#[trigger] s@[i]) <= max_w)
            ==> forall|k: int| 0 <= k < lines.len() ==> cols(#[trigger] lines@[k]@) <= max_w,
{
    let (lines, _) = wrap_flagged(s, max_w, max_lines);
    proof {
        if forall|i: int| 0 <= i < s@.len() ==> col(#[trigger] s@[i]) <= max_w {
            lemma_wrap_lines_fit(s@, max_w as nat, max_lines as nat);
            assert forall|k: int| 0 <= k < lines.len() implies cols(#[trigger] lines@[k]@) <= max_w by {
                assert(lines@[k]@ == views(lines@)[k]);
            }
        }
    }
    lines
}

/// [`wrap_text`], also telling whether the text was cut.
fn wrap_flagged(s: &str, max_w: usize, max_lines: usize) -> (r: (Vec<String>, bool))
    requires
        measurable(s@),
    ensures
        views(r.0@) == wrap_spec(s@, max_w as nat, max_lines as nat),
        1 <= r.0.len(),
        max_lines > 0 ==> r.0.len() <= max_lines,
        r.1 == wrap_cut(s@, max_w as nat, max_lines as nat),
{
    if max_w == 0 || max_lines == 0 {
        let mut v: Vec<String> = Vec::new();
        v.push(String::new());
        assert(views(v@) == seq![Seq::<char>::empty()]);
        return (v, false);
    }
    let mut result: Vec<String> = Vec::new();
    let mut current = String::new();
    let mut current_w: usize = 0;
    assert(s@.take(0) == Seq::<char>::empty());
    assert(views(result@) == Seq::<Seq<char>>::empty());
    for ch in it: s.chars()
        invariant
            it.seq() == s@,
            measurable(s@),
            0 < max_w,
            0 < max_lines,
            result.len() < max_lines,
            current_w <= cols(s@.take(it.index() as int)),
            cols(s@.take(it.index() as int)) <= 3 * it.index(),
            it.index() <= s@.len(),
            wrap_fold(s@.take(it.index() as int), max_w as nat)
                == (views(result@), current@, current_w as nat),
    {
        let ghost i = it.index();
        let cw = char_cols(ch);
        proof {
            lemma_cols_take_step(s@, i as int);
            assert(s@.take(i as int + 1).drop_last() == s@.take(i as int));
            assert(s@.take(i as int + 1).last() == ch);
        }
        if current_w + cw > max_w {
            let ghost prev = views(result@);
            let ghost cur_old = current@;
            result.push(current);
            current = String::new();
            current_w = 0;
            assert(views(result@) == prev.push(cur_old));
            if result.len() >= max_lines {
                let ghost kept = views(result@);
                proof {
                    lemma_wrap_fold_prefix(s@, i as int + 1, s@.len() as int, max_w as nat);
                    assert(s@.take(s@.len() as int) == s@);
                }
                let last = result.pop().unwrap();
                let trimmed = marked_line(last.as_str(), max_w);
                result.push(trimmed);
                assert(views(result@) == kept.update(max_lines - 1, mark_line(kept[max_lines - 1], max_w as nat)));
                return (result, true);
            }
        }
        let ghost cur_before = current@;
        push_char(&mut current, ch);
        current_w = current_w + cw;
    }
    proof {
        assert(s@.take(s@.len() as int) == s@);
    }
    if !current.as_str().is_empty() || result.len() == 0 {
        let ghost prev = views(result@);
        let ghost cur_old = current@;
        result.push(current);
        assert(views(result@) == prev.push(cur_old));
    }
    (result, false)
}

/// The result of `safe_truncate`: unchanged when the string's display
/// width fits, otherwise greedily cut to `max_w - 3` columns plus `...`.
pub open spec fn truncate_spec(s: Seq<char>, max_w: nat) -> Seq<char> {
    if max_w == 0 {
        seq![]
    } else if unicode_str_width(s) <= max_w {
        s
    } else {
        greedy_fit(s, sat_sub(max_w, 3)) + dots()
    }
}

/// Shorten `s` to `max_w` display columns, ending in `...` when cut.
pub fn safe_truncate(s: &str, max_w: usize) -> (r: String)
    ensures
        r@ == truncate_spec(s@, max_w as nat),
{
    if max_w == 0 {
        return String::new();
    }
    if str_width(s) <= max_w {
        return s.to_owned();
    }
    let (mut r, _) = fit_prefix(s, max_w.saturating_sub(3));
    push_char(&mut r, '.');
    push_char(&mut r, '.');
    push_char(&mut r, '.');
    assert(r@ == greedy_fit(s@, sat_sub(max_w as nat, 3)) + dots());
    r
}

/// `n` spaces.
pub open spec fn spaces(n: nat) -> Seq<char> {
    Seq::new(n, |_i: int| ' ')
}

/// The result of `safe_pad`: a string of exactly `width` columns. When the
/// display width already reaches `width`, the string is greedily cut to
/// `width` columns and space-filled to `width`; otherwise it is padded
/// with spaces up to `width`.
pub open spec fn pad_spec(s: Seq<char>, width: nat) -> Seq<char> {
    let w = unicode_str_width(s);
    if w >= width {
        let r = greedy_fit(s, width);
        r + spaces(sat_sub(width, cols(r)))
    } else {
        s + spaces((width - w) as nat)
    }
}

/// Append `n` spaces to `r`.
fn push_spaces(r: &mut String, n: usize)
    ensures
        final(r)@ == old(r)@ + spaces(n as nat),
{
    let mut k: usize = 0;
    while k < n
        invariant
            k <= n,
            r@ == old(r)@ + spaces(k as nat),
        decreases n - k,
    {
        push_char(r, ' ');
        k = k + 1;
        assert(r@ == old(r)@ + spaces(k as nat));
    }
}

/// Fit `s` to exactly `width` columns: cut when too wide, pad with spaces
/// when too narrow.
pub fn safe_pad(s: &str, width: usize) -> (r: String)
    ensures
        r@ == pad_spec(s@, width as nat),
{
    let w = str_width(s);
    if w >= width {
        let (mut r, cw) = fit_prefix(s, width);
        push_spaces(&mut r, width - cw);
        r
    } else {
        let mut r = s.to_owned();
        push_spaces(&mut r, width - w);
        r
    }
}

/// The lines of `wrap_multiline` accumulated over the `\n`-separated
/// pieces: an empty piece is one empty line, a non-empty piece is wrapped
/// with the lines still available; nothing is added once `max_lines` lines
/// are there.
pub open spec fn multiline_fold(segs: Seq<Seq<char>>, max_w: nat, max_lines: nat) -> Seq<Seq<char>>
    decreases segs.len(),
{
    if segs.len() == 0 {
        seq![]
    } else {
        let out = multiline_fold(segs.drop_last(), max_w, max_lines);
        let seg = segs.last();
        if out.len() >= max_lines {
            out
        } else if seg.len() == 0 {
            out.push(seq![])
        } else {
            out + wrap_spec(seg, max_w, (max_lines - out.len()) as nat)
        }
    }
}

/// Once the line cap is reached, further pieces add nothing.
proof fn lemma_multiline_saturated(segs: Seq<Seq<char>>, i: int, j: int, max_w: nat, max_lines: nat)
    requires
        0 <= i <= j <= segs.len(),
        i == segs.len() || multiline_fold(segs.take(i), max_w, max_lines).len() >= max_lines,
    ensures
        multiline_fold(segs.take(j), max_w, max_lines) == multiline_fold(segs.take(i), max_w, max_lines),
    decreases j - i,
{
    if i < j {
        lemma_multiline_saturated(segs, i, j - 1, max_w, max_lines);
        assert(segs.take(j).drop_last() == segs.take(j - 1));
    }
}

/// Whether the last line of [`multiline_fold`] already ends in a cut
/// marker: the piece that produced it was cut by `wrap_text`.
pub open spec fn multiline_marked(segs: Seq<Seq<char>>, max_w: nat, max_lines: nat) -> bool
    decreases segs.len(),
{
    if segs.len() == 0 {
        false
    } else {
        let out = multiline_fold(segs.drop_last(), max_w, max_lines);
        let seg = segs.last();
        if out.len() >= max_lines {
            multiline_marked(segs.drop_last(), max_w, max_lines)
        } else if seg.len() == 0 {
            false
        } else {
            wrap_cut(seg, max_w, (max_lines - out.len()) as nat)
        }
    }
}

/// Whether some `\n`-separated piece is left out because the line cap was
/// reached before it.
pub open spec fn pieces_dropped(segs: Seq<Seq<char>>, max_w: nat, max_lines: nat) -> bool {
    segs.len() > 0 && multiline_fold(segs.drop_last(), max_w, max_lines).len() >= max_lines
}

/// Once the line cap is reached, the marked flag stays as it was.
proof fn lemma_marked_saturated(segs: Seq<Seq<char>>, i: int, j: int, max_w: nat, max_lines: nat)
    requires
        0 <= i <= j <= segs.len(),
        multiline_fold(segs.take(i), max_w, max_lines).len() >= max_lines,
    ensures
        multiline_marked(segs.take(j), max_w, max_lines) == multiline_marked(segs.take(i), max_w, max_lines),
    decreases j - i,
{
    if i < j {
        lemma_marked_saturated(segs, i, j - 1, max_w, max_lines);
        lemma_multiline_saturated(segs, i, j - 1, max_w, max_lines);
        assert(segs.take(j).drop_last() == segs.take(j - 1));
    }
}

/// The lines of `wrap_multiline`: every `\n` starts a new line, each piece
/// is wrapped by width, and the total is capped at `max_lines`; when the
/// cap leaves pieces out, the last line is cut and marked as `wrap_text`
/// marks a cut, unless its piece was already cut.
pub open spec fn multiline_spec(s: Seq<char>, max_w: nat, max_lines: nat) -> Seq<Seq<char>> {
    if max_w == 0 || max_lines == 0 {
        seq![seq![]]
    } else {
        let segs = split_spec(s, '\n');
        let out = multiline_fold(segs, max_w, max_lines);
        if pieces_dropped(segs, max_w, max_lines) && !multiline_marked(segs, max_w, max_lines) {
            out.update(out.len() - 1, mark_line(out.last(), max_w))
        } else {
            out
        }
    }
}

/// Wrap text that may hold `\n` into display lines: each `\n` starts a new
/// line and each piece is wrapped by display width; at most `max_lines`
/// lines come out, the last cut with `...` when a piece is cut short.
pub fn wrap_multiline(s: &str, max_w: usize, max_lines: usize) -> (lines: Vec<String>)
    requires
        measurable(s@),
    ensures
        views(lines@) == multiline_spec(s@, max_w as nat, max_lines as nat),
        1 <= lines.len(),
        max_lines > 0 ==> lines.len() <= max_lines,
{
    if max_w == 0 || max_lines == 0 {
        let mut v: Vec<String> = Vec::new();
        v.push(String::new());
        assert(views(v@) == seq![Seq::<char>::empty()]);
        return v;
    }
    let segments = split_char(s, '\n');
    let ghost segs = views(segments@);
    let mut out: Vec<String> = Vec::new();
    let mut marked = false;
    let mut i: usize = 0;
    assert(segs.take(0) == Seq::<Seq<char>>::empty());
    assert(views(out@) == Seq::<Seq<char>>::empty());
    while i < segments.len()
        invariant
            marked == multiline_marked(segs.take(i as int), max_w as nat, max_lines as nat),
            i > 0 ==> multiline_fold(segs.take(i - 1), max_w as nat, max_lines as nat).len() < max_lines,
            segs == views(segments@),
            segs == split_spec(s@, '\n'),
            measurable(s@),
            forall|k: int| 0 <= k < segments.len() ==> (#[trigger] segments@[k])@.len() <= s@.len(),
            0 < max_w,
            0 < max_lines,
            i <= segments.len(),
            views(out@) == multiline_fold(segs.take(i as int), max_w as nat, max_lines as nat),
            out.len() <= max_lines,
            i > 0 ==> out.len() > 0,
        ensures
            marked == multiline_marked(segs.take(i as int), max_w as nat, max_lines as nat),
            i > 0 ==> multiline_fold(segs.take(i - 1), max_w as nat, max_lines as nat).len() < max_lines,
            i <= segments.len(),
            views(out@) == multiline_fold(segs.take(i as int), max_w as nat, max_lines as nat),
            i == segments.len() || out.len() >= max_lines,
            out.len() <= max_lines,
            i > 0 ==> out.len() > 0,
        decreases segments.len() - i,
    {
        let ghost prev = views(out@);
        proof {
            assert(segs.take(i as int + 1).drop_last() == segs.take(i as int));
            assert(segs.take(i as int + 1).last() == segs[i as int]);
            assert(segs[i as int] == segments@[i as int]@);
        }
        let segment = &segments[i];
        if i > 0 && out.len() == 0 {
            out.push(String::new());
        }
        let remaining = max_lines - out.len();
        if remaining == 0 {
            break;
        }
        if segment.as_str().is_empty() {
            marked = false;
            out.push(String::new());
            proof {
                lemma_views_push(out@.drop_last(), out@.last());
                assert(out@.drop_last().push(out@.last()) == out@);
            }
            i = i + 1;
            continue;
        }
        let (wrapped, cut) = wrap_flagged(segment.as_str(), max_w, remaining);
        marked = cut;
        let ghost w = views(wrapped@);
        let mut k: usize = 0;
        while k < wrapped.len()
            invariant
                k <= wrapped.len(),
                w == views(wrapped@),
                wrapped.len() <= remaining,
                remaining == max_lines - prev.len(),
                views(out@) == prev + w.take(k as int),
                out.len() == prev.len() + k,
                prev.len() + wrapped.len() <= max_lines,
            ensures
                k == wrapped.len(),
                views(out@) == prev + w.take(k as int),
            decreases wrapped.len() - k,
        {
            let ghost before = out@;
            out.push(wrapped[k].clone());
            proof {
                lemma_views_push(before, out@.last());
                assert(out@ == before.push(out@.last()));
                assert(w.take(k as int + 1) == w.take(k as int).push(w[k as int]));
            }
            k = k + 1;
            if out.len() >= max_lines {
                break;
            }
        }
        proof {
            assert(k == wrapped.len());
            assert(w.take(k as int) == w);
        }
        i = i + 1;
        if out.len() >= max_lines {
            break;
        }
    }
    proof {
        lemma_multiline_saturated(segs, i as int, segs.len() as int, max_w as nat, max_lines as nat);
        assert(segs.take(segs.len() as int) == segs);
        lemma_split_nonempty(s@, '\n');
        if i < segments.len() {
            lemma_marked_saturated(segs, i as int, segs.len() as int, max_w as nat, max_lines as nat);
            lemma_multiline_saturated(segs, i as int, segs.len() - 1, max_w as nat, max_lines as nat);
            assert(segs.take(segs.len() - 1) == segs.drop_last());
        } else {
            assert(segs.take(i - 1) == segs.drop_last());
        }
    }
    if i < segments.len() && !marked {
        let ghost before = views(out@);
        let last = out.pop().unwrap();
        let cut_last = marked_line(last.as_str(), max_w);
        out.push(cut_last);
        proof {
            lemma_views_push(out@.drop_last(), out@.last());
            assert(out@.drop_last().push(out@.last()) == out@);
            assert(views(out@) == before.update(before.len() - 1, mark_line(before.last(), max_w as nat)));
        }
    }
    if out.len() == 0 {
        out.push(String::new());
    }
    out
}

/// A run of spaces has one column per space.
proof fn lemma_spaces_cols(n: nat)
    ensures
        cols(spaces(n)) == n,
    decreases n,
{
    if n > 0 {
        lemma_spaces_cols((n - 1) as nat);
        assert(spaces(n).drop_last() =~= spaces((n - 1) as nat));
    }
}

/// `safe_pad` fills exactly `width` columns: a cut string is filled up
/// with spaces to `width`, and a short one is padded by the difference
/// between `width` and its display width, which is exactly `width`
/// columns when its display width is the sum of its chars' columns.
pub proof fn lemma_pad_width(s: Seq<char>, width: nat)
    requires
        unicode_str_width(s) < width ==> unicode_str_width(s) == cols(s),
    ensures
        cols(pad_spec(s, width)) == width,
{
    let w = unicode_str_width(s);
    if w >= width {
        let r = greedy_fit(s, width);
        lemma_greedy_fit_cols(s, width);
        crate::text::width::lemma_cols_concat(r, spaces(sat_sub(width, cols(r))));
        lemma_spaces_cols(sat_sub(width, cols(r)));
    } else {
        crate::text::width::lemma_cols_concat(s, spaces((width - w) as nat));
        lemma_spaces_cols((width - w) as nat);
    }
}

/// A piece that fits is one line being filled, with nothing finished.
proof fn lemma_wrap_fold_fitting(s: Seq<char>, max_w: nat)
    requires
        cols(s) <= max_w,
    ensures
        wrap_fold(s, max_w) == (Seq::<Seq<char>>::empty(), s, cols(s)),
    decreases s.len(),
{
    if s.len() > 0 {
        lemma_wrap_fold_fitting(s.drop_last(), max_w);
        assert(s.drop_last().push(s.last()) =~= s);
    }
}

/// Pieces that each fit and are no more than the lines allowed come out
/// one line each.
proof fn lemma_fold_fitting(segs: Seq<Seq<char>>, max_w: nat, max_lines: nat)
    requires
        max_w > 0,
        segs.len() <= max_lines,
        forall|k: int| 0 <= k < segs.len() ==> cols(#[trigger] segs[k]) <= max_w,
    ensures
        multiline_fold(segs, max_w, max_lines) == segs,
    decreases segs.len(),
{
    if segs.len() > 0 {
        let p = segs.drop_last();
        assert forall|k: int| 0 <= k < p.len() implies cols(#[trigger] p[k]) <= max_w by {
            assert(p[k] == segs[k]);
        }
        lemma_fold_fitting(p, max_w, max_lines);
        let seg = segs.last();
        assert(cols(seg) <= max_w) by { assert(seg == segs[segs.len() - 1]); }
        if seg.len() > 0 {
            lemma_wrap_fold_fitting(seg, max_w);
            assert(wrap_spec(seg, max_w, (max_lines - p.len()) as nat) == seq![seg]);
            assert(p + seq![seg] =~= p.push(seg));
        } else {
            assert(seg =~= Seq::<char>::empty());
        }
        assert(p.push(seg) =~= segs);
    }
}

/// Text whose `\n`-separated pieces each fit the width, and are no more
/// than `max_lines`, comes back from `wrap_multiline` one piece per line,
/// blank lines kept.
pub proof fn lemma_multiline_round_trip(s: Seq<char>, max_w: nat, max_lines: nat)
    requires
        max_w > 0,
        split_spec(s, '\n').len() <= max_lines,
        forall|k: int| 0 <= k < split_spec(s, '\n').len() ==> cols(#[trigger] split_spec(s, '\n')[k]) <= max_w,
    ensures
        multiline_spec(s, max_w, max_lines) == split_spec(s, '\n'),
{
    let segs = split_spec(s, '\n');
    lemma_split_nonempty(s, '\n');
    lemma_fold_fitting(segs, max_w, max_lines);
    let p = segs.drop_last();
    assert forall|k: int| 0 <= k < p.len() implies cols(#[trigger] p[k]) <= max_w by {
        assert(p[k] == segs[k]);
    }
    lemma_fold_fitting(p, max_w, max_lines);
}

} // verus!
