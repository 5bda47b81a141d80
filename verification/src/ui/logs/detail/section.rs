//! A log message body as an ordered list of sections: headings like
//! `── Stack Trace ──`, runs of stack frames, and the prose between them.

use vstd::prelude::*;
use crate::text::strings::{
    from_chars, is_whitespace, same_text, to_chars, trim, trim_start, trim_spec, trim_start_spec,
    ws, ascii_digit,
};

verus! {

/// A chunk of a message body.
#[derive(Debug)]
pub enum Section {
    /// A heading line like `── Stack Trace ──`, without surrounding
    /// newlines and spaces.
    Heading(String),
    /// Plain prose, without leading and trailing newlines.
    Prose(String),
    /// Consecutive stack frame lines and `<asynchronous suspension>`
    /// markers, without trailing newlines.
    StackTrace(String),
}

/// A section as text.
pub enum SectionView {
    Heading(Seq<char>),
    Prose(Seq<char>),
    StackTrace(Seq<char>),
}

/// The view of a section.
pub open spec fn section_view(s: Section) -> SectionView {
    match s {
        Section::Heading(t) => SectionView::Heading(t@),
        Section::Prose(t) => SectionView::Prose(t@),
        Section::StackTrace(t) => SectionView::StackTrace(t@),
    }
}

/// The views of sections.
pub open spec fn section_views(v: Seq<Section>) -> Seq<SectionView> {
    v.map_values(|s: Section| section_view(s))
}

/// `c` is `\n`, or, when `with_space`, a space.
pub open spec fn in_set(c: char, with_space: bool) -> bool {
    c == '\n' || (with_space && c == ' ')
}

/// Leading chars of `s` in the set.
pub open spec fn lead_set(s: Seq<char>, w: bool) -> nat
    decreases s.len(),
{
    if s.len() > 0 && in_set(s[0], w) { 1 + lead_set(s.drop_first(), w) } else { 0 }
}

/// Trailing chars of `s` in the set.
pub open spec fn trail_set(s: Seq<char>, w: bool) -> nat
    decreases s.len(),
{
    if s.len() > 0 && in_set(s.last(), w) { 1 + trail_set(s.drop_last(), w) } else { 0 }
}

/// `s` without leading and trailing chars of the set (std's
/// `trim_matches` with those chars).
pub open spec fn strip_set(s: Seq<char>, w: bool) -> Seq<char> {
    let t = s.skip(lead_set(s, w) as int);
    t.take(t.len() - trail_set(t, w))
}

/// `s` without trailing newlines.
pub open spec fn strip_end_nl(s: Seq<char>) -> Seq<char> {
    s.take(s.len() - trail_set(s, false))
}

/// Index of the `\n` ending the line that starts at `i`, or the end.
pub open spec fn line_end(t: Seq<char>, i: int) -> int
    decreases t.len() - i,
{
    if 0 <= i < t.len() && t[i] != '\n' { line_end(t, i + 1) } else { i }
}

/// Where the line after the one at `i` starts.
pub open spec fn next_line(t: Seq<char>, i: int) -> int {
    let le = line_end(t, i);
    if le < t.len() { le + 1 } else { le }
}

/// Number of ASCII digits from `j` on.
pub open spec fn digit_run(t: Seq<char>, j: int) -> nat
    decreases t.len() - j,
{
    if 0 <= j < t.len() && ascii_digit(t[j]) { 1 + digit_run(t, j + 1) } else { 0 }
}

/// A heading line: trimmed, it starts and ends with `──`.
pub open spec fn heading_line(line: Seq<char>) -> bool {
    let t = trim_spec(line);
    t.len() >= 2 && t[0] == '\u{2500}' && t[1] == '\u{2500}'
        && t[t.len() - 2] == '\u{2500}' && t[t.len() - 1] == '\u{2500}'
}

/// A stack frame line: `#`, digits, then whitespace, after any indent.
pub open spec fn stack_frame_line(line: Seq<char>) -> bool {
    let t = trim_start_spec(line);
    let k = 1 + digit_run(t, 1) as int;
    t.len() > 0 && t[0] == '#' && k < t.len() && ws(t[k])
}

/// `<asynchronous suspension>`
pub open spec fn async_marker_text() -> Seq<char> {
    seq!['<', 'a', 's', 'y', 'n', 'c', 'h', 'r', 'o', 'n', 'o', 'u', 's', ' ',
        's', 'u', 's', 'p', 'e', 'n', 's', 'i', 'o', 'n', '>']
}

/// An async marker line: trimmed, it is `<asynchronous suspension>`.
pub open spec fn async_marker_line(line: Seq<char>) -> bool {
    trim_spec(line) == async_marker_text()
}

/// A line that belongs to a stack trace.
pub open spec fn stack_line(line: Seq<char>) -> bool {
    stack_frame_line(line) || async_marker_line(line)
}

/// A line ends at or after its start, inside the text.
pub proof fn lemma_line_end_bounds(t: Seq<char>, i: int)
    requires
        0 <= i <= t.len(),
    ensures
        i <= line_end(t, i) <= t.len(),
    decreases t.len() - i,
{
    if i < t.len() && t[i] != '\n' {
        lemma_line_end_bounds(t, i + 1);
    }
}

/// Where a run of stack lines starting at `scan` ends.
pub open spec fn stack_end(t: Seq<char>, scan: int) -> int
    decreases t.len() - scan,
{
    if scan < 0 || scan >= t.len() {
        scan
    } else {
        let le = line_end(t, scan);
        proof { lemma_line_end_bounds(t, scan); }
        if stack_line(t.subrange(scan, le)) { stack_end(t, next_line(t, scan)) } else { scan }
    }
}

/// A run of stack lines ends at or after its start, inside the text.
pub proof fn lemma_stack_end_bounds(t: Seq<char>, scan: int)
    requires
        0 <= scan <= t.len(),
    ensures
        scan <= stack_end(t, scan) <= t.len(),
    decreases t.len() - scan,
{
    if scan < t.len() {
        lemma_line_end_bounds(t, scan);
        if stack_line(t.subrange(scan, line_end(t, scan))) {
            lemma_stack_end_bounds(t, next_line(t, scan));
        }
    }
}

/// The prose between `s` and `e`, without surrounding newlines, if any is
/// left.
pub open spec fn prose_part(t: Seq<char>, s: int, e: int) -> Seq<SectionView> {
    if s >= e {
        seq![]
    } else {
        let p = strip_set(t.subrange(s, e), false);
        if p.len() == 0 { seq![] } else { seq![SectionView::Prose(p)] }
    }
}

/// The sections of `t` from the line at `i` on, with prose pending since
/// `ps`: a heading line ends the prose and is a section of its own; a run
/// of stack lines ends the prose and is one section; other lines join the
/// prose.
pub open spec fn sect_scan(t: Seq<char>, i: int, ps: int) -> Seq<SectionView>
    decreases t.len() - i,
{
    if i < 0 || i >= t.len() {
        prose_part(t, ps, t.len() as int)
    } else {
        let le = line_end(t, i);
        proof { lemma_line_end_bounds(t, i); }
        let nx = next_line(t, i);
        let line = t.subrange(i, le);
        if heading_line(line) {
            prose_part(t, ps, i) + seq![SectionView::Heading(strip_set(line, true))] + sect_scan(t, nx, nx)
        } else if stack_line(line) {
            let cur = stack_end(t, nx);
            proof { lemma_stack_end_bounds(t, nx); }
            prose_part(t, ps, i) + seq![SectionView::StackTrace(strip_end_nl(t.subrange(i, cur)))] + sect_scan(t, cur, cur)
        } else {
            sect_scan(t, nx, ps)
        }
    }
}

/// The sections of a text.
pub open spec fn sections_spec(text: Seq<char>) -> Seq<SectionView> {
    sect_scan(text, 0, 0)
}

/// Whether a line is a heading: trimmed, it starts and ends with `──`.
pub fn is_heading(line: &str) -> (r: bool)
    ensures
        r == heading_line(line@),
{
    let tt = trim(line);
    let t = to_chars(tt.as_str());
    let n = t.len();
    n >= 2 && t[0] == '\u{2500}' && t[1] == '\u{2500}' && t[n - 2] == '\u{2500}' && t[n - 1] == '\u{2500}'
}

/// Whether a line is a stack frame: after any indent, `#`, digits, and
/// whitespace.
pub fn is_stack_frame(line: &str) -> (r: bool)
    ensures
        r == stack_frame_line(line@),
{
    let tt = trim_start(line);
    let t = to_chars(tt.as_str());
    if t.len() == 0 || t[0] != '#' {
        return false;
    }
    let mut k: usize = 1;
    while k < t.len() && '0' <= t[k] && t[k] <= '9'
        invariant
            1 <= k <= t@.len(),
            1 + digit_run(t@, 1) == k + digit_run(t@, k as int),
        decreases t@.len() - k,
    {
        k = k + 1;
    }
    k < t.len() && is_whitespace(t[k])
}

/// Whether a line is an `<asynchronous suspension>` marker.
pub fn is_async_marker(line: &str) -> (r: bool)
    ensures
        r == async_marker_line(line@),
{
    let t = trim(line);
    let m = "<asynchronous suspension>";
    proof {
        reveal_strlit("<asynchronous suspension>");
        assert(m@ =~= async_marker_text());
    }
    same_text(t.as_str(), m)
}

/// Whether a line belongs to a stack trace.
fn is_stack_line(line: &str) -> (r: bool)
    ensures
        r == stack_line(line@),
{
    is_stack_frame(line) || is_async_marker(line)
}

/// The end of the line that starts at `i`.
fn find_line_end(t: &[char], i: usize) -> (le: usize)
    requires
        i <= t@.len(),
    ensures
        le == line_end(t@, i as int),
{
    let mut k = i;
    while k < t.len() && t[k] != '\n'
        invariant
            i <= k <= t@.len(),
            line_end(t@, k as int) == line_end(t@, i as int),
        decreases t@.len() - k,
    {
        k = k + 1;
    }
    k
}

/// `t[a..b]` without leading and trailing chars of the set.
fn strip_chars(t: &[char], a: usize, b: usize, w: bool) -> (r: String)
    requires
        a <= b <= t@.len(),
    ensures
        r@ == strip_set(t@.subrange(a as int, b as int), w),
{
    let ghost s = t@.subrange(a as int, b as int);
    let mut lo = a;
    while lo < b && (t[lo] == '\n' || (w && t[lo] == ' '))
        invariant
            a <= lo <= b,
            b <= t@.len(),
            s == t@.subrange(a as int, b as int),
            lead_set(s, w) == (lo - a) + lead_set(t@.subrange(lo as int, b as int), w),
        decreases b - lo,
    {
        assert(t@.subrange(lo as int, b as int).drop_first() == t@.subrange(lo + 1, b as int));
        lo = lo + 1;
    }
    assert(s.skip(lead_set(s, w) as int) == t@.subrange(lo as int, b as int));
    let mut hi = b;
    while hi > lo && (t[hi - 1] == '\n' || (w && t[hi - 1] == ' '))
        invariant
            lo <= hi <= b,
            b <= t@.len(),
            trail_set(t@.subrange(lo as int, b as int), w) == (b - hi) + trail_set(t@.subrange(lo as int, hi as int), w),
        decreases hi - lo,
    {
        assert(t@.subrange(lo as int, hi as int).drop_last() == t@.subrange(lo as int, hi - 1));
        hi = hi - 1;
    }
    assert(t@.subrange(lo as int, b as int).take(hi - lo) == t@.subrange(lo as int, hi as int));
    from_chars(t, lo, hi)
}

/// `t[a..b]` without trailing newlines.
fn strip_end_newlines(t: &[char], a: usize, b: usize) -> (r: String)
    requires
        a <= b <= t@.len(),
    ensures
        r@ == strip_end_nl(t@.subrange(a as int, b as int)),
{
    let mut hi = b;
    while hi > a && t[hi - 1] == '\n'
        invariant
            a <= hi <= b,
            b <= t@.len(),
            trail_set(t@.subrange(a as int, b as int), false) == (b - hi) + trail_set(t@.subrange(a as int, hi as int), false),
        decreases hi - a,
    {
        assert(t@.subrange(a as int, hi as int).drop_last() == t@.subrange(a as int, hi - 1));
        hi = hi - 1;
    }
    assert(t@.subrange(a as int, b as int).take(hi - a) == t@.subrange(a as int, hi as int));
    from_chars(t, a, hi)
}

/// Pushing a section pushes its view.
pub proof fn lemma_section_views_push(v: Seq<Section>, x: Section)
    ensures
        section_views(v.push(x)) == section_views(v).push(section_view(x)),
{
    assert(section_views(v.push(x)) =~= section_views(v).push(section_view(x)));
}

/// Emit the prose between `start` and `end`, without surrounding
/// newlines, unless nothing is left.
fn flush_prose(t: &[char], start: usize, end: usize, out: &mut Vec<Section>)
    requires
        end <= t@.len(),
    ensures
        section_views(final(out)@) == section_views(old(out)@) + prose_part(t@, start as int, end as int),
{
    if start >= end {
        assert(section_views(out@) + Seq::<SectionView>::empty() == section_views(out@));
        return;
    }
    let slice = strip_chars(t, start, end, false);
    if slice.as_str().is_empty() {
        assert(section_views(out@) + Seq::<SectionView>::empty() == section_views(out@));
        return;
    }
    proof { lemma_section_views_push(out@, Section::Prose(slice)); }
    out.push(Section::Prose(slice));
}

/// Split a message body into heading, stack trace and prose sections, in
/// order.
pub fn split_text_sections(text: &str) -> (out: Vec<Section>)
    ensures
        section_views(out@) == sections_spec(text@),
{
    let t = to_chars(text);
    let len = t.len();
    let ghost target = sections_spec(text@);
    let mut out: Vec<Section> = Vec::new();
    let mut i: usize = 0;
    let mut ps: usize = 0;
    while i < len
        invariant
            len == t@.len(),
            t@ == text@,
            target == sections_spec(text@),
            ps <= i <= len,
            section_views(out@) + sect_scan(t@, i as int, ps as int) == target,
        decreases len - i,
    {
        let le = find_line_end(t.as_slice(), i);
        proof { lemma_line_end_bounds(t@, i as int); }
        let nx = if le < len { le + 1 } else { le };
        let line = from_chars(t.as_slice(), i, le);
        if is_heading(line.as_str()) {
            let ghost rest = sect_scan(t@, nx as int, nx as int);
            flush_prose(t.as_slice(), ps, i, &mut out);
            let h = strip_chars(t.as_slice(), i, le, true);
            proof { lemma_section_views_push(out@, Section::Heading(h)); }
            out.push(Section::Heading(h));
            assert(section_views(out@) + rest == target);
            ps = nx;
            i = nx;
        } else if is_stack_line(line.as_str()) {
            flush_prose(t.as_slice(), ps, i, &mut out);
            let mut scan = nx;
            while scan < len
                invariant
                    len == t@.len(),
                    nx <= scan <= len,
                    stack_end(t@, scan as int) == stack_end(t@, nx as int),
                ensures
                    scan <= len,
                    stack_end(t@, nx as int) == scan,
                decreases len - scan,
            {
                let le2 = find_line_end(t.as_slice(), scan);
                proof { lemma_line_end_bounds(t@, scan as int); }
                let l = from_chars(t.as_slice(), scan, le2);
                if is_stack_line(l.as_str()) {
                    scan = if le2 < len { le2 + 1 } else { le2 };
                } else {
                    break;
                }
            }
            let ghost rest = sect_scan(t@, scan as int, scan as int);
            let st = strip_end_newlines(t.as_slice(), i, scan);
            proof { lemma_section_views_push(out@, Section::StackTrace(st)); }
            out.push(Section::StackTrace(st));
            assert(section_views(out@) + rest == target);
            ps = scan;
            i = scan;
        } else {
            i = nx;
        }
    }
    flush_prose(t.as_slice(), ps, len, &mut out);
    out
}

} // verus!
