//! Bracket-indenting pretty printer for JSON-like text, with the fold
//! state of its lines: every `{`/`[` that opens a block starts a new,
//! deeper line, every `,` ends one, and a closing bracket (with its comma)
//! gets a line of its own.

use vstd::prelude::*;
use std::collections::HashSet;
use crate::text::strings::{
    from_chars, is_whitespace, lead_ws, lines_spec, push_char, push_str, skip_ws_backward,
    skip_ws_forward, str_lines, to_chars, trail_ws, trim, trim_end_spec, trim_spec,
    trim_start, trim_start_spec, ws, views, lemma_views_push, lemma_lead_ws_stops, lemma_trail_ws_stops,
};
use crate::text::wrap::spaces;

verus! {

/// The line a pending text becomes at depth `d`: trimmed and indented by
/// two spaces per level; nothing when it is blank.
pub open spec fn flush_lines(c: Seq<char>, d: nat) -> Seq<Seq<char>> {
    let t = trim_spec(c);
    if t.len() == 0 { seq![] } else { seq![spaces(2 * d) + t] }
}

/// After a closing bracket, the index where scanning resumes and whether a
/// comma was taken along: whitespace is skipped up to the first comma,
/// which is taken, or the first other char.
pub open spec fn close_tail(ch: Seq<char>, j: int) -> (int, bool)
    decreases ch.len() - j,
{
    if 0 <= j < ch.len() && ch[j] == ',' {
        (j + 1, true)
    } else if 0 <= j < ch.len() && ws(ch[j]) {
        close_tail(ch, j + 1)
    } else {
        (j, false)
    }
}

/// An opening bracket whose next non-whitespace char closes it starts no
/// new line.
pub open spec fn opens_empty(ch: Seq<char>, i: int) -> bool {
    let k = i + 1 + lead_ws(ch.skip(i + 1));
    k < ch.len() && (ch[k] == '}' || ch[k] == ']')
}

/// The lines emitted from `ch[i..]` at depth `d`, with `cur` pending and
/// the string state `ins` / `esc` (inside a string literal / just after a
/// backslash in one).
pub open spec fn indent_scan(ch: Seq<char>, i: int, d: nat, cur: Seq<char>, ins: bool, esc: bool) -> Seq<Seq<char>>
    decreases ch.len() - i, 1int,
{
    if i < 0 || i >= ch.len() {
        flush_lines(cur, d)
    } else {
        let c = ch[i];
        if esc {
            indent_scan(ch, i + 1, d, cur.push(c), ins, false)
        } else if c == '\\' && ins {
            indent_scan(ch, i + 1, d, cur.push(c), ins, true)
        } else if c == '"' {
            indent_scan(ch, i + 1, d, cur.push(c), !ins, false)
        } else if ins {
            indent_scan(ch, i + 1, d, cur.push(c), ins, false)
        } else if c == '{' || c == '[' {
            if opens_empty(ch, i) {
                indent_scan(ch, i + 1, d, cur.push(c), ins, false)
            } else {
                flush_lines(cur.push(c), d) + indent_scan(ch, i + 1, d + 1, seq![], ins, false)
            }
        } else if c == '}' || c == ']' {
            let d2: nat = if d > 0 { (d - 1) as nat } else { 0 };
            let tail = close_tail(ch, i + 1);
            proof { lemma_close_tail_bounds(ch, i + 1); }
            let closer = if tail.1 { seq![c, ','] } else { seq![c] };
            flush_lines(cur, d) + flush_lines(closer, d2) + indent_scan(ch, tail.0, d2, seq![], ins, false)
        } else if c == ',' {
            flush_lines(cur.push(','), d) + indent_scan(ch, i + 1, d, seq![], ins, false)
        } else if c == ' ' || c == '\n' || c == '\r' || c == '\t' {
            let cur2 = if cur.len() > 0 && cur.last() != ' ' { cur.push(' ') } else { cur };
            indent_scan(ch, i + 1, d, cur2, ins, false)
        } else {
            indent_scan(ch, i + 1, d, cur.push(c), ins, false)
        }
    }
}

/// The tail after a closing bracket moves forward and stays in the text.
pub proof fn lemma_close_tail_bounds(ch: Seq<char>, j: int)
    requires
        0 <= j,
    ensures
        j <= close_tail(ch, j).0,
        j <= ch.len() ==> close_tail(ch, j).0 <= ch.len(),
    decreases ch.len() - j,
{
    if 0 <= j < ch.len() && ch[j] != ',' && ws(ch[j]) {
        lemma_close_tail_bounds(ch, j + 1);
    }
}

/// The indented lines of a text.
pub open spec fn indent_spec(s: Seq<char>) -> Seq<Seq<char>> {
    indent_scan(s, 0, 0, seq![], false, false)
}

/// Emit `c`, trimmed and indented by `d` levels, unless it is blank.
pub fn flush(r: &mut Vec<String>, c: &str, d: usize)
    ensures
        views(final(r)@) == views(old(r)@) + flush_lines(c@, d as nat),
{
    let t = trim(c);
    if t.as_str().is_empty() {
        assert(views(r@) + flush_lines(c@, d as nat) == views(r@));
        return;
    }
    let mut line = String::new();
    let mut k: usize = 0;
    while k < d
        invariant
            k <= d,
            line@ == spaces(2 * k as nat),
        decreases d - k,
    {
        push_char(&mut line, ' ');
        push_char(&mut line, ' ');
        k = k + 1;
        assert(line@ =~= spaces(2 * k as nat));
    }
    push_str(&mut line, t.as_str());
    proof {
        lemma_views_push(r@, line);
        assert(views(r@).push(line@) == views(r@) + flush_lines(c@, d as nat));
    }
    r.push(line);
}

/// Emit the pending chars `cur`.
fn flush_chars(r: &mut Vec<String>, cur: &Vec<char>, d: usize)
    ensures
        views(final(r)@) == views(old(r)@) + flush_lines(cur@, d as nat),
{
    let s = from_chars(cur.as_slice(), 0, cur.len());
    assert(cur@.subrange(0, cur@.len() as int) == cur@);
    flush(r, s.as_str(), d);
}

/// Where scanning resumes after a closing bracket, and whether a comma
/// was taken.
fn scan_close_tail(ch: &[char], j0: usize) -> (r: (usize, bool))
    requires
        j0 <= ch@.len(),
    ensures
        (r.0 as int, r.1) == close_tail(ch@, j0 as int),
{
    let mut j = j0;
    while j < ch.len() && (ch[j] == ',' || is_whitespace(ch[j]))
        invariant
            j0 <= j <= ch@.len(),
            close_tail(ch@, j as int) == close_tail(ch@, j0 as int),
        decreases ch@.len() - j,
    {
        if ch[j] == ',' {
            return (j + 1, true);
        }
        j = j + 1;
    }
    (j, false)
}

/// Break JSON-like text into indented lines: a block opened by `{` or
/// `[` goes one level deeper on the next line, `,` ends a line, and a
/// closing bracket takes a line of its own, with the comma after it.
/// Text inside string literals is copied as it is.
pub fn indent_brackets(text: &str) -> (r: Vec<String>)
    ensures
        views(r@) == indent_spec(text@),
{
    let ch = to_chars(text);
    let len = ch.len();
    let ghost target = indent_spec(text@);
    let mut r: Vec<String> = Vec::new();
    let mut d: usize = 0;
    let mut cur: Vec<char> = Vec::new();
    let mut ins = false;
    let mut esc = false;
    let mut i: usize = 0;
    while i < len
        invariant
            i <= len,
            len == ch@.len(),
            ch@ == text@,
            d <= i,
            target == indent_spec(text@),
            views(r@) + indent_scan(ch@, i as int, d as nat, cur@, ins, esc) == target,
        decreases len - i,
    {
        let c = ch[i];
        let ghost rest = indent_scan(ch@, i as int, d as nat, cur@, ins, esc);
        if esc {
            cur.push(c);
            esc = false;
            i = i + 1;
        } else if c == '\\' && ins {
            cur.push(c);
            esc = true;
            i = i + 1;
        } else if c == '"' {
            ins = !ins;
            cur.push(c);
            i = i + 1;
        } else if ins {
            cur.push(c);
            i = i + 1;
        } else if c == '{' || c == '[' {
            cur.push(c);
            let k = skip_ws_forward(ch.as_slice(), i + 1);
            let em = k < len && (ch[k] == '}' || ch[k] == ']');
            if !em {
                let ghost next = indent_scan(ch@, i + 1, (d + 1) as nat, seq![], ins, false);
                flush_chars(&mut r, &cur, d);
                assert(views(r@) + next == target);
                cur = Vec::new();
                d = d + 1;
            }
            i = i + 1;
        } else if c == '}' || c == ']' {
            let ghost pre = views(r@);
            flush_chars(&mut r, &cur, d);
            d = if d > 0 { d - 1 } else { 0 };
            let mut closer: Vec<char> = Vec::new();
            closer.push(c);
            let (j, comma) = scan_close_tail(ch.as_slice(), i + 1);
            proof { lemma_close_tail_bounds(ch@, i + 1); }
            if comma {
                closer.push(',');
            }
            assert(closer@ == (if comma { seq![c, ','] } else { seq![c] }));
            let ghost next = indent_scan(ch@, j as int, d as nat, seq![], ins, false);
            flush_chars(&mut r, &closer, d);
            assert(views(r@) + next == target);
            cur = Vec::new();
            i = j;
        } else if c == ',' {
            cur.push(',');
            let ghost next = indent_scan(ch@, i + 1, d as nat, seq![], ins, false);
            flush_chars(&mut r, &cur, d);
            assert(views(r@) + next == target);
            cur = Vec::new();
            i = i + 1;
        } else if c == ' ' || c == '\n' || c == '\r' || c == '\t' {
            let n = cur.len();
            if n > 0 && cur[n - 1] != ' ' {
                cur.push(' ');
            }
            i = i + 1;
        } else {
            cur.push(c);
            i = i + 1;
        }
    }
    flush_chars(&mut r, &cur, d);
    r
}

/// A formatted line: its text, its nesting depth, and for a line that
/// opens a block, the index of the line that closes it.
pub struct FmtLine {
    pub text: String,
    pub depth: usize,
    pub close_line: Option<usize>,
}

/// A formatted line as text, depth and closing line.
pub open spec fn fmt_view(f: FmtLine) -> (Seq<char>, nat, Option<nat>) {
    (f.text@, f.depth as nat, match f.close_line { Some(c) => Some(c as nat), None => None })
}

/// The views of formatted lines.
pub open spec fn fmt_views(v: Seq<FmtLine>) -> Seq<(Seq<char>, nat, Option<nat>)> {
    v.map_values(|f: FmtLine| fmt_view(f))
}

/// A line opens a block when, trailing whitespace dropped, it ends in
/// `{` or `[`.
pub open spec fn opens_block(t: Seq<char>) -> bool {
    let e = trim_end_spec(t);
    e.len() > 0 && (e.last() == '{' || e.last() == '[')
}

/// A line closes a block when, leading whitespace dropped, it starts with
/// `}` or `]`.
pub open spec fn closes_block(t: Seq<char>) -> bool {
    let s = trim_start_spec(t);
    s.len() > 0 && (s[0] == '}' || s[0] == ']')
}

/// Pair opening and closing lines with a stack, line by line: an opening
/// line is pushed, then a closing line pops the innermost open one and
/// becomes its closing line. Returns, per line, the index of its closing
/// line, and the stack of still-open lines.
pub open spec fn match_brackets(ts: Seq<Seq<char>>) -> (Seq<Option<nat>>, Seq<nat>)
    decreases ts.len(),
{
    if ts.len() == 0 {
        (seq![], seq![])
    } else {
        let p = match_brackets(ts.drop_last());
        let i = (ts.len() - 1) as nat;
        let t = ts.last();
        let cl = p.0.push(None::<nat>);
        let st = if opens_block(t) { p.1.push(i) } else { p.1 };
        if closes_block(t) && st.len() > 0 {
            (cl.update(st.last() as int, Some(i)), st.drop_last())
        } else {
            (cl, st)
        }
    }
}

/// Half the number of leading whitespace chars.
pub open spec fn indent_depth(t: Seq<char>) -> nat {
    lead_ws(t) / 2
}

/// The index of the first `{` or `[` in `s`, if any.
pub open spec fn first_bracket(s: Seq<char>) -> Option<nat> {
    if exists|k: int| 0 <= k < s.len() && (s[k] == '{' || s[k] == '[') {
        Some((choose|k: int| 0 <= k < s.len() && (s[k] == '{' || s[k] == '[')
            && forall|m: int| 0 <= m < k ==> s[m] != '{' && s[m] != '[') as nat)
    } else {
        None
    }
}

/// `bracket_format` as text, depth and closing line of each line. Text
/// with a bracket: the trimmed text before the first bracket, when not
/// blank, at depth 0, then the indented lines from the bracket on, each
/// with its depth read off its indent and paired with its closing line.
/// Text without a bracket: its lines as they are, at depth 0.
pub open spec fn bracket_spec(text: Seq<char>) -> Seq<(Seq<char>, nat, Option<nat>)> {
    match first_bracket(text) {
        Some(sp) => {
            let prefix = trim_spec(text.take(sp as int));
            let pre: Seq<(Seq<char>, nat, Option<nat>)> =
                if prefix.len() > 0 { seq![(prefix, 0nat, None::<nat>)] } else { seq![] };
            let base = pre.len();
            let raw = indent_spec(text.skip(sp as int));
            let cl = match_brackets(raw).0;
            pre + Seq::new(raw.len(), |k: int| (raw[k], indent_depth(raw[k]),
                match cl[k] { Some(c) => Some(base + c), None => None::<nat> }))
        },
        None => lines_spec(text).map_values(|l: Seq<char>| (l, 0nat, None::<nat>)),
    }
}

/// Closing lines and stack entries of `match_brackets` are line indices.
pub proof fn lemma_match_bounds(ts: Seq<Seq<char>>)
    ensures
        match_brackets(ts).0.len() == ts.len(),
        forall|k: int| 0 <= k < match_brackets(ts).1.len() ==> #[trigger] match_brackets(ts).1[k] < ts.len(),
        forall|k: int| 0 <= k < ts.len() && (#[trigger] match_brackets(ts).0[k]) is Some
            ==> match_brackets(ts).0[k]->0 < ts.len(),
    decreases ts.len(),
{
    if ts.len() > 0 {
        lemma_match_bounds(ts.drop_last());
    }
}

/// What `match_brackets` keeps true: every pairing goes from an opening
/// line to a closing line at or after it; the open lines on the stack are
/// in order, open, and unpaired; pairs nest (a pair that starts inside
/// another ends inside it); and no open line lies inside a pair.
pub open spec fn pairs_ok(ts: Seq<Seq<char>>, cl: Seq<Option<nat>>, st: Seq<nat>) -> bool {
    &&& cl.len() == ts.len()
    &&& forall|k: int| 0 <= k < cl.len() && (#[trigger] cl[k]) is Some ==>
        k <= cl[k]->0 < ts.len() && opens_block(ts[k]) && closes_block(ts[cl[k]->0 as int])
    &&& forall|a: int, b: int| 0 <= a < b < st.len() ==> #[trigger] st[a] < #[trigger] st[b]
    &&& forall|a: int| 0 <= a < st.len() ==> (#[trigger] st[a]) < ts.len() && opens_block(ts[st[a] as int])
        && cl[st[a] as int] is None
    &&& forall|i: int, j: int| 0 <= i < j < cl.len() && (#[trigger] cl[i]) is Some && (#[trigger] cl[j]) is Some
        && j < cl[i]->0 ==> cl[j]->0 < cl[i]->0
    &&& forall|i: int, a: int| 0 <= i < cl.len() && 0 <= a < st.len() && (#[trigger] cl[i]) is Some
        ==> !(i < #[trigger] st[a] <= cl[i]->0)
}

/// Bracket pairing is sound and properly nested: each closing line found
/// for a line comes at or after it, the line opens a block and its closing
/// line closes one, and two pairs never cross.
pub proof fn lemma_brackets_nest(ts: Seq<Seq<char>>)
    ensures
        pairs_ok(ts, match_brackets(ts).0, match_brackets(ts).1),
    decreases ts.len(),
{
    if ts.len() > 0 {
        let q = ts.drop_last();
        lemma_brackets_nest(q);
        let p = match_brackets(q);
        let n = (ts.len() - 1) as nat;
        let t = ts.last();
        assert forall|k: int| 0 <= k < q.len() implies ts[k] == q[k] by {}
        let cl = p.0.push(None::<nat>);
        let st = if opens_block(t) { p.1.push(n) } else { p.1 };
        assert(pairs_ok(ts, cl, st)) by {
            assert forall|a: int| 0 <= a < st.len() implies (#[trigger] st[a]) < ts.len()
                && opens_block(ts[st[a] as int]) && cl[st[a] as int] is None by {
                if a < p.1.len() { assert(st[a] == p.1[a]); }
            }
            assert forall|a: int, b: int| 0 <= a < b < st.len() implies #[trigger] st[a] < #[trigger] st[b] by {
                if b < p.1.len() { assert(st[a] == p.1[a] && st[b] == p.1[b]); } else { assert(st[a] == p.1[a]); }
            }
            assert forall|k: int| 0 <= k < cl.len() && (#[trigger] cl[k]) is Some implies
                k <= cl[k]->0 < ts.len() && opens_block(ts[k]) && closes_block(ts[cl[k]->0 as int]) by {
                assert(cl[k] == p.0[k]);
            }
            assert forall|i: int, a: int| 0 <= i < cl.len() && 0 <= a < st.len() && (#[trigger] cl[i]) is Some
                implies !(i < #[trigger] st[a] <= cl[i]->0) by {
                assert(cl[i] == p.0[i]);
                if a < p.1.len() { assert(st[a] == p.1[a]); }
            }
            assert forall|i: int, j: int| 0 <= i < j < cl.len() && (#[trigger] cl[i]) is Some && (#[trigger] cl[j]) is Some
                && j < cl[i]->0 implies cl[j]->0 < cl[i]->0 by {
                assert(cl[i] == p.0[i] && cl[j] == p.0[j]);
            }
        }
        if closes_block(t) && st.len() > 0 {
            let top = st.last();
            let cl2 = cl.update(top as int, Some(n));
            let st2 = st.drop_last();
            assert(st[st.len() - 1] == top);
            assert forall|k: int| 0 <= k < cl2.len() && (#[trigger] cl2[k]) is Some implies
                k <= cl2[k]->0 < ts.len() && opens_block(ts[k]) && closes_block(ts[cl2[k]->0 as int]) by {
                if k != top { assert(cl2[k] == cl[k]); }
            }
            assert forall|a: int| 0 <= a < st2.len() implies (#[trigger] st2[a]) < ts.len()
                && opens_block(ts[st2[a] as int]) && cl2[st2[a] as int] is None by {
                assert(st2[a] == st[a]);
                assert(st[a] < st[st.len() - 1]);
            }
            assert forall|a: int, b: int| 0 <= a < b < st2.len() implies #[trigger] st2[a] < #[trigger] st2[b] by {
                assert(st2[a] == st[a] && st2[b] == st[b]);
            }
            assert forall|i: int, a: int| 0 <= i < cl2.len() && 0 <= a < st2.len() && (#[trigger] cl2[i]) is Some
                implies !(i < #[trigger] st2[a] <= cl2[i]->0) by {
                assert(st2[a] == st[a]);
                assert(st[a] < top);
                if i != top {
                    assert(cl2[i] == cl[i]);
                }
            }
            assert forall|i: int, j: int| 0 <= i < j < cl2.len() && (#[trigger] cl2[i]) is Some && (#[trigger] cl2[j]) is Some
                && j < cl2[i]->0 implies cl2[j]->0 < cl2[i]->0 by {
                if i == top {
                    // A pair inside the one just closed ended before this line.
                    assert(cl2[j] == cl[j]);
                    assert(cl[j] is Some);
                } else if j == top {
                    // The line just closed lies inside an earlier pair: it was
                    // on the stack, which no earlier pair contains.
                    assert(cl2[i] == cl[i]);
                    assert(st[st.len() - 1] == top);
                    assert(!(i < st[st.len() - 1] <= cl[i]->0));
                } else {
                    assert(cl2[i] == cl[i] && cl2[j] == cl[j]);
                }
            }
            assert(pairs_ok(ts, cl2, st2));
        }
    }
}

/// A closing bracket.
pub open spec fn closer(c: char) -> bool {
    c == '}' || c == ']'
}

/// A line of the indented output: non-blank text after an indent of two
/// spaces per level, and never a line that both closes and opens a block.
pub open spec fn shaped_line(l: Seq<char>) -> bool {
    &&& trim_spec(l).len() > 0
    &&& l == spaces(2 * indent_depth(l)) + trim_spec(l)
    &&& !(opens_block(l) && closes_block(l))
}

/// Trimmed text that is not blank starts and ends with non-whitespace.
proof fn lemma_trim_ends(x: Seq<char>)
    ensures
        trim_spec(x).len() > 0 ==> !ws(trim_spec(x)[0]) && !ws(trim_spec(x).last())
            && trim_spec(x)[0] == trim_start_spec(x)[0],
{
    let s = trim_start_spec(x);
    lemma_lead_ws_stops(x);
    lemma_trail_ws_stops(s);
    if trim_spec(x).len() > 0 {
        assert(s.len() > 0);
        assert(s[0] == x[lead_ws(x) as int]);
    }
}

proof fn lemma_lead_ws_spaces(n: nat, t: Seq<char>)
    ensures
        lead_ws(spaces(n) + t) == n + lead_ws(t),
    decreases n,
{
    if n > 0 {
        assert((spaces(n) + t).drop_first() =~= spaces((n - 1) as nat) + t);
        lemma_lead_ws_spaces((n - 1) as nat, t);
    } else {
        assert(spaces(0) + t =~= t);
    }
}

/// An indented line of trimmed, non-blank text keeps its shape, and opens
/// or closes a block as that text's last or first char says.
proof fn lemma_flush_shape(x: Seq<char>, d: nat)
    requires
        trim_spec(x).len() > 0,
    ensures
        ({
            let t = trim_spec(x);
            let l = spaces(2 * d) + t;
            &&& trim_spec(l) == t
            &&& indent_depth(l) == d
            &&& closes_block(l) == closer(t[0])
            &&& opens_block(l) == (t.last() == '{' || t.last() == '[')
        }),
{
    let t = trim_spec(x);
    let l = spaces(2 * d) + t;
    lemma_trim_ends(x);
    lemma_lead_ws_spaces(2 * d, t);
    assert(lead_ws(t) == 0);
    assert(trim_start_spec(l) =~= t);
    assert(trail_ws(t) == 0);
    assert(trail_ws(l) == 0) by {
        assert(l.last() == t.last());
    }
    assert(trim_end_spec(t) =~= t);
    assert(trim_end_spec(l) =~= l);
    assert((2 * d) / 2 == d);
}

/// What the pending text keeps: after whitespace, it never starts with a
/// closing bracket, and inside a string it is not blank.
pub open spec fn pending_ok(cur: Seq<char>, ins: bool, esc: bool) -> bool {
    &&& esc ==> ins
    &&& ins ==> trim_start_spec(cur).len() > 0
    &&& trim_start_spec(cur).len() > 0 ==> !closer(trim_start_spec(cur)[0])
}

proof fn lemma_trim_start_push(cur: Seq<char>, c: char)
    ensures
        trim_start_spec(cur.push(c)) == if trim_start_spec(cur).len() == 0 {
            if ws(c) { seq![] } else { seq![c] }
        } else {
            trim_start_spec(cur).push(c)
        },
    decreases cur.len(),
{
    if cur.len() > 0 && ws(cur[0]) {
        let r = cur.drop_first();
        assert(cur.push(c).drop_first() =~= r.push(c));
        lemma_trim_start_push(r, c);
        lemma_lead_ws_stops(r);
        lemma_lead_ws_stops(r.push(c));
        assert(lead_ws(cur) == 1 + lead_ws(r));
        assert(cur.push(c)[0] == cur[0]);
        assert(lead_ws(cur.push(c)) == 1 + lead_ws(r.push(c)));
        assert(trim_start_spec(cur) =~= trim_start_spec(r));
        assert(trim_start_spec(cur.push(c)) =~= trim_start_spec(r.push(c)));
    } else if cur.len() > 0 {
        assert(lead_ws(cur) == 0);
        assert(cur.push(c)[0] == cur[0]);
        assert(lead_ws(cur.push(c)) == 0);
        assert(trim_start_spec(cur) =~= cur);
        assert(trim_start_spec(cur.push(c)) =~= cur.push(c));
    } else {
        let one = seq![c];
        assert(cur.push(c) =~= one);
        assert(one.drop_first() =~= Seq::<char>::empty());
        assert(lead_ws(Seq::<char>::empty()) == 0);
        assert(lead_ws(one) == if ws(c) { 1nat } else { 0nat });
        assert(trim_start_spec(cur) =~= Seq::<char>::empty());
        assert(trim_start_spec(one) =~= if ws(c) { seq![] } else { seq![c] });
    }
}

proof fn lemma_flush_ok(x: Seq<char>, d: nat)
    requires
        trim_start_spec(x).len() > 0 ==> !closer(trim_start_spec(x)[0]),
    ensures
        forall|j: int| 0 <= j < flush_lines(x, d).len() ==> shaped_line(#[trigger] flush_lines(x, d)[j]),
{
    if trim_spec(x).len() > 0 {
        lemma_flush_shape(x, d);
        lemma_trim_ends(x);
        assert(flush_lines(x, d)[0] == spaces(2 * d) + trim_spec(x));
    }
}

proof fn lemma_closer_line_ok(closer_text: Seq<char>, d: nat)
    requires
        closer_text.len() > 0,
        !ws(closer_text[0]),
        closer_text.last() == '}' || closer_text.last() == ']' || closer_text.last() == ',',
        forall|k: int| 0 <= k < closer_text.len() ==> !ws(#[trigger] closer_text[k]),
    ensures
        forall|j: int| 0 <= j < flush_lines(closer_text, d).len() ==> shaped_line(#[trigger] flush_lines(closer_text, d)[j]),
{
    assert(lead_ws(closer_text) == 0);
    assert(trim_start_spec(closer_text) =~= closer_text);
    assert(trail_ws(closer_text) == 0);
    assert(trim_spec(closer_text) =~= closer_text);
    lemma_flush_shape(closer_text, d);
}

/// Every line the scan emits is shaped.
proof fn lemma_scan_shaped(ch: Seq<char>, i: int, d: nat, cur: Seq<char>, ins: bool, esc: bool)
    requires
        pending_ok(cur, ins, esc),
    ensures
        forall|j: int| 0 <= j < indent_scan(ch, i, d, cur, ins, esc).len()
            ==> shaped_line(#[trigger] indent_scan(ch, i, d, cur, ins, esc)[j]),
    decreases ch.len() - i,
{
    let out = indent_scan(ch, i, d, cur, ins, esc);
    if i < 0 || i >= ch.len() {
        lemma_flush_ok(cur, d);
    } else {
        let c = ch[i];
        lemma_trim_start_push(cur, c);
        if esc {
            assert(out == indent_scan(ch, i + 1, d, cur.push(c), ins, false));
            lemma_scan_shaped(ch, i + 1, d, cur.push(c), ins, false);
        } else if c == '\\' && ins {
            assert(out == indent_scan(ch, i + 1, d, cur.push(c), ins, true));
            lemma_scan_shaped(ch, i + 1, d, cur.push(c), ins, true);
        } else if c == '"' {
            assert(out == indent_scan(ch, i + 1, d, cur.push(c), !ins, false));
            lemma_scan_shaped(ch, i + 1, d, cur.push(c), !ins, false);
        } else if ins {
            assert(out == indent_scan(ch, i + 1, d, cur.push(c), ins, false));
            lemma_scan_shaped(ch, i + 1, d, cur.push(c), ins, false);
        } else if c == '{' || c == '[' {
            if opens_empty(ch, i) {
                assert(out == indent_scan(ch, i + 1, d, cur.push(c), ins, false));
                lemma_scan_shaped(ch, i + 1, d, cur.push(c), ins, false);
            } else {
                lemma_flush_ok(cur.push(c), d);
                assert(trim_start_spec(Seq::<char>::empty()) =~= Seq::<char>::empty());
                lemma_scan_shaped(ch, i + 1, d + 1, seq![], ins, false);
                let a = flush_lines(cur.push(c), d);
                let b = indent_scan(ch, i + 1, d + 1, seq![], ins, false);
                assert(out == a + b);
                assert forall|j: int| 0 <= j < out.len() implies shaped_line(#[trigger] out[j]) by {
                    if j < a.len() { assert(out[j] == a[j]); } else { assert(out[j] == b[j - a.len()]); }
                }
            }
        } else if c == '}' || c == ']' {
            let d2: nat = if d > 0 { (d - 1) as nat } else { 0 };
            let tail = close_tail(ch, i + 1);
            lemma_close_tail_bounds(ch, i + 1);
            let closer_text = if tail.1 { seq![c, ','] } else { seq![c] };
            lemma_flush_ok(cur, d);
            lemma_closer_line_ok(closer_text, d2);
            assert(trim_start_spec(Seq::<char>::empty()) =~= Seq::<char>::empty());
            lemma_scan_shaped(ch, tail.0, d2, seq![], ins, false);
            let a = flush_lines(cur, d);
            let b = flush_lines(closer_text, d2);
            let r = indent_scan(ch, tail.0, d2, seq![], ins, false);
            assert(out == a + b + r);
            assert forall|j: int| 0 <= j < out.len() implies shaped_line(#[trigger] out[j]) by {
                if j < a.len() { assert(out[j] == a[j]); }
                else if j < a.len() + b.len() { assert(out[j] == b[j - a.len()]); }
                else { assert(out[j] == r[j - a.len() - b.len()]); }
            }
        } else if c == ',' {
            lemma_flush_ok(cur.push(','), d);
            assert(trim_start_spec(Seq::<char>::empty()) =~= Seq::<char>::empty());
            lemma_scan_shaped(ch, i + 1, d, seq![], ins, false);
            let a = flush_lines(cur.push(','), d);
            let b = indent_scan(ch, i + 1, d, seq![], ins, false);
            assert(out == a + b);
            assert forall|j: int| 0 <= j < out.len() implies shaped_line(#[trigger] out[j]) by {
                if j < a.len() { assert(out[j] == a[j]); } else { assert(out[j] == b[j - a.len()]); }
            }
        } else if c == ' ' || c == '\n' || c == '\r' || c == '\t' {
            lemma_trim_start_push(cur, ' ');
            let cur2 = if cur.len() > 0 && cur.last() != ' ' { cur.push(' ') } else { cur };
            assert(out == indent_scan(ch, i + 1, d, cur2, ins, false));
            lemma_scan_shaped(ch, i + 1, d, cur2, ins, false);
        } else {
            assert(out == indent_scan(ch, i + 1, d, cur.push(c), ins, false));
            lemma_scan_shaped(ch, i + 1, d, cur.push(c), ins, false);
        }
    }
}

/// Every line of `indent_brackets` is its indent (two spaces per level)
/// then its non-blank trimmed text, and no line both closes and opens a
/// block.
pub proof fn lemma_indent_lines_shaped(s: Seq<char>)
    ensures
        forall|j: int| 0 <= j < indent_spec(s).len() ==> shaped_line(#[trigger] indent_spec(s)[j]),
{
    assert(trim_start_spec(Seq::<char>::empty()) =~= Seq::<char>::empty());
    lemma_scan_shaped(s, 0, 0, seq![], false, false);
}

/// When no line both closes and opens a block, every pair's closing line
/// comes strictly after its opening line.
proof fn lemma_match_strict(ts: Seq<Seq<char>>)
    requires
        forall|k: int| 0 <= k < ts.len() ==> !(opens_block(#[trigger] ts[k]) && closes_block(ts[k])),
    ensures
        forall|k: int| 0 <= k < ts.len() && (#[trigger] match_brackets(ts).0[k]) is Some
            ==> k < match_brackets(ts).0[k]->0,
    decreases ts.len(),
{
    if ts.len() > 0 {
        let q = ts.drop_last();
        assert forall|k: int| 0 <= k < q.len() implies !(opens_block(#[trigger] q[k]) && closes_block(q[k])) by {
            assert(q[k] == ts[k]);
        }
        lemma_match_strict(q);
        lemma_match_bounds(q);
        lemma_brackets_nest(ts);
        let p = match_brackets(q);
        let n = (ts.len() - 1) as nat;
        let t = ts.last();
        let cl = p.0.push(None::<nat>);
        let st = if opens_block(t) { p.1.push(n) } else { p.1 };
        if closes_block(t) && st.len() > 0 {
            let top = st.last();
            assert(!(opens_block(ts[n as int]) && closes_block(ts[n as int])));
            assert(top < n) by {
                if !opens_block(t) { assert(st.last() == p.1[p.1.len() - 1]); }
            }
            let cl2 = cl.update(top as int, Some(n));
            assert forall|k: int| 0 <= k < ts.len() && (#[trigger] match_brackets(ts).0[k]) is Some
                implies k < match_brackets(ts).0[k]->0 by {
                if k != top { assert(cl2[k] == cl[k]); if k < n { assert(cl[k] == p.0[k]); } }
            }
        } else {
            assert forall|k: int| 0 <= k < ts.len() && (#[trigger] match_brackets(ts).0[k]) is Some
                implies k < match_brackets(ts).0[k]->0 by {
                if k < n { assert(cl[k] == p.0[k]); }
            }
        }
    }
}

/// The lines of `bracket_format` pair soundly and nest: a line's closing
/// line comes after it, the line opens a block and the closing line
/// closes one, and a pair that starts inside another ends inside it. Text
/// without a `{` or `[` comes back line by line, at depth 0, unpaired.
pub proof fn lemma_bracket_format_nests(text: Seq<char>)
    ensures
        ({
            let v = bracket_spec(text);
            &&& forall|i: int| 0 <= i < v.len() && (#[trigger] v[i]).2 is Some ==>
                i < v[i].2->0 < v.len() && opens_block(v[i].0) && closes_block(v[v[i].2->0 as int].0)
            &&& forall|i: int, j: int| 0 <= i < j < v.len() && (#[trigger] v[i]).2 is Some
                && (#[trigger] v[j]).2 is Some && j < v[i].2->0 ==> v[j].2->0 < v[i].2->0
        }),
        first_bracket(text) is None ==> bracket_spec(text)
            == lines_spec(text).map_values(|l: Seq<char>| (l, 0nat, None::<nat>)),
{
    match first_bracket(text) {
        Some(sp) => {
            let prefix = trim_spec(text.take(sp as int));
            let base: nat = if prefix.len() > 0 { 1 } else { 0 };
            let raw = indent_spec(text.skip(sp as int));
            lemma_brackets_nest(raw);
            lemma_indent_lines_shaped(text.skip(sp as int));
            lemma_match_strict(raw);
            let cl = match_brackets(raw).0;
            let v = bracket_spec(text);
            assert(v.len() == base + raw.len());
            assert forall|k: int| 0 <= k < raw.len() implies #[trigger] v[base + k]
                == (raw[k], indent_depth(raw[k]), match cl[k] { Some(c) => Some(base + c), None => None::<nat> }) by {}
            assert forall|i: int| 0 <= i < v.len() && (#[trigger] v[i]).2 is Some implies
                i < v[i].2->0 < v.len() && opens_block(v[i].0) && closes_block(v[v[i].2->0 as int].0) by {
                if base == 1 && i == 0 {
                } else {
                    let k = i - base;
                    assert(v[base + k] == v[i]);
                    assert(cl[k] is Some);
                    let c = cl[k]->0;
                    assert(v[(base + c) as int] == v[v[i].2->0 as int]);
                }
            }
            assert forall|i: int, j: int| 0 <= i < j < v.len() && (#[trigger] v[i]).2 is Some
                && (#[trigger] v[j]).2 is Some && j < v[i].2->0 implies v[j].2->0 < v[i].2->0 by {
                if base == 1 && i == 0 {
                } else {
                    assert(v[base + (i - base)] == v[i]);
                    assert(v[base + (j - base)] == v[j]);
                    assert(cl[i - base] is Some && cl[j - base] is Some);
                }
            }
        },
        None => {},
    }
}

/// Pushing a line pushes its view.
pub proof fn lemma_fmt_views_push(v: Seq<FmtLine>, x: FmtLine)
    ensures
        fmt_views(v.push(x)) == fmt_views(v).push(fmt_view(x)),
{
    assert(fmt_views(v.push(x)) =~= fmt_views(v).push(fmt_view(x)));
}

/// The index of the first `{` or `[` in `ch`.
fn find_bracket(ch: &[char]) -> (r: Option<usize>)
    ensures
        match r {
            Some(k) => first_bracket(ch@) == Some(k as nat) && k < ch@.len(),
            None => first_bracket(ch@) is None,
        },
{
    let mut k: usize = 0;
    while k < ch.len()
        invariant
            k <= ch@.len(),
            forall|m: int| 0 <= m < k ==> ch@[m] != '{' && ch@[m] != '[',
        decreases ch@.len() - k,
    {
        if ch[k] == '{' || ch[k] == '[' {
            proof {
                let p = |j: int| 0 <= j < ch@.len() && (ch@[j] == '{' || ch@[j] == '[')
                    && forall|m: int| 0 <= m < j ==> ch@[m] != '{' && ch@[m] != '[';
                assert(p(k as int));
                let c = choose|j: int| 0 <= j < ch@.len() && (ch@[j] == '{' || ch@[j] == '[')
                    && forall|m: int| 0 <= m < j ==> ch@[m] != '{' && ch@[m] != '[';
                assert(p(c));
                if c < k {
                    assert(ch@[c] != '{' && ch@[c] != '[');
                } else if c > k {
                    assert(ch@[k as int] != '{' && ch@[k as int] != '[');
                }
                assert(c == k);
            }
            return Some(k);
        }
        k = k + 1;
    }
    None
}

/// Depth, and whether the line opens and closes a block.
fn line_shape(t: &str) -> (r: (usize, bool, bool))
    ensures
        r.0 as nat == indent_depth(t@),
        r.1 == opens_block(t@),
        r.2 == closes_block(t@),
{
    let v = to_chars(t);
    let n = v.len();
    let a = skip_ws_forward(v.as_slice(), 0);
    assert(v@.skip(0) == v@);
    let b = skip_ws_backward(v.as_slice(), 0, n);
    assert(v@.subrange(0, n as int) == v@);
    let opens = b > 0 && (v[b - 1] == '{' || v[b - 1] == '[');
    let closes = a < n && (v[a] == '}' || v[a] == ']');
    (a / 2, opens, closes)
}

/// Format text with bracket indentation for JSON-like content: the text
/// before the first bracket, then the indented lines from it on, each with
/// its depth and, for a line that opens a block, the line that closes it.
/// Text without a bracket is kept line by line.
pub fn bracket_format(text: &str) -> (lines: Vec<FmtLine>)
    ensures
        fmt_views(lines@) == bracket_spec(text@),
{
    let ch = to_chars(text);
    let mut lines: Vec<FmtLine> = Vec::new();
    match find_bracket(ch.as_slice()) {
        Some(sp) => {
            let head = from_chars(ch.as_slice(), 0, sp);
            assert(head@ == text@.take(sp as int));
            let prefix = trim(head.as_str());
            if !prefix.as_str().is_empty() {
                lines.push(FmtLine { text: prefix, depth: 0, close_line: None });
            }
            let base = lines.len();
            let rest = from_chars(ch.as_slice(), sp, ch.len());
            assert(rest@ == text@.skip(sp as int));
            let raw = indent_brackets(rest.as_str());
            let ghost rv = views(raw@);
            let mut closes: Vec<Option<usize>> = Vec::new();
            let mut depths: Vec<usize> = Vec::new();
            let mut stack: Vec<usize> = Vec::new();
            let mut i: usize = 0;
            assert(rv.take(0) =~= Seq::<Seq<char>>::empty());
            while i < raw.len()
                invariant
                    rv == views(raw@),
                    i <= raw@.len(),
                    closes@.map_values(|c: Option<usize>| match c { Some(x) => Some(x as nat), None => None::<nat> })
                        == match_brackets(rv.take(i as int)).0,
                    stack@.map_values(|x: usize| x as nat) == match_brackets(rv.take(i as int)).1,
                    depths@.len() == i,
                    forall|k: int| 0 <= k < i ==> depths@[k] as nat == indent_depth(#[trigger] rv[k]),
                decreases raw@.len() - i,
            {
                let ghost ts = rv.take(i as int + 1);
                let ghost p = match_brackets(rv.take(i as int));
                proof {
                    assert(ts.drop_last() == rv.take(i as int));
                    assert(ts.last() == rv[i as int]);
                    lemma_match_bounds(rv.take(i as int));
                }
                let (depth, opens, closes_here) = line_shape(raw[i].as_str());
                depths.push(depth);
                closes.push(None);
                if opens {
                    stack.push(i);
                }
                if closes_here {
                    let n = stack.len();
                    if n > 0 {
                        let oi = stack[n - 1];
                        stack.pop();
                        closes.set(oi, Some(i));
                    }
                }
                proof {
                    assert(closes@.map_values(|c: Option<usize>| match c { Some(x) => Some(x as nat), None => None::<nat> })
                        =~= match_brackets(ts).0);
                    assert(stack@.map_values(|x: usize| x as nat) =~= match_brackets(ts).1);
                }
                i = i + 1;
            }
            assert(rv.take(i as int) == rv);
            proof { lemma_match_bounds(rv); }
            let ghost pre = fmt_views(lines@);
            assert forall|m: int| 0 <= m < raw@.len() && (#[trigger] closes@[m]) is Some implies closes@[m]->0 < raw@.len() by {
                let mapped = closes@.map_values(|c: Option<usize>| match c { Some(x) => Some(x as nat), None => None::<nat> });
                assert(mapped[m] == match_brackets(rv).0[m]);
            }
            let mut k: usize = 0;
            while k < raw.len()
                invariant
                    rv == views(raw@),
                    k <= raw@.len(),
                    base <= 1,
                    lines@.len() == base + k,
                    closes@.len() == raw@.len(),
                    depths@.len() == raw@.len(),
                    forall|m: int| 0 <= m < raw@.len() ==> depths@[m] as nat == indent_depth(#[trigger] rv[m]),
                    forall|m: int| 0 <= m < raw@.len() && (#[trigger] closes@[m]) is Some ==> closes@[m]->0 < raw@.len(),
                    fmt_views(lines@) == pre + Seq::new(k as nat, |m: int| (rv[m], indent_depth(rv[m]),
                        match closes@[m] { Some(c) => Some((base + c) as nat), None => None::<nat> })),
                    pre.len() == base,
                decreases raw@.len() - k,
            {
                let close_line = match closes[k] { Some(c) => Some(base + c), None => None };
                let line = FmtLine { text: raw[k].clone(), depth: depths[k], close_line };
                let ghost before = fmt_views(lines@);
                proof { lemma_fmt_views_push(lines@, line); }
                lines.push(line);
                proof {
                    assert(line.text@ == rv[k as int]);
                    assert(fmt_view(line) == (rv[k as int], indent_depth(rv[k as int]),
                        match closes@[k as int] { Some(c) => Some((base + c) as nat), None => None::<nat> }));
                    assert(fmt_views(lines@) =~= pre + Seq::new((k + 1) as nat, |m: int| (rv[m], indent_depth(rv[m]),
                        match closes@[m] { Some(c) => Some((base + c) as nat), None => None::<nat> })));
                }
                k = k + 1;
            }
            proof {
                let cl = match_brackets(rv).0;
                assert(forall|m: int| 0 <= m < rv.len() ==> (#[trigger] cl[m]) == (match closes@[m] { Some(x) => Some(x as nat), None => None::<nat> }));
                assert(fmt_views(lines@) =~= bracket_spec(text@));
            }
            lines
        },
        None => {
            let ls = str_lines(text);
            let mut k: usize = 0;
            while k < ls.len()
                invariant
                    k <= ls@.len(),
                    views(ls@) == lines_spec(text@),
                    fmt_views(lines@) == views(ls@).take(k as int).map_values(|l: Seq<char>| (l, 0nat, None::<nat>)),
                decreases ls@.len() - k,
            {
                let line = FmtLine { text: ls[k].clone(), depth: 0, close_line: None };
                proof { lemma_fmt_views_push(lines@, line); }
                lines.push(line);
                assert(line.text@ == views(ls@)[k as int]);
                assert(fmt_views(lines@) =~= views(ls@).take(k as int + 1).map_values(|l: Seq<char>| (l, 0nat, None::<nat>)));
                k = k + 1;
            }
            assert(views(ls@).take(k as int) == views(ls@));
            lines
        },
    }
}

/// Fold state of formatted lines.
pub struct JsonViewerState {
    /// Source line indices that are collapsed.
    pub collapsed: HashSet<usize>,
    /// Source line indices that can fold (they have a closing line).
    pub foldable: HashSet<usize>,
    /// Display row to source line index.
    pub row_to_source: Vec<usize>,
    /// Number of source lines.
    pub total_lines: usize,
}

impl JsonViewerState {
    /// Only lines that can fold are collapsed.
    pub open spec fn wf(&self) -> bool {
        self.collapsed@.subset_of(self.foldable@)
    }
}

impl Default for JsonViewerState {
    fn default() -> (s: Self)
        ensures
            s.collapsed@ == Set::<usize>::empty(),
            s.foldable@ == Set::<usize>::empty(),
            s.row_to_source@ == Seq::<usize>::empty(),
            s.total_lines == 0,
    {
        JsonViewerState {
            collapsed: HashSet::new(),
            foldable: HashSet::new(),
            row_to_source: Vec::new(),
            total_lines: 0,
        }
    }
}

/// Lines `0..n` of `lines` that have a closing line.
pub open spec fn foldable_lines(lines: Seq<FmtLine>) -> Set<usize> {
    Set::new(|i: usize| i < lines.len() && lines[i as int].close_line is Some)
}

/// Foldable lines at `auto_expand_depth` or deeper.
pub open spec fn auto_collapsed(lines: Seq<FmtLine>, auto_expand_depth: usize) -> Set<usize> {
    Set::new(|i: usize| i < lines.len() && lines[i as int].close_line is Some
        && lines[i as int].depth >= auto_expand_depth)
}

/// Fold state for formatted lines: every line with a closing line can
/// fold, and those at `auto_expand_depth` or deeper start collapsed.
pub fn init_state(fmt_lines: &[FmtLine], auto_expand_depth: usize) -> (state: JsonViewerState)
    ensures
        state.total_lines == fmt_lines@.len(),
        state.foldable@ == foldable_lines(fmt_lines@),
        state.collapsed@ == auto_collapsed(fmt_lines@, auto_expand_depth),
        state.row_to_source@ == Seq::<usize>::empty(),
        state.wf(),
{
    broadcast use vstd::std_specs::hash::group_hash_axioms;
    let mut state = JsonViewerState::default();
    state.total_lines = fmt_lines.len();
    let mut i: usize = 0;
    while i < fmt_lines.len()
        invariant
            i <= fmt_lines@.len(),
            state.total_lines == fmt_lines@.len(),
            state.row_to_source@ == Seq::<usize>::empty(),
            state.foldable@ == Set::new(|j: usize| j < i && fmt_lines@[j as int].close_line is Some),
            state.collapsed@ == Set::new(|j: usize| j < i && fmt_lines@[j as int].close_line is Some
                && fmt_lines@[j as int].depth >= auto_expand_depth),
        decreases fmt_lines@.len() - i,
    {
        if fmt_lines[i].close_line.is_some() {
            state.foldable.insert(i);
            if fmt_lines[i].depth >= auto_expand_depth {
                state.collapsed.insert(i);
            }
        }
        proof {
            assert(state.foldable@ =~= Set::new(|j: usize| j < i + 1 && fmt_lines@[j as int].close_line is Some));
            assert(state.collapsed@ =~= Set::new(|j: usize| j < i + 1 && fmt_lines@[j as int].close_line is Some
                && fmt_lines@[j as int].depth >= auto_expand_depth));
        }
        i = i + 1;
    }
    assert(state.foldable@ =~= foldable_lines(fmt_lines@));
    assert(state.collapsed@ =~= auto_collapsed(fmt_lines@, auto_expand_depth));
    state
}

/// The collapsed set after toggling `line`: a foldable line flips between
/// collapsed and expanded; anything else leaves the set as it was.
pub open spec fn toggled(collapsed: Set<usize>, foldable: Set<usize>, line: usize) -> Set<usize> {
    if !foldable.contains(line) {
        collapsed
    } else if collapsed.contains(line) {
        collapsed.remove(line)
    } else {
        collapsed.insert(line)
    }
}

/// Toggle a line's collapsed state. Returns whether the line can fold;
/// only then does anything change.
pub fn toggle_fold(state: &mut JsonViewerState, source_line: usize) -> (r: bool)
    ensures
        r == old(state).foldable@.contains(source_line),
        final(state).collapsed@ == toggled(old(state).collapsed@, old(state).foldable@, source_line),
        final(state).foldable@ == old(state).foldable@,
        final(state).row_to_source@ == old(state).row_to_source@,
        final(state).total_lines == old(state).total_lines,
{
    broadcast use vstd::std_specs::hash::group_hash_axioms;
    if !state.foldable.contains(&source_line) {
        return false;
    }
    if !state.collapsed.remove(&source_line) {
        state.collapsed.insert(source_line);
    }
    true
}

/// Toggling the same line twice gives back the collapsed set.
pub proof fn lemma_toggle_twice(collapsed: Set<usize>, foldable: Set<usize>, line: usize)
    ensures
        toggled(toggled(collapsed, foldable, line), foldable, line) == collapsed,
{
    if foldable.contains(line) {
        if collapsed.contains(line) {
            assert(collapsed.remove(line).insert(line) =~= collapsed);
        } else {
            assert(collapsed.insert(line).remove(line) =~= collapsed);
        }
    }
}

/// Toggling keeps every collapsed line foldable.
pub proof fn lemma_toggle_keeps_wf(collapsed: Set<usize>, foldable: Set<usize>, line: usize)
    requires
        collapsed.subset_of(foldable),
    ensures
        toggled(collapsed, foldable, line).subset_of(foldable),
{
}

/// What a visible row of the folded view shows.
#[derive(Debug, Clone, Copy, PartialEq, Eq, Structural)]
pub enum FoldRowKind {
    /// A collapsed block: `[...]` when it opens with `[`, else `{...}`,
    /// and the number of its direct children.
    Collapsed { square: bool, children: usize },
    /// An expanded block's opening line.
    Foldable,
    /// Any other line.
    Plain,
}

/// A visible row: its source line, that line's depth, and what it shows.
#[derive(Debug, Clone, Copy, PartialEq, Eq, Structural)]
pub struct FoldRow {
    pub source: usize,
    pub depth: usize,
    pub kind: FoldRowKind,
}

/// Lines in `lines[from..to]` at depth `d`.
pub open spec fn count_at_depth(lines: Seq<FmtLine>, from: int, to: int, d: nat) -> nat
    decreases to - from,
{
    if from >= to {
        0
    } else {
        count_at_depth(lines, from, to - 1, d) + if lines[to - 1].depth == d { 1nat } else { 0nat }
    }
}

/// Whether a line, leading whitespace dropped, starts with `[`.
pub open spec fn opens_square(t: Seq<char>) -> bool {
    let s = trim_start_spec(t);
    s.len() > 0 && s[0] == '['
}

/// The visible rows from source line `i` on: a collapsed line with a
/// closing line shows one marker row and hides everything up to and
/// including its closing line; every other line shows one row.
pub open spec fn fold_rows_from(lines: Seq<FmtLine>, collapsed: Set<usize>, i: int) -> Seq<FoldRow>
    decreases lines.len() - i,
{
    if i < 0 || i >= lines.len() {
        seq![]
    } else {
        let f = lines[i];
        match f.close_line {
            Some(c) => if collapsed.contains(i as usize) {
                let next = if c >= i { if c + 1 < lines.len() { c + 1 } else { lines.len() as int } } else { i + 1 };
                seq![FoldRow {
                    source: i as usize,
                    depth: f.depth,
                    kind: FoldRowKind::Collapsed {
                        square: opens_square(f.text@),
                        children: count_at_depth(lines, i + 1, c as int, (f.depth + 1) as nat) as usize,
                    },
                }] + fold_rows_from(lines, collapsed, next)
            } else {
                seq![FoldRow { source: i as usize, depth: f.depth, kind: FoldRowKind::Foldable }]
                    + fold_rows_from(lines, collapsed, i + 1)
            },
            None => seq![FoldRow { source: i as usize, depth: f.depth, kind: FoldRowKind::Plain }]
                + fold_rows_from(lines, collapsed, i + 1),
        }
    }
}

/// What the folded view needs of its lines: a collapsed line's closing
/// line lies after it, within the lines, and its depth can be stepped.
pub open spec fn fold_ready(lines: Seq<FmtLine>, collapsed: Set<usize>) -> bool {
    forall|i: int| 0 <= i < lines.len() && collapsed.contains(i as usize) && #[trigger] lines[i].close_line is Some
        ==> i < lines[i].close_line->0 <= lines.len() && lines[i].depth < usize::MAX
}

/// Lines of `lines[from..to]` at depth `d`.
fn count_depth(lines: &[FmtLine], from: usize, to: usize, d: usize) -> (n: usize)
    requires
        from <= to <= lines@.len(),
    ensures
        n == count_at_depth(lines@, from as int, to as int, d as nat),
{
    let mut n: usize = 0;
    let mut k: usize = from;
    while k < to
        invariant
            from <= k <= to <= lines@.len(),
            n == count_at_depth(lines@, from as int, k as int, d as nat),
            n <= k - from,
        decreases to - k,
    {
        if lines[k].depth == d {
            n = n + 1;
        }
        k = k + 1;
    }
    n
}

/// The visible rows of formatted JSON under a fold state, top to bottom:
/// collapsed blocks show one marker row with their direct-child count,
/// expanded blocks and plain lines one row each.
pub fn fold_rows(lines: &[FmtLine], state: &JsonViewerState) -> (rows: Vec<FoldRow>)
    requires
        fold_ready(lines@, state.collapsed@),
    ensures
        rows@ == fold_rows_from(lines@, state.collapsed@, 0),
{
    broadcast use vstd::std_specs::hash::group_hash_axioms;
    let mut rows: Vec<FoldRow> = Vec::new();
    let mut i: usize = 0;
    while i < lines.len()
        invariant
            i <= lines@.len(),
            fold_ready(lines@, state.collapsed@),
            rows@ + fold_rows_from(lines@, state.collapsed@, i as int) == fold_rows_from(lines@, state.collapsed@, 0),
        decreases lines@.len() - i,
    {
        let f = &lines[i];
        let ghost rest = fold_rows_from(lines@, state.collapsed@, i as int);
        match f.close_line {
            Some(c) => {
                if state.collapsed.contains(&i) {
                    assert(lines@[i as int].close_line is Some);
                    let children = count_depth(lines, i + 1, c, f.depth + 1);
                    let t = trim_start(f.text.as_str());
                    let tv = to_chars(t.as_str());
                    let square = tv.len() > 0 && tv[0] == '[';
                    let row = FoldRow {
                        source: i,
                        depth: f.depth,
                        kind: FoldRowKind::Collapsed { square, children },
                    };
                    let next = if c < lines.len() { c + 1 } else { lines.len() };
                    assert(rest == seq![row] + fold_rows_from(lines@, state.collapsed@, next as int));
                    rows.push(row);
                    assert(rows@ + fold_rows_from(lines@, state.collapsed@, next as int)
                        == fold_rows_from(lines@, state.collapsed@, 0)) by {
                        assert(rows@ == rows@.drop_last().push(row));
                        assert(rows@.drop_last().push(row) + fold_rows_from(lines@, state.collapsed@, next as int)
                            == rows@.drop_last() + (seq![row] + fold_rows_from(lines@, state.collapsed@, next as int)));
                    }
                    i = next;
                } else {
                    let row = FoldRow { source: i, depth: f.depth, kind: FoldRowKind::Foldable };
                    assert(rest == seq![row] + fold_rows_from(lines@, state.collapsed@, i + 1));
                    rows.push(row);
                    assert(rows@ + fold_rows_from(lines@, state.collapsed@, i + 1)
                        == fold_rows_from(lines@, state.collapsed@, 0)) by {
                        assert(rows@.drop_last().push(row) + fold_rows_from(lines@, state.collapsed@, i + 1)
                            == rows@.drop_last() + (seq![row] + fold_rows_from(lines@, state.collapsed@, i + 1)));
                    }
                    i = i + 1;
                }
            },
            None => {
                let row = FoldRow { source: i, depth: f.depth, kind: FoldRowKind::Plain };
                assert(rest == seq![row] + fold_rows_from(lines@, state.collapsed@, i + 1));
                rows.push(row);
                assert(rows@ + fold_rows_from(lines@, state.collapsed@, i + 1)
                    == fold_rows_from(lines@, state.collapsed@, 0)) by {
                    assert(rows@.drop_last().push(row) + fold_rows_from(lines@, state.collapsed@, i + 1)
                        == rows@.drop_last() + (seq![row] + fold_rows_from(lines@, state.collapsed@, i + 1)));
                }
                i = i + 1;
            },
        }
    }
    assert(fold_rows_from(lines@, state.collapsed@, i as int) == Seq::<FoldRow>::empty());
    assert(rows@ + Seq::<FoldRow>::empty() == rows@);
    rows
}

/// A char that shows: anything but whitespace.
pub open spec fn ink(c: char) -> bool {
    !ws(c)
}

/// The chars of `s` that show, in order.
pub open spec fn inked(s: Seq<char>) -> Seq<char>
    decreases s.len(),
{
    if s.len() == 0 {
        seq![]
    } else {
        inked(s.drop_last()) + if ink(s.last()) { seq![s.last()] } else { seq![] }
    }
}

/// The lines of `ls`, joined with nothing between them.
pub open spec fn joined(ls: Seq<Seq<char>>) -> Seq<char>
    decreases ls.len(),
{
    if ls.len() == 0 { seq![] } else { joined(ls.drop_last()) + ls.last() }
}

proof fn lemma_inked_one(x: char)
    ensures
        inked(seq![x]) == if ink(x) { seq![x] } else { Seq::<char>::empty() },
{
    assert(seq![x].drop_last() =~= Seq::<char>::empty());
    assert(seq![x].last() == x);
    assert(inked(Seq::<char>::empty()) == Seq::<char>::empty());
    assert(inked(seq![x]) =~= if ink(x) { seq![x] } else { Seq::<char>::empty() });
}

proof fn lemma_joined_one(x: Seq<char>)
    ensures
        joined(seq![x]) == x,
{
    assert(seq![x].drop_last() =~= Seq::<Seq<char>>::empty());
    assert(joined(Seq::<Seq<char>>::empty()) == Seq::<char>::empty());
    assert(joined(seq![x]) =~= x);
}

proof fn lemma_inked_add(a: Seq<char>, b: Seq<char>)
    ensures
        inked(a + b) == inked(a) + inked(b),
    decreases b.len(),
{
    if b.len() == 0 {
        assert(a + b =~= a);
        assert(inked(a) + inked(b) =~= inked(a));
    } else {
        lemma_inked_add(a, b.drop_last());
        assert((a + b).drop_last() =~= a + b.drop_last());
        assert((a + b).last() == b.last());
        assert(inked(a + b) =~= inked(a) + inked(b));
    }
}

proof fn lemma_joined_add(a: Seq<Seq<char>>, b: Seq<Seq<char>>)
    ensures
        joined(a + b) == joined(a) + joined(b),
    decreases b.len(),
{
    if b.len() == 0 {
        assert(a + b =~= a);
        assert(joined(a) + joined(b) =~= joined(a));
    } else {
        lemma_joined_add(a, b.drop_last());
        assert((a + b).drop_last() =~= a + b.drop_last());
        assert((a + b).last() == b.last());
        assert(joined(a + b) =~= joined(a) + joined(b));
    }
}

/// A run of blanks shows nothing.
proof fn lemma_inked_blank(s: Seq<char>)
    requires
        forall|k: int| 0 <= k < s.len() ==> !ink(#[trigger] s[k]),
    ensures
        inked(s) == Seq::<char>::empty(),
    decreases s.len(),
{
    if s.len() > 0 {
        assert(!ink(s[s.len() - 1]));
        lemma_inked_blank(s.drop_last());
    }
}

proof fn lemma_lead_ws_all(s: Seq<char>)
    ensures
        lead_ws(s) <= s.len(),
        forall|k: int| 0 <= k < lead_ws(s) ==> ws(#[trigger] s[k]),
    decreases s.len(),
{
    if s.len() > 0 && ws(s[0]) {
        lemma_lead_ws_all(s.drop_first());
        assert forall|k: int| 0 <= k < lead_ws(s) implies ws(#[trigger] s[k]) by {
            if k > 0 { assert(s[k] == s.drop_first()[k - 1]); }
        }
    }
}

proof fn lemma_trail_ws_all(s: Seq<char>)
    ensures
        trail_ws(s) <= s.len(),
        forall|k: int| s.len() - trail_ws(s) <= k < s.len() ==> ws(#[trigger] s[k]),
    decreases s.len(),
{
    if s.len() > 0 && ws(s.last()) {
        lemma_trail_ws_all(s.drop_last());
        assert forall|k: int| s.len() - trail_ws(s) <= k < s.len() implies ws(#[trigger] s[k]) by {
            if k < s.len() - 1 { assert(s[k] == s.drop_last()[k]); }
        }
    }
}

/// Trimming drops only whitespace.
proof fn lemma_inked_trim(c: Seq<char>)
    ensures
        inked(trim_spec(c)) == inked(c),
{
    lemma_lead_ws_all(c);
    let a = trim_start_spec(c);
    let k = lead_ws(c) as int;
    assert(c =~= c.take(k) + a);
    lemma_inked_blank(c.take(k));
    lemma_inked_add(c.take(k), a);
    lemma_trail_ws_all(a);
    let m = a.len() - trail_ws(a);
    assert(a =~= a.take(m) + a.skip(m));
    assert forall|j: int| 0 <= j < a.skip(m).len() implies !ink(#[trigger] a.skip(m)[j]) by {
        assert(a.skip(m)[j] == a[m + j]);
    }
    lemma_inked_blank(a.skip(m));
    lemma_inked_add(a.take(m), a.skip(m));
    assert(Seq::<char>::empty() + inked(a) =~= inked(a));
    assert(inked(a.take(m)) + Seq::<char>::empty() =~= inked(a.take(m)));
}

/// A flushed line shows what its pending text shows.
proof fn lemma_inked_flush(c: Seq<char>, d: nat)
    ensures
        inked(joined(flush_lines(c, d))) == inked(c),
{
    lemma_inked_trim(c);
    let t = trim_spec(c);
    if t.len() == 0 {
        assert(t =~= Seq::<char>::empty());
        assert(joined(flush_lines(c, d)) =~= Seq::<char>::empty());
    } else {
        let sp = spaces(2 * d);
        assert(flush_lines(c, d) == seq![sp + t]);
        lemma_joined_one(sp + t);
        assert forall|k: int| 0 <= k < sp.len() implies !ink(#[trigger] sp[k]) by {}
        lemma_inked_blank(sp);
        lemma_inked_add(sp, t);
        assert(Seq::<char>::empty() + inked(t) =~= inked(t));
    }
}

/// The chars skipped after a closing bracket show only the comma taken.
proof fn lemma_inked_close_tail(ch: Seq<char>, j: int)
    requires
        0 <= j <= ch.len(),
    ensures
        inked(ch.subrange(j, close_tail(ch, j).0)) == if close_tail(ch, j).1 { seq![','] } else { Seq::<char>::empty() },
    decreases ch.len() - j,
{
    lemma_close_tail_bounds(ch, j);
    if j < ch.len() && ch[j] == ',' {
        assert(ch.subrange(j, j + 1) =~= seq![',']);
        lemma_inked_one(',');
    } else if j < ch.len() && ws(ch[j]) {
        lemma_inked_close_tail(ch, j + 1);
        let e = close_tail(ch, j + 1).0;
        lemma_close_tail_bounds(ch, j + 1);
        assert(ch.subrange(j, e) =~= seq![ch[j]] + ch.subrange(j + 1, e));
        lemma_inked_add(seq![ch[j]], ch.subrange(j + 1, e));
        lemma_inked_one(ch[j]);
        assert(Seq::<char>::empty() + inked(ch.subrange(j + 1, e)) =~= inked(ch.subrange(j + 1, e)));
    } else {
        assert(ch.subrange(j, j) =~= Seq::<char>::empty());
    }
}

/// One char more of pending text.
proof fn lemma_inked_push(cur: Seq<char>, c: char)
    ensures
        inked(cur.push(c)) == inked(cur) + if ink(c) { seq![c] } else { seq![] },
{
    assert(cur.push(c).drop_last() =~= cur);
}

/// The text from `i` is its char at `i` followed by the text after it.
proof fn lemma_inked_skip(ch: Seq<char>, i: int)
    requires
        0 <= i < ch.len(),
    ensures
        inked(ch.skip(i)) == (if ink(ch[i]) { seq![ch[i]] } else { seq![] }) + inked(ch.skip(i + 1)),
{
    assert(ch.skip(i) =~= seq![ch[i]] + ch.skip(i + 1));
    lemma_inked_add(seq![ch[i]], ch.skip(i + 1));
    lemma_inked_one(ch[i]);
}

/// Scanning from `i` shows the pending text and then the rest of the text.
proof fn lemma_inked_scan(ch: Seq<char>, i: int, d: nat, cur: Seq<char>, ins: bool, esc: bool)
    requires
        0 <= i <= ch.len(),
    ensures
        inked(joined(indent_scan(ch, i, d, cur, ins, esc))) == inked(cur) + inked(ch.skip(i)),
    decreases ch.len() - i,
{
    if i >= ch.len() {
        lemma_inked_flush(cur, d);
        assert(ch.skip(i) =~= Seq::<char>::empty());
        assert(inked(cur) + inked(ch.skip(i)) =~= inked(cur));
    } else {
        let c = ch[i];
        lemma_inked_skip(ch, i);
        let one: Seq<char> = if ink(c) { seq![c] } else { seq![] };
        let rest = inked(ch.skip(i + 1));
        lemma_inked_push(cur, c);
        if esc || (c == '\\' && ins) || c == '"' || ins
            || ((c == '{' || c == '[') && opens_empty(ch, i))
            || !(c == '{' || c == '[' || c == '}' || c == ']' || c == ',' || c == ' ' || c == '\n' || c == '\r' || c == '\t') {
            let ins2 = if esc { ins } else if c == '\\' && ins { ins } else if c == '"' { !ins } else { ins };
            let esc2 = !esc && c == '\\' && ins;
            lemma_inked_scan(ch, i + 1, d, cur.push(c), ins2, esc2);
            assert(inked(cur.push(c)) + rest =~= inked(cur) + (one + rest));
        } else if c == '{' || c == '[' {
            lemma_inked_flush(cur.push(c), d);
            lemma_inked_scan(ch, i + 1, d + 1, seq![], ins, false);
            lemma_joined_add(flush_lines(cur.push(c), d), indent_scan(ch, i + 1, d + 1, seq![], ins, false));
            lemma_inked_add(joined(flush_lines(cur.push(c), d)), joined(indent_scan(ch, i + 1, d + 1, seq![], ins, false)));
            assert(inked(Seq::<char>::empty()) == Seq::<char>::empty());
            assert(inked(cur.push(c)) + (Seq::<char>::empty() + rest) =~= inked(cur) + (one + rest));
        } else if c == '}' || c == ']' {
            let d2: nat = if d > 0 { (d - 1) as nat } else { 0 };
            let tail = close_tail(ch, i + 1);
            lemma_close_tail_bounds(ch, i + 1);
            lemma_inked_close_tail(ch, i + 1);
            let closer = if tail.1 { seq![c, ','] } else { seq![c] };
            lemma_inked_scan(ch, tail.0, d2, seq![], ins, false);
            lemma_inked_flush(cur, d);
            lemma_inked_flush(closer, d2);
            let l1 = flush_lines(cur, d);
            let l2 = flush_lines(closer, d2);
            let l3 = indent_scan(ch, tail.0, d2, seq![], ins, false);
            lemma_joined_add(l1 + l2, l3);
            lemma_joined_add(l1, l2);
            lemma_inked_add(joined(l1) + joined(l2), joined(l3));
            lemma_inked_add(joined(l1), joined(l2));
            assert(inked(Seq::<char>::empty()) == Seq::<char>::empty());
            // The text after the bracket: the skipped tail, then the rest.
            assert(ch.skip(i + 1) =~= ch.subrange(i + 1, tail.0) + ch.skip(tail.0));
            lemma_inked_add(ch.subrange(i + 1, tail.0), ch.skip(tail.0));
            assert(ink(c));
            if tail.1 {
                assert(closer =~= seq![c].push(','));
                lemma_inked_push(seq![c], ',');
                lemma_inked_one(c);
            } else {
                lemma_inked_one(c);
            }
            assert(inked(cur) + inked(closer) + (Seq::<char>::empty() + inked(ch.skip(tail.0)))
                =~= inked(cur) + (one + rest));
        } else if c == ',' {
            lemma_inked_flush(cur.push(','), d);
            lemma_inked_scan(ch, i + 1, d, seq![], ins, false);
            lemma_joined_add(flush_lines(cur.push(','), d), indent_scan(ch, i + 1, d, seq![], ins, false));
            lemma_inked_add(joined(flush_lines(cur.push(','), d)), joined(indent_scan(ch, i + 1, d, seq![], ins, false)));
            assert(inked(Seq::<char>::empty()) == Seq::<char>::empty());
            assert(inked(cur.push(c)) + (Seq::<char>::empty() + rest) =~= inked(cur) + (one + rest));
        } else {
            let cur2 = if cur.len() > 0 && cur.last() != ' ' { cur.push(' ') } else { cur };
            lemma_inked_push(cur, ' ');
            lemma_inked_scan(ch, i + 1, d, cur2, ins, false);
            assert(!ink(c));
            assert(inked(cur2) + rest =~= inked(cur) + (one + rest));
        }
    }
}

/// `indent_brackets` changes only layout: the chars that show in its
/// lines, read in order, are exactly the chars that show in the text.
pub proof fn lemma_indent_keeps_text(text: Seq<char>)
    ensures
        inked(joined(indent_spec(text))) == inked(text),
{
    lemma_inked_scan(text, 0, 0, seq![], false, false);
    assert(text.skip(0) =~= text);
    assert(inked(Seq::<char>::empty()) == Seq::<char>::empty());
    assert(Seq::<char>::empty() + inked(text) =~= inked(text));
}

} // verus!
