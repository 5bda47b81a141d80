//! Small string helpers over std.

use vstd::prelude::*;

verus! {

/// Append `c` to `s` (std's `String::push`).
#[verifier::external_body]
pub(crate) fn push_char(s: &mut String, c: char)
    ensures
        final(s)@ == old(s)@.push(c),
{
    s.push(c);
}

/// Append `t` to `s` (std's `String::push_str`).
#[verifier::external_body]
pub(crate) fn push_str(s: &mut String, t: &str)
    ensures
        final(s)@ == old(s)@ + t@,
{
    s.push_str(t);
}

/// std's `str` equality compares the chars.
pub assume_specification[ <str as PartialEq>::eq ](a: &str, b: &str) -> (r: bool)
    ensures
        r == (a@ == b@),
;

/// `n` copies of `c`.
pub open spec fn run(c: char, n: nat) -> Seq<char> {
    Seq::new(n, |_i: int| c)
}

/// A string of `n` copies of `c`.
pub fn repeat_char(c: char, n: usize) -> (r: String)
    ensures
        r@ == run(c, n as nat),
{
    let mut r = String::new();
    let mut k: usize = 0;
    while k < n
        invariant
            k <= n,
            r@ == run(c, k as nat),
        decreases n - k,
    {
        push_char(&mut r, c);
        k = k + 1;
        assert(r@ =~= run(c, k as nat));
    }
    r
}

/// An owned copy of `s`.
pub fn owned(s: &str) -> (r: String)
    ensures
        r@ == s@,
{
    let mut r = String::new();
    push_str(&mut r, s);
    assert(r@ =~= s@);
    r
}

/// Whether two strings hold the same chars.
pub fn same_text(a: &str, b: &str) -> (r: bool)
    ensures
        r == (a@ == b@),
{
    <str as PartialEq>::eq(a, b)
}

/// Whether `s` begins with `prefix`, char by char.
pub(crate) fn str_starts_with(s: &str, prefix: &str) -> (r: bool)
    ensures
        r == prefix@.is_prefix_of(s@),
{
    let sv = to_chars(s);
    let pv = to_chars(prefix);
    if pv.len() > sv.len() {
        return false;
    }
    let mut i: usize = 0;
    while i < pv.len()
        invariant
            sv@ == s@,
            pv@ == prefix@,
            pv@.len() <= sv@.len(),
            i <= pv@.len(),
            forall|k: int| 0 <= k < i ==> pv@[k] == sv@[k],
        decreases pv@.len() - i,
    {
        if pv[i] != sv[i] {
            return false;
        }
        i = i + 1;
    }
    assert(prefix@ =~= s@.take(prefix@.len() as int));
    true
}

/// What std's `str::to_lowercase` returns for a string.
pub uninterp spec fn unicode_lowercase(s: Seq<char>) -> Seq<char>;

/// The ASCII lowercase of a char: `A`..`Z` become `a`..`z`, every other
/// char is kept.
pub open spec fn ascii_lower(c: char) -> char {
    if 'A' <= c && c <= 'Z' { ((c as u32) + 32) as char } else { c }
}

/// std's `str::to_lowercase`. The result is the named Unicode lowercase
/// mapping of the string's chars; for a string of ASCII chars, whose
/// Unicode lowercase mappings are the ASCII ones, that is the ASCII
/// lowercase of each char.
#[verifier::external_body]
pub(crate) fn to_lowercase(s: &str) -> (r: String)
    ensures
        r@ == unicode_lowercase(s@),
        (forall|i: int| 0 <= i < s@.len() ==> (#[trigger] s@[i] as u32) < 0x80)
            ==> r@ == s@.map_values(|c: char| ascii_lower(c)),
{
    s.to_lowercase()
}

/// What std's `char::to_uppercase` yields for a char.
pub uninterp spec fn unicode_uppercase_char(c: char) -> Seq<char>;

/// std's `char::to_uppercase`, collected into a string. The result is the
/// named uppercase mapping of `c`; std documents that ASCII lowercase
/// letters map to their uppercase letter and that a char without an
/// uppercase mapping maps to itself, which for ASCII is every other char.
#[verifier::external_body]
pub(crate) fn char_to_uppercase(c: char) -> (r: String)
    ensures
        r@ == unicode_uppercase_char(c),
        ('a' <= c && c <= 'z') ==> r@ == seq![((c as u32) - 32) as char],
        (c as u32) < 0x80 && !('a' <= c && c <= 'z') ==> r@ == seq![c],
{
    c.to_uppercase().collect::<String>()
}

/// Whether std's `char::is_alphanumeric` holds of a char.
pub uninterp spec fn unicode_alphanumeric(c: char) -> bool;

/// std's `char::is_alphanumeric`: the named Unicode Alphabetic or Numeric
/// property; for ASCII exactly the letters and digits.
#[verifier::external_body]
pub(crate) fn is_alphanumeric(c: char) -> (r: bool)
    ensures
        r == unicode_alphanumeric(c),
        (c as u32) < 0x80 ==> (r == (('a' <= c && c <= 'z') || ('A' <= c && c <= 'Z') || ('0' <= c && c <= '9'))),
{
    c.is_alphanumeric()
}

/// Whether std's `char::is_whitespace` holds of a char.
pub uninterp spec fn unicode_whitespace(c: char) -> bool;

/// Whitespace as std's `char::is_whitespace` has it: for ASCII exactly
/// space, `\t`, `\n`, vertical tab, form feed and `\r`; beyond ASCII the
/// named Unicode White_Space property.
pub open spec fn ws(c: char) -> bool {
    if (c as u32) < 0x80 { c == ' ' || (0x09 <= c as u32 && c as u32 <= 0x0D) } else { unicode_whitespace(c) }
}

/// std's `char::is_whitespace`: the named Unicode White_Space property;
/// for ASCII exactly space, `\t`, `\n`, vertical tab, form feed and `\r`.
#[verifier::external_body]
pub(crate) fn is_whitespace(c: char) -> (r: bool)
    ensures
        r == unicode_whitespace(c),
        r == ws(c),
        (c as u32) < 0x80 ==> (r == (c == ' ' || (0x09 <= c as u32 && c as u32 <= 0x0D))),
{
    c.is_whitespace()
}

/// `c` is an ASCII decimal digit.
pub open spec fn ascii_digit(c: char) -> bool {
    '0' <= c && c <= '9'
}

/// `c` is ASCII whitespace in the sense of `char::is_ascii_whitespace`:
/// space, `\t`, `\n`, form feed or `\r`.
pub open spec fn ascii_whitespace(c: char) -> bool {
    c == ' ' || c == '\t' || c == '\n' || c == '\x0C' || c == '\r'
}

/// Decimal digits of `n`, most significant first, no leading zeros
/// (`"0"` for zero).
pub open spec fn decimal(n: nat) -> Seq<char>
    decreases n,
{
    if n < 10 {
        seq![('0' as u32 + n) as char]
    } else {
        decimal(n / 10).push(('0' as u32 + (n % 10)) as char)
    }
}

/// Render `n` in decimal.
pub fn decimal_string(n: usize) -> (r: String)
    ensures
        r@ == decimal(n as nat),
    decreases n,
{
    if n < 10 {
        let mut r = String::new();
        let d = char_from_digit(n as u32);
        push_char(&mut r, d);
        r
    } else {
        let mut r = decimal_string(n / 10);
        let d = char_from_digit((n % 10) as u32);
        push_char(&mut r, d);
        r
    }
}

/// The ASCII digit char for `d < 10`.
fn char_from_digit(d: u32) -> (c: char)
    requires
        d < 10,
    ensures
        c == ('0' as u32 + d) as char,
{
    if d == 0 { '0' } else if d == 1 { '1' } else if d == 2 { '2' } else if d == 3 { '3' }
    else if d == 4 { '4' } else if d == 5 { '5' } else if d == 6 { '6' } else if d == 7 { '7' }
    else if d == 8 { '8' } else { '9' }
}

/// The views of a sequence of strings.
pub open spec fn views(v: Seq<String>) -> Seq<Seq<char>> {
    v.map_values(|x: String| x@)
}

/// Pushing a string pushes its view.
pub proof fn lemma_views_push(v: Seq<String>, x: String)
    ensures
        views(v.push(x)) == views(v).push(x@),
{
    assert(views(v.push(x)) =~= views(v).push(x@));
}

/// The pieces of `s` between occurrences of `sep`, in order; `k`
/// separators give `k + 1` pieces, some possibly empty.
pub open spec fn split_spec(s: Seq<char>, sep: char) -> Seq<Seq<char>>
    decreases s.len(),
{
    if s.len() == 0 {
        seq![seq![]]
    } else {
        let p = split_spec(s.drop_last(), sep);
        if s.last() == sep {
            p.push(seq![])
        } else {
            p.update(p.len() - 1, p[p.len() - 1].push(s.last()))
        }
    }
}

/// `split_spec` always yields at least one piece.
pub proof fn lemma_split_nonempty(s: Seq<char>, sep: char)
    ensures
        split_spec(s, sep).len() >= 1,
    decreases s.len(),
{
    if s.len() > 0 {
        lemma_split_nonempty(s.drop_last(), sep);
    }
}

/// Sum of the lengths of some strings.
pub open spec fn total_len(ps: Seq<Seq<char>>) -> nat
    decreases ps.len(),
{
    if ps.len() == 0 { 0 } else { total_len(ps.drop_last()) + ps.last().len() }
}

/// A prefix of the pieces is no longer in total than all of them, and one
/// more piece adds its length.
pub proof fn lemma_total_len_take(ps: Seq<Seq<char>>, k: int)
    requires
        0 <= k < ps.len(),
    ensures
        total_len(ps.take(k + 1)) == total_len(ps.take(k)) + ps[k].len(),
        total_len(ps.take(k + 1)) <= total_len(ps),
    decreases ps.len(),
{
    assert(ps.take(k + 1).drop_last() == ps.take(k));
    if k + 1 < ps.len() {
        lemma_total_len_take(ps.drop_last(), k);
        assert(ps.drop_last().take(k + 1) == ps.take(k + 1));
    } else {
        assert(ps.take(k + 1) == ps);
    }
}

/// The pieces of a split are no longer in total than the string.
pub proof fn lemma_split_total_len(s: Seq<char>, sep: char)
    ensures
        total_len(split_spec(s, sep)) <= s.len(),
    decreases s.len(),
{
    if s.len() > 0 {
        lemma_split_total_len(s.drop_last(), sep);
        lemma_split_nonempty(s.drop_last(), sep);
        let p = split_spec(s.drop_last(), sep);
        if s.last() == sep {
            assert(p.push(seq![]).drop_last() == p);
            assert(total_len(p.push(seq![])) == total_len(p) + 0);
            assert(split_spec(s, sep) == p.push(seq![]));
        } else {
            let q = p.update(p.len() - 1, p[p.len() - 1].push(s.last()));
            assert(q.drop_last() == p.drop_last());
            assert(q.last() == p.last().push(s.last()));
            assert(total_len(q) == total_len(q.drop_last()) + q.last().len());
            assert(total_len(p) == total_len(p.drop_last()) + p.last().len());
            assert(split_spec(s, sep) == q);
            assert(total_len(q) == total_len(p) + 1);
        }
        assert(s.drop_last().len() + 1 == s.len());
    } else {
        let e: Seq<Seq<char>> = seq![seq![]];
        assert(e.drop_last() =~= Seq::<Seq<char>>::empty());
        assert(total_len(Seq::<Seq<char>>::empty()) == 0);
        assert(e.last().len() == 0);
        assert(total_len(e) == 0);
        assert(split_spec(s, sep) == e);
    }
}

/// Split `s` at every `sep` char.
pub fn split_char(s: &str, sep: char) -> (parts: Vec<String>)
    ensures
        views(parts@) == split_spec(s@, sep),
        parts.len() >= 1,
        forall|k: int| 0 <= k < parts.len() ==> (#[trigger] parts@[k])@.len() <= s@.len(),
{
    let mut parts: Vec<String> = Vec::new();
    let mut cur = String::new();
    assert(s@.take(0) == Seq::<char>::empty());
    assert(views(parts@).push(cur@) =~= seq![Seq::<char>::empty()]);
    for c in it: s.chars()
        invariant
            it.seq() == s@,
            it.index() <= s@.len(),
            split_spec(s@.take(it.index() as int), sep) == views(parts@).push(cur@),
            cur@.len() <= it.index(),
            forall|k: int| 0 <= k < parts.len() ==> (#[trigger] parts@[k])@.len() <= it.index(),
    {
        let ghost i = it.index();
        proof {
            assert(s@.take(i as int + 1).drop_last() == s@.take(i as int));
            assert(s@.take(i as int + 1).last() == c);
        }
        let ghost before = views(parts@);
        let ghost cur_old = cur@;
        let ghost parts_old = parts@;
        proof { lemma_split_nonempty(s@.take(i as int), sep); }
        if c == sep {
            parts.push(cur);
            cur = String::new();
            proof {
                assert(parts@ == parts_old.push(parts@[parts@.len() - 1]));
                lemma_views_push(parts_old, parts@[parts@.len() - 1]);
            }
        } else {
            push_char(&mut cur, c);
            assert(before.push(cur_old).update(before.len() as int, cur_old.push(c)) == before.push(cur@));
        }
    }
    proof { assert(s@.take(s@.len() as int) == s@); }
    let ghost parts_old = parts@;
    parts.push(cur);
    proof {
        assert(parts@ == parts_old.push(parts@[parts@.len() - 1]));
        lemma_views_push(parts_old, parts@[parts@.len() - 1]);
    }
    parts
}

/// The chars of `s`.
pub fn to_chars(s: &str) -> (v: Vec<char>)
    ensures
        v@ == s@,
{
    let mut v: Vec<char> = Vec::new();
    for c in it: s.chars()
        invariant
            it.seq() == s@,
            v@ == s@.take(it.index() as int),
    {
        v.push(c);
        assert(s@.take(it.index() as int + 1) == s@.take(it.index() as int).push(c));
    }
    assert(s@.take(s@.len() as int) == s@);
    v
}

/// A string holding `v[a..b]`.
pub fn from_chars(v: &[char], a: usize, b: usize) -> (r: String)
    requires
        a <= b <= v@.len(),
    ensures
        r@ == v@.subrange(a as int, b as int),
{
    let mut r = String::new();
    let mut i = a;
    while i < b
        invariant
            a <= i <= b,
            b <= v@.len(),
            r@ == v@.subrange(a as int, i as int),
        decreases b - i,
    {
        push_char(&mut r, v[i]);
        assert(v@.subrange(a as int, i as int + 1) == v@.subrange(a as int, i as int).push(v@[i as int]));
        i = i + 1;
    }
    r
}

/// Number of leading chars of `s` that are Unicode whitespace.
pub open spec fn lead_ws(s: Seq<char>) -> nat
    decreases s.len(),
{
    if s.len() > 0 && ws(s[0]) { 1 + lead_ws(s.drop_first()) } else { 0 }
}

/// Number of trailing chars of `s` that are Unicode whitespace.
pub open spec fn trail_ws(s: Seq<char>) -> nat
    decreases s.len(),
{
    if s.len() > 0 && ws(s.last()) { 1 + trail_ws(s.drop_last()) } else { 0 }
}

/// `s` without leading whitespace (std's `trim_start`).
pub open spec fn trim_start_spec(s: Seq<char>) -> Seq<char> {
    s.skip(lead_ws(s) as int)
}

/// `s` without trailing whitespace (std's `trim_end`).
pub open spec fn trim_end_spec(s: Seq<char>) -> Seq<char> {
    s.take(s.len() - trail_ws(s))
}

/// `s` without leading and trailing whitespace (std's `trim`).
pub open spec fn trim_spec(s: Seq<char>) -> Seq<char> {
    trim_end_spec(trim_start_spec(s))
}

/// Leading whitespace is no longer than the string.
pub proof fn lemma_lead_ws_bound(s: Seq<char>)
    ensures
        lead_ws(s) <= s.len(),
    decreases s.len(),
{
    if s.len() > 0 && ws(s[0]) {
        lemma_lead_ws_bound(s.drop_first());
    }
}

/// Trailing whitespace is no longer than the string.
pub proof fn lemma_trail_ws_bound(s: Seq<char>)
    ensures
        trail_ws(s) <= s.len(),
    decreases s.len(),
{
    if s.len() > 0 && ws(s.last()) {
        lemma_trail_ws_bound(s.drop_last());
    }
}

/// Leading whitespace is whitespace, and stops at a char that is not.
pub proof fn lemma_lead_ws_stops(s: Seq<char>)
    ensures
        lead_ws(s) <= s.len(),
        lead_ws(s) < s.len() ==> !ws(s[lead_ws(s) as int]),
        forall|k: int| 0 <= k < lead_ws(s) ==> ws(#[trigger] s[k]),
    decreases s.len(),
{
    if s.len() > 0 && ws(s[0]) {
        lemma_lead_ws_stops(s.drop_first());
        assert forall|k: int| 0 <= k < lead_ws(s) implies ws(#[trigger] s[k]) by {
            if k > 0 { assert(s[k] == s.drop_first()[k - 1]); }
        }
    }
}

/// Trailing whitespace is whitespace, and stops at a char that is not.
pub proof fn lemma_trail_ws_stops(s: Seq<char>)
    ensures
        trail_ws(s) <= s.len(),
        trail_ws(s) < s.len() ==> !ws(s[s.len() - trail_ws(s) - 1]),
        forall|k: int| s.len() - trail_ws(s) <= k < s.len() ==> ws(#[trigger] s[k]),
    decreases s.len(),
{
    if s.len() > 0 && ws(s.last()) {
        lemma_trail_ws_stops(s.drop_last());
        assert forall|k: int| s.len() - trail_ws(s) <= k < s.len() implies ws(#[trigger] s[k]) by {
            if k < s.len() - 1 { assert(s[k] == s.drop_last()[k]); }
        }
    }
}

/// Trimming drops whitespace only, from both ends, and stops at a char
/// that is not whitespace: `s` is blanks, then `trim_spec(s)` (which, when
/// not empty, starts and ends with non-whitespace), then blanks.
pub proof fn lemma_trim_parts(s: Seq<char>)
    ensures
        ({
            let t = trim_spec(s);
            let a = lead_ws(s) as int;
            &&& a + t.len() <= s.len()
            &&& s.subrange(a, a + t.len()) == t
            &&& forall|k: int| 0 <= k < a ==> ws(#[trigger] s[k])
            &&& forall|k: int| a + t.len() <= k < s.len() ==> ws(#[trigger] s[k])
            &&& t.len() > 0 ==> !ws(t[0]) && !ws(t.last())
        }),
{
    let a = lead_ws(s) as int;
    lemma_lead_ws_stops(s);
    let u = trim_start_spec(s);
    lemma_trail_ws_stops(u);
    let t = trim_spec(s);
    assert(t =~= s.subrange(a, a + t.len()));
    assert forall|k: int| a + t.len() <= k < s.len() implies ws(#[trigger] s[k]) by {
        assert(s[k] == u[k - a]);
    }
    if t.len() > 0 {
        assert(t[0] == s[a]);
    }
}

/// Index of the first non-whitespace char of `v[a..]`, scanning forward.
pub fn skip_ws_forward(v: &[char], a: usize) -> (k: usize)
    requires
        a <= v@.len(),
    ensures
        k == a + lead_ws(v@.skip(a as int)),
        k <= v@.len(),
{
    let mut k = a;
    proof { lemma_lead_ws_bound(v@.skip(a as int)); }
    while k < v.len() && is_whitespace(v[k])
        invariant
            a <= k <= v@.len(),
            lead_ws(v@.skip(a as int)) == (k - a) + lead_ws(v@.skip(k as int)),
        decreases v@.len() - k,
    {
        assert(v@.skip(k as int).drop_first() == v@.skip(k as int + 1));
        k = k + 1;
    }
    k
}

/// End index of `v[a..b]` once trailing whitespace is dropped.
pub fn skip_ws_backward(v: &[char], a: usize, b: usize) -> (k: usize)
    requires
        a <= b <= v@.len(),
    ensures
        k == b - trail_ws(v@.subrange(a as int, b as int)),
        a <= k <= b,
{
    let mut k = b;
    proof { lemma_trail_ws_bound(v@.subrange(a as int, b as int)); }
    while k > a && is_whitespace(v[k - 1])
        invariant
            a <= k <= b,
            b <= v@.len(),
            trail_ws(v@.subrange(a as int, b as int)) == (b - k) + trail_ws(v@.subrange(a as int, k as int)),
        decreases k - a,
    {
        assert(v@.subrange(a as int, k as int).drop_last() == v@.subrange(a as int, k as int - 1));
        k = k - 1;
    }
    k
}

/// std's `str::trim`: drop leading and trailing Unicode whitespace.
pub fn trim(s: &str) -> (r: String)
    ensures
        r@ == trim_spec(s@),
{
    let v = to_chars(s);
    let a = skip_ws_forward(v.as_slice(), 0);
    assert(v@.skip(0) == v@);
    let b = skip_ws_backward(v.as_slice(), a, v.len());
    assert(v@.subrange(a as int, v@.len() as int) == trim_start_spec(s@));
    from_chars(v.as_slice(), a, b)
}

/// std's `str::trim_start`.
pub fn trim_start(s: &str) -> (r: String)
    ensures
        r@ == trim_start_spec(s@),
{
    let v = to_chars(s);
    let a = skip_ws_forward(v.as_slice(), 0);
    assert(v@.skip(0) == v@);
    from_chars(v.as_slice(), a, v.len())
}

/// std's `str::trim_end`.
pub fn trim_end(s: &str) -> (r: String)
    ensures
        r@ == trim_end_spec(s@),
{
    let v = to_chars(s);
    let b = skip_ws_backward(v.as_slice(), 0, v.len());
    assert(v@.subrange(0, v@.len() as int) == v@);
    from_chars(v.as_slice(), 0, b)
}

/// Replace every `from` char with `to`.
pub fn replace_char(s: &str, from: char, to: char) -> (r: String)
    ensures
        r@ == s@.map_values(|c: char| if c == from { to } else { c }),
{
    let mut r = String::new();
    for c in it: s.chars()
        invariant
            it.seq() == s@,
            r@ == s@.take(it.index() as int).map_values(|c: char| if c == from { to } else { c }),
    {
        let d = if c == from { to } else { c };
        push_char(&mut r, d);
        assert(s@.take(it.index() as int + 1).map_values(|c: char| if c == from { to } else { c })
            == s@.take(it.index() as int).map_values(|c: char| if c == from { to } else { c }).push(d));
    }
    assert(s@.take(s@.len() as int) == s@);
    r
}

/// `l` without one trailing `\r`.
pub open spec fn strip_cr(l: Seq<char>) -> Seq<char> {
    if l.len() > 0 && l.last() == '\r' { l.drop_last() } else { l }
}

/// The lines of `s` in the sense of std's `str::lines`: split at `\n`, a
/// `\r` just before a `\n` dropped, and no empty last line after a final
/// `\n` (a lone `\r` at the very end stays).
pub open spec fn lines_spec(s: Seq<char>) -> Seq<Seq<char>> {
    let p = split_spec(s, '\n');
    let body = p.drop_last().map_values(|l: Seq<char>| strip_cr(l));
    if p.last().len() == 0 { body } else { body.push(p.last()) }
}

/// `s` without one trailing `\r`.
fn without_cr(s: &str) -> (r: String)
    ensures
        r@ == strip_cr(s@),
{
    let v = to_chars(s);
    let n = v.len();
    if n > 0 && v[n - 1] == '\r' {
        from_chars(v.as_slice(), 0, n - 1)
    } else {
        assert(v@.subrange(0, n as int) == v@);
        from_chars(v.as_slice(), 0, n)
    }
}

/// The lines of `s`, as std's `str::lines` gives them.
pub fn str_lines(s: &str) -> (r: Vec<String>)
    ensures
        views(r@) == lines_spec(s@),
{
    let parts = split_char(s, '\n');
    let ghost p = split_spec(s@, '\n');
    let n = parts.len();
    let mut r: Vec<String> = Vec::new();
    let mut k: usize = 0;
    while k + 1 < n
        invariant
            views(parts@) == p,
            n == parts@.len(),
            n >= 1,
            k < n,
            views(r@) == p.take(k as int).map_values(|l: Seq<char>| strip_cr(l)),
        decreases n - k,
    {
        let line = without_cr(parts[k].as_str());
        proof {
            lemma_views_push(r@, line);
            assert(p.take(k as int + 1).map_values(|l: Seq<char>| strip_cr(l))
                == p.take(k as int).map_values(|l: Seq<char>| strip_cr(l)).push(strip_cr(p[k as int])));
        }
        r.push(line);
        k = k + 1;
    }
    assert(p.take(k as int) == p.drop_last());
    if !parts[k].as_str().is_empty() {
        let last = parts[k].clone();
        proof { lemma_views_push(r@, last); }
        r.push(last);
    }
    r
}

/// Bytes of a char in UTF-8.
pub open spec fn utf8_len(c: char) -> nat {
    if (c as u32) < 0x80 { 1 } else if (c as u32) < 0x800 { 2 } else if (c as u32) < 0x10000 { 3 } else { 4 }
}

pub fn char_utf8_len(c: char) -> (n: usize)
    ensures
        n == utf8_len(c),
{
    let u = c as u32;
    if u < 0x80 { 1 } else if u < 0x800 { 2 } else if u < 0x10000 { 3 } else { 4 }
}

} // verus!
