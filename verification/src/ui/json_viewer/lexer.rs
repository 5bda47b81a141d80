//! Token scanners for the raw-text JSON highlighter. Each takes a whole
//! line as chars and an index, and reports how far one token reaches.
//! They are tolerant: an unterminated string or a half-typed number is
//! returned as it stands.

use vstd::prelude::*;
use crate::text::strings::{is_alphanumeric, push_char, to_chars, unicode_alphanumeric, ascii_digit, ascii_whitespace};

verus! {

/// The rest of a string literal from `j` (just past an opening quote, or
/// the start of a line inside a multi-line string): `(text consumed,
/// index after it, whether a closing quote ended it)`. A backslash takes
/// the next char with it.
pub open spec fn string_body(chars: Seq<char>, j: int) -> (Seq<char>, int, bool)
    decreases chars.len() - j,
{
    if j < 0 || j >= chars.len() {
        (seq![], chars.len() as int, false)
    } else if chars[j] == '\\' && j + 1 < chars.len() {
        let r = string_body(chars, j + 2);
        (seq![chars[j], chars[j + 1]] + r.0, r.1, r.2)
    } else if chars[j] == '"' {
        (seq!['"'], j + 1, true)
    } else {
        let r = string_body(chars, j + 1);
        (seq![chars[j]] + r.0, r.1, r.2)
    }
}

/// The first index at or after `k` that is not ASCII whitespace.
pub open spec fn skip_ascii_ws(chars: Seq<char>, k: int) -> int
    decreases chars.len() - k,
{
    if 0 <= k < chars.len() && ascii_whitespace(chars[k]) { skip_ascii_ws(chars, k + 1) } else { k }
}

/// A string ending at `after` is an object key when the next
/// non-whitespace char is `:`.
pub open spec fn key_follows(chars: Seq<char>, after: int) -> bool {
    let k = skip_ascii_ws(chars, after);
    0 <= k < chars.len() && chars[k] == ':'
}

/// A char that continues a number.
pub open spec fn num_char(c: char) -> bool {
    ascii_digit(c) || c == '.' || c == 'e' || c == 'E' || c == '+' || c == '-'
}

/// End of the number run starting at `j`.
pub open spec fn num_end(chars: Seq<char>, j: int) -> int
    decreases chars.len() - j,
{
    if 0 <= j < chars.len() && num_char(chars[j]) { num_end(chars, j + 1) } else { j }
}

/// The keyword `kw` stands at `i`, not followed by an alphanumeric char or
/// `_` (end of line counts as a space).
pub open spec fn keyword_at(chars: Seq<char>, i: int, kw: Seq<char>) -> bool {
    let end = i + kw.len();
    &&& 0 <= i
    &&& end <= chars.len()
    &&& chars.subrange(i, end) == kw
    &&& (end < chars.len() ==> !unicode_alphanumeric(chars[end]) && chars[end] != '_')
}

/// A string body starting inside the line ends inside it, past its start.
pub proof fn lemma_string_body_bounds(chars: Seq<char>, j: int)
    requires
        0 <= j <= chars.len(),
    ensures
        j <= string_body(chars, j).1 <= chars.len(),
        string_body(chars, j).2 ==> j < string_body(chars, j).1,
        !string_body(chars, j).2 ==> string_body(chars, j).1 == chars.len(),
        string_body(chars, j).0.len() == string_body(chars, j).1 - j,
        string_body(chars, j).0 == chars.subrange(j, string_body(chars, j).1),
    decreases chars.len() - j,
{
    if j < chars.len() {
        if chars[j] == '\\' && j + 1 < chars.len() {
            lemma_string_body_bounds(chars, j + 2);
            assert(seq![chars[j], chars[j + 1]] + chars.subrange(j + 2, string_body(chars, j + 2).1)
                =~= chars.subrange(j, string_body(chars, j + 2).1));
        } else if chars[j] == '"' {
            assert(seq!['"'] =~= chars.subrange(j, j + 1));
        } else {
            lemma_string_body_bounds(chars, j + 1);
            assert(seq![chars[j]] + chars.subrange(j + 1, string_body(chars, j + 1).1)
                =~= chars.subrange(j, string_body(chars, j + 1).1));
        }
    } else {
        assert(chars.subrange(j, j) =~= Seq::<char>::empty());
    }
}

/// A number run stays inside the line.
pub proof fn lemma_num_end_bounds(chars: Seq<char>, j: int)
    requires
        0 <= j <= chars.len(),
    ensures
        j <= num_end(chars, j) <= chars.len(),
    decreases chars.len() - j,
{
    if j < chars.len() && num_char(chars[j]) {
        lemma_num_end_bounds(chars, j + 1);
    }
}

/// `true`
pub open spec fn kw_true() -> Seq<char> { seq!['t', 'r', 'u', 'e'] }
/// `false`
pub open spec fn kw_false() -> Seq<char> { seq!['f', 'a', 'l', 's', 'e'] }
/// `null`
pub open spec fn kw_null() -> Seq<char> { seq!['n', 'u', 'l', 'l'] }


/// A string literal scanned from its opening quote: the text taken
/// (with both quotes when closed), whether it closed on this line, and the
/// index after it (the line's length when it did not close).
pub struct ScannedString {
    pub literal: String,
    pub terminated: bool,
    pub end: usize,
}

/// Scan the string literal whose opening quote is `chars[start]`; a
/// backslash escapes the char after it.
pub fn scan_string(chars: &[char], start: usize) -> (r: ScannedString)
    requires
        start < chars@.len(),
        chars@[start as int] == '"',
    ensures
        r.literal@ == seq!['"'] + string_body(chars@, start + 1).0,
        r.end == string_body(chars@, start + 1).1,
        r.terminated == string_body(chars@, start + 1).2,
{
    let ghost target = string_body(chars@, start + 1);
    let len = chars.len();
    let mut s = String::new();
    push_char(&mut s, '"');
    let mut j = start + 1;
    while j < len
        invariant
            start + 1 <= j <= len,
            len == chars@.len(),
            target == string_body(chars@, start + 1),
            s@ + string_body(chars@, j as int).0 == seq!['"'] + target.0,
            string_body(chars@, j as int).1 == target.1,
            string_body(chars@, j as int).2 == target.2,
        decreases len - j,
    {
        let c = chars[j];
        if c == '\\' && j + 1 < len {
            let ghost r = string_body(chars@, j + 2);
            assert(s@ + (seq![c, chars@[j + 1]] + r.0) == s@.push(c).push(chars@[j + 1]) + r.0);
            push_char(&mut s, c);
            push_char(&mut s, chars[j + 1]);
            j = j + 2;
        } else if c == '"' {
            assert(string_body(chars@, j as int) == (seq!['"'], j + 1, true));
            assert(s@ + seq!['"'] == s@.push('"'));
            push_char(&mut s, '"');
            return ScannedString { literal: s, terminated: true, end: j + 1 };
        } else {
            let ghost r = string_body(chars@, j + 1);
            assert(s@ + (seq![c] + r.0) == s@.push(c) + r.0);
            push_char(&mut s, c);
            j = j + 1;
        }
    }
    assert(s@ + Seq::<char>::empty() == s@);
    ScannedString { literal: s, terminated: false, end: len }
}

/// std's `char::is_ascii_whitespace`.
fn is_ascii_ws(c: char) -> (r: bool)
    ensures
        r == ascii_whitespace(c),
{
    c == ' ' || c == '\t' || c == '\n' || c == '\x0C' || c == '\r'
}

/// Whether the string that ended just before `after` is an object key:
/// past any ASCII whitespace the next char is `:`.
pub fn is_key_after(chars: &[char], after: usize) -> (r: bool)
    ensures
        r == key_follows(chars@, after as int),
{
    let mut k = after;
    while k < chars.len() && is_ascii_ws(chars[k])
        invariant
            after <= k,
            skip_ascii_ws(chars@, k as int) == skip_ascii_ws(chars@, after as int),
        decreases chars@.len() - k,
    {
        k = k + 1;
    }
    k < chars.len() && chars[k] == ':'
}

/// Scan the number that starts at `chars[start]`: that char, then every
/// following digit, `.`, `e`, `E`, `+` or `-`. Returns its text and the
/// index after it.
pub fn scan_number(chars: &[char], start: usize) -> (r: (String, usize))
    requires
        start < chars@.len(),
    ensures
        r.1 == num_end(chars@, start + 1),
        r.0@ == chars@.subrange(start as int, r.1 as int),
{
    let len = chars.len();
    let mut num = String::new();
    push_char(&mut num, chars[start]);
    let mut j = start + 1;
    assert(chars@.subrange(start as int, j as int) == seq![chars@[start as int]]);
    while j < len && (('0' <= chars[j] && chars[j] <= '9') || chars[j] == '.' || chars[j] == 'e'
        || chars[j] == 'E' || chars[j] == '+' || chars[j] == '-')
        invariant
            start + 1 <= j <= len,
            len == chars@.len(),
            num_end(chars@, j as int) == num_end(chars@, start + 1),
            num@ == chars@.subrange(start as int, j as int),
        decreases len - j,
    {
        assert(chars@.subrange(start as int, j + 1) == chars@.subrange(start as int, j as int).push(chars@[j as int]));
        push_char(&mut num, chars[j]);
        j = j + 1;
    }
    (num, j)
}

/// Whether the keyword stands at `chars[start]` and is not followed by an
/// alphanumeric char or `_`, so `truely`, `falsey` and `nullable` stay
/// plain text.
pub fn match_keyword(chars: &[char], start: usize, keyword: &str) -> (r: bool)
    ensures
        r == keyword_at(chars@, start as int, keyword@),
{
    let kw = to_chars(keyword);
    let len = chars.len();
    if start > len || kw.len() > len - start {
        return false;
    }
    let end = start + kw.len();
    let mut k: usize = 0;
    while k < kw.len()
        invariant
            k <= kw@.len(),
            kw@ == keyword@,
            end == start + kw@.len(),
            end <= len,
            len == chars@.len(),
            forall|m: int| 0 <= m < k ==> chars@[start + m] == kw@[m],
        decreases kw@.len() - k,
    {
        if chars[start + k] != kw[k] {
            assert(chars@.subrange(start as int, end as int)[k as int] != kw@[k as int]);
            assert(chars@.subrange(start as int, end as int) != kw@);
            return false;
        }
        k = k + 1;
    }
    assert(chars@.subrange(start as int, end as int) =~= kw@);
    let after = if end < len { chars[end] } else { ' ' };
    !is_alphanumeric(after) && after != '_'
}

/// Go on with a string left open by an earlier line, from the start of
/// this one: the text taken, the index after it, and whether a closing
/// quote ended it.
pub fn scan_string_continuation(chars: &[char]) -> (r: (String, usize, bool))
    ensures
        (r.0@, r.1 as int, r.2) == string_body(chars@, 0),
{
    let ghost target = string_body(chars@, 0);
    let len = chars.len();
    let mut buf = String::new();
    let mut i: usize = 0;
    while i < len
        invariant
            i <= len,
            len == chars@.len(),
            target == string_body(chars@, 0),
            buf@ + string_body(chars@, i as int).0 == target.0,
            string_body(chars@, i as int).1 == target.1,
            string_body(chars@, i as int).2 == target.2,
        decreases len - i,
    {
        let c = chars[i];
        if c == '\\' && i + 1 < len {
            let ghost r = string_body(chars@, i + 2);
            assert(buf@ + (seq![c, chars@[i + 1]] + r.0) == buf@.push(c).push(chars@[i + 1]) + r.0);
            push_char(&mut buf, c);
            push_char(&mut buf, chars[i + 1]);
            i = i + 2;
        } else if c == '"' {
            assert(string_body(chars@, i as int) == (seq!['"'], i + 1, true));
            assert(buf@ + seq!['"'] == buf@.push('"'));
            push_char(&mut buf, c);
            return (buf, i + 1, true);
        } else {
            let ghost r = string_body(chars@, i + 1);
            assert(buf@ + (seq![c] + r.0) == buf@.push(c) + r.0);
            push_char(&mut buf, c);
            i = i + 1;
        }
    }
    assert(buf@ + Seq::<char>::empty() == buf@);
    (buf, len, false)
}

} // verus!
