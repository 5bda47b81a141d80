//! Display width of characters and strings, as measured by `unicode-width`.

use vstd::prelude::*;

verus! {

/// The width that `unicode-width` gives a char: `None` for control
/// characters, otherwise the number of terminal columns.
pub uninterp spec fn unicode_char_width(c: char) -> Option<usize>;

/// The width that `unicode-width` gives a whole string. It is not always the
/// sum of the char widths (emoji sequences, `\r\n`, control chars).
pub uninterp spec fn unicode_str_width(s: Seq<char>) -> usize;

/// `UnicodeWidthChar::width` on a char. Claims the result is the named
/// width of `c`, that printable ASCII is one column wide, that `…`
/// (U+2026, East Asian Width "Ambiguous", which the crate documents as
/// treated as narrow) is one column wide, that the C0 and C1 control ranges
/// have no width, and that no char is wider than 3.
#[verifier::external_body]
fn char_width(c: char) -> (w: Option<usize>)
    ensures
        w == unicode_char_width(c),
        (0x20 <= c as u32 && c as u32 <= 0x7E) ==> w == Some(1usize),
        c == '\u{2026}' ==> w == Some(1usize),
        (c as u32) < 0x20 || (0x7F <= c as u32 && (c as u32) < 0xA0) ==> w is None,
        w matches Some(n) ==> n <= 3,
{
    unicode_width::UnicodeWidthChar::width(c)
}

/// `UnicodeWidthStr::width` on a string. Claims the result is the named
/// width of the string, and that a string of printable ASCII has one
/// column per char.
#[verifier::external_body]
pub(crate) fn str_width(s: &str) -> (w: usize)
    ensures
        w == unicode_str_width(s@),
        all_printable_ascii(s@) ==> w == s@.len(),
{
    unicode_width::UnicodeWidthStr::width(s)
}

/// Every char of `s` lies in the printable ASCII range.
pub open spec fn all_printable_ascii(s: Seq<char>) -> bool {
    forall|i: int| 0 <= i < s.len() ==> 0x20 <= #[trigger] s[i] as u32 && s[i] as u32 <= 0x7E
}

/// The columns a char occupies when laid out on its own; control chars
/// count as zero. Printable ASCII and `…` are one column (the width
/// contract of [`char_width`] gives those values).
pub open spec fn col(c: char) -> nat {
    if (0x20 <= c as u32 && c as u32 <= 0x7E) || c == '\u{2026}' {
        1
    } else {
        match unicode_char_width(c) {
            Some(n) => n as nat,
            None => 0,
        }
    }
}

/// Sum of the per-char columns of `s`.
pub open spec fn cols(s: Seq<char>) -> nat
    decreases s.len(),
{
    if s.len() == 0 {
        0
    } else {
        cols(s.drop_last()) + col(s.last())
    }
}

/// A string small enough that summing per-char columns cannot overflow.
pub open spec fn measurable(s: Seq<char>) -> bool {
    3 * s.len() <= usize::MAX
}

/// Columns of one char, with control chars as zero.
pub fn char_cols(c: char) -> (n: usize)
    ensures
        n == col(c),
        n <= 3,
        (0x20 <= c as u32 && c as u32 <= 0x7E) ==> n == 1,
{
    match char_width(c) {
        Some(w) => w,
        None => 0,
    }
}

/// Extending a string by one char adds that char's columns.
pub proof fn lemma_cols_take_step(s: Seq<char>, i: int)
    requires
        0 <= i < s.len(),
    ensures
        cols(s.take(i + 1)) == cols(s.take(i)) + col(s[i]),
{
    assert(s.take(i + 1).drop_last() == s.take(i));
}

/// Columns distribute over concatenation.
pub proof fn lemma_cols_concat(a: Seq<char>, b: Seq<char>)
    ensures
        cols(a + b) == cols(a) + cols(b),
    decreases b.len(),
{
    if b.len() == 0 {
        assert(a + b == a);
    } else {
        lemma_cols_concat(a, b.drop_last());
        assert((a + b).drop_last() == a + b.drop_last());
    }
}

/// Columns of a push.
pub proof fn lemma_cols_push(a: Seq<char>, c: char)
    ensures
        cols(a.push(c)) == cols(a) + col(c),
{
    assert(a.push(c).drop_last() == a);
}

} // verus!
