//! The statistics screen's figures: each level's count, and the rows of
//! the tag ranking with their bars.

use vstd::prelude::*;
use crate::text::strings::{decimal, decimal_string, owned, push_char, push_str, repeat_char, run, to_chars};
use crate::text::wrap::spaces;
use crate::ui::logs::toolbar::LogLevel;

verus! {

/// The count of `level` in a snapshot's level counts: the first entry for
/// it, or 0.
pub open spec fn level_count_spec(counts: Seq<(LogLevel, usize)>, level: LogLevel) -> nat
    decreases counts.len(),
{
    if counts.len() == 0 {
        0
    } else if counts[0].0 == level {
        counts[0].1 as nat
    } else {
        level_count_spec(counts.drop_first(), level)
    }
}

/// The count of `level` (see [`level_count_spec`]).
pub fn level_count(counts: &Vec<(LogLevel, usize)>, level: LogLevel) -> (n: usize)
    ensures
        n as nat == level_count_spec(counts@, level),
{
    let mut k: usize = 0;
    assert(counts@.skip(0) =~= counts@);
    while k < counts.len()
        invariant
            k <= counts@.len(),
            level_count_spec(counts@, level) == level_count_spec(counts@.skip(k as int), level),
        decreases counts@.len() - k,
    {
        assert(counts@.skip(k as int).drop_first() =~= counts@.skip(k as int + 1));
        if counts[k].0 == level {
            return counts[k].1;
        }
        k = k + 1;
    }
    0
}

/// `s` right-aligned in `w` chars: blanks before it when it is shorter.
pub open spec fn right_align(s: Seq<char>, w: nat) -> Seq<char> {
    if s.len() < w { spaces((w - s.len()) as nat) + s } else { s }
}

/// `s` left-aligned in `w` chars: blanks after it when it is shorter.
pub open spec fn left_align(s: Seq<char>, w: nat) -> Seq<char> {
    if s.len() < w { s + spaces((w - s.len()) as nat) } else { s }
}

/// A row of the tag ranking.
pub struct RankRow {
    /// ` n. ` with the rank right-aligned in two chars.
    pub rank: String,
    /// The tag left-aligned in 14 chars.
    pub tag: String,
    /// The count right-aligned in 6 chars, then a blank.
    pub count: String,
    /// The bar's length: the count's share of 30 cells against the top
    /// count.
    pub bar: usize,
}

/// A rank row as its texts and bar length.
pub open spec fn rank_view(r: RankRow) -> (Seq<char>, Seq<char>, Seq<char>, nat) {
    (r.rank@, r.tag@, r.count@, r.bar as nat)
}

/// Row `i` of the ranking, whose top count is `top`.
pub open spec fn rank_row_spec(i: nat, tag: Seq<char>, count: nat, top: nat) -> (Seq<char>, Seq<char>, Seq<char>, nat) {
    (
        seq![' '] + right_align(decimal(i + 1), 2) + seq!['.', ' '],
        left_align(tag, 14),
        right_align(decimal(count), 6) + seq![' '],
        (count * 30) / (if top > 1 { top } else { 1 }),
    )
}

/// The rows of the tag ranking that fit in `max_rows`, the first entry's
/// count being the top one.
pub open spec fn ranking_spec(ranking: Seq<(String, usize)>, max_rows: nat) -> Seq<(Seq<char>, Seq<char>, Seq<char>, nat)> {
    let n = if ranking.len() < max_rows { ranking.len() } else { max_rows };
    Seq::new(n, |i: int| rank_row_spec(i as nat, ranking[i].0@, ranking[i].1 as nat, ranking[0].1 as nat))
}

fn right_align_of(s: String, w: usize) -> (r: String)
    ensures
        r@ == right_align(s@, w as nat),
{
    let n = to_chars(s.as_str()).len();
    if n < w {
        let mut r = repeat_char(' ', w - n);
        push_str(&mut r, s.as_str());
        assert(run(' ', (w - n) as nat) =~= spaces((w - n) as nat));
        r
    } else {
        s
    }
}

fn left_align_of(s: &str, w: usize) -> (r: String)
    ensures
        r@ == left_align(s@, w as nat),
{
    let n = to_chars(s).len();
    let mut r = owned(s);
    if n < w {
        push_str(&mut r, repeat_char(' ', w - n).as_str());
        assert(run(' ', (w - n) as nat) =~= spaces((w - n) as nat));
    }
    r
}

/// The rows of the tag ranking (see [`ranking_spec`]).
pub fn tag_ranking_rows(ranking: &Vec<(String, usize)>, max_rows: usize) -> (r: Vec<RankRow>)
    requires
        forall|i: int| 0 <= i < ranking@.len() ==> (#[trigger] ranking@[i]).1 * 30 <= usize::MAX,
    ensures
        r@.map_values(|x: RankRow| rank_view(x)) == ranking_spec(ranking@, max_rows as nat),
{
    let n = if ranking.len() < max_rows { ranking.len() } else { max_rows };
    let ghost f = |i: int| rank_row_spec(i as nat, ranking@[i].0@, ranking@[i].1 as nat, ranking@[0].1 as nat);
    let mut out: Vec<RankRow> = Vec::new();
    let mut i: usize = 0;
    while i < n
        invariant
            i <= n <= ranking@.len(),
            n == if ranking@.len() < max_rows { ranking@.len() } else { max_rows as nat },
            forall|i: int| 0 <= i < ranking@.len() ==> (#[trigger] ranking@[i]).1 * 30 <= usize::MAX,
            f == (|i: int| rank_row_spec(i as nat, ranking@[i].0@, ranking@[i].1 as nat, ranking@[0].1 as nat)),
            out@.map_values(|x: RankRow| rank_view(x)) == Seq::new(i as nat, f),
        decreases n - i,
    {
        let top = ranking[0].1;
        let count = ranking[i].1;
        let mut rank = repeat_char(' ', 1);
        push_str(&mut rank, right_align_of(decimal_string(i + 1), 2).as_str());
        push_char(&mut rank, '.');
        push_char(&mut rank, ' ');
        assert(rank@ =~= seq![' '] + right_align(decimal(i as nat + 1), 2) + seq!['.', ' ']);
        let tag = left_align_of(ranking[i].0.as_str(), 14);
        let mut ct = right_align_of(decimal_string(count), 6);
        push_char(&mut ct, ' ');
        let bar = (count * 30) / (if top > 1 { top } else { 1 });
        let row = RankRow { rank, tag, count: ct, bar };
        assert(rank_view(row) == f(i as int));
        let ghost before = out@.map_values(|x: RankRow| rank_view(x));
        out.push(row);
        assert(out@.map_values(|x: RankRow| rank_view(x)) =~= before.push(f(i as int)));
        assert(Seq::new(i as nat + 1, f) =~= Seq::new(i as nat, f).push(f(i as int)));
        i = i + 1;
    }
    out
}

} // verus!
