//! Where the log list's viewport starts and which entry is selected, from
//! the number of rows each filtered entry renders to.

use vstd::prelude::*;

verus! {

/// Walking back from entry `idx - 1`, with `used` rows already taken and
/// `start` the first entry kept so far: entries are kept while they fit
/// (the first one always does) until the rows reach `height`. The result
/// is the first kept entry.
pub open spec fn back_scan(h: Seq<usize>, height: nat, idx: int, used: nat, start: int) -> int
    decreases idx,
{
    if idx <= 0 {
        start
    } else {
        let i = idx - 1;
        let r = h[i] as nat;
        if used + r > height && used > 0 {
            start
        } else if used + r >= height {
            i
        } else {
            back_scan(h, height, i, used + r, i)
        }
    }
}

/// Walking forward from entry `fi` with `used` rows taken, `last` the last
/// entry shown so far: entries are shown while rows remain and they fit
/// (the first one always does). The result is the last entry shown.
pub open spec fn fwd_scan(h: Seq<usize>, height: nat, fi: int, used: nat, last: int) -> int
    decreases h.len() - fi,
{
    if fi < 0 || fi >= h.len() || used >= height {
        last
    } else {
        let r = h[fi] as nat;
        if used + r > height && used > 0 {
            last
        } else {
            fwd_scan(h, height, fi + 1, used + r, fi)
        }
    }
}

/// The viewport `(first entry shown, selected entry)` for entries of the
/// given row counts in `height` rows. Following the end, the viewport
/// ends at the last entry and the selection moves to the last entry when
/// it is out of view. Otherwise offset and selection are clamped, the
/// viewport moves up to a selection above it, and down so that a selection
/// below it is the last entry shown. With no entries both are 0.
pub open spec fn viewport_spec(h: Seq<usize>, height: nat, auto_scroll: bool, selected: nat, scroll: nat) -> (nat, nat) {
    let n = h.len();
    if n == 0 {
        (0, 0)
    } else if auto_scroll {
        let start = back_scan(h, height, n as int, 0, n as int);
        let sel = if selected < start || selected >= n { (n - 1) as nat } else { selected };
        (start as nat, sel)
    } else {
        let s0 = if scroll < n - 1 { scroll } else { (n - 1) as nat };
        let sel = if selected < n - 1 { selected } else { (n - 1) as nat };
        let s1 = if sel < s0 { sel } else { s0 };
        let last = fwd_scan(h, height, s1 as int, 0, s1 as int);
        if sel > last {
            (back_scan(h, height, (sel + 1) as int, 0, (sel + 1) as int) as nat, sel)
        } else {
            (s1, sel)
        }
    }
}

proof fn lemma_back_scan_bounds(h: Seq<usize>, height: nat, idx: int, used: nat, start: int)
    requires
        0 <= idx <= start,
    ensures
        0 <= back_scan(h, height, idx, used, start) <= start,
    decreases idx,
{
    if idx > 0 {
        let r = h[idx - 1] as nat;
        if !(used + r > height && used > 0) && used + r < height {
            lemma_back_scan_bounds(h, height, idx - 1, used + r, idx - 1);
        }
    }
}

/// Walk back from entry `from - 1` (see [`back_scan`]).
fn scan_back(h: &Vec<usize>, height: usize, from: usize) -> (start: usize)
    requires
        from <= h@.len(),
        forall|i: int| 0 <= i < h@.len() ==> h@[i] + height <= usize::MAX,
    ensures
        start as int == back_scan(h@, height as nat, from as int, 0, from as int),
        start <= from,
        from > 0 ==> start < from,
{
    proof {
        lemma_back_scan_bounds(h@, height as nat, from as int, 0, from as int);
        if from > 0 {
            let r = h@[from - 1] as nat;
            if r < height {
                lemma_back_scan_bounds(h@, height as nat, from - 1, r, from - 1);
            }
        }
    }
    let mut used: usize = 0;
    let mut start = from;
    let mut idx = from;
    while idx > 0
        invariant
            idx <= start <= from <= h@.len(),
            used < height || (used == 0 && idx == from),
            forall|i: int| 0 <= i < h@.len() ==> h@[i] + height <= usize::MAX,
            back_scan(h@, height as nat, idx as int, used as nat, start as int)
                == back_scan(h@, height as nat, from as int, 0, from as int),
            from > 0 ==> back_scan(h@, height as nat, from as int, 0, from as int) < from,
        decreases idx,
    {
        idx = idx - 1;
        let rows = h[idx];
        if used + rows > height && used > 0 {
            return start;
        }
        used = used + rows;
        start = idx;
        if used >= height {
            return start;
        }
    }
    start
}

/// Walk forward from entry `from` (see [`fwd_scan`]).
fn scan_fwd(h: &Vec<usize>, height: usize, from: usize) -> (last: usize)
    requires
        from < h@.len(),
        forall|i: int| 0 <= i < h@.len() ==> h@[i] + height <= usize::MAX,
    ensures
        last as int == fwd_scan(h@, height as nat, from as int, 0, from as int),
        from <= last < h@.len(),
{
    let n = h.len();
    let mut used: usize = 0;
    let mut last = from;
    let mut fi = from;
    while fi < n && used < height
        invariant
            from <= last <= fi <= n,
            n == h@.len(),
            last < n,
            forall|i: int| 0 <= i < h@.len() ==> h@[i] + height <= usize::MAX,
            fwd_scan(h@, height as nat, fi as int, used as nat, last as int)
                == fwd_scan(h@, height as nat, from as int, 0, from as int),
        decreases n - fi,
    {
        let rows = h[fi];
        if used + rows > height && used > 0 {
            return last;
        }
        used = used + rows;
        last = fi;
        fi = fi + 1;
    }
    last
}

/// Resolve the log list's viewport for entries rendering to `row_heights`
/// rows each in `height` rows: `(first entry shown, selected entry)`.
pub fn resolve_viewport(row_heights: &Vec<usize>, height: usize, auto_scroll: bool, selected: usize,
    scroll_offset: usize) -> (r: (usize, usize))
    requires
        forall|i: int| 0 <= i < row_heights@.len() ==> row_heights@[i] + height <= usize::MAX,
    ensures
        (r.0 as nat, r.1 as nat) == viewport_spec(row_heights@, height as nat, auto_scroll, selected as nat,
            scroll_offset as nat),
        row_heights@.len() > 0 ==> r.0 < row_heights@.len() && r.1 < row_heights@.len(),
{
    let n = row_heights.len();
    if n == 0 {
        return (0, 0);
    }
    if auto_scroll {
        let start = scan_back(row_heights, height, n);
        let sel = if selected < start || selected >= n { n - 1 } else { selected };
        return (start, sel);
    }
    let s0 = if scroll_offset < n - 1 { scroll_offset } else { n - 1 };
    let sel = if selected < n - 1 { selected } else { n - 1 };
    let s1 = if sel < s0 { sel } else { s0 };
    let last = scan_fwd(row_heights, height, s1);
    if sel > last {
        let start = scan_back(row_heights, height, sel + 1);
        (start, sel)
    } else {
        (s1, sel)
    }
}

} // verus!
