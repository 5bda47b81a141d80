//! The timeline heatmap's buckets: consecutive runs of entries, each
//! counted and marked when it holds an error or a warning.

use vstd::prelude::*;
use crate::ui::logs::toolbar::LogLevel;

verus! {

/// Where bucket `i` starts when buckets hold `bs` entries: `i * bs`, or
/// the end of the entries.
pub open spec fn bucket_start(total: nat, bs: nat, i: nat) -> nat
    decreases i,
{
    if i == 0 {
        0
    } else {
        let p = bucket_start(total, bs, (i - 1) as nat) + bs;
        if p <= total { p } else { total }
    }
}

/// Bucket `i`: how many entries it holds, and whether one of them is an
/// error, and whether one is a warning.
pub open spec fn bucket_spec(levels: Seq<LogLevel>, bs: nat, i: nat) -> (nat, bool, bool) {
    let a = bucket_start(levels.len(), bs, i);
    let b = bucket_start(levels.len(), bs, i + 1);
    (
        (b - a) as nat,
        exists|k: int| a <= k < b && levels[k] == LogLevel::Error,
        exists|k: int| a <= k < b && levels[k] == LogLevel::Warning,
    )
}

/// Bucket `i` starts at entry `i * bs`, or at the end of the entries when
/// that lies beyond them.
pub proof fn lemma_bucket_start_is_product(total: nat, bs: nat, i: nat)
    ensures
        bucket_start(total, bs, i) == if i * bs <= total { i * bs } else { total },
    decreases i,
{
    if i > 0 {
        let m = (i - 1) as nat;
        lemma_bucket_start_is_product(total, bs, m);
        assert(m * bs + bs == i * bs) by (nonlinear_arith)
            requires i == m + 1;
        let p = bucket_start(total, bs, m) + bs;
        assert(bucket_start(total, bs, i) == if p <= total { p } else { total });
    } else {
        assert(i * bs == 0) by (nonlinear_arith)
            requires i == 0;
    }
}

proof fn lemma_bucket_start_bound(total: nat, bs: nat, i: nat)
    ensures
        bucket_start(total, bs, i) <= total,
        bucket_start(total, bs, i + 1) <= bucket_start(total, bs, i) + bs,
        bucket_start(total, bs, i) <= bucket_start(total, bs, i + 1),
    decreases i,
{
    if i > 0 {
        lemma_bucket_start_bound(total, bs, (i - 1) as nat);
    }
}

/// The `width` buckets of the timeline, `bucket_size` entries each, over
/// the entries' levels in order: each bucket's count and whether it holds
/// an error and a warning.
pub fn timeline_buckets(levels: &Vec<LogLevel>, width: usize, bucket_size: usize) -> (r: Vec<(u32, bool, bool)>)
    requires
        bucket_size <= u32::MAX,
    ensures
        r@.len() == width,
        forall|i: int| 0 <= i < width ==> {
            let (c, e, w) = bucket_spec(levels@, bucket_size as nat, i as nat);
            &&& (#[trigger] r@[i]).0 as nat == c
            &&& r@[i].1 == e
            &&& r@[i].2 == w
        },
{
    let total = levels.len();
    let mut out: Vec<(u32, bool, bool)> = Vec::new();
    let mut idx: usize = 0;
    let mut i: usize = 0;
    while i < width
        invariant
            i <= width,
            total == levels@.len(),
            bucket_size <= u32::MAX,
            out@.len() == i,
            idx as nat == bucket_start(total as nat, bucket_size as nat, i as nat),
            forall|k: int| 0 <= k < i ==> {
                let (c, e, w) = bucket_spec(levels@, bucket_size as nat, k as nat);
                &&& (#[trigger] out@[k]).0 as nat == c
                &&& out@[k].1 == e
                &&& out@[k].2 == w
            },
        decreases width - i,
    {
        proof { lemma_bucket_start_bound(total as nat, bucket_size as nat, i as nat); }
        let start = idx;
        let mut c: u32 = 0;
        let mut e = false;
        let mut w = false;
        let mut j: usize = 0;
        while j < bucket_size && idx < total
            invariant
                j <= bucket_size <= u32::MAX,
                idx == start + j,
                idx <= total,
                total == levels@.len(),
                c == j,
                e == exists|k: int| start <= k < idx && levels@[k] == LogLevel::Error,
                w == exists|k: int| start <= k < idx && levels@[k] == LogLevel::Warning,
            decreases bucket_size - j,
        {
            match levels[idx] {
                LogLevel::Error => { e = true; },
                LogLevel::Warning => { w = true; },
                _ => {},
            }
            proof {
                if levels@[idx as int] == LogLevel::Error { assert(exists|k: int| start <= k < idx + 1 && levels@[k] == LogLevel::Error); }
                if levels@[idx as int] == LogLevel::Warning { assert(exists|k: int| start <= k < idx + 1 && levels@[k] == LogLevel::Warning); }
            }
            c = c + 1;
            idx = idx + 1;
            j = j + 1;
        }
        assert(idx as nat == bucket_start(total as nat, bucket_size as nat, i as nat + 1));
        out.push((c, e, w));
        i = i + 1;
    }
    out
}

} // verus!
