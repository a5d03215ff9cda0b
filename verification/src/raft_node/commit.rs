//! Choosing the highest log index that a majority of the cluster holds.

use vstd::prelude::*;
use super::model::{count_at_least, is_kth_largest, kth_largest};

verus! {

/// Fewer values reach a higher threshold.
pub proof fn lemma_count_monotone(vals: Seq<u64>, v1: int, v2: int)
    requires
        v1 <= v2,
    ensures
        count_at_least(vals, v1) >= count_at_least(vals, v2),
    decreases vals.len(),
{
    if vals.len() > 0 {
        lemma_count_monotone(vals.drop_last(), v1, v2);
    }
}

/// At most all the values reach a threshold, and all reach 0.
pub proof fn lemma_count_bounds(vals: Seq<u64>, v: int)
    ensures
        count_at_least(vals, v) <= vals.len(),
        count_at_least(vals, 0) == vals.len(),
    decreases vals.len(),
{
    if vals.len() > 0 {
        lemma_count_bounds(vals.drop_last(), v);
    }
}

/// When some value reaches `t`, the least such value is reached by exactly
/// as many values as `t`.
proof fn lemma_least_value_at_least(vals: Seq<u64>, t: int) -> (j: int)
    requires
        count_at_least(vals, t) >= 1,
    ensures
        0 <= j < vals.len(),
        vals[j] >= t,
        count_at_least(vals, vals[j] as int) == count_at_least(vals, t),
    decreases vals.len(),
{
    let s = vals.drop_last();
    let l = vals.last();
    if count_at_least(s, t) == 0 {
        lemma_count_monotone(s, t, l as int);
        (vals.len() - 1) as int
    } else {
        let j0 = lemma_least_value_at_least(s, t);
        let y = s[j0];
        if l < t {
            assert(vals[j0] == y);
            j0
        } else if l < y {
            lemma_count_monotone(s, t, l as int);
            lemma_count_monotone(s, l as int, y as int);
            (vals.len() - 1) as int
        } else {
            assert(vals[j0] == y);
            j0
        }
    }
}

/// No value reaches a threshold beyond the largest `u64`.
proof fn lemma_count_beyond_u64(vals: Seq<u64>, v: int)
    requires
        v > u64::MAX,
    ensures
        count_at_least(vals, v) == 0,
    decreases vals.len(),
{
    if vals.len() > 0 {
        lemma_count_beyond_u64(vals.drop_last(), v);
    }
}

/// Between a threshold reached by `k` values and one that is not, there is a
/// last threshold reached by `k` values.
proof fn lemma_last_threshold(vals: Seq<u64>, k: nat, lo: int, hi: int) -> (v: int)
    requires
        lo < hi,
        count_at_least(vals, lo) >= k,
        count_at_least(vals, hi) < k,
    ensures
        lo <= v < hi,
        count_at_least(vals, v) >= k,
        count_at_least(vals, v + 1) < k,
    decreases hi - lo,
{
    if hi == lo + 1 {
        lo
    } else {
        let mid = lo + (hi - lo) / 2;
        if count_at_least(vals, mid) >= k {
            lemma_last_threshold(vals, k, mid, hi)
        } else {
            lemma_last_threshold(vals, k, lo, mid)
        }
    }
}

/// Among at least `k` values there is a `k`-th largest.
pub proof fn lemma_kth_largest_exists(vals: Seq<u64>, k: nat)
    requires
        1 <= k <= vals.len(),
    ensures
        is_kth_largest(vals, k, kth_largest(vals, k)),
{
    lemma_count_bounds(vals, 0);
    lemma_count_beyond_u64(vals, u64::MAX + 1);
    let v = lemma_last_threshold(vals, k, 0, u64::MAX + 1);
    assert(is_kth_largest(vals, k, v as u64));
}

/// There is at most one `k`-th largest value.
pub proof fn lemma_kth_largest_unique(vals: Seq<u64>, k: nat, r1: u64, r2: u64)
    requires
        is_kth_largest(vals, k, r1),
        is_kth_largest(vals, k, r2),
    ensures
        r1 == r2,
{
    if r1 < r2 {
        lemma_count_monotone(vals, r1 + 1, r2 as int);
    } else if r2 < r1 {
        lemma_count_monotone(vals, r2 + 1, r1 as int);
    }
}

/// How many of the values are at least `v`.
pub fn count_values_at_least(vals: &Vec<u64>, v: u64) -> (r: usize)
    ensures
        r == count_at_least(vals@, v as int),
{
    let mut c: usize = 0;
    let n = vals.len();
    for i in 0..n
        invariant
            n == vals@.len(),
            c == count_at_least(vals@.take(i as int), v as int),
            c <= i,
    {
        proof {
            assert(vals@.take(i + 1).drop_last() =~= vals@.take(i as int));
        }
        if vals[i] >= v {
            c = c + 1;
        }
    }
    assert(vals@.take(n as int) =~= vals@);
    c
}

/// The `k`-th largest of the values, counted with repetition: the value
/// that a descending sort puts at position `k`.
pub fn kth_largest_value(vals: &Vec<u64>, k: usize) -> (r: u64)
    requires
        1 <= k <= vals@.len(),
    ensures
        is_kth_largest(vals@, k as nat, r),
        r == kth_largest(vals@, k as nat),
{
    let n = vals.len();
    let mut found = false;
    let mut best: u64 = 0;
    for j in 0..n
        invariant
            n == vals@.len(),
            found ==> count_at_least(vals@, best as int) >= k,
            forall|i: int|
                0 <= i < j && count_at_least(vals@, vals@[i] as int) >= k ==> found && #[trigger] vals@[i]
                    <= best,
    {
        let c = count_values_at_least(vals, vals[j]);
        if c >= k && (!found || vals[j] > best) {
            best = vals[j];
            found = true;
        }
    }
    proof {
        lemma_count_bounds(vals@, 0);
        let j0 = lemma_least_value_at_least(vals@, 0);
        assert(count_at_least(vals@, vals@[j0] as int) >= k);
        assert(found);
        if count_at_least(vals@, best + 1) >= k {
            let j1 = lemma_least_value_at_least(vals@, best + 1);
            assert(vals@[j1] <= best);
        }
        assert(is_kth_largest(vals@, k as nat, best));
        let c = choose|r: u64| is_kth_largest(vals@, k as nat, r);
        lemma_kth_largest_unique(vals@, k as nat, c, best);
    }
    best
}

} // verus!
