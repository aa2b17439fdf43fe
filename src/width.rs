//! Display-column arithmetic over the widths of a line's grapheme clusters.
use vstd::prelude::*;

verus! {

/// The total width of clusters `[s, e)`.
pub open spec fn width_sum(w: Seq<usize>, s: int, e: int) -> int
    decreases e - s,
{
    if s < e {
        width_sum(w, s, e - 1) + w[e - 1]
    } else {
        0
    }
}

/// `v`, or the largest `usize` when it does not fit.
pub open spec fn saturate(v: int) -> int {
    if v > usize::MAX {
        usize::MAX as int
    } else {
        v
    }
}

/// The width of clusters `[start, end)`, both clamped to the line.
pub open spec fn columns(w: Seq<usize>, start: int, end: int) -> int {
    let e = if end < w.len() {
        end
    } else {
        w.len() as int
    };
    let s = if start < e {
        start
    } else {
        e
    };
    saturate(width_sum(w, s, e))
}

/// Where clusters taken greedily from `i` on, `used` columns being spent
/// already, stop fitting into `budget` columns.
pub open spec fn fit_end(w: Seq<usize>, i: int, used: int, budget: int) -> int
    decreases w.len() - i,
{
    if 0 <= i < w.len() && used + w[i] <= budget {
        fit_end(w, i + 1, used + w[i], budget)
    } else {
        i
    }
}

/// How many leading clusters fit into `budget` columns.
pub open spec fn fitting(w: Seq<usize>, budget: int) -> int {
    fit_end(w, 0, 0, budget)
}

/// The width of clusters `[start, end)` of a line whose cluster widths are
/// `w`, both ends clamped to the line; saturates at the largest `usize`.
pub fn columns_in(w: &Vec<usize>, start: usize, end: usize) -> (r: usize)
    ensures
        r == columns(w@, start as int, end as int),
{
    let n = w.len();
    let e = if end < n {
        end
    } else {
        n
    };
    let s = if start < e {
        start
    } else {
        e
    };
    let mut total: usize = 0;
    let mut i = s;
    while i < e
        invariant
            s <= i <= e <= n == w.len(),
            width_sum(w@, s as int, i as int) >= 0,
            total == saturate(width_sum(w@, s as int, i as int)),
        decreases e - i,
    {
        total = if w[i] > usize::MAX - total {
            usize::MAX
        } else {
            total + w[i]
        };
        i += 1;
    }
    total
}

/// Where clusters with widths `w`, taken greedily from `i0` on, stop fitting
/// into `budget` columns.
pub fn fit_end_in(w: &Vec<usize>, i0: usize, budget: usize) -> (r: usize)
    requires
        i0 <= w.len(),
    ensures
        r == fit_end(w@, i0 as int, 0, budget as int),
        i0 <= r <= w.len(),
{
    let n = w.len();
    let mut i = i0;
    let mut used: usize = 0;
    while i < n
        invariant
            i0 <= i <= n == w.len(),
            used <= budget,
            fit_end(w@, i0 as int, 0, budget as int) == fit_end(w@, i as int, used as int, budget as int),
        decreases n - i,
    {
        if w[i] > budget - used {
            return i;
        }
        used += w[i];
        i += 1;
    }
    i
}

proof fn lemma_fit_end_ge(w: Seq<usize>, i: int, used: int, budget: int)
    ensures
        fit_end(w, i, used, budget) >= i,
    decreases w.len() - i,
{
    if 0 <= i < w.len() && used + w[i] <= budget {
        lemma_fit_end_ge(w, i + 1, used + w[i], budget);
    }
}

proof fn lemma_fit_end_mono(w: Seq<usize>, i: int, used: int, b1: int, b2: int)
    requires
        b1 <= b2,
    ensures
        fit_end(w, i, used, b1) <= fit_end(w, i, used, b2),
    decreases w.len() - i,
{
    if 0 <= i < w.len() && used + w[i] <= b1 {
        lemma_fit_end_mono(w, i + 1, used + w[i], b1, b2);
    } else {
        lemma_fit_end_ge(w, i, used, b2);
    }
}

proof fn lemma_width_sum_mono(w: Seq<usize>, s: int, e1: int, e2: int)
    requires
        s <= e1 <= e2,
    ensures
        0 <= width_sum(w, s, e1) <= width_sum(w, s, e2),
    decreases e2 - s,
{
    if e1 < e2 {
        lemma_width_sum_mono(w, s, e1, e2 - 1);
    } else if s < e1 {
        lemma_width_sum_mono(w, s, e1 - 1, e1 - 1);
    }
}

proof fn lemma_fit_end_bound(w: Seq<usize>, i: int, m: int)
    requires
        0 <= i <= m <= w.len(),
        m < w.len() ==> w[m] > 0,
    ensures
        fit_end(w, i, width_sum(w, 0, i), width_sum(w, 0, m)) <= m,
    decreases m - i,
{
    if i < m {
        lemma_width_sum_mono(w, 0, i + 1, m);
        lemma_fit_end_bound(w, i + 1, m);
    }
}

/// Converting the first `n` clusters to columns and back grows with `n`,
/// and never gives more than `n` clusters where cluster `n`, if there is
/// one, takes up room.
pub proof fn lemma_width_round_trip(w: Seq<usize>, n1: int, n2: int)
    requires
        0 <= n1 <= n2,
    ensures
        fitting(w, columns(w, 0, n1)) <= fitting(w, columns(w, 0, n2)),
        (n1 < w.len() ==> w[n1] > 0) ==> fitting(w, columns(w, 0, n1)) <= n1,
{
    let m1 = if n1 < w.len() {
        n1
    } else {
        w.len() as int
    };
    let m2 = if n2 < w.len() {
        n2
    } else {
        w.len() as int
    };
    lemma_width_sum_mono(w, 0, m1, m2);
    lemma_fit_end_mono(w, 0, 0, columns(w, 0, n1), columns(w, 0, n2));
    if n1 < w.len() ==> w[n1] > 0 {
        lemma_fit_end_bound(w, 0, m1);
        lemma_fit_end_mono(w, 0, 0, columns(w, 0, n1), width_sum(w, 0, m1));
    }
}

} // verus!
