//! Substring search over a sequence of grapheme clusters.
use vstd::prelude::*;
use vstd::seq_lib::lemma_flatten_concat;

verus! {

/// The query occurs at cluster `i`: it is a prefix of the text that
/// clusters `i` up to `end` spell out.
pub open spec fn occurs_at(g: Seq<Seq<char>>, q: Seq<char>, i: int, end: int) -> bool {
    q.is_prefix_of(g.subrange(i, end).flatten())
}

/// The least cluster index in `[i, end)` at which the query occurs.
pub open spec fn first_match(g: Seq<Seq<char>>, q: Seq<char>, i: int, end: int) -> Option<int>
    decreases end - i,
{
    if i < end {
        if occurs_at(g, q, i, end) {
            Some(i)
        } else {
            first_match(g, q, i + 1, end)
        }
    } else {
        None
    }
}

/// The greatest cluster index in `[0, i)` at which the query occurs within
/// the text of the clusters before `end`.
pub open spec fn last_match(g: Seq<Seq<char>>, q: Seq<char>, i: int, end: int) -> Option<int>
    decreases i,
{
    if i > 0 {
        if occurs_at(g, q, i - 1, end) {
            Some(i - 1)
        } else {
            last_match(g, q, i - 1, end)
        }
    } else {
        None
    }
}

/// Where a search from cluster `at` finds the query: forward within
/// `[at, end of line)`, backward within `[0, at)`. An empty query, or a
/// start past the end of the line, finds nothing.
pub open spec fn find_in(g: Seq<Seq<char>>, q: Seq<char>, at: int, forward: bool) -> Option<int> {
    if q.len() == 0 || at < 0 || at > g.len() {
        None
    } else if forward {
        first_match(g, q, at, g.len() as int)
    } else {
        last_match(g, q, at, at)
    }
}

pub proof fn lemma_first_match_range(g: Seq<Seq<char>>, q: Seq<char>, i: int, end: int)
    ensures
        first_match(g, q, i, end) matches Some(m) ==> i <= m < end && occurs_at(g, q, m, end),
    decreases end - i,
{
    if i < end && !occurs_at(g, q, i, end) {
        lemma_first_match_range(g, q, i + 1, end);
    }
}

pub proof fn lemma_last_match_range(g: Seq<Seq<char>>, q: Seq<char>, i: int, end: int)
    ensures
        last_match(g, q, i, end) matches Some(m) ==> 0 <= m < i && occurs_at(g, q, m, end),
    decreases i,
{
    if i > 0 && !occurs_at(g, q, i - 1, end) {
        lemma_last_match_range(g, q, i - 1, end);
    }
}

/// The text of clusters `[lo, hi)` and the offset at which each of them
/// (and the end) starts within it.
pub(crate) fn flatten_range(g: &Vec<Vec<char>>, lo: usize, hi: usize) -> (r: (Vec<char>, Vec<usize>))
    requires
        lo <= hi <= g.len(),
    ensures
        r.0@ == g.deep_view().subrange(lo as int, hi as int).flatten(),
        r.1.len() == hi - lo + 1,
        forall|j: int|
            0 <= j <= hi - lo ==> #[trigger] r.1[j] == g.deep_view().subrange(
                lo as int,
                lo + j,
            ).flatten().len(),
{
    let ghost gv = g.deep_view();
    let mut flat: Vec<char> = Vec::new();
    let mut starts: Vec<usize> = Vec::new();
    let mut i = lo;
    assert(gv.subrange(lo as int, lo as int) =~= Seq::<Seq<char>>::empty());
    while i < hi
        invariant
            lo <= i <= hi <= g.len(),
            gv == g.deep_view(),
            flat@ == gv.subrange(lo as int, i as int).flatten(),
            starts.len() == i - lo,
            forall|j: int|
                0 <= j < i - lo ==> #[trigger] starts[j] == gv.subrange(
                    lo as int,
                    lo + j,
                ).flatten().len(),
        decreases hi - i,
    {
        starts.push(flat.len());
        let cluster = &g[i];
        assert(cluster@ == gv[i as int]);
        let mut c: usize = 0;
        let ghost before = flat@;
        while c < cluster.len()
            invariant
                c <= cluster.len(),
                flat@ == before + cluster@.take(c as int),
            decreases cluster.len() - c,
        {
            flat.push(cluster[c]);
            assert(cluster@.take(c + 1) =~= cluster@.take(c as int).push(cluster@[c as int]));
            c += 1;
        }
        assert(cluster@.take(c as int) =~= cluster@);
        proof {
            assert(gv.subrange(lo as int, i + 1) =~= gv.subrange(lo as int, i as int).push(
                gv[i as int],
            ));
            gv.subrange(lo as int, i as int).lemma_flatten_push(gv[i as int]);
        }
        i += 1;
    }
    starts.push(flat.len());
    (flat, starts)
}

/// Whether `q` is a prefix of `t` from offset `from` on.
fn prefix_at(q: &Vec<char>, t: &Vec<char>, from: usize) -> (r: bool)
    requires
        from <= t.len(),
    ensures
        r == q@.is_prefix_of(t@.skip(from as int)),
{
    if q.len() > t.len() - from {
        return false;
    }
    let mut k: usize = 0;
    while k < q.len()
        invariant
            k <= q.len() <= t.len() - from,
            forall|j: int| 0 <= j < k ==> q@[j] == t@[from + j],
        decreases q.len() - k,
    {
        if q[k] != t[from + k] {
            assert(q@[k as int] != t@.skip(from as int).subrange(0, q@.len() as int)[k as int]);
            return false;
        }
        k += 1;
    }
    assert(q@ =~= t@.skip(from as int).subrange(0, q@.len() as int));
    true
}

proof fn lemma_occurs_in_flat(g: Seq<Seq<char>>, q: Seq<char>, lo: int, i: int, hi: int)
    requires
        0 <= lo <= i <= hi <= g.len(),
    ensures
        occurs_at(g, q, i, hi) == q.is_prefix_of(
            g.subrange(lo, hi).flatten().skip(g.subrange(lo, i).flatten().len() as int),
        ),
{
    let a = g.subrange(lo, i);
    let b = g.subrange(i, hi);
    assert(g.subrange(lo, hi) =~= a + b);
    lemma_flatten_concat(a, b);
    assert((a.flatten() + b.flatten()).skip(a.flatten().len() as int) =~= b.flatten());
}

/// Searches the clusters `g` for `q` from cluster `at`, in either direction.
pub fn find_in_clusters(g: &Vec<Vec<char>>, q: &Vec<char>, at: usize, forward: bool) -> (r: Option<
    usize,
>)
    ensures
        r == (match find_in(g.deep_view(), q@, at as int, forward) {
            Some(m) => Some(m as usize),
            None => None::<usize>,
        }),
        r matches Some(m) ==> m < g.len(),
{
    let ghost gv = g.deep_view();
    let n = g.len();
    if q.len() == 0 || at > n {
        return None;
    }
    let (lo, hi) = if forward {
        (at, n)
    } else {
        (0, at)
    };
    let (flat, starts) = flatten_range(g, lo, hi);
    if forward {
        let mut i = lo;
        while i < hi
            invariant
                lo <= i <= hi == n == g.len(),
                lo == at,
                gv == g.deep_view(),
                q@.len() > 0,
                starts.len() == hi - lo + 1,
                forall|j: int|
                    0 <= j <= hi - lo ==> #[trigger] starts[j] == gv.subrange(
                        lo as int,
                        lo + j,
                    ).flatten().len(),
                flat@ == gv.subrange(lo as int, hi as int).flatten(),
                find_in(gv, q@, at as int, forward) == first_match(gv, q@, i as int, hi as int),
                forward,
            decreases hi - i,
        {
            let s = starts[i - lo];
            proof {
                lemma_occurs_in_flat(gv, q@, lo as int, i as int, hi as int);
                assert(gv.subrange(lo as int, lo + (i - lo)) == gv.subrange(lo as int, i as int));
                assert(gv.subrange(lo as int, i as int).flatten().len() <= flat@.len()) by {
                    assert(gv.subrange(lo as int, hi as int) =~= gv.subrange(lo as int, i as int)
                        + gv.subrange(i as int, hi as int));
                    lemma_flatten_concat(
                        gv.subrange(lo as int, i as int),
                        gv.subrange(i as int, hi as int),
                    );
                }
            }
            if prefix_at(q, &flat, s) {
                return Some(i);
            }
            i += 1;
        }
        None
    } else {
        let mut i = hi;
        while i > lo
            invariant
                lo <= i <= hi <= n == g.len(),
                lo == 0,
                hi == at,
                gv == g.deep_view(),
                q@.len() > 0,
                starts.len() == hi - lo + 1,
                forall|j: int|
                    0 <= j <= hi - lo ==> #[trigger] starts[j] == gv.subrange(
                        lo as int,
                        lo + j,
                    ).flatten().len(),
                flat@ == gv.subrange(lo as int, hi as int).flatten(),
                find_in(gv, q@, at as int, forward) == last_match(gv, q@, i as int, hi as int),
                !forward,
            decreases i,
        {
            let s = starts[i - 1 - lo];
            proof {
                lemma_occurs_in_flat(gv, q@, lo as int, i - 1, hi as int);
                assert(gv.subrange(lo as int, lo + (i - 1 - lo)) == gv.subrange(
                    lo as int,
                    i - 1,
                ));
                assert(gv.subrange(lo as int, i - 1).flatten().len() <= flat@.len()) by {
                    assert(gv.subrange(lo as int, hi as int) =~= gv.subrange(lo as int, i - 1)
                        + gv.subrange(i - 1, hi as int));
                    lemma_flatten_concat(gv.subrange(lo as int, i - 1), gv.subrange(i - 1, hi as int));
                }
            }
            if prefix_at(q, &flat, s) {
                return Some(i - 1);
            }
            i -= 1;
        }
        None
    }
}

} // verus!
