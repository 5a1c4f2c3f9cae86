//! The single-threaded search: the smallest solution in an inclusive range.

use crate::polynomial::Problem;
use vstd::prelude::*;

verus! {

/// No number in the half-open interval `[lo, hi)` solves the problem.
pub open spec fn clear(p: Problem, lo: int, hi: int) -> bool {
    forall|m: u64| lo <= m < hi ==> !#[trigger] p.hits(m)
}

/// `n` is the smallest solution in the inclusive range `[start, end]`.
pub open spec fn first_hit(p: Problem, start: u64, end: u64, n: u64) -> bool {
    &&& start <= n <= end
    &&& p.hits(n)
    &&& clear(p, start as int, n as int)
}

/// The smallest solution in `[start, end]`, or `None` when the range holds none.
pub open spec fn smallest_hit(p: Problem, start: u64, end: u64) -> Option<u64> {
    if exists|n: u64| first_hit(p, start, end, n) {
        Some(choose|n: u64| first_hit(p, start, end, n))
    } else {
        None
    }
}

/// A range has at most one smallest solution.
pub proof fn lemma_first_hit_unique(p: Problem, start: u64, end: u64, a: u64, b: u64)
    requires
        first_hit(p, start, end, a),
        first_hit(p, start, end, b),
    ensures
        a == b,
{
    if a < b {
        assert(!p.hits(a));
    } else if b < a {
        assert(!p.hits(b));
    }
}

/// Whenever some number in the range solves the problem, the range has a
/// smallest solution, and it is no larger than that number.
pub proof fn lemma_hit_has_first(p: Problem, start: u64, end: u64, m: u64)
    requires
        start <= m <= end,
        p.hits(m),
    ensures
        exists|n: u64| first_hit(p, start, end, n) && n <= m,
    decreases m - start,
{
    if clear(p, start as int, m as int) {
        assert(first_hit(p, start, end, m));
    } else {
        let k: u64 = choose|k: u64| start <= k < m && p.hits(k);
        lemma_hit_has_first(p, start, end, k);
        let n: u64 = choose|n: u64| first_hit(p, start, end, n) && n <= k;
        assert(first_hit(p, start, end, n) && n <= m);
    }
}

/// What `smallest_hit` names: a solution in range below which the range is
/// clear, or `None` exactly when the whole range is clear.
pub proof fn lemma_smallest_hit(p: Problem, start: u64, end: u64)
    ensures
        match smallest_hit(p, start, end) {
            Some(n) => first_hit(p, start, end, n),
            None => clear(p, start as int, end + 1),
        },
{
    if smallest_hit(p, start, end) is None {
        assert forall|m: u64| start <= m < end + 1 implies !#[trigger] p.hits(m) by {
            if p.hits(m) {
                lemma_hit_has_first(p, start, end, m);
            }
        }
    }
}

/// A witness fixes `smallest_hit`: it is `Some(n)` for the first hit `n`, and
/// `None` for a clear range.
pub proof fn lemma_smallest_hit_from(p: Problem, start: u64, end: u64, r: Option<u64>)
    requires
        match r {
            Some(n) => first_hit(p, start, end, n),
            None => clear(p, start as int, end + 1),
        },
    ensures
        r == smallest_hit(p, start, end),
{
    lemma_smallest_hit(p, start, end);
    match r {
        Some(n) => {
            lemma_first_hit_unique(p, start, end, n, smallest_hit(p, start, end)->0);
        },
        None => {
            if smallest_hit(p, start, end) is Some {
                assert(!p.hits(smallest_hit(p, start, end)->0));
            }
        },
    }
}

/// Scans `[start, end]` upwards and returns the first solution met.
pub fn search_range(p: &Problem, start: u64, end: u64) -> (r: Option<u64>)
    ensures
        r == smallest_hit(*p, start, end),
        match r {
            Some(n) => first_hit(*p, start, end, n),
            None => clear(*p, start as int, end + 1),
        },
{
    let mut found: Option<u64> = None;
    if start <= end {
        let mut n: u64 = start;
        loop
            invariant_except_break
                found is None,
                clear(*p, start as int, n as int),
            invariant
                start <= n <= end,
            ensures
                match found {
                    Some(k) => first_hit(*p, start, end, k),
                    None => clear(*p, start as int, end + 1),
                },
            decreases end - n,
        {
            if p.is_hit(n) {
                found = Some(n);
                break ;
            }
            if n == end {
                break ;
            }
            n = n + 1;
        }
    }
    proof {
        lemma_smallest_hit_from(*p, start, end, found);
    }
    found
}

} // verus!
