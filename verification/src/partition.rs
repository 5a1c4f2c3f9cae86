//! Splitting the search range `[1, limit]` into one contiguous chunk per worker.

use vstd::arithmetic::div_mod::{lemma_fundamental_div_mod, lemma_fundamental_div_mod_converse};
use vstd::prelude::*;

verus! {

/// The width shared by all chunks but the last.
pub open spec fn chunk_width(limit: int, workers: int) -> int {
    limit / workers
}

/// The first number of chunk `i`.
pub open spec fn chunk_start(limit: int, workers: int, i: int) -> int {
    i * chunk_width(limit, workers) + 1
}

/// The last number of chunk `i`; the last chunk runs on to `limit`.
pub open spec fn chunk_end(limit: int, workers: int, i: int) -> int {
    if i == workers - 1 {
        limit
    } else {
        (i + 1) * chunk_width(limit, workers)
    }
}

/// Whether chunk `i` holds `n`.
pub open spec fn in_chunk(limit: int, workers: int, i: int, n: int) -> bool {
    chunk_start(limit, workers, i) <= n <= chunk_end(limit, workers, i)
}

/// The index of the chunk that holds `n`.
pub open spec fn owner(limit: int, workers: int, n: int) -> int {
    let w = chunk_width(limit, workers);
    if w == 0 || (n - 1) / w >= workers {
        workers - 1
    } else {
        (n - 1) / w
    }
}

/// The whole plan: the bounds of every chunk in worker order.
pub open spec fn plan(limit: u64, workers: usize) -> Seq<(u64, u64)> {
    Seq::new(
        workers as nat,
        |i: int|
            (
                chunk_start(limit as int, workers as int, i) as u64,
                chunk_end(limit as int, workers as int, i) as u64,
            ),
    )
}

/// The chunks' total width never exceeds the range.
proof fn lemma_width_bounds(limit: int, workers: int)
    requires
        0 <= limit,
        0 < workers,
    ensures
        0 <= chunk_width(limit, workers),
        workers * chunk_width(limit, workers) <= limit,
        limit < workers * chunk_width(limit, workers) + workers,
{
    lemma_fundamental_div_mod(limit, workers);
    assert(0 <= limit / workers) by (nonlinear_arith)
        requires
            0 <= limit,
            0 < workers,
    ;
}

/// Every chunk lies inside `[1, limit]`; a chunk may be empty, and then its
/// start is one past its end.
pub proof fn lemma_chunk_within(limit: int, workers: int, i: int)
    requires
        0 <= limit,
        0 < workers,
        0 <= i < workers,
    ensures
        1 <= chunk_start(limit, workers, i),
        chunk_start(limit, workers, i) <= chunk_end(limit, workers, i) + 1,
        chunk_end(limit, workers, i) <= limit,
        chunk_start(limit, workers, i) <= limit || chunk_start(limit, workers, i) == 1,
{
    lemma_width_bounds(limit, workers);
    let w = chunk_width(limit, workers);
    assert(0 <= i * w && (i + 1) * w == i * w + w && (i + 1) * w <= workers * w && (w == 0
        ==> i * w == 0)) by (nonlinear_arith)
        requires
            0 <= w,
            0 <= i < workers,
    ;
}

/// The chunks follow one another without gap or overlap, from 1 to `limit`.
pub proof fn lemma_chunks_chain(limit: int, workers: int)
    requires
        0 <= limit,
        0 < workers,
    ensures
        chunk_start(limit, workers, 0) == 1,
        chunk_end(limit, workers, workers - 1) == limit,
        forall|i: int|
            0 <= i < workers - 1 ==> #[trigger] chunk_end(limit, workers, i) + 1 == chunk_start(
                limit,
                workers,
                i + 1,
            ),
{
    let w = chunk_width(limit, workers);
    assert(0 * w == 0) by (nonlinear_arith);
}

/// Each number of `[1, limit]` lies in exactly one chunk: the one `owner` names.
pub proof fn lemma_chunk_owner(limit: int, workers: int, n: int, i: int)
    requires
        0 < workers,
        1 <= n <= limit,
        0 <= i < workers,
    ensures
        0 <= owner(limit, workers, n) < workers,
        in_chunk(limit, workers, i, n) <==> i == owner(limit, workers, n),
{
    lemma_width_bounds(limit, workers);
    let w = chunk_width(limit, workers);
    if w == 0 {
        assert(i * w == 0 && (i + 1) * w == 0) by (nonlinear_arith)
            requires
                w == 0,
        ;
    } else {
        let q = (n - 1) / w;
        lemma_fundamental_div_mod(n - 1, w);
        assert(0 <= q) by (nonlinear_arith)
            requires
                q == (n - 1) / w,
                0 <= n - 1,
                0 < w,
        ;
        assert((i + 1) * w == i * w + w) by (nonlinear_arith);
        if i * w <= n - 1 < i * w + w {
            lemma_fundamental_div_mod_converse(n - 1, w, i, n - 1 - i * w);
            assert(i == q);
        }
        if i == q {
            assert(w * q == q * w) by (nonlinear_arith);
        }
        if i == workers - 1 {
            if q >= i {
                assert(i * w <= q * w) by (nonlinear_arith)
                    requires
                        i <= q,
                        0 < w,
                ;
                assert(w * q == q * w) by (nonlinear_arith);
            } else {
                assert((q + 1) * w <= i * w) by (nonlinear_arith)
                    requires
                        q + 1 <= i,
                        0 < w,
                ;
                assert((q + 1) * w == w * q + w) by (nonlinear_arith);
            }
        }
    }
}

/// The bounds of chunk `i` out of `workers` over the range `[1, limit]`.
pub fn chunk_bounds(limit: u64, workers: usize, i: usize) -> (b: (u64, u64))
    requires
        i < workers,
    ensures
        b.0 == chunk_start(limit as int, workers as int, i as int),
        b.1 == chunk_end(limit as int, workers as int, i as int),
        b == plan(limit, workers)[i as int],
{
    proof {
        lemma_chunk_within(limit as int, workers as int, i as int);
        if i < workers - 1 {
            lemma_chunk_within(limit as int, workers as int, i + 1);
        }
    }
    let chunk: u64 = limit / (workers as u64);
    let start_n: u64 = (i as u64) * chunk + 1;
    let end_n: u64 = if i == workers - 1 {
        limit
    } else {
        (i as u64 + 1) * chunk
    };
    (start_n, end_n)
}

/// The bounds of all chunks, in worker order.
pub fn plan_chunks(limit: u64, workers: usize) -> (chunks: Vec<(u64, u64)>)
    requires
        0 < workers,
    ensures
        chunks@ == plan(limit, workers),
{
    let mut chunks: Vec<(u64, u64)> = Vec::new();
    let mut i: usize = 0;
    while i < workers
        invariant
            0 < workers,
            i <= workers,
            chunks@.len() == i,
            forall|j: int| 0 <= j < i ==> chunks@[j] == plan(limit, workers)[j],
        decreases workers - i,
    {
        chunks.push(chunk_bounds(limit, workers, i));
        i = i + 1;
    }
    assert(chunks@ =~= plan(limit, workers));
    chunks
}

} // verus!
