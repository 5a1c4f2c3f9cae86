//! The benchmark's fixed parameters, and how each workload is cut down for
//! the workers of its parallel phase.

use crate::partition::{plan, plan_chunks};
use vstd::prelude::*;

verus! {

/// The parallel search covers `[1, SEARCH_LIMIT]`.
pub const SEARCH_LIMIT: u64 = 250_000_000;

/// The number of blocks the single-threaded hash burn digests.
pub const HASH_ITERATIONS: u64 = 5_000;

/// The side of the matrices the single-threaded phase multiplies.
pub const MATRIX_SIZE: usize = 512;

/// `num_cpus::get`: the number of logical cores this process may use. What
/// it returns depends on the machine; it is never zero.
#[verifier::external_body]
fn logical_cores() -> (cores: usize)
    ensures
        cores >= 1,
{
    num_cpus::get()
}

/// Plans the parallel search of `[1, limit]` on this machine: one chunk per
/// logical core. The number of chunks is the number of workers that every
/// parallel phase starts.
pub fn plan_for_machine(limit: u64) -> (chunks: Vec<(u64, u64)>)
    ensures
        chunks@.len() >= 1,
        chunks@ == plan(limit, chunks@.len() as usize),
{
    let cores: usize = logical_cores();
    plan_chunks(limit, cores)
}

/// The blocks each worker of the parallel hash burn digests: a quarter of the
/// single-threaded count, however many workers run.
pub fn hash_iterations_per_worker(iterations: u64) -> (share: u64)
    ensures
        share == iterations / 4,
{
    iterations / 4
}

/// The side of the matrices each worker of the parallel phase multiplies:
/// half the single-threaded side, however many workers run.
pub fn matrix_size_per_worker(size: usize) -> (share: usize)
    ensures
        share == size / 2,
{
    size / 2
}

} // verus!
