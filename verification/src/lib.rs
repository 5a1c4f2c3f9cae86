//! A CPU micro-benchmark kit.
//!
//! Three workloads are measured, each on one thread and then split over the
//! machine's logical cores: a brute-force integer search, a SHA-256 hash
//! burn and a dense matrix product. This library holds what the benchmark
//! decides and computes on integers and bytes; timing, printing, threads
//! and the floating-point matrix product belong to the program around it.
//!
//! - `polynomial`: the cubic that the search evaluates, and its solutions
//! - `search`: the single-threaded search for the smallest solution
//! - `partition`: the split of the search range into one chunk per worker
//! - `worker`: one worker's scan of its chunk under the shared stop flag
//! - `collect`: how the workers' reports become one result
//! - `race`: a model of the workers racing, and what holds of every race
//! - `burn`: the hash burn
//! - `workload`: the benchmark's fixed sizes and their per-worker shares

pub mod burn;
pub mod collect;
pub mod partition;
pub mod polynomial;
pub mod race;
pub mod search;
pub mod worker;
pub mod workload;
