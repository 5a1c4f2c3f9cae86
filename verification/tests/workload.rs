use cpu_bench::partition::plan_chunks;
use cpu_bench::workload::{
    hash_iterations_per_worker, matrix_size_per_worker, plan_for_machine, HASH_ITERATIONS,
    MATRIX_SIZE, SEARCH_LIMIT,
};

#[test]
fn fixed_parameters_of_the_benchmark() {
    assert_eq!(SEARCH_LIMIT, 250_000_000);
    assert_eq!(HASH_ITERATIONS, 5_000);
    assert_eq!(MATRIX_SIZE, 512);
}

#[test]
fn each_hash_worker_runs_a_quarter_of_the_iterations() {
    assert_eq!(hash_iterations_per_worker(HASH_ITERATIONS), 1_250);
    assert_eq!(hash_iterations_per_worker(7), 1);
    assert_eq!(hash_iterations_per_worker(3), 0);
    assert_eq!(hash_iterations_per_worker(u64::MAX), u64::MAX / 4);
}

#[test]
fn each_matrix_worker_multiplies_at_half_the_side() {
    assert_eq!(matrix_size_per_worker(MATRIX_SIZE), 256);
    assert_eq!(matrix_size_per_worker(5), 2);
    assert_eq!(matrix_size_per_worker(1), 0);
}

#[test]
fn the_machine_plan_has_one_chunk_per_core() {
    let chunks = plan_for_machine(1000);
    assert!(chunks.len() >= 1);
    assert_eq!(chunks, plan_chunks(1000, chunks.len()));
    assert_eq!(chunks[0].0, 1);
    assert_eq!(chunks[chunks.len() - 1].1, 1000);
}
