use cpu_bench::partition::{chunk_bounds, plan_chunks};

#[test]
fn chunks_of_ten_over_three_workers() {
    assert_eq!(plan_chunks(10, 3), vec![(1, 3), (4, 6), (7, 10)]);
}

#[test]
fn chunks_of_a_thousand_over_four_workers() {
    assert_eq!(plan_chunks(1000, 4), vec![(1, 250), (251, 500), (501, 750), (751, 1000)]);
}

#[test]
fn chunks_of_the_benchmark_range() {
    let eight = plan_chunks(250_000_000, 8);
    assert_eq!(eight.len(), 8);
    assert_eq!(eight[0], (1, 31_250_000));
    assert_eq!(eight[1], (31_250_001, 62_500_000));
    assert_eq!(eight[7], (218_750_001, 250_000_000));
    let twelve = plan_chunks(250_000_000, 12);
    assert_eq!(twelve[0], (1, 20_833_333));
    assert_eq!(twelve[10], (208_333_331, 229_166_663));
    assert_eq!(twelve[11], (229_166_664, 250_000_000));
}

#[test]
fn one_worker_takes_the_whole_range() {
    assert_eq!(plan_chunks(250_000_000, 1), vec![(1, 250_000_000)]);
    assert_eq!(plan_chunks(u64::MAX, 1), vec![(1, u64::MAX)]);
}

#[test]
fn more_workers_than_numbers_leave_all_to_the_last() {
    assert_eq!(plan_chunks(2, 4), vec![(1, 0), (1, 0), (1, 0), (1, 2)]);
    assert_eq!(plan_chunks(0, 3), vec![(1, 0), (1, 0), (1, 0)]);
}

#[test]
fn even_split_has_no_remainder() {
    assert_eq!(
        plan_chunks(7, 7),
        vec![(1, 1), (2, 2), (3, 3), (4, 4), (5, 5), (6, 6), (7, 7)]
    );
}

#[test]
fn chunk_bounds_follow_the_formula() {
    assert_eq!(chunk_bounds(10, 3, 0), (1, 3));
    assert_eq!(chunk_bounds(10, 3, 1), (4, 6));
    assert_eq!(chunk_bounds(10, 3, 2), (7, 10));
    assert_eq!(chunk_bounds(u64::MAX, 2, 1), (u64::MAX / 2 + 1, u64::MAX));
}

#[test]
fn every_number_lies_in_exactly_one_chunk() {
    let limits: [u64; 6] = [1, 2, 10, 97, 100, 1000];
    for &limit in limits.iter() {
        for workers in 1..=17usize {
            let chunks = plan_chunks(limit, workers);
            assert_eq!(chunks.len(), workers);
            for n in 1..=limit {
                let holders = chunks.iter().filter(|c| c.0 <= n && n <= c.1).count();
                assert_eq!(holders, 1);
            }
        }
    }
}

#[test]
fn chunks_follow_one_another_from_one_to_the_limit() {
    for workers in 1..=9usize {
        let chunks = plan_chunks(1000, workers);
        assert_eq!(chunks[0].0, 1);
        assert_eq!(chunks[workers - 1].1, 1000);
        for i in 0..workers - 1 {
            assert_eq!(chunks[i].1 + 1, chunks[i + 1].0);
        }
    }
}
