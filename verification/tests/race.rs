use cpu_bench::partition::plan_chunks;
use cpu_bench::polynomial::Problem;
use cpu_bench::collect::collect_results;
use cpu_bench::search::search_range;
use cpu_bench::worker::{scan_chunk, Scan};
use std::sync::atomic::AtomicBool;

#[test]
fn collecting_nothing_gives_nothing() {
    assert_eq!(collect_results(&Vec::new()), None);
    assert_eq!(collect_results(&vec![None, None, None]), None);
}

#[test]
fn collecting_keeps_the_last_solution() {
    assert_eq!(collect_results(&vec![Some(5)]), Some(5));
    assert_eq!(collect_results(&vec![None, Some(5), None]), Some(5));
    assert_eq!(collect_results(&vec![Some(5), Some(7)]), Some(7));
    assert_eq!(collect_results(&vec![Some(7), None, Some(5), None]), Some(5));
}

#[test]
fn workers_run_in_turn_find_ten_among_the_cubes() {
    let p = Problem::new(0, 0, 100);
    for workers in 1..=8usize {
        let stop = AtomicBool::new(false);
        let mut reports: Vec<Option<u64>> = Vec::new();
        for (start, end) in plan_chunks(1000, workers) {
            reports.push(scan_chunk(&p, start, end, &stop).result());
        }
        assert_eq!(collect_results(&reports), Some(10));
        assert_eq!(collect_results(&reports), search_range(&p, 1, 1000));
    }
}

#[test]
fn workers_run_in_reverse_still_find_a_solution() {
    let p = Problem::new(0, 0, 100);
    let stop = AtomicBool::new(false);
    let chunks = plan_chunks(1000, 4);
    let mut states: Vec<Scan> = vec![Scan::Exhausted; 4];
    for i in (0..4).rev() {
        states[i] = scan_chunk(&p, chunks[i].0, chunks[i].1, &stop);
    }
    assert_eq!(states[3], Scan::Found { at: 760 });
    assert_eq!(states[2], Scan::Stopped { at: 501 });
    assert_eq!(states[1], Scan::Stopped { at: 251 });
    assert_eq!(states[0], Scan::Stopped { at: 1 });
    let reports: Vec<Option<u64>> = states.iter().map(|s| s.result()).collect();
    let multi = collect_results(&reports);
    assert_eq!(multi, Some(760));
    let single = search_range(&p, 1, 1000);
    assert_eq!(single.is_some(), multi.is_some());
    assert!(single.unwrap() <= multi.unwrap());
    assert!(p.is_hit(multi.unwrap()));
}

#[test]
fn two_workers_that_both_find_leave_the_later_report() {
    let p = Problem::new(0, 0, 100);
    let chunks = plan_chunks(1000, 4);
    let mut reports: Vec<Option<u64>> = Vec::new();
    for &(start, end) in chunks.iter() {
        // Every worker reads a flag of its own: none sees another's success.
        let stop = AtomicBool::new(false);
        reports.push(scan_chunk(&p, start, end, &stop).result());
    }
    assert_eq!(reports, vec![Some(10), Some(260), Some(510), Some(760)]);
    assert_eq!(collect_results(&reports), Some(760));
}

#[test]
fn a_range_without_solution_gives_nothing_either_way() {
    let p = Problem::benchmark();
    let stop = AtomicBool::new(false);
    let mut reports: Vec<Option<u64>> = Vec::new();
    for (start, end) in plan_chunks(200_000, 5) {
        reports.push(scan_chunk(&p, start, end, &stop).result());
    }
    assert_eq!(collect_results(&reports), None);
    assert_eq!(search_range(&p, 1, 200_000), None);
}
