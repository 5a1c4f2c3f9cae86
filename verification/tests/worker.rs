use cpu_bench::polynomial::Problem;
use cpu_bench::worker::{brute_force_chunk, scan_chunk, Scan};
use std::sync::atomic::{AtomicBool, Ordering};
use std::sync::Arc;

#[test]
fn a_worker_starts_at_the_head_of_its_chunk() {
    assert_eq!(Scan::start(3, 9), Scan::Scanning { next: 3, end: 9 });
    assert_eq!(Scan::start(9, 9), Scan::Scanning { next: 9, end: 9 });
    assert_eq!(Scan::start(10, 9), Scan::Exhausted);
}

#[test]
fn an_iteration_moves_on_past_a_miss() {
    let p = Problem::new(0, 0, 100);
    let s = Scan::start(8, 12).advance(&p, false);
    assert_eq!(s, Scan::Scanning { next: 9, end: 12 });
    assert!(s.is_scanning());
    assert_eq!(s.result(), None);
}

#[test]
fn an_iteration_reports_a_hit() {
    let p = Problem::new(0, 0, 100);
    let s = Scan::start(10, 12).advance(&p, false);
    assert_eq!(s, Scan::Found { at: 10 });
    assert!(!s.is_scanning());
    assert_eq!(s.result(), Some(10));
}

#[test]
fn an_iteration_at_the_end_of_the_chunk_exhausts_it() {
    let p = Problem::new(0, 0, 100);
    let s = Scan::start(9, 9).advance(&p, false);
    assert_eq!(s, Scan::Exhausted);
    assert_eq!(s.result(), None);
    let top = Scan::start(u64::MAX, u64::MAX).advance(&Problem::benchmark(), false);
    assert_eq!(top, Scan::Exhausted);
}

#[test]
fn a_raised_flag_stops_the_worker_before_it_tests() {
    let p = Problem::new(0, 0, 100);
    let s = Scan::start(10, 12).advance(&p, true);
    assert_eq!(s, Scan::Stopped { at: 10 });
    assert!(!s.is_scanning());
    assert_eq!(s.result(), None);
}

#[test]
fn a_finished_worker_stays_as_it_is() {
    let p = Problem::new(0, 0, 100);
    assert_eq!(Scan::Found { at: 10 }.advance(&p, true), Scan::Found { at: 10 });
    assert_eq!(Scan::Exhausted.advance(&p, false), Scan::Exhausted);
    assert_eq!(Scan::Stopped { at: 4 }.advance(&p, false), Scan::Stopped { at: 4 });
}

#[test]
fn scan_chunk_finds_the_first_hit_and_raises_the_flag() {
    let p = Problem::new(0, 0, 100);
    let stop = AtomicBool::new(false);
    assert_eq!(scan_chunk(&p, 1, 250, &stop), Scan::Found { at: 10 });
    assert!(stop.load(Ordering::Relaxed));
}

#[test]
fn scan_chunk_without_hit_leaves_the_flag_down() {
    let p = Problem::new(0, 0, 100);
    let stop = AtomicBool::new(false);
    assert_eq!(scan_chunk(&p, 1, 9, &stop), Scan::Exhausted);
    assert!(!stop.load(Ordering::Relaxed));
    assert_eq!(scan_chunk(&p, 5, 4, &stop), Scan::Exhausted);
}

#[test]
fn scan_chunk_under_a_raised_flag_stops_at_once() {
    let p = Problem::new(0, 0, 100);
    let stop = AtomicBool::new(true);
    assert_eq!(scan_chunk(&p, 10, 250, &stop), Scan::Stopped { at: 10 });
    assert_eq!(scan_chunk(&p, 5, 4, &stop), Scan::Exhausted);
}

#[test]
fn brute_force_chunk_scans_the_benchmark_problem() {
    let stop = Arc::new(AtomicBool::new(false));
    assert_eq!(brute_force_chunk(1, 300_000, Arc::clone(&stop)), None);
    assert!(!stop.load(Ordering::Relaxed));
    assert_eq!(brute_force_chunk(249_900_000, 250_000_000, Arc::clone(&stop)), None);
    assert!(!stop.load(Ordering::Relaxed));
}

#[test]
fn brute_force_chunk_gives_up_under_a_raised_flag() {
    let stop = Arc::new(AtomicBool::new(true));
    assert_eq!(brute_force_chunk(1, 250_000_000, stop), None);
}
