use cpu_bench::polynomial::Problem;
use cpu_bench::search::search_range;

#[test]
fn cubes_divisible_by_hundred_first_at_ten() {
    let p = Problem::new(0, 0, 100);
    assert_eq!(search_range(&p, 1, 1000), Some(10));
}

#[test]
fn search_returns_the_smallest_solution_of_the_range() {
    let p = Problem::new(0, 0, 100);
    assert_eq!(search_range(&p, 10, 1000), Some(10));
    assert_eq!(search_range(&p, 11, 1000), Some(20));
    assert_eq!(search_range(&p, 21, 30), Some(30));
    let by_97 = Problem::new(17, 12_345, 97);
    assert_eq!(search_range(&by_97, 1, 200), Some(64));
    assert_eq!(search_range(&by_97, 65, 200), Some(161));
}

#[test]
fn search_of_a_range_without_solution_finds_nothing() {
    let p = Problem::new(0, 0, 100);
    assert_eq!(search_range(&p, 1, 9), None);
    assert_eq!(search_range(&p, 11, 19), None);
    let by_97 = Problem::new(17, 12_345, 97);
    assert_eq!(search_range(&by_97, 65, 160), None);
}

#[test]
fn search_of_an_empty_range_finds_nothing() {
    let p = Problem::new(0, 0, 1);
    assert_eq!(search_range(&p, 5, 4), None);
    assert_eq!(search_range(&p, u64::MAX, 0), None);
}

#[test]
fn search_of_a_single_number() {
    let p = Problem::new(0, 0, 100);
    assert_eq!(search_range(&p, 10, 10), Some(10));
    assert_eq!(search_range(&p, 11, 11), None);
}

#[test]
fn search_reaches_the_top_of_the_integer_range() {
    let odd_only = Problem::new(0, 1, 2);
    // n^3 + 1 is even exactly for odd n.
    assert_eq!(search_range(&odd_only, u64::MAX - 1, u64::MAX), Some(u64::MAX));
    let never = Problem::benchmark();
    assert_eq!(search_range(&never, u64::MAX - 1000, u64::MAX), None);
}

#[test]
fn benchmark_problem_has_no_solution_in_a_long_prefix() {
    let p = Problem::benchmark();
    assert_eq!(search_range(&p, 1, 2_000_000), None);
}
