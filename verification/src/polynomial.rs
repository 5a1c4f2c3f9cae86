//! The search target: a cubic evaluated in 64-bit modular arithmetic and
//! tested for divisibility by a fixed divisor.

use vstd::arithmetic::div_mod::{
    lemma_add_mod_noop, lemma_fundamental_div_mod, lemma_mul_mod_noop_general,
    lemma_mul_mod_noop_left,
};
use vstd::prelude::*;

verus! {

/// Reduces an integer to the value a `u64` holds after wrap-around.
pub open spec fn wrap64(x: int) -> u64 {
    (x % 0x1_0000_0000_0000_0000) as u64
}

/// Whether `value` is a multiple of `divisor`. Zero has no multiple but zero.
pub open spec fn multiple_of(value: u64, divisor: u64) -> bool {
    if divisor == 0 {
        value == 0
    } else {
        value % divisor == 0
    }
}

/// The polynomial `n^3 + linear * n + constant` together with the divisor
/// that a solution's value must be a multiple of.
#[derive(Clone, Copy, Debug, PartialEq, Eq, Structural)]
pub struct Problem {
    pub linear: u64,
    pub constant: u64,
    pub divisor: u64,
}

impl Problem {
    /// The polynomial's value at `n`, reduced modulo 2^64.
    pub open spec fn value(&self, n: u64) -> u64 {
        wrap64(n * n * n + self.linear * n + self.constant)
    }

    /// Whether `n` solves the problem: the wrapped value is a multiple of the divisor.
    pub open spec fn hits(&self, n: u64) -> bool {
        multiple_of(self.value(n), self.divisor)
    }

    /// The problem the benchmark searches: `n^3 + 17 n + 12345` against 97,000,000.
    pub open spec fn standard() -> Problem {
        Problem { linear: 17, constant: 12_345, divisor: 97_000_000 }
    }

    /// Builds the benchmark's problem.
    pub fn benchmark() -> (p: Problem)
        ensures
            p == Problem::standard(),
    {
        Problem { linear: 17, constant: 12_345, divisor: 97_000_000 }
    }

    /// Builds the problem `n^3 + linear * n + constant` against `divisor`.
    pub fn new(linear: u64, constant: u64, divisor: u64) -> (p: Problem)
        ensures
            p == (Problem { linear, constant, divisor }),
    {
        Problem { linear, constant, divisor }
    }

    /// Evaluates the polynomial at `n` with wrapping arithmetic throughout.
    pub fn evaluate(&self, n: u64) -> (v: u64)
        ensures
            v == self.value(n),
    {
        let square: u64 = n.wrapping_mul(n);
        let cube: u64 = square.wrapping_mul(n);
        let slope: u64 = self.linear.wrapping_mul(n);
        let partial: u64 = cube.wrapping_add(slope);
        let v: u64 = partial.wrapping_add(self.constant);
        proof {
            let m: int = 0x1_0000_0000_0000_0000;
            let n3: int = n * n * n;
            let ln: int = self.linear * n;
            // Each wrapping step reduces modulo 2^64; the reductions inside
            // a product or a sum can be dropped.
            lemma_mul_mod_noop_left(n * n, n as int, m);
            assert(cube == n3 % m);
            lemma_add_mod_noop(n3, ln, m);
            assert(partial == (n3 + ln) % m);
            lemma_add_mod_noop(n3 + ln, self.constant as int, m);
        }
        v
    }

    /// Tests whether `n` solves the problem.
    pub fn is_hit(&self, n: u64) -> (b: bool)
        ensures
            b == self.hits(n),
    {
        let v: u64 = self.evaluate(n);
        if self.divisor == 0 {
            v == 0
        } else {
            v % self.divisor == 0
        }
    }
}

/// `n^3 + 17 n` is even for every `n`.
proof fn lemma_cubic_part_even(n: int)
    ensures
        (n * n * n + 17 * n) % 2 == 0,
{
    let y: int = n * n + 17;
    assert(n * y == n * n * n + 17 * n) by (nonlinear_arith)
        requires
            y == n * n + 17,
    ;
    lemma_mul_mod_noop_general(n, n, 2);
    lemma_mul_mod_noop_general(n, y, 2);
    if n % 2 == 0 {
        assert(((n % 2) * (y % 2)) % 2 == 0) by (nonlinear_arith)
            requires
                n % 2 == 0,
        ;
    } else {
        assert((n % 2) * (n % 2) == 1) by (nonlinear_arith)
            requires
                n % 2 == 1,
        ;
        assert(y % 2 == 0);
        assert(((n % 2) * (y % 2)) % 2 == 0) by (nonlinear_arith)
            requires
                y % 2 == 0,
        ;
    }
}

/// The benchmark's problem has no solution at all: its polynomial is odd at
/// every `n`, also after wrap-around, and its divisor is even. A search of
/// any range therefore runs to the end of the range and reports nothing.
pub proof fn lemma_benchmark_has_no_solution(n: u64)
    ensures
        !Problem::standard().hits(n),
        Problem::standard().value(n) % 2 == 1,
{
    let p = Problem::standard();
    let x: int = n * n * n + 17 * n + 12_345;
    let v: u64 = p.value(n);
    lemma_cubic_part_even(n as int);
    assert(x % 2 == 1);
    assert(v == x % 0x1_0000_0000_0000_0000);
    lemma_fundamental_div_mod(x, 0x1_0000_0000_0000_0000);
    assert(v % 2 == 1);
    if p.hits(n) {
        lemma_fundamental_div_mod(v as int, 97_000_000);
        assert(false);
    }
}

} // verus!
