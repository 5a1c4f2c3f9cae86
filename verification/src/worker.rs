//! One worker of the parallel search: a scan over its chunk that polls a
//! shared stop flag before every candidate and raises it on success.

use crate::polynomial::{lemma_benchmark_has_no_solution, Problem};
use crate::search::{clear, first_hit};
use std::sync::atomic::{AtomicBool, Ordering};
use std::sync::Arc;
use vstd::prelude::*;

verus! {

/// Where a worker stands in its chunk.
#[derive(Clone, Copy, Debug, PartialEq, Eq, Structural)]
pub enum Scan {
    /// `next` is the candidate to test; everything before it was tested.
    Scanning { next: u64, end: u64 },
    /// The candidate `at` solved the problem.
    Found { at: u64 },
    /// Every candidate of the chunk was tested and none solved the problem.
    Exhausted,
    /// The stop flag was seen raised before candidate `at` was tested.
    Stopped { at: u64 },
}

impl Scan {
    /// The state a worker starts in: scanning from `start`, or exhausted at
    /// once when the chunk is empty.
    pub open spec fn initial(start: u64, end: u64) -> Scan {
        if start <= end {
            Scan::Scanning { next: start, end }
        } else {
            Scan::Exhausted
        }
    }

    /// The state after one iteration in which the flag was read as `stop_seen`.
    /// The flag is consulted first; only an unraised flag lets the candidate
    /// be tested. A state that is not scanning stays as it is.
    pub open spec fn next_state(self, p: Problem, stop_seen: bool) -> Scan {
        match self {
            Scan::Scanning { next, end } => {
                if stop_seen {
                    Scan::Stopped { at: next }
                } else if p.hits(next) {
                    Scan::Found { at: next }
                } else if next >= end {
                    Scan::Exhausted
                } else {
                    Scan::Scanning { next: (next + 1) as u64, end }
                }
            },
            other => other,
        }
    }

    /// The candidates a scanning worker has yet to test; zero once it is done.
    pub open spec fn remaining(self) -> nat {
        match self {
            Scan::Scanning { next, end } => if next <= end {
                (end - next + 1) as nat
            } else {
                0
            },
            _ => 0,
        }
    }

    /// What the worker reports: the solution it found, if it found one.
    pub open spec fn answer(self) -> Option<u64> {
        match self {
            Scan::Found { at } => Some(at),
            _ => None,
        }
    }

    /// The state is consistent with a scan of `[start, end]`: what it claims
    /// tested is clear, what it claims found is the chunk's smallest solution.
    pub open spec fn tracks(self, p: Problem, start: u64, end: u64) -> bool {
        match self {
            Scan::Scanning { next, end: e } => {
                &&& e == end
                &&& start <= next <= end
                &&& clear(p, start as int, next as int)
            },
            Scan::Found { at } => first_hit(p, start, end, at),
            Scan::Exhausted => clear(p, start as int, end + 1),
            Scan::Stopped { at } => {
                &&& start <= at <= end
                &&& clear(p, start as int, at as int)
            },
        }
    }

    /// Sets a worker up for the chunk `[start, end]`.
    pub fn start(start: u64, end: u64) -> (s: Scan)
        ensures
            s == Scan::initial(start, end),
    {
        if start <= end {
            Scan::Scanning { next: start, end }
        } else {
            Scan::Exhausted
        }
    }

    /// Runs one iteration, given what the stop flag read as.
    pub fn advance(self, p: &Problem, stop_seen: bool) -> (s: Scan)
        ensures
            s == self.next_state(*p, stop_seen),
    {
        match self {
            Scan::Scanning { next, end } => {
                if stop_seen {
                    Scan::Stopped { at: next }
                } else if p.is_hit(next) {
                    Scan::Found { at: next }
                } else if next >= end {
                    Scan::Exhausted
                } else {
                    Scan::Scanning { next: next + 1, end }
                }
            },
            other => other,
        }
    }

    /// Whether the worker still has candidates to test.
    pub fn is_scanning(&self) -> (b: bool)
        ensures
            b == (*self is Scanning),
    {
        match self {
            Scan::Scanning { .. } => true,
            _ => false,
        }
    }

    /// The reported result of a worker.
    pub fn result(&self) -> (r: Option<u64>)
        ensures
            r == self.answer(),
    {
        match self {
            Scan::Found { at } => Some(*at),
            _ => None,
        }
    }
}

/// A fresh worker is consistent with its chunk.
pub proof fn lemma_initial_tracks(p: Problem, start: u64, end: u64)
    ensures
        Scan::initial(start, end).tracks(p, start, end),
{
}

/// An iteration keeps a worker consistent with its chunk, whatever the flag
/// read as.
pub proof fn lemma_step_tracks(s: Scan, p: Problem, start: u64, end: u64, stop_seen: bool)
    requires
        s.tracks(p, start, end),
    ensures
        s.next_state(p, stop_seen).tracks(p, start, end),
{
}

/// A worker that reads the flag as raised tests nothing more: it leaves the
/// scan in that very iteration and reports no solution.
pub proof fn lemma_stop_halts(s: Scan, p: Problem)
    requires
        s is Scanning,
    ensures
        s.next_state(p, true) is Stopped,
        s.next_state(p, true).remaining() == 0,
        s.next_state(p, true).answer() is None,
{
}

/// Every iteration of a scanning worker uses up at least one candidate, so a
/// worker runs for at most `remaining()` iterations, flag or no flag.
pub proof fn lemma_step_progress(s: Scan, p: Problem, start: u64, end: u64, stop_seen: bool)
    requires
        s is Scanning,
        s.tracks(p, start, end),
    ensures
        s.next_state(p, stop_seen).remaining() < s.remaining(),
{
}

/// A state that is not scanning never changes again.
pub proof fn lemma_done_is_final(s: Scan, p: Problem, stop_seen: bool)
    requires
        !(s is Scanning),
    ensures
        s.next_state(p, stop_seen) == s,
{
}

/// Reads the stop flag. The read is relaxed: the flag is advice to stop as
/// soon as convenient, and guards no other data.
fn stop_requested(stop: &AtomicBool) -> bool {
    stop.load(Ordering::Relaxed)
}

/// Raises the stop flag, with release ordering so that the other workers
/// come to see it soon. Raising a raised flag changes nothing.
fn request_stop(stop: &AtomicBool) {
    stop.store(true, Ordering::Release);
}

/// Scans the chunk `[start, end]` for a solution of `p`, polling `stop`
/// before each candidate and raising it on success.
///
/// The state returned tells how the scan ended: on the chunk's smallest
/// solution, at the end of a chunk without solution, or where the flag was
/// first read as raised. What the flag reads as is up to the other workers;
/// `Scan::advance` fixes what follows from each reading.
pub fn scan_chunk(p: &Problem, start: u64, end: u64, stop: &AtomicBool) -> (s: Scan)
    ensures
        !(s is Scanning),
        s.tracks(*p, start, end),
{
    let mut s: Scan = Scan::start(start, end);
    while s.is_scanning()
        invariant
            s.tracks(*p, start, end),
        decreases s.remaining(),
    {
        let seen: bool = stop_requested(stop);
        s = s.advance(p, seen);
        if s.result().is_some() {
            request_stop(stop);
        }
    }
    s
}

/// One worker of the benchmark's search: scans `[start, end]` for a solution
/// of the benchmark's problem under the stop flag `stop`.
///
/// A worker reports the smallest solution of its chunk, or nothing. As the
/// benchmark's problem has no solution, what it reports is always nothing,
/// and it never raises the flag.
pub fn brute_force_chunk(start: u64, end: u64, stop: Arc<AtomicBool>) -> (r: Option<u64>)
    ensures
        r matches Some(n) ==> first_hit(Problem::standard(), start, end, n),
        r is None,
{
    let p: Problem = Problem::benchmark();
    let r: Option<u64> = scan_chunk(&p, start, end, &stop).result();
    proof {
        if r is Some {
            lemma_benchmark_has_no_solution(r->0);
        }
    }
    r
}

} // verus!
