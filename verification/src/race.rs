//! A model of the parallel search: the workers race through their chunks
//! and share one stop flag.
//!
//! The model runs the workers' own step function, `Scan::next_state`, one
//! worker at a time in any order. A worker never reads the flag as raised
//! before some worker raised it, but may go on reading it as down for a
//! while afterwards. The laws below hold for every such interleaving.
//!
//! The parallel search is first-found, not smallest-first: several workers
//! may each find a solution before the flag reaches them, and the result is
//! the report collected last. It is a solution of the range whenever the
//! range has one, and never lies below the single-threaded result, but the
//! two may differ.

use crate::collect::{last_found, lemma_last_found};
use crate::partition::{
    chunk_end, chunk_start, in_chunk, lemma_chunk_owner, lemma_chunk_within, owner, plan,
};
use crate::polynomial::{lemma_benchmark_has_no_solution, Problem};
use crate::search::{
    first_hit, lemma_first_hit_unique, lemma_hit_has_first, lemma_smallest_hit, smallest_hit,
};
use crate::worker::{lemma_step_progress, Scan};
use vstd::prelude::*;

verus! {

/// The racing workers and the flag they share.
pub struct Race {
    /// Whether the stop flag has been raised.
    pub flag: bool,
    /// The state of each worker, in worker order.
    pub workers: Seq<Scan>,
}

impl Race {
    /// The race before any worker has run: the flag is down and each worker
    /// stands at the start of its chunk.
    pub open spec fn initial(chunks: Seq<(u64, u64)>) -> Race {
        Race {
            flag: false,
            workers: Seq::new(chunks.len(), |i: int| Scan::initial(chunks[i].0, chunks[i].1)),
        }
    }

    /// Worker `i` may run an iteration in which it reads the flag as `seen`.
    /// A worker may miss a flag that was just raised, but never reads as
    /// raised a flag that nobody raised.
    pub open spec fn can_step(self, i: int, seen: bool) -> bool {
        &&& 0 <= i < self.workers.len()
        &&& self.workers[i] is Scanning
        &&& seen ==> self.flag
    }

    /// The race after worker `i` ran one iteration reading the flag as `seen`;
    /// a worker that finds a solution raises the flag.
    pub open spec fn step(self, p: Problem, i: int, seen: bool) -> Race {
        let s = self.workers[i].next_state(p, seen);
        Race { flag: self.flag || s is Found, workers: self.workers.update(i, s) }
    }

    /// No worker is scanning any more.
    pub open spec fn finished(self) -> bool {
        forall|i: int| 0 <= i < self.workers.len() ==> !(#[trigger] self.workers[i] is Scanning)
    }

    /// What the workers report, in worker order.
    pub open spec fn reports(self) -> Seq<Option<u64>> {
        Seq::new(self.workers.len(), |i: int| self.workers[i].answer())
    }

    /// What every reachable race satisfies: each worker is consistent with
    /// its chunk, the flag is up exactly when some worker has found a
    /// solution, and no worker stopped early while the flag was down.
    pub open spec fn sound(self, p: Problem, chunks: Seq<(u64, u64)>) -> bool {
        &&& self.workers.len() == chunks.len()
        &&& forall|i: int|
            0 <= i < self.workers.len() ==> (#[trigger] self.workers[i]).tracks(
                p,
                chunks[i].0,
                chunks[i].1,
            )
        &&& self.flag <==> exists|j: int|
            0 <= j < self.workers.len() && #[trigger] self.workers[j] is Found
        &&& forall|i: int|
            0 <= i < self.workers.len() && #[trigger] self.workers[i] is Stopped ==> self.flag
    }
}

/// The race starts sound.
pub proof fn lemma_initial_sound(p: Problem, chunks: Seq<(u64, u64)>)
    ensures
        Race::initial(chunks).sound(p, chunks),
{
}

/// Every iteration of any worker keeps the race sound.
pub proof fn lemma_step_sound(race: Race, p: Problem, chunks: Seq<(u64, u64)>, i: int, seen: bool)
    requires
        race.sound(p, chunks),
        race.can_step(i, seen),
    ensures
        race.step(p, i, seen).sound(p, chunks),
{
    let after = race.step(p, i, seen);
    assert forall|k: int| 0 <= k < after.workers.len() implies (#[trigger] after.workers[k]).tracks(
        p,
        chunks[k].0,
        chunks[k].1,
    ) by {
        if k != i {
            assert(after.workers[k] == race.workers[k]);
        }
    }
    if after.flag {
        if race.flag {
            let j = choose|j: int| 0 <= j < race.workers.len() && #[trigger] race.workers[j] is Found;
            assert(j != i);
            assert(after.workers[j] is Found);
        } else {
            assert(after.workers[i] is Found);
        }
    }
    if exists|j: int| 0 <= j < after.workers.len() && #[trigger] after.workers[j] is Found {
        let j = choose|j: int| 0 <= j < after.workers.len() && #[trigger] after.workers[j] is Found;
        if j != i {
            assert(race.workers[j] is Found);
        }
    }
    assert forall|k: int|
        0 <= k < after.workers.len() && #[trigger] after.workers[k] is Stopped implies after.flag by {
        if k != i {
            assert(race.workers[k] is Stopped);
        }
    }
}

/// Once the flag is up, a worker that reads it runs no further iteration
/// after that one: it stops there, and the flag stays up.
pub proof fn lemma_raised_flag_halts(race: Race, p: Problem, i: int)
    requires
        race.flag,
        race.can_step(i, true),
    ensures
        race.step(p, i, true).workers[i] is Stopped,
        race.step(p, i, true).flag,
{
}

/// The flag is never lowered.
pub proof fn lemma_flag_stays_up(race: Race, p: Problem, i: int, seen: bool)
    requires
        race.flag,
    ensures
        race.step(p, i, seen).flag,
{
}

/// One turn of a schedule: which worker runs an iteration, and what it reads
/// the flag as.
pub struct Turn {
    pub worker: int,
    pub seen: bool,
}

/// The sum of a sequence of naturals.
pub open spec fn total(amounts: Seq<nat>) -> nat
    decreases amounts.len(),
{
    if amounts.len() == 0 {
        0
    } else {
        total(amounts.drop_last()) + amounts.last()
    }
}

/// Replacing one amount changes the total by the difference.
proof fn lemma_total_update(amounts: Seq<nat>, i: int, amount: nat)
    requires
        0 <= i < amounts.len(),
    ensures
        total(amounts.update(i, amount)) + amounts[i] == total(amounts) + amount,
    decreases amounts.len(),
{
    let changed = amounts.update(i, amount);
    if i == amounts.len() - 1 {
        assert(changed.drop_last() =~= amounts.drop_last());
    } else {
        lemma_total_update(amounts.drop_last(), i, amount);
        assert(changed.drop_last() =~= amounts.drop_last().update(i, amount));
    }
}

impl Race {
    /// The candidates all workers together have yet to test.
    pub open spec fn budget(self) -> nat {
        total(Seq::new(self.workers.len(), |i: int| self.workers[i].remaining()))
    }

    /// The number of workers that are still scanning.
    pub open spec fn scanning(self) -> nat {
        total(
            Seq::new(
                self.workers.len(),
                |i: int|
                    if self.workers[i] is Scanning {
                        1nat
                    } else {
                        0nat
                    },
            ),
        )
    }

    /// The race can run the schedule turn by turn.
    pub open spec fn admits(self, p: Problem, schedule: Seq<Turn>) -> bool
        decreases schedule.len(),
    {
        if schedule.len() == 0 {
            true
        } else {
            &&& self.can_step(schedule[0].worker, schedule[0].seen)
            &&& self.step(p, schedule[0].worker, schedule[0].seen).admits(p, schedule.drop_first())
        }
    }

    /// The race after it ran the schedule.
    pub open spec fn after(self, p: Problem, schedule: Seq<Turn>) -> Race
        decreases schedule.len(),
    {
        if schedule.len() == 0 {
            self
        } else {
            self.step(p, schedule[0].worker, schedule[0].seen).after(p, schedule.drop_first())
        }
    }
}

/// A sound race stays sound along every schedule it admits.
pub proof fn lemma_after_sound(race: Race, p: Problem, chunks: Seq<(u64, u64)>, schedule: Seq<Turn>)
    requires
        race.sound(p, chunks),
        race.admits(p, schedule),
    ensures
        race.after(p, schedule).sound(p, chunks),
    decreases schedule.len(),
{
    if schedule.len() > 0 {
        let next = race.step(p, schedule[0].worker, schedule[0].seen);
        lemma_step_sound(race, p, chunks, schedule[0].worker, schedule[0].seen);
        lemma_after_sound(next, p, chunks, schedule.drop_first());
    }
}

/// Every turn uses up at least one candidate of the race's budget.
pub proof fn lemma_step_spends(race: Race, p: Problem, chunks: Seq<(u64, u64)>, i: int, seen: bool)
    requires
        race.sound(p, chunks),
        race.can_step(i, seen),
    ensures
        race.step(p, i, seen).budget() < race.budget(),
{
    let next = race.step(p, i, seen);
    let before = Seq::new(race.workers.len(), |k: int| race.workers[k].remaining());
    let after = Seq::new(next.workers.len(), |k: int| next.workers[k].remaining());
    lemma_step_progress(race.workers[i], p, chunks[i].0, chunks[i].1, seen);
    assert(after =~= before.update(i, next.workers[i].remaining()));
    lemma_total_update(before, i, next.workers[i].remaining());
}

/// No livelock: a schedule is never longer than the budget of the race it
/// starts from, whatever the workers read the flag as.
pub proof fn lemma_schedule_bounded(
    race: Race,
    p: Problem,
    chunks: Seq<(u64, u64)>,
    schedule: Seq<Turn>,
)
    requires
        race.sound(p, chunks),
        race.admits(p, schedule),
    ensures
        schedule.len() + race.after(p, schedule).budget() <= race.budget(),
    decreases schedule.len(),
{
    if schedule.len() > 0 {
        let next = race.step(p, schedule[0].worker, schedule[0].seen);
        lemma_step_sound(race, p, chunks, schedule[0].worker, schedule[0].seen);
        lemma_step_spends(race, p, chunks, schedule[0].worker, schedule[0].seen);
        lemma_schedule_bounded(next, p, chunks, schedule.drop_first());
    }
}

/// Once the flag is up and every worker reads it as it is, each worker runs
/// at most one more iteration: the schedule is no longer than the number of
/// workers that were still scanning, and it leaves that many fewer scanning.
pub proof fn lemma_visible_flag_ends_the_race(race: Race, p: Problem, schedule: Seq<Turn>)
    requires
        race.flag,
        race.admits(p, schedule),
        forall|k: int| 0 <= k < schedule.len() ==> (#[trigger] schedule[k]).seen,
    ensures
        schedule.len() + race.after(p, schedule).scanning() == race.scanning(),
    decreases schedule.len(),
{
    if schedule.len() > 0 {
        let i = schedule[0].worker;
        assert(schedule[0].seen);
        let next = race.step(p, i, true);
        let before = Seq::new(
            race.workers.len(),
            |k: int|
                if race.workers[k] is Scanning {
                    1nat
                } else {
                    0nat
                },
        );
        let after = Seq::new(
            next.workers.len(),
            |k: int|
                if next.workers[k] is Scanning {
                    1nat
                } else {
                    0nat
                },
        );
        assert(after =~= before.update(i, 0nat));
        lemma_total_update(before, i, 0nat);
        let rest = schedule.drop_first();
        assert forall|k: int| 0 <= k < rest.len() implies (#[trigger] rest[k]).seen by {
            assert(rest[k] == schedule[k + 1]);
        }
        lemma_visible_flag_ends_the_race(next, p, rest);
    }
}

/// When all workers of a sound race over the planned chunks are done, the
/// collected result is a solution exactly when the single-threaded search of
/// `[1, limit]` finds one. The collected solution lies in the range and is
/// never below the single-threaded one; it need not equal it.
pub proof fn lemma_race_agrees_with_search(p: Problem, limit: u64, workers: usize, race: Race)
    requires
        0 < workers,
        race.sound(p, plan(limit, workers)),
        race.finished(),
    ensures
        last_found(race.reports()) is Some <==> smallest_hit(p, 1, limit) is Some,
        last_found(race.reports()) matches Some(v) ==> {
            &&& 1 <= v <= limit
            &&& p.hits(v)
            &&& smallest_hit(p, 1, limit) matches Some(n) && n <= v
        },
{
    let chunks = plan(limit, workers);
    let reports = race.reports();
    lemma_last_found(reports);
    lemma_smallest_hit(p, 1, limit);
    match last_found(reports) {
        Some(v) => {
            let j = choose|j: int| 0 <= j < reports.len() && #[trigger] reports[j] == Some(v);
            assert(race.workers[j].answer() == Some(v));
            assert(race.workers[j].tracks(p, chunks[j].0, chunks[j].1));
            lemma_chunk_within(limit as int, workers as int, j);
            assert(first_hit(p, chunks[j].0, chunks[j].1, v));
            lemma_hit_has_first(p, 1, limit, v);
            let n = choose|n: u64| first_hit(p, 1, limit, n) && n <= v;
            lemma_first_hit_unique(p, 1, limit, n, smallest_hit(p, 1, limit)->0);
        },
        None => {
            if smallest_hit(p, 1, limit) is Some {
                let n: u64 = smallest_hit(p, 1, limit)->0;
                let i = owner(limit as int, workers as int, n as int);
                lemma_chunk_owner(limit as int, workers as int, n as int, 0);
                lemma_chunk_owner(limit as int, workers as int, n as int, i);
                lemma_chunk_within(limit as int, workers as int, i);
                assert(in_chunk(limit as int, workers as int, i, n as int));
                let s = race.workers[i];
                assert(s.tracks(p, chunks[i].0, chunks[i].1));
                assert(!(s is Scanning));
                assert(chunks[i].0 == chunk_start(limit as int, workers as int, i));
                assert(chunks[i].1 == chunk_end(limit as int, workers as int, i));
                if s is Found {
                    assert(reports[i] is Some);
                } else if s is Exhausted {
                    assert(!p.hits(n));
                } else {
                    assert(race.flag);
                    let j = choose|j: int|
                        0 <= j < race.workers.len() && #[trigger] race.workers[j] is Found;
                    assert(reports[j] is Some);
                }
            }
        },
    }
}

/// However the workers interleave and whenever each of them comes to see the
/// flag, a race over the planned chunks that has run to its end collects a
/// solution exactly when the single-threaded search of `[1, limit]` finds
/// one; the collected solution is never below the single-threaded one.
pub proof fn lemma_every_race_agrees_with_search(
    p: Problem,
    limit: u64,
    workers: usize,
    schedule: Seq<Turn>,
)
    requires
        0 < workers,
        Race::initial(plan(limit, workers)).admits(p, schedule),
        Race::initial(plan(limit, workers)).after(p, schedule).finished(),
    ensures
        ({
            let collected = last_found(
                Race::initial(plan(limit, workers)).after(p, schedule).reports(),
            );
            &&& collected is Some <==> smallest_hit(p, 1, limit) is Some
            &&& collected matches Some(v) ==> {
                &&& 1 <= v <= limit
                &&& p.hits(v)
                &&& smallest_hit(p, 1, limit) matches Some(n) && n <= v
            }
        }),
{
    let chunks = plan(limit, workers);
    let start = Race::initial(chunks);
    lemma_initial_sound(p, chunks);
    lemma_after_sound(start, p, chunks, schedule);
    lemma_race_agrees_with_search(p, limit, workers, start.after(p, schedule));
}

/// The benchmark's own race: as its problem has no solution, no worker ever
/// finds one, the flag is never raised, and both the parallel and the
/// single-threaded search of `[1, limit]` end with nothing.
pub proof fn lemma_benchmark_race_finds_nothing(limit: u64, workers: usize, schedule: Seq<Turn>)
    requires
        0 < workers,
        Race::initial(plan(limit, workers)).admits(Problem::standard(), schedule),
        Race::initial(plan(limit, workers)).after(Problem::standard(), schedule).finished(),
    ensures
        smallest_hit(Problem::standard(), 1, limit) is None,
        last_found(
            Race::initial(plan(limit, workers)).after(Problem::standard(), schedule).reports(),
        ) is None,
        !Race::initial(plan(limit, workers)).after(Problem::standard(), schedule).flag,
{
    let p = Problem::standard();
    let chunks = plan(limit, workers);
    let end = Race::initial(chunks).after(p, schedule);
    lemma_every_race_agrees_with_search(p, limit, workers, schedule);
    lemma_smallest_hit(p, 1, limit);
    if smallest_hit(p, 1, limit) is Some {
        lemma_benchmark_has_no_solution(smallest_hit(p, 1, limit)->0);
    }
    lemma_initial_sound(p, chunks);
    lemma_after_sound(Race::initial(chunks), p, chunks, schedule);
    if end.flag {
        let j = choose|j: int| 0 <= j < end.workers.len() && #[trigger] end.workers[j] is Found;
        assert(end.workers[j].tracks(p, chunks[j].0, chunks[j].1));
        lemma_benchmark_has_no_solution(end.workers[j]->Found_at);
    }
}

} // verus!
