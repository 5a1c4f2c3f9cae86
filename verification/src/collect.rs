//! Collecting the reports of the parallel search's workers.
//!
//! Reports are taken in worker order and each solution replaces the one
//! before it, so the result is the report of the last worker that found
//! anything, whether or not an earlier worker found a smaller solution.

use vstd::prelude::*;

verus! {

/// The report that wins the collection: the last solution in worker order.
pub open spec fn last_found(reports: Seq<Option<u64>>) -> Option<u64>
    decreases reports.len(),
{
    if reports.len() == 0 {
        None
    } else if reports.last() is Some {
        reports.last()
    } else {
        last_found(reports.drop_last())
    }
}

/// `last_found` is the report of the highest-numbered worker that found a
/// solution, and `None` exactly when no worker found one.
pub proof fn lemma_last_found(reports: Seq<Option<u64>>)
    ensures
        match last_found(reports) {
            Some(v) => exists|i: int|
                0 <= i < reports.len() && #[trigger] reports[i] == Some(v) && forall|j: int|
                    i < j < reports.len() ==> #[trigger] reports[j] is None,
            None => forall|i: int| 0 <= i < reports.len() ==> #[trigger] reports[i] is None,
        },
    decreases reports.len(),
{
    if reports.len() == 0 {
    } else if reports.last() is Some {
        let i = reports.len() - 1;
        assert(reports[i] == reports.last());
    } else {
        let front = reports.drop_last();
        lemma_last_found(front);
        match last_found(front) {
            Some(v) => {
                let i = choose|i: int|
                    0 <= i < front.len() && #[trigger] front[i] == Some(v) && forall|j: int|
                        i < j < front.len() ==> #[trigger] front[j] is None;
                assert(reports[i] == front[i]);
                assert forall|j: int| i < j < reports.len() implies #[trigger] reports[j] is None by {
                    if j < front.len() {
                        assert(front[j] is None);
                    }
                }
            },
            None => {
                assert forall|i: int| 0 <= i < reports.len() implies #[trigger] reports[i] is None by {
                    if i < front.len() {
                        assert(front[i] is None);
                    }
                }
            },
        }
    }
}

/// Collects the workers' reports in worker order; a later solution replaces
/// an earlier one.
pub fn collect_results(reports: &Vec<Option<u64>>) -> (r: Option<u64>)
    ensures
        r == last_found(reports@),
{
    let mut result: Option<u64> = None;
    let mut i: usize = 0;
    while i < reports.len()
        invariant
            i <= reports.len(),
            result == last_found(reports@.take(i as int)),
        decreases reports.len() - i,
    {
        proof {
            let upto = reports@.take(i + 1);
            assert(upto.drop_last() =~= reports@.take(i as int));
            assert(upto.last() == reports@[i as int]);
        }
        if let Some(v) = reports[i] {
            result = Some(v);
        }
        i = i + 1;
    }
    assert(reports@.take(i as int) =~= reports@);
    result
}

} // verus!
