//! The bounded-concurrency "first success wins" race, reduced to what can be
//! stated and checked: the aggregation of outcomes.
//!
//! A race applies an operation to every item of an ordered collection, with a
//! bounded number of workers running the operations in parallel. Workers
//! report outcomes in completion order, and the aggregator commits to the
//! first success it sees; if every outcome is a failure, the last observed
//! failure survives; if there was no work at all, there is no result.
//!
//! The scheduling itself (worker tasks, capacity-1 channels, cooperative
//! cancellation) is outside this crate. What the aggregator decides, for any
//! completion order the scheduler may produce, is defined by [`race_result`]
//! and implemented by [`race_outcomes`] and the incremental [`RaceAggregator`]
//! that an external worker pool feeds one outcome at a time.

use vstd::prelude::*;

verus! {

/// How many workers a race runs: `concurrency`, unless that is zero, which
/// stands for "one worker per item" (full fan-out).
pub open spec fn spec_worker_count(concurrency: nat, item_count: nat) -> nat {
    if concurrency == 0 {
        item_count
    } else {
        concurrency
    }
}

/// Exec mirror of [`spec_worker_count`].
pub fn worker_count(concurrency: usize, item_count: usize) -> (r: usize)
    ensures
        r == spec_worker_count(concurrency as nat, item_count as nat),
{
    if concurrency == 0 {
        item_count
    } else {
        concurrency
    }
}

/// One aggregation step: a committed success is kept, anything else is
/// overwritten by the next outcome.
pub open spec fn race_step<T, E>(
    acc: Option<Result<T, E>>,
    next: Result<T, E>,
) -> Option<Result<T, E>> {
    match acc {
        Some(prev) => if prev is Ok {
            acc
        } else {
            Some(next)
        },
        None => Some(next),
    }
}

/// The result of a race whose outcomes arrived in the order `outcomes`:
/// the first success if there is one, otherwise the last failure, and
/// nothing at all for an empty race.
pub open spec fn race_result<T, E>(outcomes: Seq<Result<T, E>>) -> Option<Result<T, E>>
    decreases outcomes.len(),
{
    if outcomes.len() == 0 {
        None
    } else {
        race_step(race_result(outcomes.drop_last()), outcomes.last())
    }
}

/// Stepping the race spec along a prefix: the result over `i + 1` outcomes is
/// one [`race_step`] past the result over `i` outcomes.
pub proof fn lemma_race_result_unfold_prefix<T, E>(outcomes: Seq<Result<T, E>>, i: int)
    requires
        0 <= i < outcomes.len(),
    ensures
        race_result(outcomes.take(i + 1)) == race_step(
            race_result(outcomes.take(i)),
            outcomes[i],
        ),
{
    assert(outcomes.take(i + 1).drop_last() =~= outcomes.take(i));
    assert(outcomes.take(i + 1).last() == outcomes[i]);
}

/// Once a race has committed to a success, later outcomes change nothing:
/// the result over all of `outcomes` equals the result over the prefix in
/// which the success arrived. This is why the aggregator may stop consuming
/// at the first success and discard whatever in-flight work still completes.
pub proof fn lemma_race_commit_is_final<T, E>(outcomes: Seq<Result<T, E>>, i: int)
    requires
        0 <= i <= outcomes.len(),
        race_result(outcomes.take(i)) matches Some(r) && r is Ok,
    ensures
        race_result(outcomes) == race_result(outcomes.take(i)),
    decreases outcomes.len() - i,
{
    if i == outcomes.len() {
        assert(outcomes.take(i) =~= outcomes);
    } else {
        lemma_race_result_unfold_prefix(outcomes, i);
        lemma_race_commit_is_final(outcomes, i + 1);
    }
}

/// All-failure races keep the last failure: if no outcome succeeded, the
/// race surfaces exactly the failure that completed last. At `concurrency
/// = 1` completion order is input order, so the failure of the last item
/// in input order survives.
pub proof fn lemma_race_all_failures<T, E>(outcomes: Seq<Result<T, E>>)
    requires
        forall|i: int| 0 <= i < outcomes.len() ==> outcomes[i] is Err,
        outcomes.len() > 0,
    ensures
        race_result(outcomes) == Some(outcomes.last()),
    decreases outcomes.len(),
{
    let prefix = outcomes.drop_last();
    assert(race_result(outcomes) == race_step(race_result(prefix), outcomes.last()));
    if outcomes.len() > 1 {
        assert forall|i: int| 0 <= i < prefix.len() implies prefix[i] is Err by {
            assert(prefix[i] == outcomes[i]);
        }
        lemma_race_all_failures(prefix);
        assert(prefix.last() is Err);
    } else {
        assert(prefix.len() == 0);
        assert(race_result(prefix) is None);
    }
}

/// A race with at least one success returns a success: the one that
/// completed first, every outcome before it being a failure. How many other
/// items failed, and where in the order they completed, is irrelevant.
pub proof fn lemma_race_success<T, E>(outcomes: Seq<Result<T, E>>)
    requires
        exists|i: int| 0 <= i < outcomes.len() && outcomes[i] is Ok,
    ensures
        exists|i: int|
            {
                &&& 0 <= i < outcomes.len()
                &&& outcomes[i] is Ok
                &&& race_result(outcomes) == Some(outcomes[i])
                &&& forall|j: int| 0 <= j < i ==> outcomes[j] is Err
            },
    decreases outcomes.len(),
{
    let prefix = outcomes.drop_last();
    assert(outcomes.len() > 0);
    assert(race_result(outcomes) == race_step(race_result(prefix), outcomes.last()));
    if exists|i: int| 0 <= i < prefix.len() && prefix[i] is Ok {
        lemma_race_success(prefix);
        let i = choose|i: int|
            {
                &&& 0 <= i < prefix.len()
                &&& prefix[i] is Ok
                &&& race_result(prefix) == Some(prefix[i])
                &&& forall|j: int| 0 <= j < i ==> prefix[j] is Err
            };
        assert(prefix[i] == outcomes[i]);
        assert(outcomes[i] is Ok);
        assert(race_result(outcomes) == Some(outcomes[i]));
        assert forall|j: int| 0 <= j < i implies outcomes[j] is Err by {
            assert(outcomes[j] == prefix[j]);
        }
    } else {
        let i = outcomes.len() - 1;
        assert(outcomes[i] == outcomes.last());
        let witness = choose|k: int| 0 <= k < outcomes.len() && outcomes[k] is Ok;
        if witness < i {
            assert(prefix[witness] == outcomes[witness]);
            assert(prefix[witness] is Ok);
        }
        assert(outcomes[i] is Ok);
        if prefix.len() > 0 {
            assert forall|j: int| 0 <= j < prefix.len() implies prefix[j] is Err by {
                assert(prefix[j] == outcomes[j]);
                assert(!(prefix[j] is Ok));
            }
            lemma_race_all_failures(prefix);
            assert(prefix.last() is Err);
        }
        assert(race_result(outcomes) == Some(outcomes[i]));
        assert forall|j: int| 0 <= j < i implies outcomes[j] is Err by {
            assert(prefix[j] == outcomes[j]);
            assert(!(prefix[j] is Ok));
        }
    }
}

/// Full fan-out is the stated meaning of `concurrency = 0`: a race over
/// `item_count` items runs exactly as many workers then as it would at
/// `concurrency = item_count`. Since the final result is `race_result` of
/// the completion-ordered outcomes alone — a function to which the worker
/// count is not even a parameter — the two configurations decide alike.
pub proof fn lemma_zero_concurrency_is_full_fanout(item_count: nat)
    ensures
        spec_worker_count(0, item_count) == spec_worker_count(item_count, item_count),
{
}

/// Consumes outcomes in completion order and returns what the race decides:
/// the first success, or the last failure, or `None` for an empty race.
/// Stops at the first success without looking further, as the live
/// aggregator does.
pub fn race_outcomes<T, E>(outcomes: Vec<Result<T, E>>) -> (r: Option<Result<T, E>>)
    ensures
        r == race_result(outcomes@),
        outcomes@.len() == 0 ==> r is None,
{
    let ghost all = outcomes@;
    let mut rest = outcomes;
    let mut acc: Option<Result<T, E>> = None;
    let ghost mut i: int = 0;
    while rest.len() > 0
        invariant
            all == outcomes@,
            0 <= i,
            i + rest@.len() == all.len(),
            rest@ == all.skip(i),
            acc == race_result(all.take(i)),
            !(acc matches Some(r) && r is Ok),
        decreases rest@.len(),
    {
        proof {
            assert(all.skip(i).remove(0) =~= all.skip(i + 1));
            assert(all.skip(i)[0] == all[i]);
            lemma_race_result_unfold_prefix(all, i);
        }
        let next = rest.remove(0);
        let committed = next.is_ok();
        acc = Some(next);
        proof {
            i = i + 1;
        }
        if committed {
            proof {
                lemma_race_commit_is_final(all, i);
            }
            return acc;
        }
    }
    proof {
        assert(all.take(i) =~= all);
    }
    acc
}

/// What a sequential race reports: `outcomes` are possible results of the
/// operation on a prefix of the items, everything before the last outcome
/// failed (the race would have stopped at an earlier success), the race
/// stopped short of the end only on a success, and the result is
/// [`race_result`] of exactly those outcomes.
pub open spec fn sequential_race_post<I, T, E, F: Fn(I) -> Result<T, E>>(
    checker: F,
    items: Seq<I>,
    r: Option<Result<T, E>>,
    outcomes: Seq<Result<T, E>>,
) -> bool {
    &&& outcomes.len() <= items.len()
    &&& forall|j: int|
        0 <= j < outcomes.len() ==> call_ensures(checker, (items[j],), #[trigger] outcomes[j])
    &&& forall|j: int| 0 <= j < outcomes.len() - 1 ==> (#[trigger] outcomes[j]) is Err
    &&& (outcomes.len() < items.len() ==> (r matches Some(o) && o is Ok))
    &&& r == race_result(outcomes)
}

/// The race at `concurrency = 1`: strictly sequential, input-ordered, and
/// therefore deterministic for a deterministic operation. The operation is
/// any callable that maps an item to success or failure — URL probing,
/// port scanning, anything; the aggregation does not care.
pub fn race_sequential<I, T, E, F: Fn(I) -> Result<T, E>>(items: Vec<I>, checker: F) -> (r: Option<
    Result<T, E>,
>)
    requires
        forall|k: int| 0 <= k < items@.len() ==> call_requires(checker, (items@[k],)),
    ensures
        exists|outcomes: Seq<Result<T, E>>|
            #[trigger] sequential_race_post(checker, items@, r, outcomes),
{
    let ghost all = items@;
    let mut rest = items;
    let mut acc: Option<Result<T, E>> = None;
    let ghost mut outcomes: Seq<Result<T, E>> = Seq::empty();
    let ghost mut i: int = 0;
    while rest.len() > 0
        invariant
            all == items@,
            0 <= i,
            i + rest@.len() == all.len(),
            rest@ == all.skip(i),
            outcomes.len() == i,
            forall|j: int|
                0 <= j < i ==> call_ensures(checker, (all[j],), #[trigger] outcomes[j]),
            forall|j: int| 0 <= j < i ==> (#[trigger] outcomes[j]) is Err,
            acc == race_result(outcomes),
            !(acc matches Some(o) && o is Ok),
            forall|k: int| 0 <= k < all.len() ==> call_requires(checker, (all[k],)),
        decreases rest@.len(),
    {
        proof {
            assert(all.skip(i).remove(0) =~= all.skip(i + 1));
            assert(all.skip(i)[0] == all[i]);
        }
        let item = rest.remove(0);
        let outcome = checker(item);
        let committed = outcome.is_ok();
        let ghost absorbed = outcome;
        proof {
            assert(outcomes.push(absorbed).drop_last() =~= outcomes);
            outcomes = outcomes.push(absorbed);
            i = i + 1;
        }
        acc = Some(outcome);
        if committed {
            proof {
                assert(sequential_race_post(checker, all, acc, outcomes));
            }
            return acc;
        }
    }
    proof {
        assert(sequential_race_post(checker, all, acc, outcomes));
    }
    acc
}

/// The aggregator of a live race, fed one outcome at a time by an external
/// worker pool. It remembers only the provisional result and how many
/// outcomes it has seen; the sequence of outcomes absorbed so far exists
/// only as the ghost `history`, through which its contract speaks.
pub struct RaceAggregator<T, E> {
    item_count: usize,
    seen: usize,
    acc: Option<Result<T, E>>,
    history: Ghost<Seq<Result<T, E>>>,
}

impl<T, E> RaceAggregator<T, E> {
    /// The outcomes absorbed so far, in the order they arrived.
    pub closed spec fn outcomes(&self) -> Seq<Result<T, E>> {
        self.history@
    }

    /// The number of items the race was started over.
    pub closed spec fn spec_item_count(&self) -> nat {
        self.item_count as nat
    }

    /// The aggregator's state is consistent with its ghost history.
    pub closed spec fn wf(&self) -> bool {
        &&& self.seen == self.outcomes().len()
        &&& self.seen <= self.item_count
        &&& self.acc == race_result(self.outcomes())
    }

    /// A success arrived and the race is decided.
    pub closed spec fn committed(&self) -> bool {
        self.acc matches Some(r) && r is Ok
    }

    /// Nothing more will be absorbed: a success arrived, or every item
    /// reported.
    pub open spec fn done(&self) -> bool {
        self.committed() || self.outcomes().len() == self.spec_item_count()
    }

    /// Starts a race over `item_count` items.
    pub fn new(item_count: usize) -> (r: Self)
        ensures
            r.wf(),
            r.outcomes() == Seq::<Result<T, E>>::empty(),
            r.spec_item_count() == item_count,
    {
        RaceAggregator {
            item_count,
            seen: 0,
            acc: None,
            history: Ghost(Seq::empty()),
        }
    }

    /// Absorbs the next completed outcome. Returns whether the race is now
    /// decided, so the caller can stop handing out items and close its
    /// result channel.
    pub fn absorb(&mut self, outcome: Result<T, E>) -> (done: bool)
        requires
            old(self).wf(),
            !old(self).done(),
        ensures
            final(self).wf(),
            final(self).outcomes() == old(self).outcomes().push(outcome),
            final(self).spec_item_count() == old(self).spec_item_count(),
            done == final(self).done(),
    {
        let ghost absorbed = outcome;
        proof {
            assert(old(self).outcomes().push(absorbed).drop_last() =~= old(self).outcomes());
        }
        let committed = outcome.is_ok();
        self.acc = Some(outcome);
        self.seen = self.seen + 1;
        self.history = Ghost(self.history@.push(absorbed));
        committed || self.seen == self.item_count
    }

    /// Whether the race is decided.
    pub fn is_done(&self) -> (r: bool)
        requires
            self.wf(),
        ensures
            r == self.done(),
    {
        match &self.acc {
            Some(r) => r.is_ok() || self.seen == self.item_count,
            None => self.seen == self.item_count,
        }
    }

    /// Surrenders the race's decision once it is done: the first success,
    /// or the last failure, or `None` if there was no work.
    pub fn into_result(self) -> (r: Option<Result<T, E>>)
        requires
            self.wf(),
            self.done(),
        ensures
            r == race_result(self.outcomes()),
            self.outcomes().len() == 0 ==> r is None,
    {
        self.acc
    }
}

} // verus!
