//! The coordinator of a batch of fetch tasks: which task may start, under a
//! limit on the tasks in flight, and what has become of each.
//!
//! The coordinator decides and keeps the books; the caller runs the tasks.
//! It asks [`Batch::start_next`] for tasks to start until it gets `None`,
//! waits for one of them to end, reports that with [`Batch::complete`], and
//! goes on until [`Batch::is_finished`]. The outcomes are then handed out in
//! the order of the inputs, whatever the order in which the tasks ended.

use crate::fetch::{clone_outcome, outcome_view, FetchOutcome, OutcomeView};
use vstd::prelude::*;

verus! {

/// The number of tasks of `outcomes` that have ended.
pub open spec fn count_done(outcomes: Seq<Option<OutcomeView>>) -> nat
    decreases outcomes.len(),
{
    if outcomes.len() == 0 {
        0
    } else {
        count_done(outcomes.drop_last()) + if outcomes.last() is Some { 1nat } else { 0nat }
    }
}

/// The number of tasks of `outcomes` that have ended with success.
pub open spec fn count_succeeded(outcomes: Seq<Option<OutcomeView>>) -> nat
    decreases outcomes.len(),
{
    if outcomes.len() == 0 {
        0
    } else {
        count_succeeded(outcomes.drop_last()) + if outcomes.last() matches Some(Ok(_)) {
            1nat
        } else {
            0nat
        }
    }
}

/// What a [`Batch`] holds.
pub struct BatchView {
    /// The most tasks that may be in flight at once.
    pub limit: nat,
    /// The number of tasks that were started: the tasks in front.
    pub started: nat,
    /// What has become of each task: `None` while it has not ended.
    pub outcomes: Seq<Option<OutcomeView>>,
}

impl BatchView {
    /// The number of tasks.
    pub open spec fn total(self) -> nat {
        self.outcomes.len()
    }

    /// The number of tasks that have ended.
    pub open spec fn done(self) -> nat {
        count_done(self.outcomes)
    }

    /// The number of tasks that have ended with success.
    pub open spec fn succeeded(self) -> nat {
        count_succeeded(self.outcomes)
    }

    /// The number of tasks that have ended with an error.
    pub open spec fn failed(self) -> int {
        self.done() - self.succeeded()
    }

    /// The number of tasks that were started and have not ended.
    pub open spec fn in_flight(self) -> int {
        self.started - self.done()
    }

    /// Task `index` was started and has not ended.
    pub open spec fn is_in_flight(self, index: int) -> bool {
        0 <= index < self.started && self.outcomes[index] is None
    }

    /// Every task has ended.
    pub open spec fn finished(self) -> bool {
        forall|i: int| 0 <= i < self.outcomes.len() ==> (#[trigger] self.outcomes[i]) is Some
    }

    /// The limit is at least one and never exceeded, and only tasks that
    /// were started have ended.
    pub open spec fn wf(self) -> bool {
        &&& self.limit >= 1
        &&& self.started <= self.total()
        &&& forall|i: int|
            0 <= i < self.outcomes.len() && (#[trigger] self.outcomes[i]) is Some ==> i
                < self.started
        &&& 0 <= self.in_flight() <= self.limit
    }

    /// The batch after task `index` ended with `outcome`.
    pub open spec fn completed(self, index: int, outcome: OutcomeView) -> BatchView {
        BatchView { outcomes: self.outcomes.update(index, Some(outcome)), ..self }
    }
}

/// Ended tasks are counted at most once each, and the successes are among
/// them.
pub proof fn lemma_counts(outcomes: Seq<Option<OutcomeView>>)
    ensures
        count_succeeded(outcomes) <= count_done(outcomes) <= outcomes.len(),
        count_done(outcomes) == outcomes.len() <==> forall|i: int|
            0 <= i < outcomes.len() ==> (#[trigger] outcomes[i]) is Some,
    decreases outcomes.len(),
{
    if outcomes.len() > 0 {
        let front = outcomes.drop_last();
        lemma_counts(front);
        if count_done(outcomes) == outcomes.len() {
            assert forall|i: int| 0 <= i < outcomes.len() implies (
            #[trigger] outcomes[i]) is Some by {
                if i < outcomes.len() - 1 {
                    assert(front[i] is Some);
                }
            }
        }
    }
}

/// Where only tasks in front of `started` have ended, at most `started` have;
/// fewer where one of those in front has not.
proof fn lemma_done_below(outcomes: Seq<Option<OutcomeView>>, started: int, open: int)
    requires
        0 <= started <= outcomes.len(),
        forall|i: int| 0 <= i < outcomes.len() && (#[trigger] outcomes[i]) is Some ==> i < started,
    ensures
        count_done(outcomes) <= started,
        0 <= open < started && outcomes[open] is None ==> count_done(outcomes) < started,
    decreases outcomes.len(),
{
    if outcomes.len() > 0 {
        let front = outcomes.drop_last();
        if outcomes.len() > started {
            lemma_done_below(front, started, open);
        } else {
            lemma_counts(outcomes);
        }
    }
}

/// When a task ends that had not ended, one more task has ended, and one
/// more has succeeded where it ended with success.
proof fn lemma_count_update(outcomes: Seq<Option<OutcomeView>>, index: int, outcome: OutcomeView)
    requires
        0 <= index < outcomes.len(),
        outcomes[index] is None,
    ensures
        count_done(outcomes.update(index, Some(outcome))) == count_done(outcomes) + 1,
        count_succeeded(outcomes.update(index, Some(outcome))) == count_succeeded(outcomes) + (
        if outcome is Ok { 1nat } else { 0nat }),
    decreases outcomes.len(),
{
    let now = outcomes.update(index, Some(outcome));
    if index == outcomes.len() - 1 {
        assert(now.drop_last() =~= outcomes.drop_last());
    } else {
        assert(now.drop_last() =~= outcomes.drop_last().update(index, Some(outcome)));
        lemma_count_update(outcomes.drop_last(), index, outcome);
    }
}

/// A batch that has not finished never stalls: a task is in flight, or one
/// can be started.
pub proof fn lemma_batch_never_stalls(batch: BatchView)
    requires
        batch.wf(),
        !batch.finished(),
    ensures
        batch.in_flight() > 0 || (batch.started < batch.total() && batch.in_flight()
            < batch.limit),
{
    let open = choose|i: int|
        0 <= i < batch.outcomes.len() && (#[trigger] batch.outcomes[i]) is None;
    lemma_done_below(batch.outcomes, batch.started as int, open);
}

/// How far a batch has come.
#[derive(Clone, Copy, Debug, PartialEq, Eq, Structural)]
pub struct Progress {
    /// The tasks that ended with success.
    pub succeeded: usize,
    /// The tasks that ended with an error.
    pub failed: usize,
    /// All tasks of the batch.
    pub total: usize,
}

/// A batch of fetch tasks, numbered from zero in the order of the inputs.
#[derive(Debug)]
pub struct Batch {
    limit: usize,
    started: usize,
    in_flight: usize,
    succeeded: usize,
    failed: usize,
    outcomes: Vec<Option<FetchOutcome>>,
}

/// The views of `outcomes`, in order.
pub open spec fn outcome_views(outcomes: Seq<Option<FetchOutcome>>) -> Seq<Option<OutcomeView>> {
    Seq::new(
        outcomes.len(),
        |i: int|
            match outcomes[i] {
                Some(outcome) => Some(outcome_view(outcome)),
                None => None,
            },
    )
}

/// The views of `outcomes`, in order.
pub open spec fn ended_views(outcomes: Seq<FetchOutcome>) -> Seq<OutcomeView> {
    Seq::new(outcomes.len(), |i: int| outcome_view(outcomes[i]))
}

impl View for Batch {
    type V = BatchView;

    closed spec fn view(&self) -> BatchView {
        BatchView {
            limit: self.limit as nat,
            started: self.started as nat,
            outcomes: outcome_views(self.outcomes@),
        }
    }
}

impl Batch {
    /// The invariant of a batch: see [`BatchView::wf`]. The counters agree
    /// with the outcomes.
    pub closed spec fn wf(&self) -> bool {
        &&& self@.wf()
        &&& self.in_flight == self@.in_flight()
        &&& self.succeeded == self@.succeeded()
        &&& self.failed == self@.failed()
    }

    /// A well-formed batch holds what [`BatchView::wf`] says: among other
    /// things, no more tasks are in flight than the limit allows.
    pub proof fn lemma_wf(self)
        requires
            self.wf(),
        ensures
            self@.wf(),
    {
    }

    /// A batch of `total` tasks of which at most `limit` are in flight at
    /// once. None has started. A limit of zero would let no task start.
    pub fn new(total: usize, limit: usize) -> (batch: Batch)
        requires
            limit >= 1,
        ensures
            batch.wf(),
            batch@ == (BatchView {
                limit: limit as nat,
                started: 0,
                outcomes: Seq::new(total as nat, |i: int| None::<OutcomeView>),
            }),
            batch@.in_flight() == 0,
    {
        let mut outcomes: Vec<Option<FetchOutcome>> = Vec::new();
        let mut i: usize = 0;
        while i < total
            invariant
                i <= total,
                outcomes.len() == i,
                forall|k: int| 0 <= k < i ==> (#[trigger] outcomes[k]) is None,
            decreases total - i,
        {
            outcomes.push(None);
            i = i + 1;
        }
        let batch = Batch { limit, started: 0, in_flight: 0, succeeded: 0, failed: 0, outcomes };
        proof {
            assert(batch@.outcomes =~= Seq::new(total as nat, |i: int| None::<OutcomeView>));
            lemma_done_below(batch@.outcomes, 0, 0);
            lemma_counts(batch@.outcomes);
        }
        batch
    }

    /// The next task to start: the first one that has not started, as long
    /// as fewer than `limit` tasks are in flight. `None` where the caller
    /// has to wait for a task to end, or where every task has started.
    pub fn start_next(&mut self) -> (next: Option<usize>)
        requires
            old(self).wf(),
        ensures
            final(self).wf(),
            match next {
                Some(index) => {
                    &&& old(self)@.in_flight() < old(self)@.limit
                    &&& index == old(self)@.started < old(self)@.total()
                    &&& final(self)@ == (BatchView {
                        started: old(self)@.started + 1,
                        ..old(self)@
                    })
                },
                None => {
                    &&& old(self)@.in_flight() == old(self)@.limit || old(self)@.started == old(
                        self,
                    )@.total()
                    &&& final(self)@ == old(self)@
                },
            },
    {
        if self.in_flight < self.limit && self.started < self.outcomes.len() {
            let index = self.started;
            self.started = self.started + 1;
            self.in_flight = self.in_flight + 1;
            Some(index)
        } else {
            None
        }
    }

    /// Records that task `index` has ended with `outcome` and tells how far
    /// the batch has come. Nothing else changes: the other tasks go on, and
    /// the outcomes of those that have ended stay. `None`, and no change at
    /// all, where task `index` is not in flight.
    pub fn complete(&mut self, index: usize, outcome: FetchOutcome) -> (progress: Option<Progress>)
        requires
            old(self).wf(),
        ensures
            final(self).wf(),
            old(self)@.is_in_flight(index as int) ==> {
                &&& final(self)@ == old(self)@.completed(index as int, outcome_view(outcome))
                &&& final(self)@.in_flight() == old(self)@.in_flight() - 1
                &&& progress == Some(
                    Progress {
                        succeeded: final(self)@.succeeded() as usize,
                        failed: final(self)@.failed() as usize,
                        total: old(self)@.total() as usize,
                    },
                )
                &&& final(self)@.succeeded() == old(self)@.succeeded() + (if outcome is Ok {
                    1nat
                } else {
                    0nat
                })
                &&& final(self)@.failed() == old(self)@.failed() + (if outcome is Ok {
                    0int
                } else {
                    1int
                })
            },
            !old(self)@.is_in_flight(index as int) ==> progress is None && final(self)@ == old(
                self,
            )@,
    {
        if index >= self.started || self.outcomes[index].is_some() {
            return None;
        }
        let ghost before = self@.outcomes;
        let ghost ended = outcome_view(outcome);
        proof {
            lemma_done_below(before, self.started as int, index as int);
            lemma_count_update(before, index as int, ended);
            lemma_counts(before.update(index as int, Some(ended)));
        }
        if outcome.is_ok() {
            self.succeeded = self.succeeded + 1;
        } else {
            self.failed = self.failed + 1;
        }
        self.in_flight = self.in_flight - 1;
        self.outcomes.set(index, Some(outcome));
        proof {
            assert(self@.outcomes =~= before.update(index as int, Some(ended)));
        }
        Some(
            Progress {
                succeeded: self.succeeded,
                failed: self.failed,
                total: self.outcomes.len(),
            },
        )
    }

    /// The number of tasks in flight, which never exceeds the limit.
    pub fn in_flight(&self) -> (n: usize)
        requires
            self.wf(),
        ensures
            n == self@.in_flight(),
            n <= self@.limit,
    {
        self.in_flight
    }

    /// The number of tasks.
    pub fn total(&self) -> (n: usize)
        ensures
            n == self@.total(),
    {
        self.outcomes.len()
    }

    /// Whether every task has ended.
    pub fn is_finished(&self) -> (finished: bool)
        requires
            self.wf(),
        ensures
            finished == self@.finished(),
            finished ==> self@.in_flight() == 0 && self@.started == self@.total(),
    {
        proof {
            lemma_counts(self@.outcomes);
            lemma_done_below(self@.outcomes, self.started as int, 0);
        }
        self.succeeded + self.failed == self.outcomes.len()
    }

    /// The outcomes of all tasks, in the order of the inputs. `None` while a
    /// task has not ended.
    pub fn into_outcomes(self) -> (outcomes: Option<Vec<FetchOutcome>>)
        requires
            self.wf(),
        ensures
            outcomes is Some <==> self@.finished(),
            outcomes matches Some(ended) ==> ended.len() == self@.total() && forall|i: int|
                0 <= i < ended.len() ==> self@.outcomes[i] == Some(
                    outcome_view(#[trigger] ended[i]),
                ),
    {
        if !self.is_finished() {
            return None;
        }
        let mut ended: Vec<FetchOutcome> = Vec::new();
        let mut i: usize = 0;
        while i < self.outcomes.len()
            invariant
                i <= self.outcomes.len(),
                ended.len() == i,
                self@.finished(),
                forall|k: int|
                    0 <= k < i ==> self@.outcomes[k] == Some(outcome_view(#[trigger] ended[k])),
            decreases self.outcomes.len() - i,
        {
            assert(self@.outcomes[i as int] is Some);
            match &self.outcomes[i] {
                Some(outcome) => {
                    ended.push(clone_outcome(outcome));
                },
                None => {},
            }
            i = i + 1;
        }
        Some(ended)
    }
}

} // verus!
