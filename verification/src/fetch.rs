//! One fetch task: the attempts at one URL and what becomes of them.
//!
//! The download itself is done by the caller. After each attempt the caller
//! reports how it ended and is told whether to try again.

use crate::digest::{Checksums, ChecksumsView};
use vstd::prelude::*;

verus! {

/// The number of attempts that a task makes before it gives up.
pub const MAX_ATTEMPTS: u32 = 3;

/// Why an attempt failed, in words.
#[derive(Debug)]
pub struct FetchError {
    pub message: String,
}

impl View for FetchError {
    type V = Seq<char>;

    open spec fn view(&self) -> Seq<char> {
        self.message@
    }
}

impl Clone for FetchError {
    fn clone(&self) -> (copy: Self)
        ensures
            copy@ == self@,
    {
        FetchError { message: self.message.clone() }
    }
}

/// How a task ended: with the digests of the body, or with the error of its
/// last attempt.
pub type FetchOutcome = Result<Checksums, FetchError>;

/// What a [`FetchOutcome`] stands for.
pub type OutcomeView = Result<ChecksumsView, Seq<char>>;

/// The view of an outcome.
pub open spec fn outcome_view(outcome: FetchOutcome) -> OutcomeView {
    match outcome {
        Ok(checksums) => Ok(checksums@),
        Err(error) => Err(error@),
    }
}

/// A copy of `outcome`.
pub fn clone_outcome(outcome: &FetchOutcome) -> (copy: FetchOutcome)
    ensures
        outcome_view(copy) == outcome_view(*outcome),
{
    match outcome {
        Ok(checksums) => Ok(*checksums),
        Err(error) => Err(error.clone()),
    }
}

/// A task that has an attempt in flight.
#[derive(Debug)]
pub struct FetchTask {
    failures: u32,
}

/// What follows a failed attempt.
#[derive(Debug)]
pub enum FetchStep {
    /// Try again at once. The task is handed back with the failure counted.
    Retry(FetchTask),
    /// The task has ended with this outcome.
    Done(FetchOutcome),
}

impl FetchTask {
    /// The attempts that have failed so far.
    pub closed spec fn failures(self) -> nat {
        self.failures as nat
    }

    #[verifier::type_invariant]
    spec fn attempts_left(self) -> bool {
        self.failures < MAX_ATTEMPTS
    }

    /// A task whose first attempt is about to be made.
    pub fn new() -> (task: FetchTask)
        ensures
            task.failures() == 0,
    {
        FetchTask { failures: 0 }
    }

    /// The number of the attempt in flight, counted from one.
    pub fn attempt(&self) -> (n: u32)
        ensures
            n == self.failures() + 1,
            1 <= n <= MAX_ATTEMPTS,
    {
        proof {
            use_type_invariant(self);
        }
        self.failures + 1
    }

    /// The attempt in flight returned the whole body: the task ends with the
    /// digests of the body.
    pub fn succeeded(self, body: &[u8]) -> (outcome: FetchOutcome)
        ensures
            outcome_view(outcome) == Ok::<ChecksumsView, Seq<char>>(ChecksumsView::of(body@)),
    {
        Ok(Checksums::compute(body))
    }

    /// The attempt in flight failed with `error`: the task tries again unless
    /// this was its last attempt, and then ends with `error`.
    pub fn failed(self, error: FetchError) -> (step: FetchStep)
        ensures
            self.failures() + 1 < MAX_ATTEMPTS ==> (step matches FetchStep::Retry(next)
                && next.failures() == self.failures() + 1),
            self.failures() + 1 >= MAX_ATTEMPTS ==> (step matches FetchStep::Done(outcome)
                && outcome_view(outcome) == Err::<ChecksumsView, Seq<char>>(error@)),
    {
        proof {
            use_type_invariant(&self);
        }
        if self.failures + 1 < MAX_ATTEMPTS {
            FetchStep::Retry(FetchTask { failures: self.failures + 1 })
        } else {
            FetchStep::Done(Err(error))
        }
    }
}

} // verus!
