//! The outcomes of a batch of fetches, kept by URL.

use crate::fetch::{outcome_view, FetchOutcome, OutcomeView};
use vstd::prelude::*;

verus! {

/// The map that comes of putting `entries` in one after the other: of two
/// entries with the same URL the later one stays.
pub open spec fn outcome_map(entries: Seq<(Seq<char>, OutcomeView)>) -> Map<Seq<char>, OutcomeView>
    decreases entries.len(),
{
    if entries.len() == 0 {
        Map::empty()
    } else {
        outcome_map(entries.drop_last()).insert(entries.last().0, entries.last().1)
    }
}

/// The views of `entries`, in order.
pub open spec fn outcome_entries(entries: Seq<(String, FetchOutcome)>) -> Seq<
    (Seq<char>, OutcomeView),
> {
    Seq::new(entries.len(), |i: int| (entries[i].0@, outcome_view(entries[i].1)))
}

/// The outcome of each URL of a batch. A URL has one outcome: a later one
/// replaces an earlier one.
#[derive(Debug)]
pub struct KeyedOutcomes {
    entries: Vec<(String, FetchOutcome)>,
}

impl View for KeyedOutcomes {
    type V = Map<Seq<char>, OutcomeView>;

    closed spec fn view(&self) -> Map<Seq<char>, OutcomeView> {
        outcome_map(outcome_entries(self.entries@))
    }
}

impl KeyedOutcomes {
    /// No outcomes.
    pub fn new() -> (outcomes: KeyedOutcomes)
        ensures
            outcomes@ == Map::<Seq<char>, OutcomeView>::empty(),
    {
        KeyedOutcomes { entries: Vec::new() }
    }

    /// Records the outcome of `url`.
    pub fn insert(&mut self, url: String, outcome: FetchOutcome)
        ensures
            final(self)@ == old(self)@.insert(url@, outcome_view(outcome)),
    {
        self.entries.push((url, outcome));
        proof {
            let now = outcome_entries(self.entries@);
            assert(now.drop_last() =~= outcome_entries(old(self).entries@));
        }
    }

    /// The outcome of `url`, if the batch had that URL.
    pub fn get(&self, url: &String) -> (outcome: Option<&FetchOutcome>)
        ensures
            outcome is Some <==> self@.contains_key(url@),
            outcome matches Some(o) ==> outcome_view(*o) == self@[url@],
    {
        let ghost all = outcome_entries(self.entries@);
        let mut j: usize = self.entries.len();
        proof {
            assert(all.take(j as int) =~= all);
        }
        while j > 0
            invariant
                j <= self.entries.len(),
                all == outcome_entries(self.entries@),
                self@ == outcome_map(all),
                outcome_map(all).contains_key(url@) <==> outcome_map(all.take(j as int)).contains_key(
                    url@,
                ),
                outcome_map(all).contains_key(url@) ==> outcome_map(all)[url@] == outcome_map(
                    all.take(j as int),
                )[url@],
            decreases j,
        {
            proof {
                assert(all.take(j as int).drop_last() =~= all.take(j - 1));
            }
            if self.entries[j - 1].0 == *url {
                return Some(&self.entries[j - 1].1);
            }
            j = j - 1;
        }
        None
    }
}

} // verus!
