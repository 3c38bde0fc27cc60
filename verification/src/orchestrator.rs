//! The polling loop as a state machine: what to do next, given where the
//! loop stands and what has just happened.
//!
//! The loop runs idle, snapshotting, evaluating, merging, sleeping, and idle
//! again, without end. The machine decides; whoever drives it performs the
//! action it names and reports back with the event that ends the action.

use vstd::prelude::*;
use crate::cycle::REST_MILLIS;

verus! {

/// Where the loop stands.
#[derive(Debug, Clone, Copy, PartialEq, Eq, Structural)]
pub enum Phase {
    /// Between two cycles.
    Idle,
    /// The snapshots of the cycle are being fetched.
    Snapshotting,
    /// The cycle is being evaluated.
    Evaluating,
    /// What the cycle made is being merged into the store.
    Merging,
    /// The loop rests before the next cycle.
    Sleeping,
}

/// What has just happened.
#[derive(Debug, Clone, Copy, PartialEq, Eq, Structural)]
pub enum Event {
    /// It is time for a cycle.
    Tick,
    /// Every snapshot has arrived or failed.
    Fetched,
    /// The cycle has been evaluated.
    Evaluated,
    /// The store holds what the cycle made.
    Merged,
    /// The rest is over.
    Rested,
}

/// What to do next.
#[derive(Debug, Clone, Copy, PartialEq, Eq, Structural)]
pub enum Action {
    /// Fetch the snapshots, each source once.
    Fetch,
    /// Evaluate the cycle of the given index.
    Evaluate(u64),
    /// Merge what the cycle made into the store, under one exclusive write.
    Merge,
    /// Rest for the given number of milliseconds.
    Rest(u64),
    /// Nothing: the event does not belong to the phase.
    Nothing,
}

/// The loop: its phase, and the index of the cycle it is in or will be in
/// next.
#[derive(Debug, Clone, Copy, PartialEq, Eq, Structural)]
pub struct Orchestrator {
    pub phase: Phase,
    pub index: u64,
}

impl Orchestrator {
    /// The loop after `event`, and what to do next. An event that does not
    /// belong to the phase changes nothing. The index grows by one when a
    /// rest ends; once indices are used up, the loop rests for good.
    pub open spec fn next(self, event: Event) -> (Orchestrator, Action) {
        match (self.phase, event) {
            (Phase::Idle, Event::Tick) => (
                Orchestrator { phase: Phase::Snapshotting, index: self.index },
                Action::Fetch,
            ),
            (Phase::Snapshotting, Event::Fetched) => (
                Orchestrator { phase: Phase::Evaluating, index: self.index },
                Action::Evaluate(self.index),
            ),
            (Phase::Evaluating, Event::Evaluated) => (
                Orchestrator { phase: Phase::Merging, index: self.index },
                Action::Merge,
            ),
            (Phase::Merging, Event::Merged) => (
                Orchestrator { phase: Phase::Sleeping, index: self.index },
                Action::Rest(REST_MILLIS),
            ),
            (Phase::Sleeping, Event::Rested) => if self.index < u64::MAX {
                (
                    Orchestrator { phase: Phase::Idle, index: (self.index + 1) as u64 },
                    Action::Nothing,
                )
            } else {
                (self, Action::Nothing)
            },
            _ => (self, Action::Nothing),
        }
    }

    /// The loop before its first cycle.
    pub fn new() -> (o: Orchestrator)
        ensures
            o == (Orchestrator { phase: Phase::Idle, index: 0 }),
    {
        Orchestrator { phase: Phase::Idle, index: 0 }
    }

    /// Takes `event` and tells what to do next.
    pub fn step(&mut self, event: Event) -> (action: Action)
        ensures
            (*final(self), action) == old(self).next(event),
    {
        match (self.phase, event) {
            (Phase::Idle, Event::Tick) => {
                self.phase = Phase::Snapshotting;
                Action::Fetch
            },
            (Phase::Snapshotting, Event::Fetched) => {
                self.phase = Phase::Evaluating;
                Action::Evaluate(self.index)
            },
            (Phase::Evaluating, Event::Evaluated) => {
                self.phase = Phase::Merging;
                Action::Merge
            },
            (Phase::Merging, Event::Merged) => {
                self.phase = Phase::Sleeping;
                Action::Rest(REST_MILLIS)
            },
            (Phase::Sleeping, Event::Rested) => {
                if self.index < u64::MAX {
                    self.phase = Phase::Idle;
                    self.index = self.index + 1;
                }
                Action::Nothing
            },
            _ => Action::Nothing,
        }
    }
}

/// A full round: from idle, the five events of a cycle in their order lead
/// back to idle, with the index one higher.
pub proof fn lemma_round(o: Orchestrator)
    requires
        o.phase == Phase::Idle,
        o.index < u64::MAX,
    ensures
        o.next(Event::Tick).0.next(Event::Fetched).0.next(Event::Evaluated).0.next(
            Event::Merged,
        ).0.next(Event::Rested).0 == (Orchestrator {
            phase: Phase::Idle,
            index: (o.index + 1) as u64,
        }),
{
}

/// The index of the cycle never goes down, and it goes up only when a rest
/// ends.
pub proof fn lemma_index_grows(o: Orchestrator, event: Event)
    ensures
        o.next(event).0.index >= o.index,
        o.next(event).0.index != o.index ==> o.phase == Phase::Sleeping && event == Event::Rested
            && o.next(event).0.index == o.index + 1,
{
}

} // verus!
