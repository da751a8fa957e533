//! Single-flight coordination of periodic runs.

use vstd::prelude::*;

verus! {

/// What a firing of the schedule leads to.
#[derive(Clone, Copy, Debug, PartialEq, Eq, Structural)]
pub enum Firing {
    /// The run slot was free: the job is to be run now.
    Run,
    /// A run is in progress: this firing is dropped, not queued.
    Skip,
}

/// The flag that serialises runs: `running` is true exactly while a claimed
/// run has not been released.
#[derive(Clone, Copy, Debug, PartialEq, Eq, Structural)]
pub struct RunGate {
    pub running: bool,
}

/// What a firing leads to, by the flag at that instant.
pub open spec fn firing_for(running: bool) -> Firing {
    if running {
        Firing::Skip
    } else {
        Firing::Run
    }
}

impl RunGate {
    /// A gate with no run in progress.
    pub fn new() -> (gate: RunGate)
        ensures
            !gate.running,
    {
        RunGate { running: false }
    }

    /// Test-and-set: claims the slot if it is free.
    pub fn fire(&mut self) -> (firing: Firing)
        ensures
            firing == firing_for(old(self).running),
            final(self).running,
    {
        if self.running {
            Firing::Skip
        } else {
            self.running = true;
            Firing::Run
        }
    }

    /// Releases the slot at the end of a run, however the run ended.
    pub fn release(&mut self)
        ensures
            !final(self).running,
    {
        self.running = false;
    }
}

/// What can happen to the run slot.
pub enum GateEvent {
    /// The schedule fires.
    Trigger,
    /// The run that holds the slot ends, with or without an error.
    Completion,
}

/// The history of a gate: its flag, and how often a job was run, a firing
/// was dropped and the slot was released.
pub struct GateHistory {
    pub running: bool,
    pub runs: nat,
    pub skips: nat,
    pub releases: nat,
}

/// The history of a gate to which nothing has happened yet.
pub open spec fn fresh_history() -> GateHistory {
    GateHistory { running: false, runs: 0, skips: 0, releases: 0 }
}

/// The history after `event`: a firing claims the free slot and runs the
/// job, or is dropped while a run is in progress; the end of the run in
/// progress releases the slot. There is no run to end while the slot is
/// free.
pub open spec fn history_after(history: GateHistory, event: GateEvent) -> GateHistory {
    match event {
        GateEvent::Trigger => match firing_for(history.running) {
            Firing::Skip => GateHistory { skips: history.skips + 1, ..history },
            Firing::Run => GateHistory { running: true, runs: history.runs + 1, ..history },
        },
        GateEvent::Completion => if history.running {
            GateHistory { running: false, releases: history.releases + 1, ..history }
        } else {
            history
        },
    }
}

/// The history after `events` in turn.
pub open spec fn history_of(events: Seq<GateEvent>) -> GateHistory
    decreases events.len(),
{
    if events.len() == 0 {
        fresh_history()
    } else {
        history_after(history_of(events.drop_last()), events.last())
    }
}

/// The number of firings among `events`.
pub open spec fn triggers_in(events: Seq<GateEvent>) -> nat
    decreases events.len(),
{
    if events.len() == 0 {
        0
    } else {
        triggers_in(events.drop_last()) + (if events.last() is Trigger {
            1nat
        } else {
            0nat
        })
    }
}

/// Single flight. Whatever the firings and however long the runs, at most
/// one run is in progress at any instant: the jobs run are the runs ended
/// and, while the flag is set, one more. The slot was released once for
/// each run that ended, and every firing either ran the job or was dropped.
pub proof fn lemma_single_flight(events: Seq<GateEvent>)
    ensures
        ({
            let history = history_of(events);
            &&& history.runs == history.releases + (if history.running {
                1nat
            } else {
                0nat
            })
            &&& history.runs + history.skips == triggers_in(events)
        }),
    decreases events.len(),
{
    if events.len() > 0 {
        lemma_single_flight(events.drop_last());
    }
}

/// A firing while a run is in progress is dropped: the job is not run for
/// it, then or later, and the run in progress goes on.
pub proof fn lemma_overlapping_trigger_is_dropped(events: Seq<GateEvent>)
    requires
        history_of(events).running,
    ensures
        ({
            let before = history_of(events);
            let after = history_of(events.push(GateEvent::Trigger));
            &&& after.runs == before.runs
            &&& after.skips == before.skips + 1
            &&& after.running
            &&& after.releases == before.releases
        }),
{
    let longer = events.push(GateEvent::Trigger);
    assert(longer.drop_last() == events);
    assert(longer.last() is Trigger);
}

} // verus!
