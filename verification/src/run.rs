//! One run over a batch: which item may start while at most a fixed number
//! are under way, and the count of each outcome.

use vstd::prelude::*;
use crate::pipeline::{outcome_view, ItemError, ItemErrorView, ProcessAction};

verus! {

/// The number of items that are under way at the same time.
pub const CONCURRENCY: usize = 5;

/// How many items ended in each way.
#[derive(Clone, Copy, Debug, PartialEq, Eq, Structural)]
pub struct ActionCounts {
    pub skipped_exists: u64,
    pub kept: u64,
    pub marked_read: u64,
    pub labeled: u64,
    pub deleted: u64,
    pub would_act: u64,
}

/// How one item ended, as a mathematical value.
pub type OutcomeView = Result<ProcessAction, ItemErrorView>;

/// The outcomes of a batch as mathematical values.
pub open spec fn outcome_views(results: Seq<Result<ProcessAction, ItemError>>) -> Seq<OutcomeView> {
    results.map_values(|r: Result<ProcessAction, ItemError>| outcome_view(r))
}

/// How many of `outcomes` are `action`.
pub open spec fn count_of(outcomes: Seq<OutcomeView>, action: ProcessAction) -> nat
    decreases outcomes.len(),
{
    if outcomes.len() == 0 {
        0
    } else {
        count_of(outcomes.drop_last(), action) + (if outcomes.last() == Ok::<
            ProcessAction,
            ItemErrorView,
        >(action) {
            1nat
        } else {
            0nat
        })
    }
}

/// How many of `outcomes` are failures.
pub open spec fn failures_in(outcomes: Seq<OutcomeView>) -> nat
    decreases outcomes.len(),
{
    if outcomes.len() == 0 {
        0
    } else {
        failures_in(outcomes.drop_last()) + (if outcomes.last() is Err {
            1nat
        } else {
            0nat
        })
    }
}

impl Default for ActionCounts {
    /// No item yet.
    fn default() -> (counts: ActionCounts)
        ensures
            counts.total() == 0,
    {
        ActionCounts {
            skipped_exists: 0,
            kept: 0,
            marked_read: 0,
            labeled: 0,
            deleted: 0,
            would_act: 0,
        }
    }
}

impl ActionCounts {
    /// The count of `action`.
    pub open spec fn of(self, action: ProcessAction) -> int {
        match action {
            ProcessAction::SkippedExists => self.skipped_exists as int,
            ProcessAction::Kept => self.kept as int,
            ProcessAction::MarkedRead => self.marked_read as int,
            ProcessAction::Labeled => self.labeled as int,
            ProcessAction::Deleted => self.deleted as int,
            ProcessAction::WouldAct => self.would_act as int,
        }
    }

    /// The sum of the six counts.
    pub open spec fn total(self) -> int {
        self.skipped_exists + self.kept + self.marked_read + self.labeled + self.deleted
            + self.would_act
    }

    /// The sum of the six counts, or the largest 64-bit number where the sum
    /// is above it.
    pub open spec fn capped_total(self) -> nat {
        if self.total() <= u64::MAX {
            self.total() as nat
        } else {
            u64::MAX as nat
        }
    }

    /// Whether the counts are those of `outcomes`.
    pub open spec fn counts(self, outcomes: Seq<OutcomeView>) -> bool {
        forall|action: ProcessAction| self.of(action) == #[trigger] count_of(outcomes, action)
    }

    /// No item yet.
    pub fn new() -> (counts: ActionCounts)
        ensures
            counts.total() == 0,
            forall|action: ProcessAction| #[trigger] counts.of(action) == 0,
    {
        ActionCounts {
            skipped_exists: 0,
            kept: 0,
            marked_read: 0,
            labeled: 0,
            deleted: 0,
            would_act: 0,
        }
    }

    /// The count of `action`.
    pub fn get(&self, action: ProcessAction) -> (n: u64)
        ensures
            n == self.of(action),
    {
        match action {
            ProcessAction::SkippedExists => self.skipped_exists,
            ProcessAction::Kept => self.kept,
            ProcessAction::MarkedRead => self.marked_read,
            ProcessAction::Labeled => self.labeled,
            ProcessAction::Deleted => self.deleted,
            ProcessAction::WouldAct => self.would_act,
        }
    }

    /// Counts one more `action`.
    pub fn record(&mut self, action: ProcessAction)
        requires
            old(self).of(action) < u64::MAX,
        ensures
            final(self).of(action) == old(self).of(action) + 1,
            forall|other: ProcessAction|
                other != action ==> #[trigger] final(self).of(other) == old(self).of(other),
            final(self).total() == old(self).total() + 1,
    {
        match action {
            ProcessAction::SkippedExists => {
                self.skipped_exists = self.skipped_exists + 1;
            },
            ProcessAction::Kept => {
                self.kept = self.kept + 1;
            },
            ProcessAction::MarkedRead => {
                self.marked_read = self.marked_read + 1;
            },
            ProcessAction::Labeled => {
                self.labeled = self.labeled + 1;
            },
            ProcessAction::Deleted => {
                self.deleted = self.deleted + 1;
            },
            ProcessAction::WouldAct => {
                self.would_act = self.would_act + 1;
            },
        }
    }

    /// The number of items that ended without a failure: the sum of the six
    /// counts, or the largest number where the sum is above it.
    pub fn reviewed(&self) -> (n: u64)
        ensures
            n == self.capped_total(),
    {
        let sum: u128 = self.skipped_exists as u128 + self.kept as u128 + self.marked_read as u128
            + self.labeled as u128 + self.deleted as u128 + self.would_act as u128;
        if sum > u64::MAX as u128 {
            u64::MAX
        } else {
            sum as u64
        }
    }
}

/// The counts of a concatenation are the sums of the counts: no outcome
/// changes how another one is counted, and the order of arrival does not
/// matter.
pub proof fn lemma_count_additive(a: Seq<OutcomeView>, b: Seq<OutcomeView>, action: ProcessAction)
    ensures
        count_of(a + b, action) == count_of(a, action) + count_of(b, action),
        count_of(a + b, action) == count_of(b + a, action),
        failures_in(a + b) == failures_in(a) + failures_in(b),
{
    lemma_count_additive_one_way(a, b, action);
    lemma_count_additive_one_way(b, a, action);
}

/// The counts of `a` followed by `b` are the sums of their counts.
proof fn lemma_count_additive_one_way(
    a: Seq<OutcomeView>,
    b: Seq<OutcomeView>,
    action: ProcessAction,
)
    ensures
        count_of(a + b, action) == count_of(a, action) + count_of(b, action),
        failures_in(a + b) == failures_in(a) + failures_in(b),
    decreases b.len(),
{
    if b.len() == 0 {
        assert(a + b == a);
    } else {
        assert((a + b).drop_last() == a + b.drop_last());
        assert((a + b).last() == b.last());
        lemma_count_additive_one_way(a, b.drop_last(), action);
    }
}

/// A failed item is counted as a failure and in no other way: with it among
/// the outcomes, at any place, every count is what it is without it.
pub proof fn lemma_failure_is_isolated(
    outcomes: Seq<OutcomeView>,
    at: int,
    error: ItemErrorView,
    action: ProcessAction,
)
    requires
        0 <= at <= outcomes.len(),
    ensures
        count_of(outcomes.insert(at, Err(error)), action) == count_of(outcomes, action),
        failures_in(outcomes.insert(at, Err(error))) == failures_in(outcomes) + 1,
{
    let head = outcomes.subrange(0, at);
    let tail = outcomes.subrange(at, outcomes.len() as int);
    let one = seq![Err::<ProcessAction, ItemErrorView>(error)];
    assert(outcomes == head + tail);
    assert(outcomes.insert(at, Err(error)) == (head + one) + tail);
    assert(one.drop_last() == Seq::<OutcomeView>::empty());
    assert(one.last() == Err::<ProcessAction, ItemErrorView>(error));
    assert(count_of(one.drop_last(), action) == 0);
    assert(failures_in(one.drop_last()) == 0);
    assert(count_of(one, action) == 0);
    assert(failures_in(one) == 1);
    lemma_count_additive_one_way(head, one, action);
    lemma_count_additive_one_way(head + one, tail, action);
    lemma_count_additive_one_way(head, tail, action);
}

/// No count is above the number of outcomes.
pub proof fn lemma_count_bounded(outcomes: Seq<OutcomeView>, action: ProcessAction)
    ensures
        count_of(outcomes, action) + failures_in(outcomes) <= outcomes.len(),
    decreases outcomes.len(),
{
    if outcomes.len() > 0 {
        lemma_count_bounded(outcomes.drop_last(), action);
    }
}

/// Counts the outcomes of a batch. Failures are in no count.
pub fn tally(results: &Vec<Result<ProcessAction, ItemError>>) -> (counts: ActionCounts)
    ensures
        counts.counts(outcome_views(results@)),
        counts.total() + failures_in(outcome_views(results@)) == results@.len(),
{
    let ghost all = outcome_views(results@);
    let mut counts = ActionCounts::new();
    let mut i: usize = 0;
    proof {
        assert(all.subrange(0, 0) == Seq::<OutcomeView>::empty());
    }
    while i < results.len()
        invariant
            i <= results@.len(),
            all == outcome_views(results@),
            counts.counts(all.subrange(0, i as int)),
            counts.total() + failures_in(all.subrange(0, i as int)) == i,
        decreases results@.len() - i,
    {
        let ghost before = all.subrange(0, i as int);
        let ghost after = all.subrange(0, i + 1);
        proof {
            assert(after.drop_last() == before);
            assert(after.last() == outcome_view(results@[i as int]));
        }
        match &results[i] {
            Ok(action) => {
                let ghost old_counts = counts;
                counts.record(*action);
                proof {
                    assert forall|other: ProcessAction|
                        counts.of(other) == #[trigger] count_of(after, other) by {
                        assert(old_counts.of(other) == count_of(before, other));
                        if other != *action {
                            assert(counts.of(other) == old_counts.of(other));
                        }
                    }
                }
            },
            Err(_) => {
                proof {
                    assert forall|other: ProcessAction|
                        counts.of(other) == #[trigger] count_of(after, other) by {
                        assert(counts.of(other) == count_of(before, other));
                    }
                }
            },
        }
        i = i + 1;
    }
    proof {
        assert(all.subrange(0, results@.len() as int) == all);
    }
    counts
}

/// The progress of one run over a batch of `total` items, of which at most
/// `limit` are under way at the same time. Items start in the order of the
/// batch and end in any order.
#[derive(Clone, Copy, Debug, PartialEq, Eq, Structural)]
pub struct RunState {
    /// The size of the batch.
    pub total: usize,
    /// The most items under way at the same time.
    pub limit: usize,
    /// How many items have started: the next to start is item `started`.
    pub started: usize,
    /// How many items have ended.
    pub finished: usize,
}

/// What happens during a run, as far as the number of items under way goes.
pub enum RunEvent {
    /// The run is asked for the next item to start.
    Offer,
    /// An item under way ends.
    End,
}

impl RunState {
    /// The number of items under way.
    pub open spec fn in_flight(self) -> int {
        self.started - self.finished
    }

    /// What holds of every state of a run: no item ends before it starts or
    /// starts twice, and no more than `limit` items are under way.
    pub open spec fn wf(self) -> bool {
        &&& self.finished <= self.started <= self.total
        &&& self.in_flight() <= self.limit
    }

    /// Whether another item may start: one is left and a place is free.
    pub open spec fn may_start(self) -> bool {
        self.started < self.total && self.in_flight() < self.limit
    }

    /// The state after `event`: an offer starts the next item where one may
    /// start, the end of an item frees its place. An end with no item under
    /// way cannot come from the run and changes nothing.
    pub open spec fn after(self, event: RunEvent) -> RunState {
        match event {
            RunEvent::Offer => if self.may_start() {
                RunState { started: (self.started + 1) as usize, ..self }
            } else {
                self
            },
            RunEvent::End => if self.in_flight() > 0 {
                RunState { finished: (self.finished + 1) as usize, ..self }
            } else {
                self
            },
        }
    }

    /// The run before any item has started.
    pub fn new(total: usize, limit: usize) -> (state: RunState)
        ensures
            state == (RunState { total, limit, started: 0, finished: 0 }),
            state.wf(),
    {
        RunState { total, limit, started: 0, finished: 0 }
    }

    /// The number of items under way.
    pub fn under_way(&self) -> (n: usize)
        requires
            self.wf(),
        ensures
            n == self.in_flight(),
            n <= self.limit,
    {
        self.started - self.finished
    }

    /// Starts the next item of the batch if one is left and fewer than
    /// `limit` are under way: its index, or `None` with nothing changed.
    pub fn next_start(&mut self) -> (index: Option<usize>)
        requires
            old(self).wf(),
        ensures
            final(self).wf(),
            *final(self) == old(self).after(RunEvent::Offer),
            index == (if old(self).may_start() {
                Some(old(self).started)
            } else {
                None
            }),
    {
        if self.started < self.total && self.started - self.finished < self.limit {
            let index = self.started;
            self.started = self.started + 1;
            Some(index)
        } else {
            None
        }
    }

    /// Takes note that an item under way has ended, and returns how many
    /// items of the batch have not ended yet.
    pub fn complete(&mut self) -> (left: usize)
        requires
            old(self).wf(),
            old(self).in_flight() > 0,
        ensures
            final(self).wf(),
            *final(self) == old(self).after(RunEvent::End),
            left == final(self).total - final(self).finished,
    {
        self.finished = self.finished + 1;
        self.total - self.finished
    }

    /// Whether every item of the batch has ended.
    pub fn is_done(&self) -> (done: bool)
        ensures
            done == (self.finished == self.total),
    {
        self.finished == self.total
    }
}

/// The state after `events` in turn.
pub open spec fn after_events(state: RunState, events: Seq<RunEvent>) -> RunState
    decreases events.len(),
{
    if events.len() == 0 {
        state
    } else {
        after_events(state, events.drop_last()).after(events.last())
    }
}

/// Bounded concurrency. Whatever the order in which items are offered and
/// end, no more than `limit` of them are ever under way, and none starts
/// twice or ends before it starts.
pub proof fn lemma_bounded_concurrency(total: usize, limit: usize, events: Seq<RunEvent>)
    ensures
        ({
            let state = after_events(
                RunState { total, limit, started: 0, finished: 0 },
                events,
            );
            &&& state.wf()
            &&& 0 <= state.in_flight() <= limit
            &&& state.total == total
            &&& state.limit == limit
        }),
    decreases events.len(),
{
    if events.len() > 0 {
        lemma_bounded_concurrency(total, limit, events.drop_last());
    }
}

/// Every item gets its turn: while items are left and none is under way, an
/// offer starts one, so a run with a place for at least one item never
/// comes to a halt before the batch is done.
pub proof fn lemma_run_goes_on(state: RunState)
    requires
        state.wf(),
        state.limit >= 1,
        state.finished < state.total,
        state.in_flight() == 0,
    ensures
        state.may_start(),
        state.after(RunEvent::Offer).in_flight() == 1,
{
}

} // verus!
