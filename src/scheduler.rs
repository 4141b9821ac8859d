use vstd::prelude::*;

verus! {

/// Where the collection loop stands: waiting for a tick, or running one cycle.
#[derive(PartialEq, Eq, Structural, Clone, Copy, Debug)]
pub enum CollectorState {
    Idle,
    Collecting,
}

/// What the loop hands back to the state machine.
#[derive(PartialEq, Eq, Structural, Clone, Copy, Debug)]
pub enum CollectorEvent {
    Tick,
    CycleSucceeded,
    CycleFailed,
}

/// What the loop is to do next.
#[derive(PartialEq, Eq, Structural, Clone, Copy, Debug)]
pub enum CollectorAction {
    /// Fetch the inventory and the snapshot, and aggregate them.
    StartCycle,
    /// Emit the cycle's report.
    EmitReport,
    /// Log the cycle's failure; the next tick is the retry.
    LogFailure,
    /// Nothing: a tick while a cycle runs, or a result with no cycle running.
    Wait,
}

pub open spec fn step(state: CollectorState, event: CollectorEvent) -> (CollectorState, CollectorAction) {
    match (state, event) {
        (CollectorState::Idle, CollectorEvent::Tick) => (CollectorState::Collecting, CollectorAction::StartCycle),
        (CollectorState::Collecting, CollectorEvent::CycleSucceeded) => (CollectorState::Idle, CollectorAction::EmitReport),
        (CollectorState::Collecting, CollectorEvent::CycleFailed) => (CollectorState::Idle, CollectorAction::LogFailure),
        _ => (state, CollectorAction::Wait),
    }
}

/// The next state and action of the collection loop.
pub fn next_step(state: CollectorState, event: CollectorEvent) -> (r: (CollectorState, CollectorAction))
    ensures
        r == step(state, event),
{
    match (state, event) {
        (CollectorState::Idle, CollectorEvent::Tick) => (CollectorState::Collecting, CollectorAction::StartCycle),
        (CollectorState::Collecting, CollectorEvent::CycleSucceeded) => (CollectorState::Idle, CollectorAction::EmitReport),
        (CollectorState::Collecting, CollectorEvent::CycleFailed) => (CollectorState::Idle, CollectorAction::LogFailure),
        _ => (state, CollectorAction::Wait),
    }
}

/// The state after a run of events from `state`.
pub open spec fn run(state: CollectorState, events: Seq<CollectorEvent>) -> CollectorState
    decreases events.len(),
{
    if events.len() == 0 {
        state
    } else {
        step(run(state, events.drop_last()), events.last()).0
    }
}

/// At most one cycle is in flight: a cycle starts only from `Idle`, and whatever the
/// events, no cycle starts until the running one has ended.
pub proof fn lemma_one_cycle_in_flight(events: Seq<CollectorEvent>, e: CollectorEvent)
    ensures
        step(run(CollectorState::Idle, events), e).1 == CollectorAction::StartCycle ==> run(
            CollectorState::Idle,
            events,
        ) == CollectorState::Idle,
        step(run(CollectorState::Idle, events), e).1 == CollectorAction::StartCycle ==> step(
            run(CollectorState::Idle, events),
            e,
        ).0 == CollectorState::Collecting,
        run(CollectorState::Idle, events) == CollectorState::Collecting ==> step(
            CollectorState::Collecting,
            e,
        ).1 != CollectorAction::StartCycle,
{
}

/// Whatever the outcome of a running cycle, the loop returns to waiting.
pub proof fn lemma_cycle_end_returns_to_idle(e: CollectorEvent)
    requires
        e != CollectorEvent::Tick,
    ensures
        step(CollectorState::Collecting, e).0 == CollectorState::Idle,
{
}

} // verus!
