//! The phases of the query service's polling loop. The loop itself, which
//! talks to the chain and sleeps, runs outside the library and follows
//! these transitions.
use vstd::prelude::*;

verus! {

/// Where the polling loop stands.
#[derive(Clone, Copy, Debug, PartialEq, Eq, Structural)]
pub enum PollPhase {
    Idle,
    Polling,
    Processing,
    BackingOff,
}

/// What just happened to the loop.
#[derive(Clone, Copy, Debug, PartialEq, Eq, Structural)]
pub enum PollSignal {
    /// The loop's timer fired.
    Tick,
    /// Querying the chain failed.
    QueryFailed,
    /// The chain answered, with or without events.
    EventsReceived,
    /// The answer was folded into the state.
    Processed,
    /// The back-off delay is over.
    DelayElapsed,
}

/// The phase that `signal` leads to from `phase`, if it may happen there.
pub open spec fn poll_transition(phase: PollPhase, signal: PollSignal) -> Option<PollPhase> {
    match (phase, signal) {
        (PollPhase::Idle, PollSignal::Tick) => Some(PollPhase::Polling),
        (PollPhase::Polling, PollSignal::QueryFailed) => Some(PollPhase::BackingOff),
        (PollPhase::Polling, PollSignal::EventsReceived) => Some(PollPhase::Processing),
        (PollPhase::Processing, PollSignal::Processed) => Some(PollPhase::Idle),
        (PollPhase::BackingOff, PollSignal::DelayElapsed) => Some(PollPhase::Polling),
        _ => None,
    }
}

impl PollPhase {
    /// The next phase; `None` for a signal that cannot happen in this phase.
    pub fn next(self, signal: PollSignal) -> (r: Option<PollPhase>)
        ensures
            r == poll_transition(self, signal),
    {
        match (self, signal) {
            (PollPhase::Idle, PollSignal::Tick) => Some(PollPhase::Polling),
            (PollPhase::Polling, PollSignal::QueryFailed) => Some(PollPhase::BackingOff),
            (PollPhase::Polling, PollSignal::EventsReceived) => Some(PollPhase::Processing),
            (PollPhase::Processing, PollSignal::Processed) => Some(PollPhase::Idle),
            (PollPhase::BackingOff, PollSignal::DelayElapsed) => Some(PollPhase::Polling),
            _ => None,
        }
    }
}

} // verus!
