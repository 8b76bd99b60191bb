//! The way of a bundle: built, simulated, sent, resolved.
//!
//! The caller talks to the relay; the functions here say what to do next. A
//! bundle is sent only after a simulation in which no transaction failed.

use vstd::prelude::*;

verus! {

/// What the relay's simulation says of one transaction of a bundle.
#[derive(Debug)]
pub struct TxSimulation {
    pub error: Option<String>,
    pub revert: Option<String>,
}

/// Whether the simulation of a transaction failed: it reports an error or a
/// revert.
pub open spec fn leg_failed(leg: TxSimulation) -> bool {
    leg.error is Some || leg.revert is Some
}

/// What a simulation says of a bundle as a whole.
#[derive(Clone, Copy, Debug, PartialEq, Eq, Structural)]
pub enum SimulationVerdict {
    /// No transaction failed.
    Clean,
    /// The transaction at `leg` is the first that failed, with an error.
    Error { leg: usize },
    /// The transaction at `leg` is the first that failed, with a revert.
    Revert { leg: usize },
}

/// Where a bundle stands.
#[derive(Clone, Copy, Debug, PartialEq, Eq, Structural)]
pub enum BundleState {
    Built,
    Simulated { pass: bool },
    Sent,
    Resolved { included: bool },
}

/// What happened to a bundle.
#[derive(Clone, Copy, Debug, PartialEq, Eq, Structural)]
pub enum BundleEvent {
    /// The relay simulated the bundle.
    Simulated { verdict: SimulationVerdict },
    /// The relay took the bundle.
    Submitted,
    /// The relay says whether the bundle made it into its block.
    Resolution { included: bool },
    /// A call to the relay failed.
    RelayFailed,
}

/// What to do with a bundle next.
#[derive(Clone, Copy, Debug, PartialEq, Eq, Structural)]
pub enum BundleAction {
    /// Submit the bundle to the relay.
    Send,
    /// Wait for the relay to resolve the bundle.
    AwaitResolution,
    /// The bundle is in its block: nothing is left to do.
    Finish,
    /// Leave this bundle and try again at the next block, with fresh reserves.
    RetryNextBlock,
    /// Drop the bundle as a whole.
    Discard,
    /// The event does not concern the bundle where it stands.
    Ignore,
}

/// Whether a bundle can still move on from a state.
pub open spec fn is_open(state: BundleState) -> bool {
    state is Built || state == (BundleState::Simulated { pass: true }) || state is Sent
}

/// The state that follows an event, and what to do then.
pub open spec fn step_spec(state: BundleState, event: BundleEvent) -> (BundleState, BundleAction) {
    match (state, event) {
        (BundleState::Built, BundleEvent::Simulated { verdict: SimulationVerdict::Clean }) => (
            BundleState::Simulated { pass: true },
            BundleAction::Send,
        ),
        (BundleState::Built, BundleEvent::Simulated { verdict }) => (
            BundleState::Simulated { pass: false },
            BundleAction::Discard,
        ),
        (BundleState::Simulated { pass: true }, BundleEvent::Submitted) => (
            BundleState::Sent,
            BundleAction::AwaitResolution,
        ),
        (BundleState::Sent, BundleEvent::Resolution { included: true }) => (
            BundleState::Resolved { included: true },
            BundleAction::Finish,
        ),
        (BundleState::Sent, BundleEvent::Resolution { included: false }) => (
            BundleState::Resolved { included: false },
            BundleAction::RetryNextBlock,
        ),
        (_, BundleEvent::RelayFailed) => if is_open(state) {
            (state, BundleAction::RetryNextBlock)
        } else {
            (state, BundleAction::Ignore)
        },
        _ => (state, BundleAction::Ignore),
    }
}

/// The state of a bundle after a run of events, from the day it was built.
pub open spec fn state_after(events: Seq<BundleEvent>) -> BundleState
    decreases events.len(),
{
    if events.len() == 0 {
        BundleState::Built
    } else {
        step_spec(state_after(events.drop_last()), events.last()).0
    }
}

/// Reads the verdict off the results of a simulation: the first transaction
/// that reports an error or a revert decides, the error before the revert.
pub fn judge_simulation(results: &Vec<TxSimulation>) -> (r: SimulationVerdict)
    ensures
        match r {
            SimulationVerdict::Clean => forall|i: int| 0 <= i < results.len() ==> !leg_failed(#[trigger] results[i]),
            SimulationVerdict::Error { leg } => {
                &&& leg < results.len()
                &&& results[leg as int].error is Some
                &&& forall|i: int| 0 <= i < leg ==> !leg_failed(#[trigger] results[i])
            },
            SimulationVerdict::Revert { leg } => {
                &&& leg < results.len()
                &&& results[leg as int].error is None
                &&& results[leg as int].revert is Some
                &&& forall|i: int| 0 <= i < leg ==> !leg_failed(#[trigger] results[i])
            },
        },
{
    let mut i: usize = 0;
    while i < results.len()
        invariant
            i <= results.len(),
            forall|j: int| 0 <= j < i ==> !leg_failed(#[trigger] results[j]),
        decreases results.len() - i,
    {
        if results[i].error.is_some() {
            return SimulationVerdict::Error { leg: i };
        }
        if results[i].revert.is_some() {
            return SimulationVerdict::Revert { leg: i };
        }
        i += 1;
    }
    SimulationVerdict::Clean
}

/// Takes a bundle from one state to the next on an event, and says what to
/// do then.
pub fn bundle_step(state: BundleState, event: BundleEvent) -> (r: (BundleState, BundleAction))
    ensures
        r == step_spec(state, event),
{
    match event {
        BundleEvent::Simulated { verdict } => match state {
            BundleState::Built => match verdict {
                SimulationVerdict::Clean => (BundleState::Simulated { pass: true }, BundleAction::Send),
                _ => (BundleState::Simulated { pass: false }, BundleAction::Discard),
            },
            _ => (state, BundleAction::Ignore),
        },
        BundleEvent::Submitted => match state {
            BundleState::Simulated { pass: true } => (BundleState::Sent, BundleAction::AwaitResolution),
            _ => (state, BundleAction::Ignore),
        },
        BundleEvent::Resolution { included } => match state {
            BundleState::Sent => if included {
                (BundleState::Resolved { included: true }, BundleAction::Finish)
            } else {
                (BundleState::Resolved { included: false }, BundleAction::RetryNextBlock)
            },
            _ => (state, BundleAction::Ignore),
        },
        BundleEvent::RelayFailed => match state {
            BundleState::Built => (state, BundleAction::RetryNextBlock),
            BundleState::Simulated { pass: true } => (state, BundleAction::RetryNextBlock),
            BundleState::Sent => (state, BundleAction::RetryNextBlock),
            _ => (state, BundleAction::Ignore),
        },
    }
}

/// What to do with a freshly built bundle once its simulation is in: send it
/// where no transaction failed, and drop it as a whole where one did.
pub fn after_simulation(results: &Vec<TxSimulation>) -> (r: (BundleState, BundleAction))
    ensures
        (forall|i: int| 0 <= i < results.len() ==> !leg_failed(#[trigger] results[i])) ==> r == (
            BundleState::Simulated { pass: true },
            BundleAction::Send,
        ),
        (exists|i: int| 0 <= i < results.len() && leg_failed(#[trigger] results[i])) ==> r == (
            BundleState::Simulated { pass: false },
            BundleAction::Discard,
        ),
{
    let verdict = judge_simulation(results);
    bundle_step(BundleState::Built, BundleEvent::Simulated { verdict })
}

/// A bundle is handed to the relay for one reason only: it was just built and
/// its simulation came back clean.
pub proof fn lemma_send_needs_clean_simulation(state: BundleState, event: BundleEvent)
    ensures
        step_spec(state, event).1 == BundleAction::Send <==> (state is Built && event == (
            BundleEvent::Simulated { verdict: SimulationVerdict::Clean }
        )),
        step_spec(state, event).0 is Sent ==> (state is Sent || state == (BundleState::Simulated { pass: true })),
{
}

/// A bundle whose simulation failed stays where it is, whatever happens
/// after: it is never sent.
pub proof fn lemma_failed_simulation_is_final(event: BundleEvent)
    ensures
        step_spec(BundleState::Simulated { pass: false }, event) == (
            BundleState::Simulated { pass: false },
            BundleAction::Ignore,
        ),
{
}

/// After a failed simulation no run of events brings the bundle to the relay:
/// the state after a failed simulation and any events is that of the failed
/// simulation.
pub proof fn lemma_never_sent_after_failure(verdict: SimulationVerdict, later: Seq<BundleEvent>)
    requires
        verdict != SimulationVerdict::Clean,
    ensures
        state_after(seq![BundleEvent::Simulated { verdict }] + later) == (BundleState::Simulated { pass: false }),
    decreases later.len(),
{
    let first = seq![BundleEvent::Simulated { verdict }];
    let events = first + later;
    if later.len() == 0 {
        assert(events =~= first);
        assert(first.drop_last() =~= Seq::<BundleEvent>::empty());
        assert(state_after(first.drop_last()) == BundleState::Built);
    } else {
        lemma_never_sent_after_failure(verdict, later.drop_last());
        assert(events.drop_last() =~= first + later.drop_last());
        lemma_failed_simulation_is_final(events.last());
    }
}

/// A bundle that was sent or resolved has a clean simulation behind it: among
/// the events that led there is a simulation in which no transaction failed.
pub proof fn lemma_sent_has_clean_simulation(events: Seq<BundleEvent>)
    requires
        state_after(events) is Sent || state_after(events) is Resolved || state_after(events) == (
            BundleState::Simulated { pass: true }
        ),
    ensures
        exists|i: int|
            0 <= i < events.len() && #[trigger] events[i] == (
                BundleEvent::Simulated { verdict: SimulationVerdict::Clean }
            ),
    decreases events.len(),
{
    if events.len() > 0 {
        let before = events.drop_last();
        let last = events.last();
        if last == (BundleEvent::Simulated { verdict: SimulationVerdict::Clean }) {
            assert(events[events.len() - 1] == last);
        } else {
            lemma_sent_has_clean_simulation(before);
            let i = choose|i: int|
                0 <= i < before.len() && #[trigger] before[i] == (
                    BundleEvent::Simulated { verdict: SimulationVerdict::Clean }
                );
            assert(events[i] == before[i]);
        }
    }
}

} // verus!
