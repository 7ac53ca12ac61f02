use vstd::prelude::*;
use crate::arb::{ArbError, ArbParams, ArbResult};
use crate::units::{decimal_ge, same_value, value_le};

verus! {

/// What one direction of a tick comes to.
#[derive(Clone, Copy, Debug, PartialEq, Eq, Structural)]
pub enum Verdict {
    /// Net profit reached the threshold: report it and store it.
    Opportunity,
    /// Net profit stayed below the threshold: report it only.
    NoOp,
    /// The simulation failed: report the cause.
    Failed(ArbError),
}

/// The verdict on a direction's outcome: an opportunity exactly when the
/// simulation succeeded with a net profit of at least the threshold.
pub open spec fn verdict_of(outcome: Result<ArbResult, ArbError>, params: ArbParams) -> Verdict {
    match outcome {
        Ok(res) => if value_le(params.min_profit_usdc, res.net_profit) {
            Verdict::Opportunity
        } else {
            Verdict::NoOp
        },
        Err(e) => Verdict::Failed(e),
    }
}

/// The outcome carries figures of representable scale.
pub open spec fn outcome_wf(outcome: Result<ArbResult, ArbError>) -> bool {
    outcome matches Ok(res) ==> res.wf()
}

/// Classifies the outcome of one direction against the profit threshold
/// (inclusive).
pub fn classify(outcome: &Result<ArbResult, ArbError>, params: &ArbParams) -> (r: Verdict)
    requires
        params.wf(),
        outcome_wf(*outcome),
    ensures
        r == verdict_of(*outcome, *params),
{
    match outcome {
        Ok(res) => {
            if decimal_ge(res.net_profit, params.min_profit_usdc) {
                Verdict::Opportunity
            } else {
                Verdict::NoOp
            }
        },
        Err(e) => Verdict::Failed(*e),
    }
}

/// The verdicts of a tick, one per direction, each from its own outcome.
pub open spec fn tick_verdicts(
    forward: Result<ArbResult, ArbError>,
    backward: Result<ArbResult, ArbError>,
    params: ArbParams,
) -> (Verdict, Verdict) {
    (verdict_of(forward, params), verdict_of(backward, params))
}

/// Classifies both directions of a tick.
pub fn evaluate_tick(
    forward: &Result<ArbResult, ArbError>,
    backward: &Result<ArbResult, ArbError>,
    params: &ArbParams,
) -> (r: (Verdict, Verdict))
    requires
        params.wf(),
        outcome_wf(*forward),
        outcome_wf(*backward),
    ensures
        r == tick_verdicts(*forward, *backward, *params),
{
    let f = classify(forward, params);
    let b = classify(backward, params);
    (f, b)
}

/// A net profit exactly equal to the threshold is an opportunity.
pub proof fn lemma_threshold_inclusive(res: ArbResult, params: ArbParams)
    requires
        same_value(res.net_profit, params.min_profit_usdc),
    ensures
        verdict_of(Ok(res), params) == Verdict::Opportunity,
{
}

/// The two directions of a tick are independent: whatever the first comes
/// to (a venue that cannot be reached among others), the second gets the
/// verdict of its own outcome; and the order in which they are evaluated
/// does not change either verdict.
pub proof fn lemma_directions_independent(
    forward1: Result<ArbResult, ArbError>,
    forward2: Result<ArbResult, ArbError>,
    backward: Result<ArbResult, ArbError>,
    params: ArbParams,
)
    ensures
        tick_verdicts(forward1, backward, params).1 == tick_verdicts(
            forward2,
            backward,
            params,
        ).1,
        tick_verdicts(Err(ArbError::SourceUnreachable), backward, params) == (
            Verdict::Failed(ArbError::SourceUnreachable),
            verdict_of(backward, params),
        ),
        tick_verdicts(backward, forward1, params).0 == tick_verdicts(forward1, backward, params).1,
        tick_verdicts(backward, forward1, params).1 == tick_verdicts(forward1, backward, params).0,
{
}

/// The poller: waiting for the next tick, or evaluating both directions.
#[derive(Clone, Copy, Debug, PartialEq, Eq, Structural)]
pub enum PollState {
    Idle,
    Evaluating,
}

/// What happens to the poller.
#[derive(Clone, Copy, Debug, PartialEq, Eq, Structural)]
pub enum PollEvent {
    /// The timer fired.
    TimerFired,
    /// Both directions of the tick under way have finished, whatever their
    /// outcomes.
    EvaluationDone,
}

/// What the poller asks of its driver.
#[derive(Clone, Copy, Debug, PartialEq, Eq, Structural)]
pub enum PollAction {
    /// Start both directions of a tick.
    EvaluateBoth,
    /// Drop this tick: the previous one has not finished.
    SkipTick,
    /// Wait for the next event.
    Wait,
}

/// The poller's transitions: a tick starts an evaluation only from `Idle`,
/// never overlapping one under way, and the end of an evaluation returns to
/// `Idle`.
pub open spec fn poll_step(state: PollState, event: PollEvent) -> (PollState, PollAction) {
    match event {
        PollEvent::TimerFired => match state {
            PollState::Idle => (PollState::Evaluating, PollAction::EvaluateBoth),
            PollState::Evaluating => (PollState::Evaluating, PollAction::SkipTick),
        },
        PollEvent::EvaluationDone => (PollState::Idle, PollAction::Wait),
    }
}

/// The initial state: idle, waiting for the first tick.
pub fn initial_poll_state() -> (r: PollState)
    ensures
        r == PollState::Idle,
{
    PollState::Idle
}

/// Advances the poller by one event.
pub fn next_poll(state: PollState, event: PollEvent) -> (r: (PollState, PollAction))
    ensures
        r == poll_step(state, event),
{
    match event {
        PollEvent::TimerFired => match state {
            PollState::Idle => (PollState::Evaluating, PollAction::EvaluateBoth),
            PollState::Evaluating => (PollState::Evaluating, PollAction::SkipTick),
        },
        PollEvent::EvaluationDone => (PollState::Idle, PollAction::Wait),
    }
}

/// No evaluation starts while one is under way.
pub proof fn lemma_no_overlapping_ticks(event: PollEvent)
    ensures
        poll_step(PollState::Evaluating, event).1 != PollAction::EvaluateBoth,
{
}

} // verus!
