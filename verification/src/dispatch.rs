//! The send-action protocol: a logical "send message" request as an ordered
//! sequence of simulated UI steps, each required to complete before the
//! next.  The host performs each UI operation and reports its outcome; the
//! decision of what follows — the next step, or the final verdict — is made
//! here.  Sending never touches the seen-message store: delivering an
//! outgoing message and observing incoming ones are disjoint paths.

use vstd::prelude::*;

verus! {

/// Why a send failed.  `CapabilityError` wraps any DOM-capability failure
/// after the composition input was found (populating the input or
/// activating the send control).
#[derive(Clone, Copy, PartialEq, Eq, Structural, Debug)]
pub enum SendError {
    /// The conversation handle resolved to no open chat.
    ConversationNotFound,
    /// The composition input affordance is missing, e.g. the chat is in a
    /// state that disallows composing.
    InputNotAvailable,
    /// A DOM capability operation failed while populating the input or
    /// triggering the send control.
    CapabilityError,
}

/// The verdict of one send request.  `Sent` confirms only that the dispatch
/// sequence completed and the action was issued, not that the remote party
/// received anything.
#[derive(Clone, Copy, PartialEq, Eq, Structural, Debug)]
pub enum SendOutcome {
    Sent,
    Failed(SendError),
}

/// The ordered UI steps of the protocol, each required before the next.
#[derive(Clone, Copy, PartialEq, Eq, Structural, Debug)]
pub enum SendStep {
    /// Resolve and activate the target conversation via the handle.
    ResolveConversation,
    /// Locate the message-composition input within that conversation.
    LocateInput,
    /// Populate the input with the body text via simulated input.
    PopulateInput,
    /// Simulated activation of the send control.
    TriggerSend,
}

/// What the host reports after attempting one UI step.
#[derive(Clone, Copy, PartialEq, Eq, Structural, Debug)]
pub enum StepOutcome {
    Completed,
    StepFailed,
}

/// Where a send request stands: a step still to be attempted, or a verdict.
#[derive(Clone, Copy, PartialEq, Eq, Structural, Debug)]
pub enum SendState {
    InProgress(SendStep),
    Done(SendOutcome),
}

/// The step attempted after `step` completes, if any.
pub open spec fn next_step(step: SendStep) -> Option<SendStep> {
    match step {
        SendStep::ResolveConversation => Some(SendStep::LocateInput),
        SendStep::LocateInput => Some(SendStep::PopulateInput),
        SendStep::PopulateInput => Some(SendStep::TriggerSend),
        SendStep::TriggerSend => None,
    }
}

/// The error a failure of `step` is reported as.
pub open spec fn step_error(step: SendStep) -> SendError {
    match step {
        SendStep::ResolveConversation => SendError::ConversationNotFound,
        SendStep::LocateInput => SendError::InputNotAvailable,
        SendStep::PopulateInput => SendError::CapabilityError,
        SendStep::TriggerSend => SendError::CapabilityError,
    }
}

/// The transition relation of the protocol: a failed step ends the request
/// with that step's error; a completed step hands over to the next step, or
/// to the `Sent` verdict after the last.
pub open spec fn advance_spec(step: SendStep, outcome: StepOutcome) -> SendState {
    match outcome {
        StepOutcome::StepFailed => SendState::Done(SendOutcome::Failed(step_error(step))),
        StepOutcome::Completed => match next_step(step) {
            Some(next) => SendState::InProgress(next),
            None => SendState::Done(SendOutcome::Sent),
        },
    }
}

/// The state a send request begins in: the conversation is resolved first.
pub fn send_begin() -> (s: SendState)
    ensures
        s == SendState::InProgress(SendStep::ResolveConversation),
{
    SendState::InProgress(SendStep::ResolveConversation)
}

/// Advances a send request by the host's report on the step just attempted.
/// The host performs the UI operation for `step` and hands back its outcome;
/// this decides the next step or the final verdict.
pub fn send_advance(step: SendStep, outcome: StepOutcome) -> (next: SendState)
    ensures
        next == advance_spec(step, outcome),
{
    match outcome {
        StepOutcome::StepFailed => SendState::Done(
            SendOutcome::Failed(
                match step {
                    SendStep::ResolveConversation => SendError::ConversationNotFound,
                    SendStep::LocateInput => SendError::InputNotAvailable,
                    SendStep::PopulateInput => SendError::CapabilityError,
                    SendStep::TriggerSend => SendError::CapabilityError,
                },
            ),
        ),
        StepOutcome::Completed => match step {
            SendStep::ResolveConversation => SendState::InProgress(SendStep::LocateInput),
            SendStep::LocateInput => SendState::InProgress(SendStep::PopulateInput),
            SendStep::PopulateInput => SendState::InProgress(SendStep::TriggerSend),
            SendStep::TriggerSend => SendState::Done(SendOutcome::Sent),
        },
    }
}

/// The verdict of a whole send request, given which UI operations would
/// complete: the error of the first failing step, in protocol order, and
/// `Sent` exactly when all four steps complete.
pub open spec fn send_outcome_spec(
    resolve_ok: bool,
    locate_ok: bool,
    populate_ok: bool,
    trigger_ok: bool,
) -> SendOutcome {
    if !resolve_ok {
        SendOutcome::Failed(SendError::ConversationNotFound)
    } else if !locate_ok {
        SendOutcome::Failed(SendError::InputNotAvailable)
    } else if !populate_ok {
        SendOutcome::Failed(SendError::CapabilityError)
    } else if !trigger_ok {
        SendOutcome::Failed(SendError::CapabilityError)
    } else {
        SendOutcome::Sent
    }
}

/// Runs the protocol to its verdict over the given step outcomes.  Each
/// argument says whether the corresponding UI operation completes when
/// attempted; later operations are never attempted once one fails.
pub fn run_send(
    resolve_ok: bool,
    locate_ok: bool,
    populate_ok: bool,
    trigger_ok: bool,
) -> (outcome: SendOutcome)
    ensures
        outcome == send_outcome_spec(resolve_ok, locate_ok, populate_ok, trigger_ok),
{
    let mut state = send_begin();
    let oks = [resolve_ok, locate_ok, populate_ok, trigger_ok];
    let mut k: usize = 0;
    loop
        invariant
            (match state {
                SendState::InProgress(step) => {
                    &&& k < 4
                    &&& step == step_at(k as int)
                    &&& forall|j: int| 0 <= j < k ==> ok_at(oks@, j)
                },
                SendState::Done(outcome) => outcome == send_outcome_spec(
                    resolve_ok,
                    locate_ok,
                    populate_ok,
                    trigger_ok,
                ),
            }),
            oks@ == seq![resolve_ok, locate_ok, populate_ok, trigger_ok],
        decreases 4 - k,
    {
        match state {
            SendState::Done(outcome) => {
                return outcome;
            },
            SendState::InProgress(step) => {
                let ok = oks[k];
                let ghost k0 = k as int;
                let attempted = if ok {
                    StepOutcome::Completed
                } else {
                    StepOutcome::StepFailed
                };
                state = send_advance(step, attempted);
                k += 1;
                proof {
                    assert(oks@[0] == resolve_ok);
                    assert(oks@[1] == locate_ok);
                    assert(oks@[2] == populate_ok);
                    assert(oks@[3] == trigger_ok);
                    assert(ok == oks@[k0]);
                    if ok {
                        assert(ok_at(oks@, k0));
                        assert(forall|j: int| 0 <= j < k0 + 1 ==> ok_at(oks@, j));
                        if k0 == 3 {
                            assert(resolve_ok && locate_ok && populate_ok && trigger_ok) by {
                                assert(ok_at(oks@, 0));
                                assert(ok_at(oks@, 1));
                                assert(ok_at(oks@, 2));
                                assert(ok_at(oks@, 3));
                            }
                        }
                    } else {
                        if k0 >= 1 {
                            assert(ok_at(oks@, 0));
                        }
                        if k0 >= 2 {
                            assert(ok_at(oks@, 1));
                        }
                        if k0 >= 3 {
                            assert(ok_at(oks@, 2));
                        }
                    }
                }
            },
        }
    }
}

/// The step attempted `k` steps into the protocol.
spec fn step_at(k: int) -> SendStep {
    if k == 0 {
        SendStep::ResolveConversation
    } else if k == 1 {
        SendStep::LocateInput
    } else if k == 2 {
        SendStep::PopulateInput
    } else {
        SendStep::TriggerSend
    }
}

/// Whether the `j`-th UI operation completes when attempted.
spec fn ok_at(oks: Seq<bool>, j: int) -> bool {
    0 <= j < oks.len() && oks[j]
}

/// A failure while a step is in progress always yields the verdict carrying
/// that step's own error — in particular, a missing composition input
/// (the step after the conversation resolved) yields `InputNotAvailable`.
pub proof fn lemma_send_failure_names_step(step: SendStep)
    ensures
        advance_spec(step, StepOutcome::StepFailed) == SendState::Done(
            SendOutcome::Failed(step_error(step)),
        ),
        advance_spec(SendStep::LocateInput, StepOutcome::StepFailed) == SendState::Done(
            SendOutcome::Failed(SendError::InputNotAvailable),
        ),
{
}

} // verus!
