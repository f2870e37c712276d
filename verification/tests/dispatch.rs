use chat_observer::dispatch::{
    run_send, send_advance, send_begin, SendError, SendOutcome, SendState, SendStep, StepOutcome,
};
use chat_observer::engine::MessageDiffEngine;
use chat_observer::extract::DomSnapshot;
use chat_observer::record::MessageNode;

#[test]
fn send_completes_when_every_step_completes() {
    assert_eq!(run_send(true, true, true, true), SendOutcome::Sent);
}

#[test]
fn send_fails_with_conversation_not_found() {
    assert_eq!(
        run_send(false, true, true, true),
        SendOutcome::Failed(SendError::ConversationNotFound)
    );
}

#[test]
fn send_fails_with_input_not_available() {
    assert_eq!(
        run_send(true, false, true, true),
        SendOutcome::Failed(SendError::InputNotAvailable)
    );
}

#[test]
fn send_fails_with_capability_error() {
    assert_eq!(
        run_send(true, true, false, true),
        SendOutcome::Failed(SendError::CapabilityError)
    );
    assert_eq!(
        run_send(true, true, true, false),
        SendOutcome::Failed(SendError::CapabilityError)
    );
}

#[test]
fn send_steps_run_in_protocol_order() {
    let state = send_begin();
    assert_eq!(state, SendState::InProgress(SendStep::ResolveConversation));
    let state = send_advance(SendStep::ResolveConversation, StepOutcome::Completed);
    assert_eq!(state, SendState::InProgress(SendStep::LocateInput));
    let state = send_advance(SendStep::LocateInput, StepOutcome::Completed);
    assert_eq!(state, SendState::InProgress(SendStep::PopulateInput));
    let state = send_advance(SendStep::PopulateInput, StepOutcome::Completed);
    assert_eq!(state, SendState::InProgress(SendStep::TriggerSend));
    let state = send_advance(SendStep::TriggerSend, StepOutcome::Completed);
    assert_eq!(state, SendState::Done(SendOutcome::Sent));
}

#[test]
fn failed_input_lookup_leaves_seen_store_unmodified() {
    // A send whose input-lookup step fails returns InputNotAvailable and
    // never touches the message-seen state: observation still reports the
    // message as new afterwards.
    let mut engine = MessageDiffEngine::new(500);

    let outcome = run_send(true, false, true, true);
    assert_eq!(outcome, SendOutcome::Failed(SendError::InputNotAvailable));
    assert_eq!(engine.seen_len(), 0);

    let result = engine
        .poll(DomSnapshot::Conversation(vec![MessageNode {
            sender_label: Some(String::from("Alice")),
            body_text: Some(String::from("msg1")),
            rendered_timestamp: Some(String::from("10:00")),
        }]))
        .unwrap();
    assert!(result.has_new_messages);
}
