use std::sync::Arc;

use codex_runtime::cell_state::{
    CellError, CellEvent, CellState, CompletionDelivery, ObservationDelivery, ObserveMode,
    ResponseSlot, Termination,
};

#[derive(Clone, Debug, PartialEq, Eq)]
enum OutputItem {
    Text { text: String },
    Image { url: String },
}

fn item(text: &str) -> OutputItem {
    OutputItem::Text { text: text.to_string() }
}

fn completed(items: Vec<OutputItem>) -> CellEvent<OutputItem> {
    CellEvent::Completed { content_items: items, error_text: None }
}

const NOW: ObserveMode = ObserveMode::YieldAfter { millis: 0 };

#[test]
fn failed_completion_delivery_rebuffers_the_event() {
    let mut cell_state = CellState::new();
    let event = completed(Vec::new());
    assert!(cell_state.commit_completion(event.clone(), None));
    let mut response = ResponseSlot::new();
    response.close();
    assert!(matches!(
        cell_state.deliver_completion(Some(&mut response)),
        CompletionDelivery::Buffered
    ));
    assert!(cell_state.accepting_observations());

    let mut response = ResponseSlot::new();
    assert!(matches!(
        cell_state.route_observation(NOW, &mut response),
        ObservationDelivery::Delivered
    ));
    assert_eq!(response.value, Some(Ok(event)));
}

#[test]
fn buffered_yield_precedes_buffered_completion_for_yield_observer() {
    let mut cell_state = CellState::new();
    let completion = completed(vec![item("after")]);
    assert!(cell_state.commit_completion(completion.clone(), Some(vec![item("before")])));
    assert!(matches!(
        cell_state.deliver_completion(None),
        CompletionDelivery::Buffered
    ));

    let mut response = ResponseSlot::new();
    assert!(matches!(
        cell_state.route_observation(NOW, &mut response),
        ObservationDelivery::Buffered
    ));
    assert_eq!(
        response.value,
        Some(Ok(CellEvent::Yielded { content_items: vec![item("before")] }))
    );

    let mut response = ResponseSlot::new();
    assert!(matches!(
        cell_state.route_observation(NOW, &mut response),
        ObservationDelivery::Delivered
    ));
    assert_eq!(response.value, Some(Ok(completion)));
}

#[test]
fn pending_observer_merges_buffered_yield_and_completion_output() {
    let mut cell_state = CellState::new();
    assert!(cell_state.commit_completion(
        completed(vec![item("after")]),
        Some(vec![item("before")])
    ));
    assert!(matches!(
        cell_state.deliver_completion(None),
        CompletionDelivery::Buffered
    ));

    let mut response = ResponseSlot::new();
    assert!(matches!(
        cell_state.route_observation(ObserveMode::PendingFrontier, &mut response),
        ObservationDelivery::Delivered
    ));
    assert_eq!(
        response.value,
        Some(Ok(completed(vec![item("before"), item("after")])))
    );
}

#[test]
fn only_the_first_termination_claims_a_buffered_completion() {
    let mut cell_state = CellState::new();
    let completion = completed(Vec::new());
    assert!(cell_state.commit_completion(completion.clone(), None));
    assert!(matches!(
        cell_state.deliver_completion(None),
        CompletionDelivery::Buffered
    ));

    let first_termination = cell_state.request_termination();
    assert_eq!(cell_state.request_termination(), Err(CellError::AlreadyTerminating));
    assert_eq!(
        first_termination,
        Ok(Termination::Completed(Arc::new(completion.clone())))
    );
    assert_eq!(
        cell_state.finish_termination(CellEvent::Terminated { content_items: Vec::new() }),
        Some(Arc::new(completion))
    );
}

#[test]
fn a_waiting_observer_gets_the_completion() {
    let mut cell_state = CellState::new();
    assert!(matches!(cell_state.deliver_completion(None), CompletionDelivery::Missing));
    assert!(cell_state.commit_completion(completed(vec![item("x")]), None));
    let mut response = ResponseSlot::new();
    assert!(matches!(
        cell_state.deliver_completion(Some(&mut response)),
        CompletionDelivery::Delivered
    ));
    assert_eq!(response.value, Some(Ok(completed(vec![item("x")]))));
    assert!(!cell_state.accepting_observations());
    let mut late = ResponseSlot::new();
    assert!(matches!(
        cell_state.route_observation(NOW, &mut late),
        ObservationDelivery::Refused
    ));
    assert_eq!(late.value, Some(Err(CellError::Closed)));
    assert_eq!(cell_state.request_termination(), Err(CellError::Closed));
    assert_eq!(cell_state.finish_termination(completed(Vec::new())), None);
}

#[test]
fn termination_preempts_a_completion_that_was_not_committed() {
    let mut cell_state = CellState::new();
    let mut waiting = ResponseSlot::new();
    assert!(matches!(
        cell_state.route_observation(NOW, &mut waiting),
        ObservationDelivery::Running
    ));
    assert_eq!(waiting.value, None);
    assert_eq!(cell_state.request_termination(), Ok(Termination::Requested));
    assert!(!cell_state.commit_completion(completed(Vec::new()), None));
    assert!(!cell_state.accepting_observations());
    let terminated = CellEvent::Terminated { content_items: vec![item("left")] };
    assert_eq!(cell_state.finish_termination(terminated.clone()), Some(Arc::new(terminated)));
}

#[test]
fn an_observer_that_is_gone_takes_nothing_away() {
    let mut cell_state = CellState::new();
    assert!(cell_state.commit_completion(completed(vec![item("b")]), Some(vec![item("a")])));
    let mut gone = ResponseSlot::new();
    gone.close();
    assert!(matches!(
        cell_state.route_observation(NOW, &mut gone),
        ObservationDelivery::Buffered
    ));
    assert_eq!(gone.value, None);
    assert_eq!(
        cell_state.request_termination(),
        Ok(Termination::Completed(Arc::new(completed(vec![item("a"), item("b")]))))
    );
}

#[test]
fn output_of_any_kind_is_passed_on() {
    let image = || OutputItem::Image { url: "data:".to_string() };
    let mut cell_state = CellState::new();
    assert!(cell_state.commit_completion(
        CellEvent::Completed {
            content_items: vec![image()],
            error_text: Some("boom".to_string()),
        },
        Some(vec![item("a")])
    ));
    let mut response = ResponseSlot::new();
    assert!(matches!(
        cell_state.deliver_completion(Some(&mut response)),
        CompletionDelivery::Delivered
    ));
    assert!(response.open);
    assert_eq!(
        response.value,
        Some(Ok(CellEvent::Completed {
            content_items: vec![item("a"), image()],
            error_text: Some("boom".to_string()),
        }))
    );
}
