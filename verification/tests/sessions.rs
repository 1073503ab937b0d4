use std::sync::Arc;

use codex_runtime::cell_state::{CellError, CellEvent, CellState, ObserveMode, Termination};
use codex_runtime::json::{JsonNumber, JsonValue};
use codex_runtime::named::SortedMap;
use codex_runtime::session_runtime::{
    actor_error, map_actor_event, CellId, CellToolCall, Error, NestedToolCall, RuntimeCellHost,
    SessionRuntime,
};

struct Delegate;

fn runtime() -> SessionRuntime<Delegate, u64> {
    SessionRuntime::new(Arc::new(Delegate))
}

fn id(text: &str) -> CellId {
    CellId::new(text.to_string())
}

fn yielded() -> CellEvent<String> {
    CellEvent::Yielded { content_items: Vec::new() }
}

fn host(text: &str) -> RuntimeCellHost {
    RuntimeCellHost { cell_id: id(text) }
}

#[test]
fn shutdown_rejects_cell_admission_queued_before_the_registry_lock() {
    let mut runtime = runtime();
    let queued = runtime.begin_create().unwrap();
    assert_eq!(runtime.shutdown(), Ok(()));
    assert!(!runtime.is_alive());
    assert!(matches!(
        runtime.start_cell(&queued, |_, _| panic!("a refused cell was prepared")),
        Err(Error::ShuttingDown)
    ));
    assert!(runtime.handle(&queued).is_err());
    assert_eq!(runtime.create_cell(|_, _| Ok(1)), Err(Error::ShuttingDown));
}

#[test]
fn ending_a_session_closes_its_tasks() {
    let mut runtime = runtime();
    let cell_id = runtime.create_cell(|_, _| Ok(1)).unwrap();
    assert_eq!(cell_id, id("1"));
    assert_eq!(
        runtime.observe(&cell_id, ObserveMode::YieldAfter { millis: 1 }, |_, _| Ok(yielded())),
        Ok(yielded())
    );
    runtime.begin_shutdown();
    assert!(runtime.tasks_closed());
    assert!(!runtime.is_alive());
    host("1").closed(&mut runtime);
    assert!(runtime.handle(&cell_id).is_err());
}

#[test]
fn cells_are_numbered_from_one() {
    let mut runtime = runtime();
    assert!(runtime.is_alive());
    assert!(!runtime.tasks_closed());
    assert_eq!(runtime.create_cell(|_, _| Ok(10)), Ok(id("1")));
    assert_eq!(runtime.create_cell(|_, _| Ok(20)), Ok(id("2")));
    assert_eq!(runtime.begin_create(), Ok(id("3")));
    assert_eq!(runtime.create_cell(|_, _| Ok(40)), Ok(id("4")));
    assert_eq!(runtime.handle(&id("2")), Ok(&20));
    assert_eq!(runtime.handle(&id("3")), Err(Error::MissingCell(id("3"))));
}

#[test]
fn a_name_is_admitted_once() {
    let mut runtime = runtime();
    assert_eq!(runtime.start_cell(&id("x"), |_, _| Ok(1)), Ok(()));
    assert_eq!(
        runtime.start_cell(&id("x"), |_, _| panic!("a refused cell was prepared")),
        Err(Error::DuplicateCell(id("x")))
    );
    assert_eq!(runtime.handle(&id("x")), Ok(&1));
}

#[test]
fn a_cell_that_cannot_be_prepared_is_not_admitted() {
    let mut runtime = runtime();
    assert_eq!(
        runtime.create_cell(|cell_id, _| Err(format!("no engine for {}", cell_id.text))),
        Err(Error::Runtime("no engine for 1".to_string()))
    );
    assert_eq!(runtime.handle(&id("1")), Err(Error::MissingCell(id("1"))));
    assert_eq!(runtime.create_cell(|_, _| Ok(1)), Ok(id("2")));
}

#[test]
fn the_refusals_of_a_cell_name_it() {
    assert_eq!(actor_error(&id("a"), CellError::Busy), Error::BusyObserver(id("a")));
    assert_eq!(
        actor_error(&id("a"), CellError::AlreadyTerminating),
        Error::AlreadyTerminating(id("a"))
    );
    assert_eq!(actor_error(&id("a"), CellError::Closed), Error::ClosedCell(id("a")));
    assert_eq!(map_actor_event(&id("a"), Ok(yielded())), Ok(yielded()));
    assert_eq!(
        map_actor_event::<String>(&id("a"), Err(CellError::Closed)),
        Err(Error::ClosedCell(id("a")))
    );
}

#[test]
fn observing_asks_the_cell() {
    let mut runtime = runtime();
    let cell_id = runtime.create_cell(|_, _| Ok(7)).unwrap();
    let pending = runtime.begin_observe(&cell_id, ObserveMode::PendingFrontier).unwrap();
    assert_eq!(pending.handle, &7);
    assert_eq!(pending.mode, ObserveMode::PendingFrontier);
    assert_eq!(pending.event::<String>(Err(CellError::Busy)), Err(Error::BusyObserver(id("1"))));
    assert_eq!(
        runtime.observe(&cell_id, ObserveMode::PendingFrontier, |handle, mode| {
            assert_eq!((*handle, mode), (7, ObserveMode::PendingFrontier));
            Err::<CellEvent<String>, CellError>(CellError::Closed)
        }),
        Err(Error::ClosedCell(id("1")))
    );
    assert_eq!(
        runtime.observe(&id("9"), ObserveMode::PendingFrontier, |_, _| Ok(yielded())),
        Err(Error::MissingCell(id("9")))
    );
    assert!(runtime.begin_observe(&id("9"), ObserveMode::PendingFrontier).is_err());
}

#[test]
fn terminating_asks_the_cell() {
    let mut runtime = runtime();
    let cell_id = runtime.create_cell(|_, _| Ok(7)).unwrap();
    let terminated = || CellEvent::<String>::Terminated { content_items: Vec::new() };
    assert_eq!(runtime.terminate(&cell_id, |_| Ok(terminated())), Ok(terminated()));
    assert_eq!(
        runtime.terminate(&cell_id, |_| {
            Err::<CellEvent<String>, CellError>(CellError::AlreadyTerminating)
        }),
        Err(Error::AlreadyTerminating(id("1")))
    );
    assert_eq!(
        runtime.terminate(&id("9"), |_| Ok(terminated())),
        Err(Error::MissingCell(id("9")))
    );
}

#[test]
fn a_closed_cell_is_missing_and_the_others_are_not() {
    let mut runtime = runtime();
    let first = runtime.create_cell(|_, _| Ok(1)).unwrap();
    let second = runtime.create_cell(|_, _| Ok(2)).unwrap();
    host("1").closed(&mut runtime);
    assert_eq!(runtime.handle(&first), Err(Error::MissingCell(id("1"))));
    assert_eq!(runtime.handle(&second), Ok(&2));
    host("1").closed(&mut runtime);
    assert_eq!(runtime.handle(&second), Ok(&2));
}

fn writes(value: u64) -> SortedMap<JsonValue> {
    let mut map = SortedMap::new();
    map.insert("k".to_string(), JsonValue::Number(JsonNumber::Unsigned(value)));
    map
}

#[test]
fn stored_values_are_taken_with_a_completion_only() {
    let mut runtime = runtime();
    let completion = || CellEvent::<String>::Completed { content_items: Vec::new(), error_text: None };
    let mut running = CellState::new();
    assert!(host("1").commit_completion(&mut runtime, writes(1), completion(), None, &mut running));
    assert_eq!(runtime.stored_values().get("k"), writes(1).get("k"));

    let mut terminating = CellState::new();
    assert_eq!(terminating.request_termination(), Ok(Termination::Requested));
    assert!(!host("2").commit_completion(
        &mut runtime,
        writes(2),
        completion(),
        None,
        &mut terminating
    ));
    assert_eq!(runtime.stored_values().get("k"), writes(1).get("k"));

    let mut next = CellState::new();
    assert!(host("3").commit_completion(&mut runtime, writes(3), completion(), None, &mut next));
    let seen = runtime.create_cell(|_, values| {
        assert_eq!(values.get("k"), writes(3).get("k"));
        Ok(1)
    });
    assert_eq!(seen, Ok(id("1")));
}

#[test]
fn calls_of_a_cell_carry_its_name() {
    let call = host("5").invoke_tool(CellToolCall {
        id: "call".to_string(),
        name: "shell",
        kind: 2,
        input: Some(JsonValue::Null),
    });
    assert_eq!(
        call,
        NestedToolCall {
            cell_id: id("5"),
            runtime_tool_call_id: "call".to_string(),
            tool_name: "shell",
            tool_kind: 2,
            input: Some(JsonValue::Null),
        }
    );
    let note = host("5").notify("n".to_string(), "hello".to_string());
    assert_eq!(note.cell_id, id("5"));
    assert_eq!(note.call_id, "n");
    assert_eq!(note.text, "hello");
}

#[test]
fn sessions_keep_their_delegate() {
    let delegate = Arc::new(Delegate);
    let runtime: SessionRuntime<Delegate, u64> = SessionRuntime::new(Arc::clone(&delegate));
    assert!(Arc::ptr_eq(runtime.delegate(), &delegate));
}

#[test]
fn a_session_about_to_end_stays_so() {
    let mut runtime = runtime();
    let first = runtime.create_cell(|_, _| Ok(1)).unwrap();
    assert_eq!(runtime.shutdown(), Ok(()));
    assert_eq!(runtime.shutdown(), Ok(()));
    assert_eq!(runtime.begin_create(), Err(Error::ShuttingDown));
    let mut state: CellState<String> = CellState::new();
    let completion = CellEvent::Completed { content_items: Vec::new(), error_text: None };
    assert!(host("1").commit_completion(&mut runtime, writes(1), completion, None, &mut state));
    host("1").closed(&mut runtime);
    assert!(!runtime.is_alive());
    assert!(runtime.tasks_closed());
    assert!(runtime.handle(&first).is_err());
}
