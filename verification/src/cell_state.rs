//! The end of a cell: how its last event reaches an observer.
//!
//! A cell runs until it completes or is terminated. A completion that nobody waits for is kept
//! for the next observer. Output that was to be yielded before it comes first: an observer that
//! waits for a yield gets it on its own, any other gets it together with the completion.

use std::sync::Arc;

use vstd::prelude::*;

use crate::text::{option_view, text_views};

verus! {

/// What an observer of a cell learns. The pieces of a cell's output are of any type: they are passed
/// on as they are.
#[derive(Clone, Debug, PartialEq, Eq)]
pub enum CellEvent<I> {
    /// The cell goes on, with this output so far.
    Yielded { content_items: Vec<I> },
    /// The cell waits for these tool calls.
    Pending { content_items: Vec<I>, pending_tool_call_ids: Vec<String> },
    /// The cell is done.
    Completed { content_items: Vec<I>, error_text: Option<String> },
    /// The cell was ended.
    Terminated { content_items: Vec<I> },
}

/// What an observer waits for.
#[derive(Clone, Copy, Debug, PartialEq, Eq, Structural)]
pub enum ObserveMode {
    /// The next event, or a yield after this many milliseconds.
    YieldAfter { millis: u64 },
    /// The point where the cell waits or is done.
    PendingFrontier,
}

/// Why a cell does not answer.
#[derive(Clone, Copy, Debug, PartialEq, Eq, Structural)]
pub enum CellError {
    /// Another observer waits.
    Busy,
    /// Termination was asked for before.
    AlreadyTerminating,
    /// The cell is gone.
    Closed,
}

/// Where an answer is put for an observer that waits for it.
#[derive(Debug, PartialEq, Eq)]
pub struct ResponseSlot<I> {
    /// Whether somebody waits.
    pub open: bool,
    pub value: Option<Result<CellEvent<I>, CellError>>,
}

/// What came of delivering a completion.
#[derive(Clone, Copy, Debug, PartialEq, Eq, Structural)]
pub enum CompletionDelivery {
    /// An observer has it, and the cell is closed.
    Delivered,
    /// It is kept for the next observer.
    Buffered,
    /// There is none.
    Missing,
}

/// What came of an observation.
#[derive(Clone, Copy, Debug, PartialEq, Eq, Structural)]
pub enum ObservationDelivery {
    /// The observer has the completion, and the cell is closed.
    Delivered,
    /// The completion is still kept.
    Buffered,
    /// The cell runs: the observer has to wait.
    Running,
    /// The cell takes no observers any more.
    Refused,
}

/// What the first request for termination gets.
#[derive(Debug, PartialEq, Eq)]
pub enum Termination<I> {
    /// The cell runs and has to be stopped.
    Requested,
    /// The cell had completed, with this event.
    Completed(Arc<CellEvent<I>>),
}

#[derive(Debug)]
enum CellPhase<I> {
    Running,
    Completed { event: CellEvent<I>, pending_yield_items: Option<Vec<I>> },
    Terminating { completion: Option<Arc<CellEvent<I>>> },
    Closed,
}

/// The shared state of a cell.
#[derive(Debug)]
pub struct CellState<I> {
    phase: CellPhase<I>,
}

// The state as contracts speak of it.

/// What an observer of a cell learns.
pub enum CellEventView<I> {
    Yielded { content: Seq<I> },
    Pending { content: Seq<I>, pending_tool_call_ids: Seq<Seq<char>> },
    Completed { content: Seq<I>, error_text: Option<Seq<char>> },
    Terminated { content: Seq<I> },
}

/// What becomes of a cell.
pub enum CellStateView<I> {
    Running,
    Completed { event: CellEventView<I>, pending_yield: Option<Seq<I>> },
    Terminating { completion: Option<CellEventView<I>> },
    Closed,
}

/// Output, where there is some, as contracts speak of it.
pub open spec fn content_option<I>(items: Option<Vec<I>>) -> Option<Seq<I>> {
    match items {
        Some(items) => Some(items@),
        None => None,
    }
}

impl<I> View for CellEvent<I> {
    type V = CellEventView<I>;

    open spec fn view(&self) -> CellEventView<I> {
        match *self {
            CellEvent::Yielded { content_items } => CellEventView::Yielded {
                content: content_items@,
            },
            CellEvent::Pending { content_items, pending_tool_call_ids } => CellEventView::Pending {
                content: content_items@,
                pending_tool_call_ids: text_views(pending_tool_call_ids@),
            },
            CellEvent::Completed { content_items, error_text } => CellEventView::Completed {
                content: content_items@,
                error_text: option_view(error_text),
            },
            CellEvent::Terminated { content_items } => CellEventView::Terminated {
                content: content_items@,
            },
        }
    }
}

/// An event, where there is one, as contracts speak of it.
pub open spec fn event_option<I>(event: Option<Arc<CellEvent<I>>>) -> Option<CellEventView<I>> {
    match event {
        Some(event) => Some(event@),
        None => None,
    }
}

/// An answer as contracts speak of it.
pub open spec fn answer_view<I>(answer: Result<CellEvent<I>, CellError>) -> Result<
    CellEventView<I>,
    CellError,
> {
    match answer {
        Ok(event) => Ok(event@),
        Err(error) => Err(error),
    }
}

impl<I> View for ResponseSlot<I> {
    type V = Option<Result<CellEventView<I>, CellError>>;

    open spec fn view(&self) -> Option<Result<CellEventView<I>, CellError>> {
        match self.value {
            Some(answer) => Some(answer_view(answer)),
            None => None,
        }
    }
}

impl<I> View for CellState<I> {
    type V = CellStateView<I>;

    closed spec fn view(&self) -> CellStateView<I> {
        match self.phase {
            CellPhase::Running => CellStateView::Running,
            CellPhase::Completed { event, pending_yield_items } => CellStateView::Completed {
                event: event@,
                pending_yield: content_option(pending_yield_items),
            },
            CellPhase::Terminating { completion } => CellStateView::Terminating {
                completion: event_option(completion),
            },
            CellPhase::Closed => CellStateView::Closed,
        }
    }
}

// What the operations do.

/// The output that comes with an event.
pub open spec fn event_content<I>(event: CellEventView<I>) -> Seq<I> {
    match event {
        CellEventView::Yielded { content } => content,
        CellEventView::Pending { content, .. } => content,
        CellEventView::Completed { content, .. } => content,
        CellEventView::Terminated { content } => content,
    }
}

/// An event with output put before its own.
pub open spec fn with_content_before<I>(
    event: CellEventView<I>,
    before: Option<Seq<I>>,
) -> CellEventView<I> {
    match (before, event) {
        (None, _) => event,
        (Some(before), CellEventView::Yielded { content }) => CellEventView::Yielded {
            content: before + content,
        },
        (Some(before), CellEventView::Pending { content, pending_tool_call_ids }) =>
            CellEventView::Pending { content: before + content, pending_tool_call_ids },
        (Some(before), CellEventView::Completed { content, error_text }) =>
            CellEventView::Completed { content: before + content, error_text },
        (Some(before), CellEventView::Terminated { content }) => CellEventView::Terminated {
            content: before + content,
        },
    }
}

/// A cell after an attempt to end it with an event, and output that comes before it. Only a cell that
/// runs ends with it.
pub open spec fn completion_committed<I>(
    state: CellStateView<I>,
    event: CellEventView<I>,
    pending_yield: Option<Seq<I>>,
) -> CellStateView<I> {
    if state is Running {
        CellStateView::Completed { event, pending_yield }
    } else {
        state
    }
}

/// What an observer of a cell gets: the event, if it gets one, and the state after it has it.
pub open spec fn observed<I>(state: CellStateView<I>, mode: ObserveMode) -> (
    Option<Result<CellEventView<I>, CellError>>,
    CellStateView<I>,
) {
    match state {
        CellStateView::Running => (None, state),
        CellStateView::Completed { event, pending_yield } => match (pending_yield, mode) {
            (Some(content), ObserveMode::YieldAfter { .. }) => (
                Some(Ok(CellEventView::Yielded { content })),
                CellStateView::Completed { event, pending_yield: None },
            ),
            _ => (Some(Ok(with_content_before(event, pending_yield))), CellStateView::Closed),
        },
        CellStateView::Terminating { .. } => (Some(Err(CellError::Closed)), state),
        CellStateView::Closed => (Some(Err(CellError::Closed)), state),
    }
}

/// What the observation of a cell comes to.
pub open spec fn observation_outcome<I>(
    state: CellStateView<I>,
    mode: ObserveMode,
    open: bool,
) -> ObservationDelivery {
    match state {
        CellStateView::Running => ObservationDelivery::Running,
        CellStateView::Completed { pending_yield, .. } => if open && !(pending_yield is Some
            && mode is YieldAfter) {
            ObservationDelivery::Delivered
        } else {
            ObservationDelivery::Buffered
        },
        _ => ObservationDelivery::Refused,
    }
}

/// What a request for termination is answered, and the state after it.
pub open spec fn termination_requested<I>(state: CellStateView<I>) -> (
    Result<Option<CellEventView<I>>, CellError>,
    CellStateView<I>,
) {
    match state {
        CellStateView::Running => (Ok(None), CellStateView::Terminating { completion: None }),
        CellStateView::Completed { event, pending_yield } => {
            let completion = with_content_before(event, pending_yield);
            (Ok(Some(completion)), CellStateView::Terminating { completion: Some(completion) })
        },
        CellStateView::Terminating { .. } => (Err(CellError::AlreadyTerminating), state),
        CellStateView::Closed => (Err(CellError::Closed), state),
    }
}

/// What a termination that was asked for ends with: the completion that came before it, if any.
pub open spec fn termination_finished<I>(state: CellStateView<I>, event: CellEventView<I>) -> (
    Option<CellEventView<I>>,
    CellStateView<I>,
) {
    match state {
        CellStateView::Terminating { completion: Some(completion) } => (
            Some(completion),
            CellStateView::Closed,
        ),
        CellStateView::Terminating { completion: None } => (Some(event), CellStateView::Closed),
        _ => (None, state),
    }
}

/// Two runs of output as one.
fn join_items<I>(before: Vec<I>, after: Vec<I>) -> (items: Vec<I>)
    ensures
        items@ == before@ + after@,
{
    let mut items = before;
    let mut rest = after;
    items.append(&mut rest);
    items
}

impl<I> CellEvent<I> {
    /// The event with output put before its own.
    fn with_items_before(self, before: Option<Vec<I>>) -> (event: CellEvent<I>)
        ensures
            event@ == with_content_before(self@, content_option(before)),
    {
        let before = match before {
            Some(before) => before,
            None => {
                return self;
            },
        };
        match self {
            CellEvent::Yielded { content_items } => CellEvent::Yielded {
                content_items: join_items(before, content_items),
            },
            CellEvent::Pending { content_items, pending_tool_call_ids } => CellEvent::Pending {
                content_items: join_items(before, content_items),
                pending_tool_call_ids,
            },
            CellEvent::Completed { content_items, error_text } => CellEvent::Completed {
                content_items: join_items(before, content_items),
                error_text,
            },
            CellEvent::Terminated { content_items } => CellEvent::Terminated {
                content_items: join_items(before, content_items),
            },
        }
    }
}

impl<I> ResponseSlot<I> {
    /// A slot that somebody waits on.
    pub fn new() -> (slot: Self)
        ensures
            slot.open,
            slot@ == None::<Result<CellEventView<I>, CellError>>,
    {
        ResponseSlot { open: true, value: None }
    }

    /// Nobody waits any more.
    pub fn close(&mut self)
        ensures
            !final(self).open,
            final(self)@ == old(self)@,
    {
        self.open = false;
    }
}

impl<I> CellState<I> {
    /// The state of a cell that runs.
    pub fn new() -> (state: Self)
        ensures
            state@ == CellStateView::<I>::Running,
    {
        CellState { phase: CellPhase::Running }
    }

    /// Ends a running cell with this event, and output that comes before it. A cell that is about
    /// to be terminated, or has ended, is left as it is.
    pub fn commit_completion(
        &mut self,
        event: CellEvent<I>,
        pending_yield_items: Option<Vec<I>>,
    ) -> (committed: bool)
        ensures
            committed == (old(self)@ is Running),
            final(self)@ == (if committed {
                CellStateView::Completed {
                    event: event@,
                    pending_yield: content_option(pending_yield_items),
                }
            } else {
                old(self)@
            }),
            final(self)@ == completion_committed(
                old(self)@,
                event@,
                content_option(pending_yield_items),
            ),
    {
        if matches!(self.phase, CellPhase::Running) {
            self.phase = CellPhase::Completed { event, pending_yield_items };
            true
        } else {
            false
        }
    }

    /// Hands a completion to the observer that waits, if one does. Otherwise it is kept.
    pub fn deliver_completion(&mut self, response: Option<&mut ResponseSlot<I>>) -> (delivery:
        CompletionDelivery)
        ensures
            ({
                let open = response is Some && old(response->0).open;
                match old(self)@ {
                    CellStateView::Completed { event, pending_yield } => {
                        &&& open ==> {
                            &&& delivery is Delivered
                            &&& final(self)@ is Closed
                            &&& final(response->0).open
                            &&& final(response->0)@ == Some(
                                Ok::<CellEventView<I>, CellError>(
                                    with_content_before(event, pending_yield),
                                ),
                            )
                        }
                        &&& !open ==> {
                            &&& delivery is Buffered
                            &&& final(self)@ == old(self)@
                            &&& response is Some ==> *final(response->0) == *old(response->0)
                        }
                    },
                    _ => {
                        &&& delivery is Missing
                        &&& final(self)@ == old(self)@
                        &&& response is Some ==> *final(response->0) == *old(response->0)
                    },
                }
            }),
    {
        if !matches!(self.phase, CellPhase::Completed { .. }) {
            return CompletionDelivery::Missing;
        }
        match response {
            Some(slot) => {
                if !slot.open {
                    return CompletionDelivery::Buffered;
                }
                let mut phase = CellPhase::Closed;
                core::mem::swap(&mut self.phase, &mut phase);
                match phase {
                    CellPhase::Completed { event, pending_yield_items } => {
                        slot.value = Some(Ok(event.with_items_before(pending_yield_items)));
                    },
                    _ => {},
                }
                CompletionDelivery::Delivered
            },
            None => CompletionDelivery::Buffered,
        }
    }

    /// Whether the cell takes observers.
    pub fn accepting_observations(&self) -> (accepting: bool)
        ensures
            accepting == (self@ is Running || self@ is Completed),
    {
        matches!(self.phase, CellPhase::Running | CellPhase::Completed { .. })
    }

    /// Answers an observer, if the cell has something to say. What an observer that is gone would
    /// have got is kept.
    pub fn route_observation(&mut self, mode: ObserveMode, response: &mut ResponseSlot<I>) -> (delivery:
        ObservationDelivery)
        ensures
            delivery == observation_outcome(old(self)@, mode, old(response).open),
            final(response).open == old(response).open,
            ({
                let (answer, after) = observed(old(self)@, mode);
                if old(response).open && answer is Some {
                    final(response)@ == answer && final(self)@ == after
                } else {
                    *final(response) == *old(response) && final(self)@ == old(self)@
                }
            }),
    {
        match &self.phase {
            CellPhase::Running => {
                return ObservationDelivery::Running;
            },
            CellPhase::Completed { .. } => {},
            _ => {
                if response.open {
                    response.value = Some(Err(CellError::Closed));
                }
                return ObservationDelivery::Refused;
            },
        }
        if !response.open {
            return ObservationDelivery::Buffered;
        }
        let mut phase = CellPhase::Closed;
        core::mem::swap(&mut self.phase, &mut phase);
        match phase {
            CellPhase::Completed { event, pending_yield_items } => match (
                pending_yield_items,
                mode,
            ) {
                (Some(content_items), ObserveMode::YieldAfter { .. }) => {
                    self.phase = CellPhase::Completed { event, pending_yield_items: None };
                    response.value = Some(Ok(CellEvent::Yielded { content_items }));
                    ObservationDelivery::Buffered
                },
                (pending_yield_items, _) => {
                    response.value = Some(Ok(event.with_items_before(pending_yield_items)));
                    ObservationDelivery::Delivered
                },
            },
            _ => ObservationDelivery::Refused,
        }
    }

    /// Asks for termination. The first request gets the completion that is kept, if there is one.
    pub fn request_termination(&mut self) -> (result: Result<Termination<I>, CellError>)
        ensures
            ({
                let (answer, after) = termination_requested(old(self)@);
                &&& final(self)@ == after
                &&& match result {
                    Ok(Termination::Requested) => answer == Ok::<Option<CellEventView<I>>, CellError>(
                        None,
                    ),
                    Ok(Termination::Completed(event)) => answer == Ok::<
                        Option<CellEventView<I>>,
                        CellError,
                    >(Some(event@)),
                    Err(error) => answer == Err::<Option<CellEventView<I>>, CellError>(error),
                }
            }),
    {
        let mut phase = CellPhase::Closed;
        core::mem::swap(&mut self.phase, &mut phase);
        match phase {
            CellPhase::Running => {
                self.phase = CellPhase::Terminating { completion: None };
                Ok(Termination::Requested)
            },
            CellPhase::Completed { event, pending_yield_items } => {
                let completion = Arc::new(event.with_items_before(pending_yield_items));
                self.phase = CellPhase::Terminating { completion: Some(Arc::clone(&completion)) };
                Ok(Termination::Completed(completion))
            },
            CellPhase::Terminating { completion } => {
                self.phase = CellPhase::Terminating { completion };
                Err(CellError::AlreadyTerminating)
            },
            CellPhase::Closed => Err(CellError::Closed),
        }
    }

    /// Ends a termination with this event, or with the completion that came before it. Returns
    /// what the cell has ended with, or nothing if no termination was asked for.
    pub fn finish_termination(&mut self, event: CellEvent<I>) -> (result: Option<Arc<CellEvent<I>>>)
        ensures
            ({
                let (answer, after) = termination_finished(old(self)@, event@);
                event_option(result) == answer && final(self)@ == after
            }),
    {
        if !matches!(self.phase, CellPhase::Terminating { .. }) {
            return None;
        }
        let mut phase = CellPhase::Closed;
        core::mem::swap(&mut self.phase, &mut phase);
        match phase {
            CellPhase::Terminating { completion: Some(completion) } => Some(completion),
            _ => Some(Arc::new(event)),
        }
    }
}

// What holds of every cell.

/// No output is lost or reordered: what an observer gets who waits for a yield first and for the
/// completion then, is what an observer gets at once who waits for the frontier only.
pub proof fn buffered_output_is_kept<I>(event: CellEventView<I>, content: Seq<I>, millis: u64)
    ensures
        ({
            let state = CellStateView::Completed { event, pending_yield: Some(content) };
            let mode = ObserveMode::YieldAfter { millis };
            let (first, between) = observed(state, mode);
            let (second, end) = observed(between, mode);
            let (whole, done) = observed(state, ObserveMode::PendingFrontier);
            &&& first is Some && first->0 is Ok && second is Some && second->0 is Ok
            &&& whole is Some && whole->0 is Ok
            &&& event_content(first->0->Ok_0) + event_content(second->0->Ok_0) == event_content(
                whole->0->Ok_0,
            )
            &&& between is Completed && end is Closed && done is Closed
        }),
{
}

/// A cell ends once: after an observer has its completion, or termination has ended, no request
/// changes it and each is told that it is closed.
pub proof fn closed_cell_stays_closed<I>(mode: ObserveMode, event: CellEventView<I>)
    ensures
        observed(CellStateView::<I>::Closed, mode) == (
            Some(Err::<CellEventView<I>, CellError>(CellError::Closed)),
            CellStateView::<I>::Closed,
        ),
        termination_requested(CellStateView::<I>::Closed) == (
            Err::<Option<CellEventView<I>>, CellError>(CellError::Closed),
            CellStateView::<I>::Closed,
        ),
        termination_finished(CellStateView::<I>::Closed, event) == (
            None::<CellEventView<I>>,
            CellStateView::<I>::Closed,
        ),
{
}

/// Only the first request for termination is granted. It ends the cell with the completion that
/// was kept, whatever event the termination itself brings, or with that event if there was none.
pub proof fn first_termination_wins<I>(state: CellStateView<I>, event: CellEventView<I>)
    requires
        state is Running || state is Completed,
    ensures
        ({
            let (first, between) = termination_requested(state);
            let (second, after) = termination_requested(between);
            let (last, end) = termination_finished(after, event);
            &&& first is Ok
            &&& second == Err::<Option<CellEventView<I>>, CellError>(CellError::AlreadyTerminating)
            &&& after == between
            &&& end is Closed
            &&& last == (match first->Ok_0 {
                Some(completion) => Some(completion),
                None => Some(event),
            })
        }),
{
}

/// Output put before an event makes its content longer at the front and changes nothing else: the
/// event stays of its kind, with its error text or the tool calls that it waits for.
pub proof fn output_before_an_event_changes_nothing_else<I>(
    event: CellEventView<I>,
    before: Seq<I>,
)
    ensures
        with_content_before(event, None) == event,
        match (event, with_content_before(event, Some(before))) {
            (
                CellEventView::Yielded { content },
                CellEventView::Yielded { content: whole },
            ) => whole == before + content,
            (
                CellEventView::Pending { content, pending_tool_call_ids },
                CellEventView::Pending { content: whole, pending_tool_call_ids: ids },
            ) => whole == before + content && ids == pending_tool_call_ids,
            (
                CellEventView::Completed { content, error_text },
                CellEventView::Completed { content: whole, error_text: error },
            ) => whole == before + content && error == error_text,
            (
                CellEventView::Terminated { content },
                CellEventView::Terminated { content: whole },
            ) => whole == before + content,
            _ => false,
        },
{
}

/// A completion that a running cell was committed to without pending output reaches the next observer
/// as the very event that was committed, whatever the observer waits for, and the cell is closed then.
pub proof fn committed_event_is_observed<I>(event: CellEventView<I>, mode: ObserveMode)
    ensures
        observed(completion_committed(CellStateView::Running, event, None), mode) == (
            Some(Ok::<CellEventView<I>, CellError>(event)),
            CellStateView::<I>::Closed,
        ),
        observed(CellStateView::Completed { event, pending_yield: None }, mode) == (
            Some(Ok::<CellEventView<I>, CellError>(event)),
            CellStateView::<I>::Closed,
        ),
{
}

/// A cell completes once: a completion that comes after another one, after a request for termination or
/// after the end changes nothing, so the first one is what a later request for termination gets.
pub proof fn first_completion_wins<I>(
    state: CellStateView<I>,
    event: CellEventView<I>,
    other: CellEventView<I>,
    pending: Option<Seq<I>>,
)
    ensures
        !(state is Running) ==> completion_committed(state, other, pending) == state,
        completion_committed(
            completion_committed(CellStateView::Running, event, None),
            other,
            pending,
        ) == (CellStateView::Completed { event, pending_yield: None }),
        completion_committed(termination_requested(state).1, other, pending)
            == termination_requested(state).1,
        termination_requested(completion_committed(CellStateView::Running, event, None)).0 == Ok::<
            Option<CellEventView<I>>,
            CellError,
        >(Some(event)),
{
}

/// With pending output, an observer that waits for a yield gets just that output first, and the event
/// is kept as it was committed. An observer that waits for the frontier gets both at once: an event of
/// the same kind, with the same error text, whose content is the pending output and then its own.
pub proof fn pending_output_is_observed_first<I>(
    content: Seq<I>,
    error_text: Option<Seq<char>>,
    pending: Seq<I>,
    millis: u64,
)
    ensures
        ({
            let event = CellEventView::Completed { content, error_text };
            let state = completion_committed(CellStateView::Running, event, Some(pending));
            &&& observed(state, ObserveMode::YieldAfter { millis }) == (
                Some(
                    Ok::<CellEventView<I>, CellError>(CellEventView::Yielded { content: pending }),
                ),
                CellStateView::Completed { event, pending_yield: None },
            )
            &&& observed(state, ObserveMode::PendingFrontier) == (
                Some(
                    Ok::<CellEventView<I>, CellError>(
                        CellEventView::Completed { content: pending + content, error_text },
                    ),
                ),
                CellStateView::<I>::Closed,
            )
        }),
{
}

/// A cell that runs keeps an observer waiting, and one that is about to be terminated or is closed
/// turns it away. None of them changes by being observed.
pub proof fn unfinished_cell_tells_nothing<I>(state: CellStateView<I>, mode: ObserveMode)
    requires
        !(state is Completed),
    ensures
        observed(state, mode).1 == state,
        observed(state, mode).0 == if state is Running {
            None
        } else {
            Some(Err::<CellEventView<I>, CellError>(CellError::Closed))
        },
{
}

/// An observation counts as delivered just if the observer is there and what it gets closes a cell
/// that had completed. Of a completed cell anything else leaves the completion buffered, a running one
/// makes the observer wait, and all others refuse.
pub proof fn delivery_is_told_as_it_was<I>(
    state: CellStateView<I>,
    mode: ObserveMode,
    open: bool,
)
    ensures
        observation_outcome(state, mode, open) is Delivered <==> open && state is Completed
            && observed(state, mode).1 is Closed,
        observation_outcome(state, mode, open) is Buffered <==> state is Completed && !(open
            && observed(state, mode).1 is Closed),
        observation_outcome(state, mode, open) is Running <==> state is Running,
        observation_outcome(state, mode, open) is Refused <==> state is Terminating
            || state is Closed,
{
}

/// A request for termination gets the completion as it was committed, with pending output before its
/// content, and the termination ends with that same completion. A running cell has none to give, and
/// ends with the event that the termination brings.
pub proof fn termination_keeps_the_completion<I>(
    content: Seq<I>,
    error_text: Option<Seq<char>>,
    pending: Seq<I>,
    last: CellEventView<I>,
)
    ensures
        ({
            let event = CellEventView::Completed { content, error_text };
            let whole = CellEventView::Completed { content: pending + content, error_text };
            let plain = termination_requested(
                CellStateView::Completed { event, pending_yield: None },
            );
            let full = termination_requested(
                CellStateView::Completed { event, pending_yield: Some(pending) },
            );
            let running = termination_requested(CellStateView::<I>::Running);
            &&& plain.0 == Ok::<Option<CellEventView<I>>, CellError>(Some(event))
            &&& termination_finished(plain.1, last) == (Some(event), CellStateView::<I>::Closed)
            &&& full.0 == Ok::<Option<CellEventView<I>>, CellError>(Some(whole))
            &&& termination_finished(full.1, last) == (Some(whole), CellStateView::<I>::Closed)
            &&& running.0 == Ok::<Option<CellEventView<I>>, CellError>(None)
            &&& termination_finished(running.1, last) == (Some(last), CellStateView::<I>::Closed)
        }),
{
}

/// No termination ends that was not asked for: a cell that runs, has completed or is closed stays as
/// it is, and nothing is returned.
pub proof fn unasked_termination_changes_nothing<I>(
    state: CellStateView<I>,
    event: CellEventView<I>,
)
    requires
        !(state is Terminating),
    ensures
        termination_finished(state, event) == (None::<CellEventView<I>>, state),
{
}

/// Contracts see an event as it is: its kind, its content, its tool calls and its error text.
pub proof fn events_are_seen_as_they_are<I>(event: CellEvent<I>)
    ensures
        match event {
            CellEvent::Yielded { content_items } => event@ == (CellEventView::Yielded {
                content: content_items@,
            }),
            CellEvent::Pending { content_items, pending_tool_call_ids } => {
                &&& event@ is Pending
                &&& event@->Pending_content == content_items@
                &&& event@->pending_tool_call_ids.len() == pending_tool_call_ids@.len()
                &&& forall|i: int|
                    0 <= i < pending_tool_call_ids@.len() ==> event@->pending_tool_call_ids[i]
                        == #[trigger] pending_tool_call_ids@[i]@
            },
            CellEvent::Completed { content_items, error_text } => event@
                == (CellEventView::Completed {
                content: content_items@,
                error_text: match error_text {
                    Some(text) => Some(text@),
                    None => None,
                },
            }),
            CellEvent::Terminated { content_items } => event@ == (CellEventView::Terminated {
                content: content_items@,
            }),
        },
{
}

/// Contracts see an answer in its slot, output and kept events as they are.
pub proof fn answers_are_seen_as_they_are<I>(
    slot: ResponseSlot<I>,
    items: Option<Vec<I>>,
    event: Option<Arc<CellEvent<I>>>,
)
    ensures
        slot@ == match slot.value {
            Some(Ok(event)) => Some(Ok::<CellEventView<I>, CellError>(event@)),
            Some(Err(error)) => Some(Err(error)),
            None => None,
        },
        items is Some <==> content_option(items) is Some,
        items matches Some(items) ==> content_option(Some(items)) == Some(items@),
        event is Some <==> event_option(event) is Some,
        event matches Some(event) ==> event_option(Some(event)) == Some(event@),
{
}

}
