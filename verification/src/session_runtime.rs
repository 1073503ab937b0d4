//! One code-mode session: its cells, the values that they store, and its end.
//!
//! The session is the state that its owner guards with a lock. What a cell does is not part of
//! it: a cell is known by a handle, and what the handle answers is passed in.

use std::sync::Arc;

use vstd::prelude::*;

use crate::cell_state::{
    answer_view, content_option, CellError, CellEvent, CellEventView, CellState, CellStateView,
    ObserveMode,
};
use crate::json::JsonValue;
use crate::named::{as_map, SortedMap};
use crate::text::{decimal, decimal_injective, to_decimal};

verus! {

/// The name of a cell in its session.
#[derive(Debug, PartialEq, Eq)]
pub struct CellId {
    pub text: String,
}

impl View for CellId {
    type V = Seq<char>;

    open spec fn view(&self) -> Seq<char> {
        self.text@
    }
}

impl CellId {
    /// The cell with this name.
    pub fn new(text: String) -> (cell_id: Self)
        ensures
            cell_id@ == text@,
    {
        CellId { text }
    }

    /// The same name once more.
    pub fn duplicate(&self) -> (copy: Self)
        ensures
            copy@ == self@,
    {
        CellId { text: self.text.clone() }
    }
}

/// Why a session does not do what it is asked.
#[derive(Debug, PartialEq, Eq)]
pub enum Error {
    /// The session is about to end.
    ShuttingDown,
    /// There is no such cell.
    MissingCell(CellId),
    /// There is such a cell already.
    DuplicateCell(CellId),
    /// The cell cannot be run.
    Runtime(String),
    /// Another observer waits for the cell.
    BusyObserver(CellId),
    /// Termination was asked for before.
    AlreadyTerminating(CellId),
    /// The cell is gone.
    ClosedCell(CellId),
}

/// A refusal as contracts speak of it.
pub enum ErrorView {
    ShuttingDown,
    MissingCell(Seq<char>),
    DuplicateCell(Seq<char>),
    Runtime(Seq<char>),
    BusyObserver(Seq<char>),
    AlreadyTerminating(Seq<char>),
    ClosedCell(Seq<char>),
}

impl View for Error {
    type V = ErrorView;

    open spec fn view(&self) -> ErrorView {
        match *self {
            Error::ShuttingDown => ErrorView::ShuttingDown,
            Error::MissingCell(cell_id) => ErrorView::MissingCell(cell_id@),
            Error::DuplicateCell(cell_id) => ErrorView::DuplicateCell(cell_id@),
            Error::Runtime(reason) => ErrorView::Runtime(reason@),
            Error::BusyObserver(cell_id) => ErrorView::BusyObserver(cell_id@),
            Error::AlreadyTerminating(cell_id) => ErrorView::AlreadyTerminating(cell_id@),
            Error::ClosedCell(cell_id) => ErrorView::ClosedCell(cell_id@),
        }
    }
}

/// The refusal of a cell, as that of its session.
pub open spec fn cell_refusal(cell_id: Seq<char>, error: CellError) -> ErrorView {
    match error {
        CellError::Busy => ErrorView::BusyObserver(cell_id),
        CellError::AlreadyTerminating => ErrorView::AlreadyTerminating(cell_id),
        CellError::Closed => ErrorView::ClosedCell(cell_id),
    }
}

/// Turns the refusal of a cell into that of its session.
pub fn actor_error(cell_id: &CellId, error: CellError) -> (refusal: Error)
    ensures
        refusal@ == cell_refusal(cell_id@, error),
{
    match error {
        CellError::Busy => Error::BusyObserver(cell_id.duplicate()),
        CellError::AlreadyTerminating => Error::AlreadyTerminating(cell_id.duplicate()),
        CellError::Closed => Error::ClosedCell(cell_id.duplicate()),
    }
}

/// What a session answers when a cell has answered.
pub open spec fn relayed<I>(
    cell_id: Seq<char>,
    answer: Result<CellEventView<I>, CellError>,
) -> Result<CellEventView<I>, ErrorView> {
    match answer {
        Ok(event) => Ok(event),
        Err(error) => Err(cell_refusal(cell_id, error)),
    }
}

/// An answer of a session as contracts speak of it.
pub open spec fn session_answer<I>(result: Result<CellEvent<I>, Error>) -> Result<
    CellEventView<I>,
    ErrorView,
> {
    match result {
        Ok(event) => Ok(event@),
        Err(error) => Err(error@),
    }
}

/// Passes on what a cell has answered.
pub fn map_actor_event<I>(cell_id: &CellId, answer: Result<CellEvent<I>, CellError>) -> (result: Result<
    CellEvent<I>,
    Error,
>)
    ensures
        session_answer(result) == relayed(cell_id@, answer_view(answer)),
{
    match answer {
        Ok(event) => Ok(event),
        Err(error) => Err(actor_error(cell_id, error)),
    }
}

/// An admitted cell event that has not reached its requested frontier yet.
#[derive(Debug)]
pub struct PendingEvent<'a, H> {
    pub cell_id: CellId,
    /// The cell that is to be asked.
    pub handle: &'a H,
    /// What it is to be asked for.
    pub mode: ObserveMode,
}

impl<'a, H> PendingEvent<'a, H> {
    /// The event, or why there is none, once the cell has answered.
    pub fn event<I>(self, answer: Result<CellEvent<I>, CellError>) -> (result: Result<CellEvent<I>, Error>)
        ensures
            session_answer(result) == relayed(self.cell_id@, answer_view(answer)),
    {
        map_actor_event(&self.cell_id, answer)
    }
}

/// Owns all cells and shared state for one transport-neutral code-mode session.
pub struct SessionRuntime<D, H> {
    delegate: Arc<D>,
    stored_values: SortedMap<JsonValue>,
    cells: SortedMap<H>,
    shutting_down: bool,
    tasks_closed: bool,
    next_cell_id: u64,
}

/// A session as contracts speak of it.
#[verifier::ext_equal]
pub struct SessionView<H> {
    pub stored_values: Map<Seq<char>, JsonValue>,
    pub cells: Map<Seq<char>, H>,
    /// Whether the session is about to end.
    pub shutting_down: bool,
    /// Whether no task is waited for beyond those that run.
    pub tasks_closed: bool,
    pub next_cell_id: u64,
}

impl<D, H> View for SessionRuntime<D, H> {
    type V = SessionView<H>;

    closed spec fn view(&self) -> SessionView<H> {
        SessionView {
            stored_values: as_map(self.stored_values@),
            cells: as_map(self.cells@),
            shutting_down: self.shutting_down,
            tasks_closed: self.tasks_closed,
            next_cell_id: self.next_cell_id,
        }
    }
}

/// The number after this one; the first one after the last.
pub open spec fn next_number(number: u64) -> u64 {
    if number == u64::MAX {
        0
    } else {
        (number + 1) as u64
    }
}

/// Whether a session ends up like this when it is asked to create a cell and has not yet admitted
/// it: it gives out the next name, unless it is about to end.
pub open spec fn creation_begun<H>(
    before: SessionView<H>,
    result: Result<CellId, Error>,
    after: SessionView<H>,
) -> bool {
    if before.shutting_down {
        &&& result is Err
        &&& result->Err_0@ == ErrorView::ShuttingDown
        &&& after == before
    } else {
        &&& result is Ok
        &&& result->Ok_0@ == decimal(before.next_cell_id as nat)
        &&& after == SessionView { next_cell_id: next_number(before.next_cell_id), ..before }
    }
}

/// Whether a cell may be admitted under a name.
pub open spec fn admissible<H>(session: SessionView<H>, cell_id: Seq<char>) -> bool {
    !session.shutting_down && !session.cells.contains_key(cell_id)
}

/// Whether a cell can be prepared in this way, with its name and the stored values.
pub open spec fn prepares<H, P: FnOnce(&CellId, &SortedMap<JsonValue>) -> Result<H, String>>(
    session: SessionView<H>,
    cell_id: Seq<char>,
    prepare: P,
) -> bool {
    forall|name: CellId, values: SortedMap<JsonValue>|
        name@ == cell_id && values.wf() && as_map(values@) == session.stored_values
            ==> #[trigger] call_requires(prepare, (&name, &values))
}

/// Whether a session ends up like this when it is asked to admit a cell that may be prepared in
/// this way.
pub open spec fn admission<H, P: FnOnce(&CellId, &SortedMap<JsonValue>) -> Result<H, String>>(
    before: SessionView<H>,
    cell_id: Seq<char>,
    prepare: P,
    result: Result<(), Error>,
    after: SessionView<H>,
) -> bool {
    if before.shutting_down {
        &&& result is Err
        &&& result->Err_0@ == ErrorView::ShuttingDown
        &&& after == before
    } else if before.cells.contains_key(cell_id) {
        &&& result is Err
        &&& result->Err_0@ == ErrorView::DuplicateCell(cell_id)
        &&& after == before
    } else {
        exists|name: CellId, values: SortedMap<JsonValue>, prepared: Result<H, String>|
            #![trigger call_ensures(prepare, (&name, &values), prepared)]
            {
                &&& name@ == cell_id
                &&& as_map(values@) == before.stored_values
                &&& call_ensures(prepare, (&name, &values), prepared)
                &&& match prepared {
                    Ok(handle) => {
                        &&& result is Ok
                        &&& after == SessionView {
                            cells: before.cells.insert(cell_id, handle),
                            ..before
                        }
                    },
                    Err(reason) => {
                        &&& result is Err
                        &&& result->Err_0@ == ErrorView::Runtime(reason@)
                        &&& after == before
                    },
                }
            }
    }
}

/// A session that has taken the values which a cell has stored.
pub open spec fn values_stored<H>(
    session: SessionView<H>,
    writes: Map<Seq<char>, JsonValue>,
) -> SessionView<H> {
    SessionView { stored_values: session.stored_values.union_prefer_right(writes), ..session }
}

/// What one operation may do to a session: nothing; give out a name, or admit a cell, unless the
/// session is about to end; begin its end; store values; or take a cell away.
pub open spec fn follows<H>(before: SessionView<H>, after: SessionView<H>) -> bool {
    ||| after == before
    ||| !before.shutting_down && after == SessionView {
        next_cell_id: next_number(before.next_cell_id),
        ..before
    }
    ||| admitted_one(before, after)
    ||| after == SessionView { shutting_down: true, tasks_closed: true, ..before }
    ||| after == SessionView { stored_values: after.stored_values, ..before }
    ||| lost_one(before, after)
}

/// Whether a session has admitted a cell.
pub open spec fn admitted_one<H>(before: SessionView<H>, after: SessionView<H>) -> bool {
    exists|name: Seq<char>, handle: H|
        admissible(before, name) && after == (SessionView {
            cells: #[trigger] before.cells.insert(name, handle),
            ..before
        })
}

/// Whether a session has lost a cell, if it had it.
pub open spec fn lost_one<H>(before: SessionView<H>, after: SessionView<H>) -> bool {
    exists|name: Seq<char>|
        after == (SessionView { cells: #[trigger] before.cells.remove(name), ..before })
}

/// Whether a session ends up like this when it has given out a name and admits its cell.
pub open spec fn created<H, P: FnOnce(&CellId, &SortedMap<JsonValue>) -> Result<H, String>>(
    between: SessionView<H>,
    cell_id: Seq<char>,
    prepare: P,
    result: Result<CellId, Error>,
    after: SessionView<H>,
) -> bool {
    exists|admitted: Result<(), Error>|
        {
            &&& #[trigger] admission(between, cell_id, prepare, admitted, after)
            &&& match admitted {
                Ok(_) => result is Ok && result->Ok_0@ == cell_id,
                Err(error) => result == Err::<CellId, Error>(error),
            }
        }
}

impl<D, H> SessionRuntime<D, H> {
    /// Whether the session is in order: no name stands twice.
    pub closed spec fn wf(&self) -> bool {
        self.stored_values.wf() && self.cells.wf()
    }

    /// Whom the session's cells call.
    pub closed spec fn delegate_view(&self) -> Arc<D> {
        self.delegate
    }

    /// A session without cells and stored values.
    pub fn new(delegate: Arc<D>) -> (session: Self)
        ensures
            session.wf(),
            session.delegate_view() == delegate,
            names_given_out(session@),
            session@ == (SessionView::<H> {
                stored_values: Map::empty(),
                cells: Map::empty(),
                shutting_down: false,
                tasks_closed: false,
                next_cell_id: 1,
            }),
    {
        let session = SessionRuntime {
            delegate,
            stored_values: SortedMap::new(),
            cells: SortedMap::new(),
            shutting_down: false,
            tasks_closed: false,
            next_cell_id: 1,
        };
        assert(session@.stored_values =~= Map::empty());
        assert(session@.cells =~= Map::empty());
        session
    }

    /// Whom the session's cells call.
    pub fn delegate(&self) -> (delegate: &Arc<D>)
        ensures
            *delegate == self.delegate_view(),
    {
        &self.delegate
    }

    /// Whether the session is not about to end.
    pub fn is_alive(&self) -> (alive: bool)
        ensures
            alive == !self@.shutting_down,
    {
        !self.shutting_down
    }

    /// Whether no task is waited for beyond those that run.
    pub fn tasks_closed(&self) -> (closed: bool)
        ensures
            closed == self@.tasks_closed,
    {
        self.tasks_closed
    }

    /// The values that the session's cells have stored.
    pub fn stored_values(&self) -> (values: &SortedMap<JsonValue>)
        requires
            self.wf(),
        ensures
            values.wf(),
            as_map(values@) == self@.stored_values,
    {
        &self.stored_values
    }

    /// Gives out the next name.
    fn allocate_cell_id(&mut self) -> (cell_id: CellId)
        ensures
            cell_id@ == decimal(old(self)@.next_cell_id as nat),
            final(self)@ == (SessionView {
                next_cell_id: next_number(old(self)@.next_cell_id),
                ..old(self)@
            }),
            final(self).delegate_view() == old(self).delegate_view(),
            old(self).wf() ==> final(self).wf(),
    {
        let number = self.next_cell_id;
        self.next_cell_id = if number == u64::MAX {
            0
        } else {
            number + 1
        };
        CellId::new(to_decimal(number))
    }

    /// Begins to create a cell: gives out its name.
    pub fn begin_create(&mut self) -> (result: Result<CellId, Error>)
        requires
            old(self).wf(),
        ensures
            final(self).wf(),
            final(self).delegate_view() == old(self).delegate_view(),
            creation_begun(old(self)@, result, final(self)@),
            follows(old(self)@, final(self)@),
    {
        if self.shutting_down {
            return Err(Error::ShuttingDown);
        }
        Ok(self.allocate_cell_id())
    }

    /// Admits a cell under a name, once it is prepared with its name and the stored values. A cell
    /// that is refused for its name or for the session's end is not prepared: `prepare` need not
    /// take it.
    pub fn start_cell<P: FnOnce(&CellId, &SortedMap<JsonValue>) -> Result<H, String>>(
        &mut self,
        cell_id: &CellId,
        prepare: P,
    ) -> (result: Result<(), Error>)
        requires
            old(self).wf(),
            admissible(old(self)@, cell_id@) ==> prepares(old(self)@, cell_id@, prepare),
        ensures
            final(self).wf(),
            final(self).delegate_view() == old(self).delegate_view(),
            admission(old(self)@, cell_id@, prepare, result, final(self)@),
            follows(old(self)@, final(self)@),
    {
        if self.shutting_down {
            return Err(Error::ShuttingDown);
        }
        if self.cells.get(cell_id.text.as_str()).is_some() {
            return Err(Error::DuplicateCell(cell_id.duplicate()));
        }
        match prepare(cell_id, &self.stored_values) {
            Ok(handle) => {
                self.cells.insert(cell_id.text.clone(), handle);
                assert(call_ensures(
                    prepare,
                    (cell_id, &old(self).stored_values),
                    Ok::<H, String>(handle),
                ));
                Ok(())
            },
            Err(reason) => Err(Error::Runtime(reason)),
        }
    }

    /// Creates a cell, without anything coming between its name and its admission.
    pub fn create_cell<P: FnOnce(&CellId, &SortedMap<JsonValue>) -> Result<H, String>>(
        &mut self,
        prepare: P,
    ) -> (result: Result<CellId, Error>)
        requires
            old(self).wf(),
            admissible(old(self)@, decimal(old(self)@.next_cell_id as nat)) ==> prepares(
                old(self)@,
                decimal(old(self)@.next_cell_id as nat),
                prepare,
            ),
        ensures
            final(self).wf(),
            final(self).delegate_view() == old(self).delegate_view(),
            old(self)@.shutting_down ==> result is Err && result->Err_0@ == ErrorView::ShuttingDown
                && final(self)@ == old(self)@,
            !old(self)@.shutting_down ==> created(
                SessionView {
                    next_cell_id: next_number(old(self)@.next_cell_id),
                    ..old(self)@
                },
                decimal(old(self)@.next_cell_id as nat),
                prepare,
                result,
                final(self)@,
            ),
            exists|between: SessionView<H>| #[trigger]
                follows(old(self)@, between) && #[trigger] follows(between, final(self)@),
    {
        let cell_id = match self.begin_create() {
            Ok(cell_id) => cell_id,
            Err(error) => {
                return Err(error);
            },
        };
        let ghost between = self@;
        let admitted = self.start_cell(&cell_id, prepare);
        assert(admission(between, cell_id@, prepare, admitted, self@));
        match admitted {
            Ok(_) => Ok(cell_id),
            Err(error) => Err(error),
        }
    }

    /// The handle of a cell.
    pub fn handle(&self, cell_id: &CellId) -> (result: Result<&H, Error>)
        requires
            self.wf(),
        ensures
            match result {
                Ok(handle) => self@.cells.contains_key(cell_id@) && *handle == self@.cells[cell_id@],
                Err(error) => !self@.cells.contains_key(cell_id@) && error@
                    == ErrorView::MissingCell(cell_id@),
            },
    {
        match self.cells.get(cell_id.text.as_str()) {
            Some(handle) => Ok(handle),
            None => Err(Error::MissingCell(cell_id.duplicate())),
        }
    }

    /// Begins to observe a cell.
    pub fn begin_observe(&self, cell_id: &CellId, mode: ObserveMode) -> (result: Result<
        PendingEvent<'_, H>,
        Error,
    >)
        requires
            self.wf(),
        ensures
            match result {
                Ok(pending) => {
                    &&& self@.cells.contains_key(cell_id@)
                    &&& *pending.handle == self@.cells[cell_id@]
                    &&& pending.cell_id@ == cell_id@
                    &&& pending.mode == mode
                },
                Err(error) => !self@.cells.contains_key(cell_id@) && error@
                    == ErrorView::MissingCell(cell_id@),
            },
    {
        match self.handle(cell_id) {
            Ok(handle) => Ok(PendingEvent { cell_id: cell_id.duplicate(), handle, mode }),
            Err(error) => Err(error),
        }
    }

    /// Observes a cell, which is asked in this way.
    pub fn observe<I, A: FnOnce(&H, ObserveMode) -> Result<CellEvent<I>, CellError>>(
        &self,
        cell_id: &CellId,
        mode: ObserveMode,
        ask: A,
    ) -> (result: Result<CellEvent<I>, Error>)
        requires
            self.wf(),
            self@.cells.contains_key(cell_id@) ==> call_requires(
                ask,
                (&self@.cells[cell_id@], mode),
            ),
        ensures
            !self@.cells.contains_key(cell_id@) ==> session_answer(result) == Err::<
                CellEventView<I>,
                ErrorView,
            >(ErrorView::MissingCell(cell_id@)),
            self@.cells.contains_key(cell_id@) ==> exists|answer: Result<CellEvent<I>, CellError>|
                #![trigger call_ensures(ask, (&self@.cells[cell_id@], mode), answer)]
                call_ensures(ask, (&self@.cells[cell_id@], mode), answer) && session_answer(result)
                    == relayed(cell_id@, answer_view(answer)),
    {
        match self.begin_observe(cell_id, mode) {
            Ok(pending) => {
                let answer = ask(pending.handle, mode);
                pending.event(answer)
            },
            Err(error) => Err(error),
        }
    }

    /// Terminates a cell, which is asked in this way.
    pub fn terminate<I, A: FnOnce(&H) -> Result<CellEvent<I>, CellError>>(
        &self,
        cell_id: &CellId,
        ask: A,
    ) -> (result: Result<CellEvent<I>, Error>)
        requires
            self.wf(),
            self@.cells.contains_key(cell_id@) ==> call_requires(ask, (&self@.cells[cell_id@],)),
        ensures
            !self@.cells.contains_key(cell_id@) ==> session_answer(result) == Err::<
                CellEventView<I>,
                ErrorView,
            >(ErrorView::MissingCell(cell_id@)),
            self@.cells.contains_key(cell_id@) ==> exists|answer: Result<CellEvent<I>, CellError>|
                #![trigger call_ensures(ask, (&self@.cells[cell_id@],), answer)]
                call_ensures(ask, (&self@.cells[cell_id@],), answer) && session_answer(result)
                    == relayed(cell_id@, answer_view(answer)),
    {
        match self.handle(cell_id) {
            Ok(handle) => {
                let answer = ask(handle);
                map_actor_event(cell_id, answer)
            },
            Err(error) => Err(error),
        }
    }

    /// Begins to end the session: no more cells, and no more tasks to wait for.
    pub fn begin_shutdown(&mut self)
        ensures
            final(self)@ == (SessionView {
                shutting_down: true,
                tasks_closed: true,
                ..old(self)@
            }),
            follows(old(self)@, final(self)@),
            final(self).delegate_view() == old(self).delegate_view(),
            old(self).wf() ==> final(self).wf(),
    {
        self.shutting_down = true;
        self.tasks_closed = true;
    }

    /// Ends the session. When the tasks that run are through, it is over.
    pub fn shutdown(&mut self) -> (result: Result<(), Error>)
        ensures
            result is Ok,
            final(self)@ == (SessionView {
                shutting_down: true,
                tasks_closed: true,
                ..old(self)@
            }),
            follows(old(self)@, final(self)@),
            final(self).delegate_view() == old(self).delegate_view(),
            old(self).wf() ==> final(self).wf(),
    {
        self.begin_shutdown();
        Ok(())
    }
}

// What the session does for its cells.

/// A tool call as a cell makes it.
#[derive(Debug, PartialEq, Eq)]
pub struct CellToolCall<N, K, I> {
    pub id: String,
    pub name: N,
    pub kind: K,
    pub input: I,
}

/// A tool call as the delegate gets it.
#[derive(Debug, PartialEq, Eq)]
pub struct NestedToolCall<N, K, I> {
    pub cell_id: CellId,
    pub runtime_tool_call_id: String,
    pub tool_name: N,
    pub tool_kind: K,
    pub input: I,
}

/// A notification as the delegate gets it.
#[derive(Debug, PartialEq, Eq)]
pub struct CellNotification {
    pub call_id: String,
    pub cell_id: CellId,
    pub text: String,
}

/// What one cell sees of its session.
#[derive(Debug, PartialEq, Eq)]
pub struct RuntimeCellHost {
    pub cell_id: CellId,
}

impl RuntimeCellHost {
    /// The tool call that the delegate gets for one that the cell makes.
    pub fn invoke_tool<N, K, I>(&self, invocation: CellToolCall<N, K, I>) -> (call: NestedToolCall<
        N,
        K,
        I,
    >)
        ensures
            call.cell_id@ == self.cell_id@,
            call.runtime_tool_call_id == invocation.id,
            call.tool_name == invocation.name,
            call.tool_kind == invocation.kind,
            call.input == invocation.input,
    {
        NestedToolCall {
            cell_id: self.cell_id.duplicate(),
            runtime_tool_call_id: invocation.id,
            tool_name: invocation.name,
            tool_kind: invocation.kind,
            input: invocation.input,
        }
    }

    /// The notification that the delegate gets for one that the cell sends.
    pub fn notify(&self, call_id: String, text: String) -> (notification: CellNotification)
        ensures
            notification.call_id == call_id,
            notification.cell_id@ == self.cell_id@,
            notification.text == text,
    {
        CellNotification { call_id, cell_id: self.cell_id.duplicate(), text }
    }

    /// Completes the cell, unless it is about to be terminated or has ended. With it, and only
    /// then, the session takes the values that the cell has stored.
    pub fn commit_completion<D, H, I>(
        &self,
        session: &mut SessionRuntime<D, H>,
        stored_value_writes: SortedMap<JsonValue>,
        event: CellEvent<I>,
        pending_yield_items: Option<Vec<I>>,
        cell_state: &mut CellState<I>,
    ) -> (committed: bool)
        requires
            old(session).wf(),
            stored_value_writes.wf(),
        ensures
            final(session).wf(),
            final(session).delegate_view() == old(session).delegate_view(),
            committed == (old(cell_state)@ is Running),
            committed ==> {
                &&& final(cell_state)@ == CellStateView::Completed {
                    event: event@,
                    pending_yield: content_option(pending_yield_items),
                }
                &&& final(session)@ == (SessionView {
                    stored_values: old(session)@.stored_values.union_prefer_right(
                        as_map(stored_value_writes@),
                    ),
                    ..old(session)@
                })
                &&& final(session)@ == values_stored(old(session)@, as_map(stored_value_writes@))
            },
            !committed ==> final(cell_state)@ == old(cell_state)@ && final(session)@
                == old(session)@,
            follows(old(session)@, final(session)@),
    {
        let committed = cell_state.commit_completion(event, pending_yield_items);
        if committed {
            session.stored_values.extend(stored_value_writes);
        }
        committed
    }

    /// The cell is gone.
    pub fn closed<D, H>(&self, session: &mut SessionRuntime<D, H>)
        requires
            old(session).wf(),
        ensures
            final(session).wf(),
            final(session).delegate_view() == old(session).delegate_view(),
            final(session)@ == (SessionView {
                cells: old(session)@.cells.remove(self.cell_id@),
                ..old(session)@
            }),
            names_given_out(old(session)@) ==> names_given_out(final(session)@),
            follows(old(session)@, final(session)@),
    {
        let ghost before = session@;
        let _ = session.cells.remove(self.cell_id.text.as_str());
        proof {
            let after = session@;
            assert forall|name: Seq<char>| #[trigger]
                after.cells.contains_key(name) && names_given_out(before) implies exists|number: nat|
                number < after.next_cell_id && name == #[trigger] decimal(number) by {
                assert(before.cells.contains_key(name));
            }
        }
    }
}

// What holds of every session.

/// Whether every cell has a name that was given out before, and none was given out twice.
pub open spec fn names_given_out<H>(session: SessionView<H>) -> bool {
    forall|name: Seq<char>| #[trigger]
        session.cells.contains_key(name) ==> exists|number: nat|
            number < session.next_cell_id && name == #[trigger] decimal(number)
}

/// As long as the numbers last, the name that is given out next is not one of a cell, so no cell
/// is refused as a duplicate, and the same holds after its admission.
pub proof fn cells_have_names_of_their_own<H>(
    before: SessionView<H>,
    begun: Result<CellId, Error>,
    between: SessionView<H>,
)
    requires
        names_given_out(before),
        !before.shutting_down,
        before.next_cell_id < u64::MAX,
        creation_begun(before, begun, between),
    ensures
        begun is Ok,
        !between.cells.contains_key(begun->Ok_0@),
        forall|handle: H|
            names_given_out(
                SessionView {
                    cells: #[trigger] between.cells.insert(begun->Ok_0@, handle),
                    ..between
                },
            ),
{
    let name = begun->Ok_0@;
    if between.cells.contains_key(name) {
        let number = choose|number: nat|
            number < before.next_cell_id && name == #[trigger] decimal(number);
        decimal_injective(number, before.next_cell_id as nat);
    }
    assert forall|handle: H|
        names_given_out(
            SessionView { cells: #[trigger] between.cells.insert(name, handle), ..between },
        ) by {
        let after = SessionView { cells: between.cells.insert(name, handle), ..between };
        assert forall|other: Seq<char>| #[trigger]
            after.cells.contains_key(other) implies exists|number: nat|
            number < after.next_cell_id && other == #[trigger] decimal(number) by {
            if other == name {
                assert(other == decimal(before.next_cell_id as nat));
            } else {
                assert(before.cells.contains_key(other));
                let number = choose|number: nat|
                    number < before.next_cell_id && other == #[trigger] decimal(number);
                assert(number < after.next_cell_id && other == decimal(number));
            }
        }
    }
}

/// A session that is about to end admits no cell any more, not even one that was given its name
/// before, and stays about to end.
pub proof fn shutdown_admits_no_cell<
    H,
    P: FnOnce(&CellId, &SortedMap<JsonValue>) -> Result<H, String>,
>(
    before: SessionView<H>,
    cell_id: Seq<char>,
    prepare: P,
    result: Result<(), Error>,
    after: SessionView<H>,
)
    requires
        before.shutting_down,
        admission(before, cell_id, prepare, result, after),
    ensures
        result is Err,
        result->Err_0@ == ErrorView::ShuttingDown,
        after == before,
{
}

/// Whether these are states of a session, each after one more operation.
pub open spec fn session_run<H>(states: Seq<SessionView<H>>) -> bool
    decreases states.len(),
{
    states.len() > 0 && (states.len() > 1 ==> session_run(states.drop_last()) && follows(
        states[states.len() - 2],
        states.last(),
    ))
}

/// A session that is about to end stays so, whatever operations follow: it has no cell that it did
/// not have, gives out no name, and waits for no further task.
pub proof fn ending_session_stays_so<H>(states: Seq<SessionView<H>>)
    requires
        session_run(states),
        states[0].shutting_down,
    ensures
        states.last().shutting_down,
        states[0].tasks_closed ==> states.last().tasks_closed,
        states.last().next_cell_id == states[0].next_cell_id,
        forall|name: Seq<char>| #[trigger]
            states.last().cells.contains_key(name) ==> states[0].cells.contains_key(name)
                && states.last().cells[name] == states[0].cells[name],
    decreases states.len(),
{
    if states.len() > 1 {
        let before = states.drop_last();
        assert(before.last() == states[states.len() - 2]);
        assert(before[0] == states[0]);
        ending_session_stays_so(before);
        assert forall|name: Seq<char>| #[trigger]
            states.last().cells.contains_key(name) implies states[0].cells.contains_key(name)
            && states.last().cells[name] == states[0].cells[name] by {
            assert(before.last().cells.contains_key(name));
        }
    }
}

/// Cells come and go without regard to each other: admitting or closing one leaves the handles of
/// the others alone.
pub proof fn other_cells_are_left_alone<
    H,
    P: FnOnce(&CellId, &SortedMap<JsonValue>) -> Result<H, String>,
>(
    before: SessionView<H>,
    cell_id: Seq<char>,
    prepare: P,
    result: Result<(), Error>,
    after: SessionView<H>,
    other: Seq<char>,
)
    requires
        admission(before, cell_id, prepare, result, after),
        other != cell_id,
    ensures
        after.cells.contains_key(other) == before.cells.contains_key(other),
        before.cells.contains_key(other) ==> after.cells[other] == before.cells[other],
        after.stored_values == before.stored_values,
        after.next_cell_id == before.next_cell_id,
{
}

/// Names are the numerals of a count that goes up by one: each creation gives out the next, and changes
/// nothing else. After the last number comes zero.
pub proof fn names_count_up<H>(
    before: SessionView<H>,
    first: Result<CellId, Error>,
    between: SessionView<H>,
    second: Result<CellId, Error>,
    after: SessionView<H>,
)
    requires
        !before.shutting_down,
        creation_begun(before, first, between),
        creation_begun(between, second, after),
    ensures
        first is Ok && second is Ok,
        first->Ok_0@ == decimal(before.next_cell_id as nat),
        before.next_cell_id < u64::MAX ==> second->Ok_0@ == decimal(
            before.next_cell_id as nat + 1,
        ),
        before.next_cell_id == u64::MAX ==> second->Ok_0@ == decimal(0),
        between.next_cell_id == (before.next_cell_id + 1) % 0x1_0000_0000_0000_0000,
        between.cells == before.cells,
        between.stored_values == before.stored_values,
        between.shutting_down == before.shutting_down,
        between.tasks_closed == before.tasks_closed,
{
}

/// A session that is about to end gives out no name and says so.
pub proof fn shutdown_gives_out_no_name<H>(
    before: SessionView<H>,
    result: Result<CellId, Error>,
    after: SessionView<H>,
)
    requires
        before.shutting_down,
        creation_begun(before, result, after),
    ensures
        result is Err,
        result->Err_0 is ShuttingDown,
        after == before,
{
}

/// A cell is admitted just if it was prepared, with its own name and the values stored so far: the
/// session has it under that name then, with the handle that preparing gave. What preparing says
/// otherwise is passed on, a name that is taken is refused, and neither changes anything.
pub proof fn prepared_cells_are_admitted<
    H,
    P: FnOnce(&CellId, &SortedMap<JsonValue>) -> Result<H, String>,
>(
    before: SessionView<H>,
    cell_id: Seq<char>,
    prepare: P,
    result: Result<(), Error>,
    after: SessionView<H>,
)
    requires
        !before.shutting_down,
        admission(before, cell_id, prepare, result, after),
    ensures
        before.cells.contains_key(cell_id) ==> {
            &&& result is Err
            &&& result->Err_0 is DuplicateCell
            &&& result->Err_0->DuplicateCell_0.text@ == cell_id
            &&& after == before
        },
        !before.cells.contains_key(cell_id) && result is Ok ==> {
            &&& after.cells.contains_key(cell_id)
            &&& exists|name: CellId, values: SortedMap<JsonValue>|
                #![trigger call_ensures(prepare, (&name, &values), Ok::<H, String>(after.cells[cell_id]))]
                name.text@ == cell_id && as_map(values@) == before.stored_values && call_ensures(
                    prepare,
                    (&name, &values),
                    Ok::<H, String>(after.cells[cell_id]),
                )
            &&& after.stored_values == before.stored_values
            &&& !after.shutting_down
            &&& after.tasks_closed == before.tasks_closed
            &&& after.next_cell_id == before.next_cell_id
        },
        !before.cells.contains_key(cell_id) && result is Err ==> {
            &&& result->Err_0 is Runtime
            &&& exists|name: CellId, values: SortedMap<JsonValue>, reason: String|
                #![trigger call_ensures(prepare, (&name, &values), Err::<H, String>(reason))]
                name.text@ == cell_id && as_map(values@) == before.stored_values && call_ensures(
                    prepare,
                    (&name, &values),
                    Err::<H, String>(reason),
                ) && result->Err_0->Runtime_0@ == reason@
            &&& after == before
        },
{
    if !before.cells.contains_key(cell_id) && result is Ok {
        let (name, values, prepared) = choose|
            name: CellId,
            values: SortedMap<JsonValue>,
            prepared: Result<H, String>,
        |
            #![trigger call_ensures(prepare, (&name, &values), prepared)]
            {
                &&& name@ == cell_id
                &&& as_map(values@) == before.stored_values
                &&& call_ensures(prepare, (&name, &values), prepared)
                &&& prepared is Ok
                &&& after == SessionView {
                    cells: before.cells.insert(cell_id, prepared->Ok_0),
                    ..before
                }
            };
        assert(prepared == Ok::<H, String>(after.cells[cell_id]));
        assert(call_ensures(prepare, (&name, &values), Ok::<H, String>(after.cells[cell_id])));
    }
}

/// A cell that was created goes by the name that was given out for it, and the session has it under that
/// name. One that was not leaves the session as it was once the name was out.
pub proof fn created_cells_go_by_their_name<
    H,
    P: FnOnce(&CellId, &SortedMap<JsonValue>) -> Result<H, String>,
>(
    between: SessionView<H>,
    cell_id: Seq<char>,
    prepare: P,
    result: Result<CellId, Error>,
    after: SessionView<H>,
)
    requires
        created(between, cell_id, prepare, result, after),
    ensures
        match result {
            Ok(name) => name.text@ == cell_id && after.cells.contains_key(cell_id)
                && !between.shutting_down && !between.cells.contains_key(cell_id),
            Err(_) => after == between,
        },
{
}

/// A session passes on what a cell says, unchanged, and a refusal of the cell with the cell's name.
pub proof fn answers_of_cells_are_passed_on<I>(cell_id: Seq<char>, event: CellEventView<I>)
    ensures
        relayed(cell_id, Ok(event)) == Ok::<CellEventView<I>, ErrorView>(event),
        relayed::<I>(cell_id, Err(CellError::Busy)) == Err::<CellEventView<I>, ErrorView>(
            ErrorView::BusyObserver(cell_id),
        ),
        relayed::<I>(cell_id, Err(CellError::AlreadyTerminating)) == Err::<
            CellEventView<I>,
            ErrorView,
        >(ErrorView::AlreadyTerminating(cell_id)),
        relayed::<I>(cell_id, Err(CellError::Closed)) == Err::<CellEventView<I>, ErrorView>(
            ErrorView::ClosedCell(cell_id),
        ),
        cell_refusal(cell_id, CellError::Busy) == ErrorView::BusyObserver(cell_id),
        cell_refusal(cell_id, CellError::AlreadyTerminating) == ErrorView::AlreadyTerminating(
            cell_id,
        ),
        cell_refusal(cell_id, CellError::Closed) == ErrorView::ClosedCell(cell_id),
{
}

/// Contracts see an answer of a session as it is: the event, or the refusal and the cell that it names.
pub proof fn session_answers_are_seen_as_they_are<I>(result: Result<CellEvent<I>, Error>)
    ensures
        match result {
            Ok(event) => session_answer(result) == Ok::<CellEventView<I>, ErrorView>(event@),
            Err(error) => {
                &&& session_answer(result) == Err::<CellEventView<I>, ErrorView>(error@)
                &&& error@ == match error {
                    Error::ShuttingDown => ErrorView::ShuttingDown,
                    Error::MissingCell(cell_id) => ErrorView::MissingCell(cell_id.text@),
                    Error::DuplicateCell(cell_id) => ErrorView::DuplicateCell(cell_id.text@),
                    Error::Runtime(reason) => ErrorView::Runtime(reason@),
                    Error::BusyObserver(cell_id) => ErrorView::BusyObserver(cell_id.text@),
                    Error::AlreadyTerminating(cell_id) => ErrorView::AlreadyTerminating(
                        cell_id.text@,
                    ),
                    Error::ClosedCell(cell_id) => ErrorView::ClosedCell(cell_id.text@),
                }
            },
        },
{
}

/// Of values stored under one name the one that was stored last counts. Values under other names are
/// kept, and nothing but values changes.
pub proof fn last_stored_value_counts<H>(
    session: SessionView<H>,
    first: Map<Seq<char>, JsonValue>,
    second: Map<Seq<char>, JsonValue>,
    name: Seq<char>,
)
    ensures
        ({
            let after = values_stored(values_stored(session, first), second);
            &&& after.stored_values.contains_key(name) <==> second.contains_key(name)
                || first.contains_key(name) || session.stored_values.contains_key(name)
            &&& second.contains_key(name) ==> after.stored_values[name] == second[name]
            &&& !second.contains_key(name) && first.contains_key(name)
                ==> after.stored_values[name] == first[name]
            &&& !second.contains_key(name) && !first.contains_key(name)
                && session.stored_values.contains_key(name) ==> after.stored_values[name]
                == session.stored_values[name]
            &&& after.cells == session.cells
            &&& after.shutting_down == session.shutting_down
            &&& after.tasks_closed == session.tasks_closed
            &&& after.next_cell_id == session.next_cell_id
        }),
{
}

}
