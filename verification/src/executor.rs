//! The executor's bookkeeping: the table of live terminals, the events a
//! task gives rise to, and what the reader of a task's output does with
//! each thing it reads.

use crate::pty::ExitResult;
use crate::pty::LineRead;
use crate::pty::PtyError;
use crate::pty::PtyState;
use crate::pty::RawRead;
use crate::strmap::StrMap;
use crate::text::chars_of;
use crate::text::owned;
use crate::text::push_signed;
use crate::text::push_str;
use crate::text::signed_decimal;
use crate::text::string_of;
use vstd::prelude::*;

verus! {

/// What happened to a task.
#[derive(Debug)]
pub enum TaskEvent {
    Started { task_id: String },
    Output { task_id: String, line: String },
    Completed { task_id: String, exit_code: i32 },
    Failed { task_id: String, error: String },
}

/// A task event with its texts as sequences of characters.
pub ghost enum EventView {
    Started { task_id: Seq<char> },
    Output { task_id: Seq<char>, line: Seq<char> },
    Completed { task_id: Seq<char>, exit_code: int },
    Failed { task_id: Seq<char>, error: Seq<char> },
}

impl EventView {
    /// The id of the task that the event is about.
    pub open spec fn id(self) -> Seq<char> {
        match self {
            EventView::Started { task_id } => task_id,
            EventView::Output { task_id, .. } => task_id,
            EventView::Completed { task_id, .. } => task_id,
            EventView::Failed { task_id, .. } => task_id,
        }
    }

    /// Whether the event ends its task.
    pub open spec fn is_terminal(self) -> bool {
        self is Completed || self is Failed
    }
}

impl View for TaskEvent {
    type V = EventView;

    open spec fn view(&self) -> EventView {
        match self {
            TaskEvent::Started { task_id } => EventView::Started { task_id: task_id@ },
            TaskEvent::Output { task_id, line } => EventView::Output { task_id: task_id@, line: line@ },
            TaskEvent::Completed { task_id, exit_code } => EventView::Completed {
                task_id: task_id@,
                exit_code: *exit_code as int,
            },
            TaskEvent::Failed { task_id, error } => EventView::Failed { task_id: task_id@, error: error@ },
        }
    }
}

impl TaskEvent {
    /// The id of the task that the event is about.
    pub fn task_id(&self) -> (id: &String)
        ensures
            id@ == self@.id(),
    {
        match self {
            TaskEvent::Started { task_id } => task_id,
            TaskEvent::Output { task_id, .. } => task_id,
            TaskEvent::Completed { task_id, .. } => task_id,
            TaskEvent::Failed { task_id, .. } => task_id,
        }
    }

    /// Whether the event ends its task.
    pub fn is_terminal(&self) -> (b: bool)
        ensures
            b == self@.is_terminal(),
    {
        match self {
            TaskEvent::Completed { .. } => true,
            TaskEvent::Failed { .. } => true,
            _ => false,
        }
    }
}

/// What one round of a task's reader met.
#[derive(Debug)]
pub enum ReadOutcome {
    /// A line of output; empty where nothing was there yet.
    Line(String),
    /// The end of the output, with the exit code that the child gave when
    /// it was asked then; none while the child has not ended yet.
    Eof { exit_code: Option<i32> },
    /// The read failed, with the reason.
    ReadError(String),
    /// The output has ended and asking the child for its exit code
    /// failed, with the reason.
    WaitError(String),
    /// The worker that was to do the read failed, with the reason.
    WorkerError(String),
}

/// A read outcome with its texts as sequences of characters.
pub ghost enum OutcomeView {
    Line(Seq<char>),
    Eof { exit_code: Option<int> },
    ReadError(Seq<char>),
    WaitError(Seq<char>),
    WorkerError(Seq<char>),
}

impl View for ReadOutcome {
    type V = OutcomeView;

    open spec fn view(&self) -> OutcomeView {
        match self {
            ReadOutcome::Line(line) => OutcomeView::Line(line@),
            ReadOutcome::Eof { exit_code } => OutcomeView::Eof {
                exit_code: match exit_code {
                    Some(code) => Some(*code as int),
                    None => None,
                },
            },
            ReadOutcome::ReadError(reason) => OutcomeView::ReadError(reason@),
            ReadOutcome::WaitError(reason) => OutcomeView::WaitError(reason@),
            ReadOutcome::WorkerError(reason) => OutcomeView::WorkerError(reason@),
        }
    }
}

impl ReadOutcome {
    /// The outcome that a read of the terminal stands for. `wait` is what
    /// came of asking the child for its exit code without waiting: the
    /// code, nothing while the child still runs, or the reason why the
    /// child could not be asked. It is looked at only where the read met
    /// the end of the output.
    pub fn of_read(read: LineRead, wait: Result<Option<i32>, String>) -> (outcome: Self)
        ensures
            outcome@ == match read {
                LineRead::Line(line) => OutcomeView::Line(line@),
                LineRead::End => match wait {
                    Ok(Some(code)) => OutcomeView::Eof { exit_code: Some(code as int) },
                    Ok(None) => OutcomeView::Eof { exit_code: None },
                    Err(reason) => OutcomeView::WaitError(reason@),
                },
                LineRead::Failed(reason) => OutcomeView::ReadError(reason@),
            },
    {
        match read {
            LineRead::Line(line) => ReadOutcome::Line(line),
            LineRead::End => match wait {
                Ok(exit_code) => ReadOutcome::Eof { exit_code },
                Err(reason) => ReadOutcome::WaitError(reason),
            },
            LineRead::Failed(reason) => ReadOutcome::ReadError(reason),
        }
    }
}

/// The message of the failure of a process that ended with `code`.
pub open spec fn exit_message(code: int) -> Seq<char> {
    "process exited with code "@ + signed_decimal(code)
}

/// The message of the failure of a worker.
pub open spec fn worker_message(reason: Seq<char>) -> Seq<char> {
    "internal error: "@ + reason
}

/// The event that the reader of the task `id` emits on `outcome`, if it
/// emits one. A line that is not empty is passed on as output. At the end
/// of the output the exit code that was read decides: zero is a
/// completion, anything else a failure. Without an exit code nothing is
/// emitted: the task has not ended as far as is known. A failed read, a
/// child that cannot be asked and a failed worker are failures.
pub open spec fn event_on(id: Seq<char>, outcome: OutcomeView) -> Option<EventView> {
    match outcome {
        OutcomeView::Line(line) => if line.len() > 0 {
            Some(EventView::Output { task_id: id, line })
        } else {
            None
        },
        OutcomeView::Eof { exit_code } => match exit_code {
            Some(code) => if code == 0 {
                Some(EventView::Completed { task_id: id, exit_code: 0 })
            } else {
                Some(EventView::Failed { task_id: id, error: exit_message(code) })
            },
            None => None,
        },
        OutcomeView::ReadError(reason) => Some(EventView::Failed { task_id: id, error: reason }),
        OutcomeView::WaitError(reason) => Some(EventView::Failed { task_id: id, error: reason }),
        OutcomeView::WorkerError(reason) => Some(
            EventView::Failed { task_id: id, error: worker_message(reason) },
        ),
    }
}

/// Whether the reader stops after `outcome`: after a failure, and after
/// the end of the output once the exit code of the child is known. After
/// a line it reads on, and at the end of the output it asks again while
/// the child has given no exit code.
pub open spec fn stops_on(outcome: OutcomeView) -> bool {
    match outcome {
        OutcomeView::Line(_) => false,
        OutcomeView::Eof { exit_code } => exit_code is Some,
        _ => true,
    }
}

/// A completion is emitted for an exit code of zero that was read at the
/// end of the output, and for nothing else; and whenever the reader
/// stops, it emits the event that ends the task.
pub proof fn lemma_completed_on_zero_only(id: Seq<char>, outcome: OutcomeView)
    ensures
        event_on(id, outcome) matches Some(EventView::Completed { .. }) <==> outcome == (OutcomeView::Eof {
            exit_code: Some(0int),
        }),
        stops_on(outcome) <==> (event_on(id, outcome) matches Some(event) && event.is_terminal()),
{
}

/// What the reader does after one round.
#[derive(Debug)]
pub struct ReaderStep {
    /// The event to put on the bus, if any.
    pub event: Option<TaskEvent>,
    /// Whether the reader stops and the task's terminal leaves the table.
    pub done: bool,
}

/// What the reader of the task `task_id` does on `outcome`: the event it
/// emits, if any, and whether it stops.
pub fn reader_step(task_id: &str, outcome: ReadOutcome) -> (step: ReaderStep)
    ensures
        step.done == stops_on(outcome@),
        match step.event {
            Some(event) => event_on(task_id@, outcome@) == Some(event@),
            None => event_on(task_id@, outcome@) is None,
        },
{
    match outcome {
        ReadOutcome::Line(line) => {
            if line.as_str().unicode_len() > 0 {
                ReaderStep {
                    event: Some(TaskEvent::Output { task_id: owned(task_id), line }),
                    done: false,
                }
            } else {
                ReaderStep { event: None, done: false }
            }
        },
        ReadOutcome::Eof { exit_code } => match exit_code {
            Some(code) => {
                if code == 0 {
                    ReaderStep {
                        event: Some(TaskEvent::Completed { task_id: owned(task_id), exit_code: 0 }),
                        done: true,
                    }
                } else {
                    let mut text = chars_of("process exited with code ");
                    push_signed(&mut text, code as i64);
                    ReaderStep {
                        event: Some(
                            TaskEvent::Failed { task_id: owned(task_id), error: string_of(&text) },
                        ),
                        done: true,
                    }
                }
            },
            None => ReaderStep { event: None, done: false },
        },
        ReadOutcome::ReadError(reason) => ReaderStep {
            event: Some(TaskEvent::Failed { task_id: owned(task_id), error: reason }),
            done: true,
        },
        ReadOutcome::WaitError(reason) => ReaderStep {
            event: Some(TaskEvent::Failed { task_id: owned(task_id), error: reason }),
            done: true,
        },
        ReadOutcome::WorkerError(reason) => {
            let mut text = chars_of("internal error: ");
            push_str(&mut text, reason.as_str());
            ReaderStep {
                event: Some(TaskEvent::Failed { task_id: owned(task_id), error: string_of(&text) }),
                done: true,
            }
        },
    }
}

/// The events that the reader of the task `id` emits while it meets
/// `outcomes` one after the other, up to the outcome on which it stops.
pub open spec fn reader_events(id: Seq<char>, outcomes: Seq<OutcomeView>) -> Seq<EventView>
    decreases outcomes.len(),
{
    if outcomes.len() == 0 {
        Seq::empty()
    } else {
        let now = match event_on(id, outcomes[0]) {
            Some(event) => seq![event],
            None => Seq::empty(),
        };
        if stops_on(outcomes[0]) {
            now
        } else {
            now + reader_events(id, outcomes.drop_first())
        }
    }
}

/// All events of the task `id`: the start, then what its reader emits.
pub open spec fn task_events(id: Seq<char>, outcomes: Seq<OutcomeView>) -> Seq<EventView> {
    seq![EventView::Started { task_id: id }] + reader_events(id, outcomes)
}

/// The reader's events are about its task, are outputs but for the last,
/// and the last is the only one that may end the task.
pub proof fn lemma_reader_events(id: Seq<char>, outcomes: Seq<OutcomeView>)
    ensures
        forall|i: int|
            0 <= i < reader_events(id, outcomes).len() ==> {
                let event = #[trigger] reader_events(id, outcomes)[i];
                &&& event.id() == id
                &&& !(event is Started)
                &&& event.is_terminal() ==> i == reader_events(id, outcomes).len() - 1
                &&& i < reader_events(id, outcomes).len() - 1 ==> event is Output
            },
    decreases outcomes.len(),
{
    if outcomes.len() > 0 {
        lemma_reader_events(id, outcomes.drop_first());
        let rest = reader_events(id, outcomes.drop_first());
        let all = reader_events(id, outcomes);
        if !stops_on(outcomes[0]) {
            match event_on(id, outcomes[0]) {
                Some(event) => {
                    assert(all =~= seq![event] + rest);
                    assert forall|i: int| 0 <= i < all.len() implies {
                        let e = #[trigger] all[i];
                        &&& e.id() == id
                        &&& !(e is Started)
                        &&& e.is_terminal() ==> i == all.len() - 1
                        &&& i < all.len() - 1 ==> e is Output
                    } by {
                        if i > 0 {
                            assert(all[i] == rest[i - 1]);
                        }
                    }
                },
                None => {
                    assert(all =~= rest);
                },
            }
        }
    }
}

/// For each task the start comes first, outputs follow, and at most one
/// event ends the task, which is then the last event of the task.
pub proof fn lemma_event_order(id: Seq<char>, outcomes: Seq<OutcomeView>)
    ensures
        task_events(id, outcomes)[0] == (EventView::Started { task_id: id }),
        forall|i: int|
            0 <= i < task_events(id, outcomes).len() ==> {
                let event = #[trigger] task_events(id, outcomes)[i];
                &&& event.id() == id
                &&& event is Started <==> i == 0
                &&& event.is_terminal() ==> i == task_events(id, outcomes).len() - 1
                &&& 0 < i < task_events(id, outcomes).len() - 1 ==> event is Output
            },
        forall|i: int, j: int|
            0 <= i < j < task_events(id, outcomes).len() ==> !(#[trigger] task_events(
                id,
                outcomes,
            )[i]).is_terminal() || !(#[trigger] task_events(id, outcomes)[j]).is_terminal(),
{
    lemma_reader_events(id, outcomes);
    let read = reader_events(id, outcomes);
    let all = task_events(id, outcomes);
    assert forall|i: int| 0 <= i < all.len() implies {
        let event = #[trigger] all[i];
        &&& event.id() == id
        &&& event is Started <==> i == 0
        &&& event.is_terminal() ==> i == all.len() - 1
        &&& 0 < i < all.len() - 1 ==> event is Output
    } by {
        if i > 0 {
            assert(all[i] == read[i - 1]);
        }
    }
}

/// A completion among the events of a reader comes of an exit code of
/// zero that was read at the end of the output.
pub proof fn lemma_completion_has_code(id: Seq<char>, outcomes: Seq<OutcomeView>, i: int)
    requires
        0 <= i < reader_events(id, outcomes).len(),
        reader_events(id, outcomes)[i] is Completed,
    ensures
        exists|k: int|
            0 <= k < outcomes.len() && #[trigger] outcomes[k] == (OutcomeView::Eof { exit_code: Some(0int) }),
    decreases outcomes.len(),
{
    let first = outcomes[0];
    let rest = outcomes.drop_first();
    lemma_completed_on_zero_only(id, first);
    let head = match event_on(id, first) {
        Some(event) => seq![event],
        None => Seq::empty(),
    };
    if i < head.len() {
        assert(outcomes[0] == (OutcomeView::Eof { exit_code: Some(0int) }));
    } else {
        assert(reader_events(id, outcomes)[i] == reader_events(id, rest)[i - head.len()]);
        lemma_completion_has_code(id, rest, i - head.len());
        let k = choose|k: int|
            0 <= k < rest.len() && #[trigger] rest[k] == (OutcomeView::Eof { exit_code: Some(0int) });
        assert(outcomes[k + 1] == rest[k]);
    }
}

/// Why the executor refused an operation.
#[derive(Debug)]
pub enum ExecError {
    /// No terminal is open for the task.
    NotRunning { task_id: String },
    /// The task's terminal refused.
    Pty(PtyError),
}

impl ExecError {
    /// What the error says.
    pub open spec fn message_text(&self) -> Seq<char> {
        match self {
            ExecError::NotRunning { task_id } => "Task "@ + task_id@ + " not running"@,
            ExecError::Pty(e) => e.message_text(),
        }
    }

    /// What the error says.
    pub fn message(&self) -> (s: String)
        ensures
            s@ == self.message_text(),
    {
        match self {
            ExecError::NotRunning { task_id } => {
                let mut out = chars_of("Task ");
                push_str(&mut out, task_id.as_str());
                push_str(&mut out, " not running");
                string_of(&out)
            },
            ExecError::Pty(e) => e.message(),
        }
    }
}

/// The table of the terminals of the tasks that run.
pub struct Executor {
    handles: StrMap<PtyState>,
}

impl Executor {
    /// The table, keyed by task id.
    pub closed spec fn table(&self) -> StrMap<PtyState> {
        self.handles
    }

    /// The table is a sound map.
    pub open spec fn wf(&self) -> bool {
        self.table().wf()
    }

    /// Whether a terminal is open for the task `id`.
    pub open spec fn live(&self, id: Seq<char>) -> bool {
        self.table().has(id)
    }

    /// A table without terminals.
    pub fn new() -> (e: Self)
        ensures
            e.wf(),
            forall|id: Seq<char>| !e.live(id),
    {
        Executor { handles: StrMap::new() }
    }

    /// Enters the terminal that was opened for the task `task_id` into the
    /// table, in place of an older one if there was one, and gives the
    /// event that announces the start.
    pub fn start_task(&mut self, task_id: &str) -> (event: TaskEvent)
        requires
            old(self).wf(),
        ensures
            final(self).wf(),
            event@ == (EventView::Started { task_id: task_id@ }),
            final(self).table().keys() == crate::strmap::put_key(old(self).table().keys(), task_id@),
            final(self).live(task_id@),
            final(self).table().at(task_id@).task_id() == task_id@,
            final(self).table().at(task_id@).lines().len() == 0,
            final(self).table().at(task_id@).reading(),
            final(self).table().at(task_id@).alive(),
            final(self).table().at(task_id@).writable(),
            forall|id: Seq<char>| id != task_id@ ==> final(self).live(id) == old(self).live(id),
            forall|id: Seq<char>|
                id != task_id@ && old(self).live(id) ==> final(self).table().at(id) == old(
                    self,
                ).table().at(id),
    {
        let fresh = PtyState::new(task_id);
        let former = self.handles.insert(owned(task_id), fresh);
        proof {
            let before = old(self).table();
            let after = self.table();
            if former is Some {
                let at = before.slot(task_id@);
                assert(before.keys().contains(task_id@));
                assert forall|id: Seq<char>| id != task_id@ && before.has(id) implies after.at(id)
                    == before.at(id) by {
                    assert(before.keys().contains(id));
                }
            } else {
                let last = before.keys().len() as int;
                after.lemma_slot(task_id@, last);
                assert forall|id: Seq<char>| id != task_id@ implies after.has(id) == before.has(id) by {
                    if after.has(id) {
                        let i = after.keys().index_of(id);
                        assert(before.keys()[i] == id);
                    }
                    if before.has(id) {
                        let i = before.keys().index_of(id);
                        assert(after.keys()[i] == id);
                    }
                }
                assert forall|id: Seq<char>| id != task_id@ && before.has(id) implies after.at(id)
                    == before.at(id) by {
                    let i = before.keys().index_of(id);
                    assert(before.keys().contains(id));
                    after.lemma_slot(id, i);
                }
            }
        }
        TaskEvent::Started { task_id: owned(task_id) }
    }

    /// Takes the terminal of the task `task_id` out of the table, as its
    /// reader does when it stops.
    pub fn finish_task(&mut self, task_id: &str) -> (former: Option<PtyState>)
        requires
            old(self).wf(),
        ensures
            final(self).wf(),
            !final(self).live(task_id@),
            former is Some <==> old(self).live(task_id@),
            former is Some ==> former->0 == old(self).table().at(task_id@),
            final(self).table().keys() == if old(self).live(task_id@) {
                old(self).table().keys().remove(old(self).table().slot(task_id@))
            } else {
                old(self).table().keys()
            },
            final(self).table().values() == if old(self).live(task_id@) {
                old(self).table().values().remove(old(self).table().slot(task_id@))
            } else {
                old(self).table().values()
            },
    {
        self.handles.remove(task_id)
    }

    /// Stops the task `task_id`: its terminal is closed and its child given
    /// up. Says whether a child has to be terminated. A task without a
    /// terminal is left alone. No event comes of it: the task's reader
    /// meets the end of the output and reports as ever.
    pub fn stop_task(&mut self, task_id: &str) -> (kill: bool)
        requires
            old(self).wf(),
        ensures
            final(self).wf(),
            final(self).table().keys() == old(self).table().keys(),
            kill == (old(self).live(task_id@) && old(self).table().at(task_id@).alive()),
            !old(self).live(task_id@) ==> final(self).table().values() == old(self).table().values(),
            old(self).live(task_id@) ==> {
                let at = old(self).table().slot(task_id@);
                let after = final(self).table().values()[at];
                &&& final(self).table().values() == old(self).table().values().update(at, after)
                &&& !after.alive()
                &&& !after.reading()
                &&& !after.writable()
                &&& after.task_id() == old(self).table().at(task_id@).task_id()
                &&& after.lines() == old(self).table().at(task_id@).lines()
            },
    {
        match self.handles.position(task_id) {
            Some(i) => {
                proof {
                    self.handles.lemma_slot(task_id@, i as int);
                }
                let (key, mut state) = self.handles.remove_at(i);
                let kill = state.kill();
                self.handles.insert_at(i, key, state);
                assert(self.table().keys() =~= old(self).table().keys());
                assert(self.table().values() =~= old(self).table().values().update(i as int, state));
                kill
            },
            None => false,
        }
    }

    /// What has to be written to the terminal of the task `task_id` to
    /// send `input`. Refused where the task has no terminal or the
    /// terminal's writing end is closed.
    pub fn send_input(&self, task_id: &str, input: &str) -> (r: Result<String, ExecError>)
        requires
            self.wf(),
        ensures
            match r {
                Ok(payload) => {
                    &&& self.live(task_id@)
                    &&& self.table().at(task_id@).writable()
                    &&& payload@ == input@.push('\n')
                },
                Err(ExecError::NotRunning { task_id: named }) => !self.live(task_id@) && named@
                    == task_id@,
                Err(ExecError::Pty(e)) => {
                    &&& self.live(task_id@)
                    &&& !self.table().at(task_id@).writable()
                    &&& e matches PtyError::MasterClosed { task_id: named }
                    &&& named@ == self.table().at(task_id@).task_id()
                },
            },
    {
        match self.handles.get(task_id) {
            Some(state) => match state.send_input(input) {
                Ok(payload) => Ok(payload),
                Err(e) => Err(ExecError::Pty(e)),
            },
            None => Err(ExecError::NotRunning { task_id: owned(task_id) }),
        }
    }

    /// The lines kept of the output of the task `task_id`; none where the
    /// task has no terminal.
    pub fn get_output(&self, task_id: &str) -> (lines: Vec<String>)
        requires
            self.wf(),
        ensures
            lines.deep_view() == if self.live(task_id@) {
                self.table().at(task_id@).lines()
            } else {
                Seq::empty()
            },
    {
        match self.handles.get(task_id) {
            Some(state) => state.get_output(),
            None => {
                let lines: Vec<String> = Vec::new();
                assert(lines.deep_view() =~= Seq::<Seq<char>>::empty());
                lines
            },
        }
    }

    /// Whether the terminal of the task `task_id` has to be read at all:
    /// the task has a terminal whose reading end is open.
    pub fn wants_read(&self, task_id: &str) -> (b: bool)
        requires
            self.wf(),
        ensures
            b == (self.live(task_id@) && self.table().at(task_id@).reading()),
    {
        match self.handles.get(task_id) {
            Some(state) => state.wants_read(),
            None => false,
        }
    }

    /// Takes in what a read from the terminal of the task `task_id` gave:
    /// the state of that terminal takes the read, and no other state
    /// changes. For a task without a terminal the output has ended, and
    /// nothing changes.
    pub fn on_read(&mut self, task_id: &str, raw: RawRead) -> (r: LineRead)
        requires
            old(self).wf(),
        ensures
            final(self).wf(),
            final(self).table().keys() == old(self).table().keys(),
            if old(self).live(task_id@) {
                let at = old(self).table().slot(task_id@);
                &&& final(self).table().values() == old(self).table().values().update(
                    at,
                    final(self).table().values()[at],
                )
                &&& PtyState::took_read(
                    &old(self).table().at(task_id@),
                    &final(self).table().values()[at],
                    raw,
                    r,
                )
            } else {
                r is End && final(self).table().values() == old(self).table().values()
            },
    {
        match self.handles.position(task_id) {
            Some(i) => {
                proof {
                    self.handles.lemma_slot(task_id@, i as int);
                }
                let (key, mut state) = self.handles.remove_at(i);
                let r = state.on_read(raw);
                self.handles.insert_at(i, key, state);
                assert(self.table().keys() =~= old(self).table().keys());
                assert(self.table().values() =~= old(self).table().values().update(i as int, state));
                r
            },
            None => LineRead::End,
        }
    }

    /// Whether the child of the task `task_id` has to be asked for its
    /// status at all: the task has a terminal that still holds its child.
    pub fn wants_wait(&self, task_id: &str) -> (b: bool)
        requires
            self.wf(),
        ensures
            b == (self.live(task_id@) && self.table().at(task_id@).alive()),
    {
        match self.handles.get(task_id) {
            Some(state) => state.wants_wait(),
            None => false,
        }
    }

    /// What the status of the child of the task `task_id` means, `polled`
    /// being what the child answered when asked without waiting. A child
    /// that is gone, or a task without a terminal, counts as ended with
    /// code -1.
    pub fn try_wait(&self, task_id: &str, polled: Option<u32>) -> (r: Option<ExitResult>)
        requires
            self.wf(),
        ensures
            r == if self.live(task_id@) && self.table().at(task_id@).alive() {
                PtyState::exit_of(polled)
            } else {
                Some(ExitResult { code: -1i32 })
            },
    {
        match self.handles.get(task_id) {
            Some(state) => state.try_wait(polled),
            None => Some(ExitResult { code: -1 }),
        }
    }

    /// Whether a terminal is open for the task `task_id`.
    pub fn is_running(&self, task_id: &str) -> (b: bool)
        requires
            self.wf(),
        ensures
            b == self.live(task_id@),
    {
        self.handles.contains_key(task_id)
    }

    /// Stops every task. Gives the ids of the tasks whose child has to be
    /// terminated, in the order of the table.
    pub fn stop_all(&mut self) -> (kill: Vec<String>)
        requires
            old(self).wf(),
        ensures
            final(self).wf(),
            final(self).table().keys() == old(self).table().keys(),
            forall|i: int|
                0 <= i < final(self).table().values().len() ==> {
                    let after = #[trigger] final(self).table().values()[i];
                    &&& !after.alive()
                    &&& !after.reading()
                    &&& !after.writable()
                    &&& after.task_id() == old(self).table().values()[i].task_id()
                    &&& after.lines() == old(self).table().values()[i].lines()
                },
            kill.deep_view() == Seq::new(
                old(self).table().keys().len(),
                |i: int| (old(self).table().keys()[i], old(self).table().values()[i].alive()),
            ).filter(|e: (Seq<char>, bool)| e.1).map_values(|e: (Seq<char>, bool)| e.0),
    {
        let mut kill: Vec<String> = Vec::new();
        let n = self.handles.len();
        let ghost marked = Seq::new(
            old(self).table().keys().len(),
            |i: int| (old(self).table().keys()[i], old(self).table().values()[i].alive()),
        );
        let ghost pick = |e: (Seq<char>, bool)| e.1;
        let ghost name = |e: (Seq<char>, bool)| e.0;
        let mut i: usize = 0;
        assert(marked.take(0) =~= Seq::empty());
        assert(marked.take(0).filter(pick).map_values(name) =~= Seq::empty()) by {
            reveal(Seq::filter);
        }
        assert(kill.deep_view() =~= Seq::empty());
        while i < n
            invariant
                self.wf(),
                i <= n,
                n == old(self).table().keys().len(),
                self.table().keys() == old(self).table().keys(),
                self.table().values().len() == n,
                marked == Seq::new(
                    old(self).table().keys().len(),
                    |i: int| (old(self).table().keys()[i], old(self).table().values()[i].alive()),
                ),
                pick == |e: (Seq<char>, bool)| e.1,
                name == |e: (Seq<char>, bool)| e.0,
                forall|j: int| i <= j < n ==> self.table().values()[j] == old(self).table().values()[j],
                forall|j: int|
                    0 <= j < i ==> {
                        let after = #[trigger] self.table().values()[j];
                        &&& !after.alive()
                        &&& !after.reading()
                        &&& !after.writable()
                        &&& after.task_id() == old(self).table().values()[j].task_id()
                        &&& after.lines() == old(self).table().values()[j].lines()
                    },
                kill.deep_view() == marked.take(i as int).filter(pick).map_values(name),
            decreases n - i,
        {
            let ghost before = self.table();
            let (key, mut state) = self.handles.remove_at(i);
            let had_child = state.kill();
            proof {
                assert(marked.take(i + 1) =~= marked.take(i as int).push(marked[i as int]));
                marked.take(i as int).lemma_filter_push(marked[i as int], pick);
            }
            if had_child {
                let ghost kept = kill.deep_view();
                kill.push(key.clone());
                assert(kill.deep_view() =~= kept.push(key@));
                assert(marked.take(i + 1).filter(pick).map_values(name) =~= marked.take(i as int).filter(
                    pick,
                ).map_values(name).push(key@));
            }
            self.handles.insert_at(i, key, state);
            assert(self.table().keys() =~= before.keys());
            assert(self.table().values() =~= before.values().update(i as int, state));
            i += 1;
        }
        assert(marked.take(n as int) =~= marked);
        kill
    }
}

} // verus!
