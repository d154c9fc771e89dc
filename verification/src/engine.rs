//! The driver's state and decisions: what to start next, and what each
//! event of a task does to the scheduler, to the output kept, to the
//! metrics, to their history and to the advisories.
//!
//! The driver itself, which spawns the commands and fetches the events,
//! is outside: it hands the events in and carries the orders out.

use crate::advisor::verdicts;
use crate::advisor::Advisory;
use crate::advisor::AdvisoryView;
use crate::advisor::SmartAdvisor;
use crate::commands::rendered;
use crate::commands::texts;
use crate::commands::TaskCommands;
use crate::executor::EventView;
use crate::executor::ExecError;
use crate::executor::Executor;
use crate::executor::TaskEvent;
use crate::graph::Graph;
use crate::graph::GraphTaskStatus;
use crate::history::format_eta;
use crate::history::time_left;
use crate::history::MetricSnapshot;
use crate::history::TaskMetricHistory;
use crate::metrics::TaskMetrics;
use crate::metrics::ValueView;
use crate::registry::ParserRegistry;
use crate::scheduler::Scheduler;
use crate::strmap::StrMap;
use crate::text::chars_of;
use crate::text::contains_text;
use crate::text::lowercased;
use crate::text::str_contains;
use crate::text::join_lines;
use crate::text::joined;
use crate::text::last_items;
use crate::text::owned;
use crate::text::push_capped;
use crate::text::push_str;
use crate::text::sorted_strings;
use crate::text::string_of;
use vstd::prelude::*;

verus! {

/// How many lines of output are kept for a task.
pub const MAX_APP_OUTPUT_LINES: usize = 2000;

/// How many of the last lines of output the parsers are shown.
pub const PARSE_WINDOW: usize = 20;

/// The order to start a task: its id and the command to run.
#[derive(Debug)]
pub struct StartOrder {
    pub task_id: String,
    pub command: String,
}

/// Why a semantic command could not be sent.
#[derive(Debug)]
pub enum CommandError {
    /// The task has no semantic commands.
    NoCommands { task_id: String },
    /// The task has no semantic command of that label.
    UnknownLabel { task_id: String, label: String },
    /// The executor refused.
    Exec(ExecError),
}

impl CommandError {
    /// What the error says.
    pub open spec fn message_text(&self) -> Seq<char> {
        match self {
            CommandError::NoCommands { task_id } => "No semantic commands for task "@ + task_id@,
            CommandError::UnknownLabel { task_id, label } => "Command '"@ + label@ + "' not found for task "@
                + task_id@,
            CommandError::Exec(e) => e.message_text(),
        }
    }

    /// What the error says.
    pub fn message(&self) -> (s: String)
        ensures
            s@ == self.message_text(),
    {
        match self {
            CommandError::NoCommands { task_id } => {
                let mut out = chars_of("No semantic commands for task ");
                push_str(&mut out, task_id.as_str());
                string_of(&out)
            },
            CommandError::UnknownLabel { task_id, label } => {
                let mut out = chars_of("Command '");
                push_str(&mut out, label.as_str());
                push_str(&mut out, "' not found for task ");
                push_str(&mut out, task_id.as_str());
                string_of(&out)
            },
            CommandError::Exec(e) => e.message(),
        }
    }
}

/// Whether a line of output, in lower case, shows that the task waits
/// for input: it holds one of the phrases that prompts are made of.
pub open spec fn asks_for_input(lower: Seq<char>) -> bool {
    ||| contains_text(lower, "press enter"@)
    ||| contains_text(lower, "press any key"@)
    ||| contains_text(lower, "y/n"@)
    ||| contains_text(lower, "[y/n]"@)
    ||| contains_text(lower, "(y/n)"@)
    ||| contains_text(lower, "continue?"@)
    ||| contains_text(lower, "proceed?"@)
    ||| contains_text(lower, "confirm"@)
    ||| contains_text(lower, "waiting for input"@)
    ||| contains_text(lower, "Enter your"@)
    ||| contains_text(lower, "Type your"@)
}

/// Whether `lower`, a line of output in lower case, shows that the task
/// waits for input.
pub fn is_prompt(lower: &str) -> (waiting: bool)
    ensures
        waiting == asks_for_input(lower@),
{
    str_contains(lower, "press enter") || str_contains(lower, "press any key") || str_contains(lower, "y/n")
        || str_contains(lower, "[y/n]") || str_contains(lower, "(y/n)") || str_contains(lower, "continue?")
        || str_contains(lower, "proceed?") || str_contains(lower, "confirm") || str_contains(
        lower,
        "waiting for input",
    ) || str_contains(lower, "Enter your") || str_contains(lower, "Type your")
}

/// Whether the line of output shows that the task waits for input. The
/// line is looked at in lower case.
pub fn check_waiting_input(line: &str) -> (waiting: bool)
    ensures
        waiting == asks_for_input(lowercased(line@)),
{
    let lower = line.to_lowercase();
    is_prompt(lower.as_str())
}

/// The index of the first colon of `s`, or the length of `s` where there
/// is none.
pub open spec fn colon_index(s: Seq<char>) -> int
    decreases s.len(),
{
    if s.len() == 0 {
        0
    } else if s[0] == ':' {
        0
    } else {
        1 + colon_index(s.drop_first())
    }
}

/// What stands in `s` before the first colon: the name of the project in
/// a namespaced id.
pub open spec fn project_part(s: Seq<char>) -> Seq<char> {
    s.take(colon_index(s))
}

/// What stands in `s` between the first colon and the second: the name
/// of the task in a namespaced id. All of `s` where it holds no colon.
pub open spec fn task_part(s: Seq<char>) -> Seq<char> {
    if colon_index(s) >= s.len() {
        s
    } else {
        project_part(s.skip(colon_index(s) + 1))
    }
}

fn first_colon(v: &Vec<char>, from: usize) -> (at: usize)
    requires
        from <= v.len(),
    ensures
        from <= at <= v.len(),
        at == from + colon_index(v@.skip(from as int)),
{
    let mut i: usize = from;
    while i < v.len() && v[i] != ':'
        invariant
            from <= i <= v.len(),
            colon_index(v@.skip(from as int)) == (i - from) + colon_index(v@.skip(i as int)),
        decreases v.len() - i,
    {
        assert(v@.skip(i as int).drop_first() =~= v@.skip(i + 1));
        assert(v@.skip(i as int)[0] == v@[i as int]);
        i += 1;
    }
    if i < v.len() {
        assert(v@.skip(i as int)[0] == v@[i as int]);
    }
    i
}

fn slice_text(v: &Vec<char>, from: usize, to: usize) -> (out: String)
    requires
        from <= to <= v.len(),
    ensures
        out@ == v@.subrange(from as int, to as int),
{
    let mut out: Vec<char> = Vec::new();
    let mut i: usize = from;
    while i < to
        invariant
            from <= i <= to <= v.len(),
            out@ == v@.subrange(from as int, i as int),
        decreases to - i,
    {
        out.push(v[i]);
        assert(out@ =~= v@.subrange(from as int, i + 1));
        i += 1;
    }
    string_of(&out)
}

/// The decimal metrics of `values`, in millionths, in order: a decimal as
/// it is, a whole number times a million, kept within the range of
/// `i64`. Other values have no place in the history.
pub open spec fn numeric_entries(keys: Seq<Seq<char>>, values: Seq<ValueView>, n: int) -> Seq<
    (Seq<char>, i64),
>
    decreases n,
{
    if n <= 0 {
        Seq::empty()
    } else {
        match values[n - 1] {
            ValueView::Decimal(v) => numeric_entries(keys, values, n - 1).push((keys[n - 1], v as i64)),
            ValueView::Int(v) => numeric_entries(keys, values, n - 1).push(
                (keys[n - 1], crate::metrics::clamped(v * 1_000_000) as i64),
            ),
            _ => numeric_entries(keys, values, n - 1),
        }
    }
}

/// The numeric metrics of `metrics`, for the history.
pub fn numeric_metrics(metrics: &TaskMetrics) -> (out: StrMap<i64>)
    requires
        metrics.wf(),
    ensures
        out.wf(),
        out.keys() == crate::strmap::stored_keys(
            numeric_entries(
                metrics.metrics.keys(),
                crate::metrics::value_views(&metrics.metrics),
                metrics.metrics.keys().len() as int,
            ),
            numeric_entries(
                metrics.metrics.keys(),
                crate::metrics::value_views(&metrics.metrics),
                metrics.metrics.keys().len() as int,
            ).len() as int,
        ),
        out.values() == crate::strmap::stored_values(
            numeric_entries(
                metrics.metrics.keys(),
                crate::metrics::value_views(&metrics.metrics),
                metrics.metrics.keys().len() as int,
            ),
            numeric_entries(
                metrics.metrics.keys(),
                crate::metrics::value_views(&metrics.metrics),
                metrics.metrics.keys().len() as int,
            ).len() as int,
        ),
{
    let n = metrics.metrics.len();
    let ghost keys = metrics.metrics.keys();
    let ghost values = crate::metrics::value_views(&metrics.metrics);
    let mut entries: Vec<(String, i64)> = Vec::new();
    let mut i: usize = 0;
    assert(crate::strmap::keyed(entries@) =~= numeric_entries(keys, values, 0));
    while i < n
        invariant
            metrics.wf(),
            n == metrics.metrics.keys().len(),
            keys == metrics.metrics.keys(),
            values == crate::metrics::value_views(&metrics.metrics),
            i <= n,
            crate::strmap::keyed(entries@) == numeric_entries(keys, values, i as int),
        decreases n - i,
    {
        let ghost before = crate::strmap::keyed(entries@);
        let value = metrics.metrics.value_at(i);
        assert(values[i as int] == value@);
        match value.as_decimal() {
            Some(v) => {
                entries.push((metrics.metrics.key_at(i).clone(), v));
                assert(crate::strmap::keyed(entries@) =~= before.push((keys[i as int], v)));
            },
            None => {},
        }
        i += 1;
    }
    StrMap::from_entries(entries)
}

/// The state of the driver.
pub struct Engine {
    scheduler: Scheduler,
    registry: ParserRegistry,
    advisor: SmartAdvisor,
    task_outputs: StrMap<Vec<String>>,
    task_metrics: StrMap<TaskMetrics>,
    metric_history: StrMap<TaskMetricHistory>,
    advisories: StrMap<Vec<Advisory>>,
    workspace_mode: bool,
}

impl Engine {
    /// The scheduler.
    pub closed spec fn scheduler_spec(&self) -> Scheduler {
        self.scheduler
    }

    /// The registry of parsers.
    pub closed spec fn registry_spec(&self) -> ParserRegistry {
        self.registry
    }

    /// The advisor.
    pub closed spec fn advisor_spec(&self) -> SmartAdvisor {
        self.advisor
    }

    /// The lines of output kept, by task.
    pub closed spec fn outputs(&self) -> StrMap<Vec<String>> {
        self.task_outputs
    }

    /// The metrics last read with content, by task.
    pub closed spec fn metrics(&self) -> StrMap<TaskMetrics> {
        self.task_metrics
    }

    /// The history of the metrics, by task.
    pub closed spec fn histories(&self) -> StrMap<TaskMetricHistory> {
        self.metric_history
    }

    /// The advisories last given, by task.
    pub closed spec fn advice(&self) -> StrMap<Vec<Advisory>> {
        self.advisories
    }

    /// Whether the ids of the tasks are namespaced by project.
    pub closed spec fn in_workspace(&self) -> bool {
        self.workspace_mode
    }

    /// The scheduler is sound, the tables are sound maps, and so is each of
    /// the metrics and histories kept.
    pub open spec fn wf(&self) -> bool {
        &&& self.scheduler_spec().wf()
        &&& self.outputs().wf()
        &&& self.metrics().wf()
        &&& self.histories().wf()
        &&& self.advice().wf()
        &&& forall|i: int| 0 <= i < self.metrics().values().len() ==> (#[trigger] self.metrics().values()[i]).wf()
        &&& forall|i: int|
            0 <= i < self.histories().values().len() ==> (#[trigger] self.histories().values()[i]).wf()
    }

    /// The state of a driver that has done nothing yet.
    pub fn new(graph: Graph, registry: ParserRegistry, workspace_mode: bool) -> (e: Self)
        requires
            graph.wf(),
        ensures
            e.wf(),
            e.scheduler_spec().graph_spec() == graph,
            e.scheduler_spec().running().len() == 0,
            e.registry_spec() == registry,
            e.advisor_spec().rules() == crate::advisor::builtin_rules(),
            e.in_workspace() == workspace_mode,
            e.outputs().keys().len() == 0,
            e.metrics().keys().len() == 0,
            e.histories().keys().len() == 0,
            e.advice().keys().len() == 0,
    {
        Engine {
            scheduler: Scheduler::new(graph),
            registry,
            advisor: SmartAdvisor::new(),
            task_outputs: StrMap::new(),
            task_metrics: StrMap::new(),
            metric_history: StrMap::new(),
            advisories: StrMap::new(),
            workspace_mode,
        }
    }

    /// The scheduler.
    pub fn scheduler(&self) -> (s: &Scheduler)
        ensures
            *s == self.scheduler_spec(),
    {
        &self.scheduler
    }

    /// Whether the ids of the tasks are namespaced by project.
    pub fn is_workspace(&self) -> (b: bool)
        ensures
            b == self.in_workspace(),
    {
        self.workspace_mode
    }

    /// The status that a task up for starting is given: in progress where
    /// it has a command to run, done at once where it has none.
    pub open spec fn status_on_start(task: crate::graph::Task) -> GraphTaskStatus {
        if task.command is Some {
            GraphTaskStatus::InProgress
        } else {
            GraphTaskStatus::Done
        }
    }

    /// Starts what is up for starting. Each task that is pending, with
    /// all it depends on done, and not running is dealt with: one with a
    /// command is marked as started and ordered to be started, one
    /// without is marked as done. Every other task is left as it is. The
    /// orders come in the order of the task table.
    pub fn start_ready_tasks(&mut self) -> (orders: Vec<StartOrder>)
        requires
            old(self).wf(),
        ensures
            final(self).wf(),
            final(self).registry_spec() == old(self).registry_spec(),
            final(self).advisor_spec() == old(self).advisor_spec(),
            final(self).outputs() == old(self).outputs(),
            final(self).metrics() == old(self).metrics(),
            final(self).histories() == old(self).histories(),
            final(self).advice() == old(self).advice(),
            final(self).in_workspace() == old(self).in_workspace(),
            final(self).scheduler_spec().graph_spec().metadata == old(
                self,
            ).scheduler_spec().graph_spec().metadata,
            final(self).scheduler_spec().graph_spec().nodes == old(self).scheduler_spec().graph_spec().nodes,
            final(self).scheduler_spec().graph_spec().tasks.keys() == old(
                self,
            ).scheduler_spec().graph_spec().tasks.keys(),
            final(self).scheduler_spec().graph_spec().tasks.values().len() == old(
                self,
            ).scheduler_spec().graph_spec().tasks.values().len(),
            forall|i: int|
                0 <= i < old(self).scheduler_spec().graph_spec().tasks.values().len() ==> {
                    let before = old(self).scheduler_spec().graph_spec().tasks.values()[i];
                    let id = old(self).scheduler_spec().graph_spec().tasks.keys()[i];
                    #[trigger] final(self).scheduler_spec().graph_spec().tasks.values()[i] == if old(
                        self,
                    ).scheduler_spec().schedulable(id) {
                        before.with_status(Self::status_on_start(before))
                    } else {
                        before
                    }
                },
            final(self).scheduler_spec().running() == old(self).scheduler_spec().running() + old(
                self,
            ).scheduler_spec().schedule().filter(
                |id: Seq<char>| old(self).scheduler_spec().graph_spec().tasks.at(id).command is Some,
            ),
            orders@.len() == old(self).scheduler_spec().schedule().filter(
                |id: Seq<char>| old(self).scheduler_spec().graph_spec().tasks.at(id).command is Some,
            ).len(),
            forall|k: int|
                0 <= k < orders@.len() ==> {
                    let id = old(self).scheduler_spec().schedule().filter(
                        |id: Seq<char>| old(self).scheduler_spec().graph_spec().tasks.at(id).command is Some,
                    )[k];
                    &&& (#[trigger] orders@[k]).task_id@ == id
                    &&& Some(orders@[k].command@) == crate::text::opt_text(
                        old(self).scheduler_spec().graph_spec().tasks.at(id).command,
                    )
                },
    {
        let ready = self.scheduler.schedule_next();
        let ghost pre = old(self).scheduler_spec();
        let ghost keys = pre.graph_spec().tasks.keys();
        let ghost ids = ready.deep_view();
        let ghost runs = |id: Seq<char>| pre.graph_spec().tasks.at(id).command is Some;
        proof {
            crate::scheduler::lemma_filter_distinct(keys, |id: Seq<char>| pre.schedulable(id));
        }
        let mut orders: Vec<StartOrder> = Vec::new();
        let mut k: usize = 0;
        assert(ids.take(0) =~= Seq::empty());
        assert(ids.take(0).filter(runs) =~= Seq::empty()) by {
            reveal(Seq::filter);
        }
        assert(self.scheduler_spec().running() =~= pre.running() + ids.take(0).filter(runs));
        while k < ready.len()
            invariant
                self.wf(),
                pre == old(self).scheduler_spec(),
                pre.wf(),
                keys == pre.graph_spec().tasks.keys(),
                ids == ready.deep_view(),
                ids == pre.schedule(),
                runs == |id: Seq<char>| pre.graph_spec().tasks.at(id).command is Some,
                forall|id: Seq<char>| ids.contains(id) <==> pre.schedulable(id),
                k <= ready.len(),
                self.registry_spec() == old(self).registry_spec(),
                self.advisor_spec() == old(self).advisor_spec(),
                self.outputs() == old(self).outputs(),
                self.metrics() == old(self).metrics(),
                self.histories() == old(self).histories(),
                self.advice() == old(self).advice(),
                self.in_workspace() == old(self).in_workspace(),
                self.scheduler_spec().graph_spec().metadata == pre.graph_spec().metadata,
                self.scheduler_spec().graph_spec().nodes == pre.graph_spec().nodes,
                self.scheduler_spec().graph_spec().tasks.keys() == keys,
                self.scheduler_spec().graph_spec().tasks.values().len() == keys.len(),
                forall|i: int|
                    0 <= i < keys.len() ==> {
                        let before = pre.graph_spec().tasks.values()[i];
                        #[trigger] self.scheduler_spec().graph_spec().tasks.values()[i] == if ids.take(
                            k as int,
                        ).contains(keys[i]) {
                            before.with_status(Self::status_on_start(before))
                        } else {
                            before
                        }
                    },
                ids.no_duplicates(),
                self.scheduler_spec().running() == pre.running() + ids.take(k as int).filter(runs),
                orders@.len() == ids.take(k as int).filter(runs).len(),
                forall|j: int|
                    0 <= j < orders@.len() ==> {
                        let id = ids.take(k as int).filter(runs)[j];
                        &&& (#[trigger] orders@[j]).task_id@ == id
                        &&& Some(orders@[j].command@) == crate::text::opt_text(
                            pre.graph_spec().tasks.at(id).command,
                        )
                    },
            decreases ready.len() - k,
        {
            let id = ready[k].as_str();
            let ghost now = self.scheduler_spec();
            let ghost at = keys.index_of(id@);
            proof {
                assert(ids[k as int] == id@);
                assert(ids.contains(id@));
                assert(pre.schedulable(id@));
                assert(keys.contains(id@));
                assert(ids.take(k + 1) =~= ids.take(k as int).push(id@));
                ids.take(k as int).lemma_filter_push(id@, runs);
                pre.graph_spec().tasks.lemma_slot(id@, at);
                now.graph_spec().tasks.lemma_slot(id@, at);
            }
            let command = match self.scheduler.graph().get_task(id) {
                Some(task) => crate::text::clone_opt(&task.command),
                None => None,
            };
            assert(crate::text::opt_text(command) == crate::text::opt_text(
                pre.graph_spec().tasks.at(id@).command,
            )) by {
                let seen = now.graph_spec().tasks.values()[at];
                let first = pre.graph_spec().tasks.values()[at];
                assert(seen == first || seen == first.with_status(Self::status_on_start(first)));
            }
            let status = match &command {
                Some(_) => GraphTaskStatus::InProgress,
                None => GraphTaskStatus::Done,
            };
            let marked = match status {
                GraphTaskStatus::InProgress => self.scheduler.mark_started(id),
                _ => self.scheduler.mark_done(id),
            };
            proof {
                assert(marked is Ok);
                let after = self.scheduler_spec();
                // the task has not been dealt with yet, so it is pending
                // still and the mark moves it
                assert(!ids.take(k as int).contains(id@)) by {
                    if ids.take(k as int).contains(id@) {
                        let j = ids.take(k as int).index_of(id@);
                        assert(ids[j] == ids[k as int]);
                    }
                }
                assert(now.graph_spec().tasks.values()[at] == pre.graph_spec().tasks.values()[at]);
                assert(now.graph_spec().status_of(id@) == GraphTaskStatus::Pending);
                assert(Scheduler::moved(&now, &after, id@, status));
                Scheduler::lemma_moved(&now, &after, id@, status);
                crate::scheduler::lemma_without(now.running(), id@);
                assert forall|i: int| 0 <= i < keys.len() implies {
                    let before = pre.graph_spec().tasks.values()[i];
                    #[trigger] after.graph_spec().tasks.values()[i] == if ids.take(k + 1).contains(keys[i]) {
                        before.with_status(Self::status_on_start(before))
                    } else {
                        before
                    }
                } by {
                    let before = pre.graph_spec().tasks.values()[i];
                    if i == at {
                        assert(ids.take(k + 1)[k as int] == id@);
                        assert(now.graph_spec().tasks.values()[i] == before || now.graph_spec().tasks.values()[i]
                            == before.with_status(Self::status_on_start(before)));
                    } else {
                        assert(keys[i] != id@);
                        assert(after.graph_spec().tasks.values()[i] == now.graph_spec().tasks.values()[i]);
                        if ids.take(k + 1).contains(keys[i]) {
                            let j = ids.take(k + 1).index_of(keys[i]);
                            assert(j < k);
                            assert(ids.take(k as int)[j] == keys[i]);
                        }
                        if ids.take(k as int).contains(keys[i]) {
                            let j = ids.take(k as int).index_of(keys[i]);
                            assert(ids.take(k + 1)[j] == keys[i]);
                        }
                    }
                }
                // the id is not running yet: it was not at first, and no
                // task was started twice
                let started = ids.take(k as int).filter(runs);
                crate::scheduler::lemma_filter_distinct(ids.take(k as int), runs);
                assert(ids.take(k as int).no_duplicates()) by {
                    assert forall|a: int, b: int|
                        0 <= a < k && 0 <= b < k && a != b implies ids.take(k as int)[a] != ids.take(
                        k as int,
                    )[b] by {
                        assert(ids[a] != ids[b]);
                    }
                }
                assert(!now.running().contains(id@)) by {
                    if now.running().contains(id@) {
                        let j = now.running().index_of(id@);
                        if j < pre.running().len() {
                            assert(pre.running()[j] == id@);
                            assert(pre.running().contains(id@));
                        } else {
                            assert(started[j - pre.running().len()] == id@);
                            assert(started.contains(id@));
                        }
                    }
                }
                if status == GraphTaskStatus::InProgress {
                    assert(after.running() =~= pre.running() + started.push(id@));
                } else {
                    assert(after.running() =~= pre.running() + started);
                }
            }
            match command {
                Some(text) => {
                    let ghost listed = orders@;
                    orders.push(StartOrder { task_id: ready[k].clone(), command: text });
                    assert forall|j: int| 0 <= j < orders@.len() implies {
                        let id = ids.take(k + 1).filter(runs)[j];
                        &&& (#[trigger] orders@[j]).task_id@ == id
                        &&& Some(orders@[j].command@) == crate::text::opt_text(
                            pre.graph_spec().tasks.at(id).command,
                        )
                    } by {
                        if j < listed.len() {
                            assert(orders@[j] == listed[j]);
                        }
                    }
                },
                None => {},
            }
            k += 1;
        }
        assert(ids.take(ready.len() as int) =~= ids);
        orders
    }

    /// Takes note that the command of the task `task_id` could not be
    /// started: the task is marked as failed, which leaves a task that
    /// has ended already as it is. Says whether the graph knows the task.
    pub fn on_spawn_failed(&mut self, task_id: &str) -> (known: bool)
        requires
            old(self).wf(),
        ensures
            final(self).wf(),
            known == old(self).scheduler_spec().graph_spec().tasks.has(task_id@),
            known ==> Scheduler::marked(
                &old(self).scheduler_spec(),
                &final(self).scheduler_spec(),
                task_id@,
                GraphTaskStatus::Failed,
            ),
            !known ==> final(self).scheduler_spec() == old(self).scheduler_spec(),
            final(self).registry_spec() == old(self).registry_spec(),
            final(self).advisor_spec() == old(self).advisor_spec(),
            final(self).outputs() == old(self).outputs(),
            final(self).metrics() == old(self).metrics(),
            final(self).histories() == old(self).histories(),
            final(self).advice() == old(self).advice(),
            final(self).in_workspace() == old(self).in_workspace(),
    {
        self.scheduler.mark_failed(task_id).is_ok()
    }
}

/// The lines of output kept, by task, as sequences of characters.
pub open spec fn line_views(outputs: &StrMap<Vec<String>>) -> Seq<Seq<Seq<char>>> {
    Seq::new(outputs.values().len(), |i: int| outputs.values()[i].deep_view())
}

/// The advisories given, by task, as views.
pub open spec fn advice_views(advice: &StrMap<Vec<Advisory>>) -> Seq<Seq<AdvisoryView>> {
    Seq::new(advice.values().len(), |i: int| advice.values()[i]@.map_values(|a: Advisory| a@))
}

/// The lines kept for a task after `line` came: the lines kept before
/// and the new one, of which the oldest leave once there are more than
/// two thousand.
pub open spec fn kept_lines(outputs: &StrMap<Vec<String>>, id: Seq<char>, line: Seq<char>) -> Seq<Seq<char>> {
    last_items(
        (if outputs.has(id) {
            outputs.at(id).deep_view()
        } else {
            Seq::empty()
        }).push(line),
        MAX_APP_OUTPUT_LINES as int,
    )
}

/// What the parsers are shown of the lines kept: the last twenty, joined
/// by line feeds.
pub open spec fn window_of(lines: Seq<Seq<char>>) -> Seq<char> {
    joined(crate::history::tail(lines, PARSE_WINDOW as int))
}

/// What the parsers are shown of `lines`.
fn window_text(lines: &Vec<String>) -> (window: String)
    ensures
        window@ == window_of(lines.deep_view()),
{
    let from: usize = if lines.len() > PARSE_WINDOW {
        lines.len() - PARSE_WINDOW
    } else {
        0
    };
    assert(crate::history::tail(lines.deep_view(), PARSE_WINDOW as int) =~= lines.deep_view().skip(
        from as int,
    ));
    join_lines(lines, from)
}

/// Whether the view of some metrics says nothing.
pub open spec fn says_nothing(m: crate::parsers::MetricsView) -> bool {
    m.progress == 0 && m.keys.len() == 0 && m.errors.len() == 0
}

/// Whether `snap` is the snapshot of `reading` at the time `now`: it
/// holds the progress and the numeric metrics of the reading.
pub open spec fn snapshot_of(snap: MetricSnapshot, reading: crate::parsers::MetricsView, now: u64) -> bool {
    let entries = numeric_entries(reading.keys, reading.values, reading.keys.len() as int);
    &&& snap.timestamp == now
    &&& snap.progress == reading.progress
    &&& snap.metrics.keys() == crate::strmap::stored_keys(entries, entries.len() as int)
    &&& snap.metrics.values() == crate::strmap::stored_values(entries, entries.len() as int)
}

impl Engine {
    /// The snapshots of the history of the task `id`; none where the
    /// task has no history.
    pub open spec fn snaps_of(&self, id: Seq<char>) -> Seq<MetricSnapshot> {
        if self.histories().has(id) {
            self.histories().at(id).snaps()
        } else {
            Seq::empty()
        }
    }

    /// The type of the task `id`, as the parsers are told it.
    pub open spec fn type_of(&self, id: Seq<char>) -> Option<Seq<char>> {
        if self.scheduler_spec().graph_spec().tasks.has(id) {
            Some(self.scheduler_spec().graph_spec().tasks.at(id).task_type@)
        } else {
            None
        }
    }

    /// What the parsers read off the output of the task `id` once `line`
    /// has come.
    pub open spec fn reading_after(&self, id: Seq<char>, line: Seq<char>) -> crate::parsers::MetricsView {
        crate::registry::dispatched(
            self.registry_spec().parsers(),
            self.type_of(id),
            window_of(kept_lines(&self.outputs(), id, line)),
        )
    }

    /// Whether `post` is `pre` after the line `line` of the task `id` was
    /// taken in at the time `now`. The line joins the lines kept for the
    /// task. The parsers are shown the last lines; where they read
    /// something, the reading becomes the metrics of the task, is handed
    /// to the history of the task, which is begun if there is none, and
    /// is put before the advisor, whose advisories, if it gives any,
    /// become those of the task. Where the parsers read nothing, all
    /// that stays as it was.
    pub open spec fn took_line(pre: &Engine, post: &Engine, id: Seq<char>, line: Seq<char>, now: u64) -> bool {
        let reading = pre.reading_after(id, line);
        &&& post.scheduler_spec() == pre.scheduler_spec()
        &&& post.registry_spec() == pre.registry_spec()
        &&& post.in_workspace() == pre.in_workspace()
        &&& post.outputs().keys() == crate::strmap::put_key(pre.outputs().keys(), id)
        &&& line_views(&post.outputs()) == crate::strmap::put_value(
            pre.outputs().keys(),
            line_views(&pre.outputs()),
            id,
            kept_lines(&pre.outputs(), id, line),
        )
        &&& if says_nothing(reading) {
            &&& post.metrics() == pre.metrics()
            &&& post.histories() == pre.histories()
            &&& post.advice() == pre.advice()
        } else {
            &&& post.metrics().keys() == crate::strmap::put_key(pre.metrics().keys(), id)
            &&& post.metrics().has(id)
            &&& crate::parsers::metrics_view(&post.metrics().at(id)) == reading
            &&& forall|i: int|
                0 <= i < pre.metrics().values().len() && pre.metrics().keys()[i] != id
                    ==> #[trigger] post.metrics().values()[i] == pre.metrics().values()[i]
            &&& post.histories().keys() == crate::strmap::put_key(pre.histories().keys(), id)
            &&& post.histories().has(id)
            &&& forall|i: int|
                0 <= i < pre.histories().values().len() && pre.histories().keys()[i] != id
                    ==> #[trigger] post.histories().values()[i] == pre.histories().values()[i]
            &&& exists|snap: MetricSnapshot|
                #[trigger] snapshot_of(snap, reading, now) && crate::history::recorded(
                    pre.snaps_of(id),
                    snap,
                ) == post.histories().at(id).snaps()
            &&& post.histories().at(id).started() == if pre.histories().has(id) {
                pre.histories().at(id).started()
            } else {
                now
            }
            &&& {
                let said = verdicts(
                    pre.advisor_spec().rules(),
                    &post.metrics().at(id),
                    Some(&post.histories().at(id)),
                    pre.advisor_spec().rules().len() as int,
                );
                if said.len() > 0 {
                    &&& post.advice().keys() == crate::strmap::put_key(pre.advice().keys(), id)
                    &&& advice_views(&post.advice()) == crate::strmap::put_value(
                        pre.advice().keys(),
                        advice_views(&pre.advice()),
                        id,
                        said,
                    )
                } else {
                    post.advice() == pre.advice()
                }
            }
        }
    }

    /// Takes in the line `line` of the output of the task `task_id` at
    /// the time `now`, in milliseconds. An empty line changes nothing.
    pub fn on_output(&mut self, task_id: &str, line: &str, now: u64)
        requires
            old(self).wf(),
        ensures
            final(self).wf(),
            final(self).advisor_spec() == old(self).advisor_spec(),
            line@.len() == 0 ==> *final(self) == *old(self),
            line@.len() > 0 ==> Engine::took_line(old(self), final(self), task_id@, line@, now),
    {
        if line.unicode_len() == 0 {
            return ;
        }
        let ghost pre = *self;
        let ghost kept = kept_lines(&pre.outputs(), task_id@, line@);
        // the lines kept, and what the parsers are shown of them
        let window: String = match self.task_outputs.position(task_id) {
            Some(i) => {
                proof {
                    self.task_outputs.lemma_slot(task_id@, i as int);
                }
                let (key, mut lines) = self.task_outputs.remove_at(i);
                let ghost before = lines.deep_view();
                push_capped(&mut lines, owned(line), MAX_APP_OUTPUT_LINES);
                assert(lines.deep_view() =~= last_items(before.push(line@), MAX_APP_OUTPUT_LINES as int));
                let window = window_text(&lines);
                self.task_outputs.insert_at(i, key, lines);
                proof {
                    assert(self.outputs().keys() =~= pre.outputs().keys());
                    assert(line_views(&self.outputs()) =~= line_views(&pre.outputs()).update(i as int, kept));
                }
                window
            },
            None => {
                let mut lines: Vec<String> = Vec::new();
                lines.push(owned(line));
                assert(lines.deep_view() =~= Seq::<Seq<char>>::empty().push(line@));
                let window = window_text(&lines);
                self.task_outputs.insert(owned(task_id), lines);
                proof {
                    assert(line_views(&self.outputs()) =~= line_views(&pre.outputs()).push(kept));
                }
                window
            },
        };
        assert(window@ == window_of(kept));
        // what the parsers read
        let task_type: Option<String> = match self.scheduler.graph().get_task(task_id) {
            Some(task) => Some(task.task_type.clone()),
            None => None,
        };
        let parsed = match &task_type {
            Some(t) => self.registry.parse(Some(t.as_str()), window.as_str()),
            None => self.registry.parse(None, window.as_str()),
        };
        let ghost reading = crate::parsers::metrics_view(&parsed);
        assert(reading == pre.reading_after(task_id@, line@));
        if !parsed.has_content() {
            return ;
        }
        // the history
        let numbers = numeric_metrics(&parsed);
        let ghost snap = MetricSnapshot { timestamp: now, progress: parsed.progress, metrics: numbers };
        let ghost base = pre.snaps_of(task_id@);
        assert(snapshot_of(snap, reading, now));
        let history_at: usize = match self.metric_history.position(task_id) {
            Some(i) => {
                proof {
                    self.metric_history.lemma_slot(task_id@, i as int);
                }
                let (key, mut history) = self.metric_history.remove_at(i);
                history.record(now, parsed.progress, numbers);
                self.metric_history.insert_at(i, key, history);
                proof {
                    assert(self.histories().keys() =~= pre.histories().keys());
                    assert(self.histories().values() =~= pre.histories().values().update(i as int, history));
                }
                i
            },
            None => {
                let mut history = TaskMetricHistory::new(now);
                history.record(now, parsed.progress, numbers);
                let at = self.metric_history.len();
                self.metric_history.insert(owned(task_id), history);
                proof {
                    self.histories().lemma_slot(task_id@, at as int);
                }
                at
            },
        };
        proof {
            self.histories().lemma_slot(task_id@, history_at as int);
            assert(crate::history::recorded(base, snap) == self.histories().at(task_id@).snaps());
            assert forall|i: int|
                0 <= i < self.histories().values().len() implies (#[trigger] self.histories().values()[i]).wf() by {
                if i != history_at {
                    assert(self.histories().values()[i] == pre.histories().values()[i]);
                }
            }
        }
        // the advisor
        let said = self.advisor.evaluate(&parsed, Some(self.metric_history.value_at(history_at)));
        let ghost said_view = said@.map_values(|a: Advisory| a@);
        if said.len() > 0 {
            let ghost before = self.advice();
            let former = self.advisories.insert(owned(task_id), said);
            proof {
                if former is Some {
                    assert(advice_views(&self.advice()) =~= advice_views(&before).update(
                        before.keys().index_of(task_id@),
                        said_view,
                    ));
                } else {
                    assert(advice_views(&self.advice()) =~= advice_views(&before).push(said_view));
                }
            }
        }
        // the metrics
        let ghost metrics_before = self.metrics();
        let former = self.task_metrics.insert(owned(task_id), parsed);
        proof {
            let after = self.metrics();
            if former is Some {
                let at = metrics_before.keys().index_of(task_id@);
                assert(metrics_before.keys().contains(task_id@));
                after.lemma_slot(task_id@, at);
            } else {
                after.lemma_slot(task_id@, metrics_before.keys().len() as int);
            }
            assert forall|i: int| 0 <= i < after.values().len() implies (#[trigger] after.values()[i]).wf() by {
                if i < metrics_before.values().len() && metrics_before.keys()[i] != task_id@ {
                    assert(after.values()[i] == metrics_before.values()[i]);
                }
            }
        }
    }

    /// Takes in an event of a task at the time `now`, in milliseconds. A
    /// line of output goes where [`Engine::on_output`] puts it. A
    /// completion marks the task as done, a failure as failed; an event
    /// about a task that the graph does not know, or that has ended
    /// already, changes nothing there. A start changes nothing.
    pub fn apply_event(&mut self, event: &TaskEvent, now: u64)
        requires
            old(self).wf(),
        ensures
            final(self).wf(),
            final(self).advisor_spec() == old(self).advisor_spec(),
            match event@ {
                EventView::Started { .. } => *final(self) == *old(self),
                EventView::Output { task_id, line } => if line.len() == 0 {
                    *final(self) == *old(self)
                } else {
                    Engine::took_line(old(self), final(self), task_id, line, now)
                },
                EventView::Completed { task_id, .. } => Engine::ended(
                    old(self),
                    final(self),
                    task_id,
                    GraphTaskStatus::Done,
                ),
                EventView::Failed { task_id, .. } => Engine::ended(
                    old(self),
                    final(self),
                    task_id,
                    GraphTaskStatus::Failed,
                ),
            },
    {
        match event {
            TaskEvent::Started { .. } => {},
            TaskEvent::Output { task_id, line } => {
                self.on_output(task_id.as_str(), line.as_str(), now);
            },
            TaskEvent::Completed { task_id, .. } => {
                let _ = self.scheduler.mark_done(task_id.as_str());
            },
            TaskEvent::Failed { task_id, .. } => {
                let _ = self.scheduler.mark_failed(task_id.as_str());
            },
        }
    }

    /// Whether `post` is `pre` after the task `id` came to its end with
    /// `status`: the scheduler has marked the task, if it knows it, which
    /// moves a task that is pending or in progress and no other, and
    /// nothing else has changed.
    pub open spec fn ended(pre: &Engine, post: &Engine, id: Seq<char>, status: GraphTaskStatus) -> bool {
        &&& if pre.scheduler_spec().graph_spec().tasks.has(id) {
            Scheduler::marked(&pre.scheduler_spec(), &post.scheduler_spec(), id, status)
        } else {
            post.scheduler_spec() == pre.scheduler_spec()
        }
        &&& post.registry_spec() == pre.registry_spec()
        &&& post.outputs() == pre.outputs()
        &&& post.metrics() == pre.metrics()
        &&& post.histories() == pre.histories()
        &&& post.advice() == pre.advice()
        &&& post.in_workspace() == pre.in_workspace()
    }
}

/// The commands of a task as a map from label to template, later
/// entries taking the place of earlier ones with the same label.
pub open spec fn command_entries(list: Seq<(String, String)>) -> Seq<(Seq<char>, String)> {
    crate::strmap::keyed(list)
}

impl Engine {
    /// The name under which the task `task_id` is shown: the id itself,
    /// or, where ids are namespaced, what stands behind the name of the
    /// project.
    pub fn get_task_display_name(&self, task_id: &str) -> (name: String)
        ensures
            name@ == if self.in_workspace() {
                task_part(task_id@)
            } else {
                task_id@
            },
    {
        if !self.workspace_mode {
            return owned(task_id);
        }
        let v = chars_of(task_id);
        let at = first_colon(&v, 0);
        assert(v@.skip(0) =~= v@);
        if at >= v.len() {
            return owned(task_id);
        }
        let end = first_colon(&v, at + 1);
        let name = slice_text(&v, at + 1, end);
        assert(name@ =~= project_part(v@.skip(at + 1))) by {
            assert(v@.subrange(at + 1, end as int) =~= v@.skip(at + 1).take(end - (at + 1)));
        }
        name
    }

    /// The project of the task `task_id`, where ids are namespaced: what
    /// stands before the first colon.
    pub fn get_project_name(&self, task_id: &str) -> (name: Option<String>)
        ensures
            crate::text::opt_text(name) == if self.in_workspace() {
                Some(project_part(task_id@))
            } else {
                None
            },
    {
        if !self.workspace_mode {
            return None;
        }
        let v = chars_of(task_id);
        let at = first_colon(&v, 0);
        assert(v@.skip(0) =~= v@);
        let name = slice_text(&v, 0, at);
        assert(name@ =~= project_part(v@));
        Some(name)
    }

    /// The last `last_n` of the lines kept for the task `task_id`.
    pub fn get_task_output(&self, task_id: &str, last_n: usize) -> (lines: Vec<String>)
        requires
            self.wf(),
        ensures
            lines.deep_view() == if self.outputs().has(task_id@) {
                crate::history::tail(self.outputs().at(task_id@).deep_view(), last_n as int)
            } else {
                Seq::empty()
            },
    {
        match self.task_outputs.get(task_id) {
            Some(kept) => {
                let from: usize = if last_n >= kept.len() {
                    0
                } else {
                    kept.len() - last_n
                };
                let ghost all = kept.deep_view();
                let mut lines: Vec<String> = Vec::new();
                let mut i: usize = from;
                assert(lines.deep_view() =~= all.subrange(from as int, i as int));
                while i < kept.len()
                    invariant
                        from <= i <= kept.len(),
                        all == kept.deep_view(),
                        lines.deep_view() == all.subrange(from as int, i as int),
                    decreases kept.len() - i,
                {
                    let ghost before = lines.deep_view();
                    lines.push(kept[i].clone());
                    assert(lines.deep_view() =~= before.push(kept@[i as int]@));
                    assert(lines.deep_view() =~= all.subrange(from as int, i + 1));
                    i += 1;
                }
                assert(all.subrange(from as int, kept.len() as int) =~= crate::history::tail(all, last_n as int));
                lines
            },
            None => {
                let lines: Vec<String> = Vec::new();
                assert(lines.deep_view() =~= Seq::<Seq<char>>::empty());
                lines
            },
        }
    }

    /// The metrics last read with content for the task `task_id`.
    pub fn get_task_metrics(&self, task_id: &str) -> (r: Option<&TaskMetrics>)
        requires
            self.wf(),
        ensures
            match r {
                Some(m) => self.metrics().has(task_id@) && *m == self.metrics().at(task_id@),
                None => !self.metrics().has(task_id@),
            },
    {
        self.task_metrics.get(task_id)
    }

    /// The history of the metrics of the task `task_id`.
    pub fn get_metric_history(&self, task_id: &str) -> (r: Option<&TaskMetricHistory>)
        requires
            self.wf(),
        ensures
            match r {
                Some(h) => self.histories().has(task_id@) && *h == self.histories().at(task_id@),
                None => !self.histories().has(task_id@),
            },
    {
        self.metric_history.get(task_id)
    }

    /// The advisories last given for the task `task_id`.
    pub fn get_advisories(&self, task_id: &str) -> (r: Option<&Vec<Advisory>>)
        requires
            self.wf(),
        ensures
            match r {
                Some(a) => self.advice().has(task_id@) && *a == self.advice().at(task_id@),
                None => !self.advice().has(task_id@),
            },
    {
        self.advisories.get(task_id)
    }

    /// The time left for the task `task_id`, in words, where the history
    /// of the task can tell it.
    pub fn get_eta(&self, task_id: &str) -> (r: Option<String>)
        requires
            self.wf(),
        ensures
            match r {
                Some(text) => {
                    &&& self.histories().has(task_id@)
                    &&& time_left(self.histories().at(task_id@).snaps()) matches Some(ms)
                    &&& text@ == crate::history::eta_text((ms / 1000) as u64)
                },
                None => !self.histories().has(task_id@) || time_left(
                    self.histories().at(task_id@).snaps(),
                ) is None,
            },
    {
        match self.metric_history.position(task_id) {
            Some(i) => {
                proof {
                    self.metric_history.lemma_slot(task_id@, i as int);
                }
                match self.metric_history.value_at(i).estimate_remaining() {
                    Some(ms) => Some(format_eta(ms / 1000)),
                    None => None,
                }
            },
            None => None,
        }
    }

    /// The ids of all tasks, in the order of strings.
    pub fn get_task_ids(&self) -> (ids: Vec<String>)
        requires
            self.wf(),
        ensures
            crate::text::lex_sorted(ids.deep_view()),
            ids.deep_view().to_multiset() == self.scheduler_spec().graph_spec().tasks.keys().to_multiset(),
    {
        sorted_strings(&self.scheduler.graph().tasks.key_list())
    }

    /// The semantic commands of the task `task_id`, where the task has
    /// any.
    pub fn get_semantic_commands(&self, task_id: &str) -> (r: Option<TaskCommands>)
        requires
            self.wf(),
        ensures
            r is Some <==> {
                &&& self.scheduler_spec().graph_spec().tasks.has(task_id@)
                &&& self.scheduler_spec().graph_spec().tasks.at(task_id@).semantic_commands matches Some(list)
                &&& list@.len() > 0
            },
            r matches Some(cmds) ==> {
                let list = self.scheduler_spec().graph_spec().tasks.at(task_id@).semantic_commands->0@;
                let keys = crate::strmap::stored_keys(command_entries(list), list.len() as int);
                let templates = crate::strmap::stored_values(command_entries(list), list.len() as int);
                &&& cmds.commands@.len() == keys.len()
                &&& forall|i: int|
                    0 <= i < keys.len() ==> {
                        &&& (#[trigger] cmds.commands@[i]).label@ == keys[i]
                        &&& cmds.commands@[i].template@ == templates[i]@
                        &&& cmds.commands@[i].params.deep_view() == crate::commands::param_names(
                            templates[i]@,
                        )
                    }
            },
    {
        let task = match self.scheduler.graph().get_task(task_id) {
            Some(task) => task,
            None => {
                return None;
            },
        };
        let list = match &task.semantic_commands {
            Some(list) => list,
            None => {
                return None;
            },
        };
        if list.len() == 0 {
            return None;
        }
        let mut entries: Vec<(String, String)> = Vec::new();
        let mut i: usize = 0;
        while i < list.len()
            invariant
                i <= list@.len(),
                entries@.len() == i,
                forall|j: int| 0 <= j < i ==> #[trigger] entries@[j] == list@[j],
            decreases list@.len() - i,
        {
            entries.push((list[i].0.clone(), list[i].1.clone()));
            i += 1;
        }
        assert(entries@ =~= list@);
        let map = StrMap::from_entries(entries);
        Some(TaskCommands::from_map(&map))
    }

    /// The semantic commands of the task `id` as a map from label to
    /// template: the keys.
    pub open spec fn command_labels(&self, id: Seq<char>) -> Seq<Seq<char>> {
        let list = self.scheduler_spec().graph_spec().tasks.at(id).semantic_commands->0@;
        crate::strmap::stored_keys(command_entries(list), list.len() as int)
    }

    /// The semantic commands of the task `id` as a map from label to
    /// template: the values.
    pub open spec fn command_templates(&self, id: Seq<char>) -> Seq<String> {
        let list = self.scheduler_spec().graph_spec().tasks.at(id).semantic_commands->0@;
        crate::strmap::stored_values(command_entries(list), list.len() as int)
    }

    /// Whether the task `id` has semantic commands.
    pub open spec fn has_commands(&self, id: Seq<char>) -> bool {
        &&& self.scheduler_spec().graph_spec().tasks.has(id)
        &&& self.scheduler_spec().graph_spec().tasks.at(id).semantic_commands matches Some(list)
        &&& list@.len() > 0
    }

    /// What has to be written to the terminal of the task `task_id` to
    /// run its semantic command `label` with `params`: the template of
    /// the command, rendered, and a line feed. Refused where the task has
    /// no semantic commands, where none has the label, and where the
    /// executor has no terminal for the task that can be written to.
    pub fn execute_semantic_command(
        &self,
        executor: &Executor,
        task_id: &str,
        label: &str,
        params: &StrMap<String>,
    ) -> (r: Result<String, CommandError>)
        requires
            self.wf(),
            executor.wf(),
            params.wf(),
        ensures
            match r {
                Ok(payload) => {
                    let labels = self.command_labels(task_id@);
                    &&& self.has_commands(task_id@)
                    &&& labels.contains(label@)
                    &&& executor.live(task_id@)
                    &&& executor.table().at(task_id@).writable()
                    &&& payload@ == rendered(
                        self.command_templates(task_id@)[labels.index_of(label@)]@,
                        params.keys(),
                        texts(params.values()),
                    ).push('\n')
                },
                Err(CommandError::NoCommands { task_id: named }) => !self.has_commands(task_id@) && named@
                    == task_id@,
                Err(CommandError::UnknownLabel { task_id: named, label: wanted }) => {
                    &&& self.has_commands(task_id@)
                    &&& !self.command_labels(task_id@).contains(label@)
                    &&& named@ == task_id@
                    &&& wanted@ == label@
                },
                Err(CommandError::Exec(_)) => {
                    &&& self.has_commands(task_id@)
                    &&& self.command_labels(task_id@).contains(label@)
                    &&& (!executor.live(task_id@) || !executor.table().at(task_id@).writable())
                },
            },
    {
        let cmds = match self.get_semantic_commands(task_id) {
            Some(cmds) => cmds,
            None => {
                return Err(CommandError::NoCommands { task_id: owned(task_id) });
            },
        };
        let ghost labels = self.command_labels(task_id@);
        let ghost templates = self.command_templates(task_id@);
        proof {
            let list = self.scheduler_spec().graph_spec().tasks.at(task_id@).semantic_commands->0@;
            let see = |t: String| t;
            crate::strmap::lemma_stored_through(command_entries(list), see, list.len() as int);
            crate::strmap::lemma_stored_keys_distinct(command_entries(list), list.len() as int);
        }
        let cmd = match cmds.get(label) {
            Some(cmd) => cmd,
            None => {
                proof {
                    if labels.contains(label@) {
                        let i = labels.index_of(label@);
                        assert(cmds.commands@[i].label@ == label@);
                    }
                }
                return Err(CommandError::UnknownLabel { task_id: owned(task_id), label: owned(label) });
            },
        };
        proof {
            let i = choose|i: int| 0 <= i < cmds.commands@.len() && (#[trigger] cmds.commands@[i]).label@ == label@;
            assert(labels[i] == label@);
            let at = cmds.index_of_label(label@, cmds.commands@.len() as int);
            assert(*cmd == cmds.commands@[at]);
            cmds.lemma_index_of_label(label@, cmds.commands@.len() as int);
            assert(labels[at] == label@);
            assert(labels.index_of(label@) == at);
            assert(cmd.template@ == templates[at]@);
        }
        let text = cmd.render(params);
        match executor.send_input(task_id, text.as_str()) {
            Ok(payload) => Ok(payload),
            Err(e) => Err(CommandError::Exec(e)),
        }
    }
}

} // verus!
