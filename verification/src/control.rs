//! What a controller, a person or a program, can ask of the driver, and
//! the summaries it is shown.

use crate::engine::project_part;
use crate::engine::Engine;
use crate::graph::GraphTaskStatus;
use crate::graph::Task;
use crate::text::owned;
use vstd::prelude::*;

verus! {

/// Who drives.
#[derive(Debug, Clone, Copy, PartialEq, Eq, Structural)]
pub enum ControlMode {
    /// A person at the terminal.
    Manual,
    /// An assistant through tool calls.
    Mcp,
    /// A program on its own.
    Agent,
}

/// What can be asked of the driver.
#[derive(Debug)]
pub enum ControlCommand {
    StartAll,
    StartTask { task_id: String },
    StopTask { task_id: String },
    SendInput { task_id: String, input: String },
    GetState,
    GetOutput { task_id: String, lines: usize },
    Quit,
}

/// How the run of a task went, as a session records it.
#[derive(Debug, Clone, Copy, PartialEq, Eq, Structural)]
pub enum TaskStatus {
    Pending,
    Running,
    Done,
    Failed,
}

/// What is on the screen.
#[derive(Debug, Clone, Copy, PartialEq, Eq, Structural)]
pub enum ViewMode {
    Dashboard,
    Terminal,
    Graph,
    Comparison,
    ProjectOverview,
}

impl ViewMode {
    /// The view that follows this one when the views are gone through in
    /// a round. The round ends with the overview of the projects where
    /// there are several, with the dashboard otherwise.
    pub open spec fn following(self, workspace_mode: bool) -> ViewMode {
        match self {
            ViewMode::ProjectOverview => ViewMode::Dashboard,
            ViewMode::Dashboard => ViewMode::Terminal,
            ViewMode::Terminal => ViewMode::Graph,
            ViewMode::Graph => ViewMode::Comparison,
            ViewMode::Comparison => if workspace_mode {
                ViewMode::ProjectOverview
            } else {
                ViewMode::Dashboard
            },
        }
    }

    /// The view that follows this one.
    pub fn next(&self, workspace_mode: bool) -> (v: ViewMode)
        ensures
            v == self.following(workspace_mode),
    {
        match self {
            ViewMode::ProjectOverview => ViewMode::Dashboard,
            ViewMode::Dashboard => ViewMode::Terminal,
            ViewMode::Terminal => ViewMode::Graph,
            ViewMode::Graph => ViewMode::Comparison,
            ViewMode::Comparison => if workspace_mode {
                ViewMode::ProjectOverview
            } else {
                ViewMode::Dashboard
            },
        }
    }
}

/// How the tasks of a project stand, at a glance.
#[derive(Debug, Clone, Copy, PartialEq, Eq, Structural)]
pub enum AgentStatus {
    Running,
    WaitingInput,
    Completed,
    Error,
    Idle,
}

impl AgentStatus {
    /// The sign of the status.
    pub open spec fn emoji_text(self) -> Seq<char> {
        match self {
            AgentStatus::Running => "🟢"@,
            AgentStatus::WaitingInput => "🔵"@,
            AgentStatus::Completed => "✓"@,
            AgentStatus::Error => "🔴"@,
            AgentStatus::Idle => "⏸️"@,
        }
    }

    /// The sign of the status.
    pub fn emoji(&self) -> (s: &'static str)
        ensures
            s@ == self.emoji_text(),
    {
        match self {
            AgentStatus::Running => "🟢",
            AgentStatus::WaitingInput => "🔵",
            AgentStatus::Completed => "✓",
            AgentStatus::Error => "🔴",
            AgentStatus::Idle => "⏸️",
        }
    }

    /// The status that the counts of a project's tasks stand for: an
    /// error where a task failed, running where one runs, completed where
    /// there are tasks and all are done, idle otherwise.
    pub open spec fn of_counts(total: int, done: int, running: int, failed: int) -> AgentStatus {
        if failed > 0 {
            AgentStatus::Error
        } else if running > 0 {
            AgentStatus::Running
        } else if done == total && total > 0 {
            AgentStatus::Completed
        } else {
            AgentStatus::Idle
        }
    }

    /// The status that the counts of a project's tasks stand for.
    pub fn from_counts(total: usize, done: usize, running: usize, failed: usize) -> (s: AgentStatus)
        ensures
            s == Self::of_counts(total as int, done as int, running as int, failed as int),
    {
        if failed > 0 {
            AgentStatus::Error
        } else if running > 0 {
            AgentStatus::Running
        } else if done == total && total > 0 {
            AgentStatus::Completed
        } else {
            AgentStatus::Idle
        }
    }
}

/// How a project stands.
#[derive(Debug)]
pub struct ProjectSummary {
    pub name: String,
    pub port: Option<u16>,
    pub agent_status: AgentStatus,
    pub task_count: usize,
    pub tasks_done: usize,
    pub tasks_running: usize,
    pub tasks_failed: usize,
    pub recent_event: Option<String>,
}

/// How many of the first `n` tasks belong to the project and have the
/// status. Where ids are not namespaced every task belongs.
pub open spec fn count_tasks(
    keys: Seq<Seq<char>>,
    values: Seq<Task>,
    project: Seq<char>,
    namespaced: bool,
    status: Option<GraphTaskStatus>,
    n: int,
) -> int
    decreases n,
{
    if n <= 0 {
        0
    } else {
        count_tasks(keys, values, project, namespaced, status, n - 1) + if (!namespaced || project_part(
            keys[n - 1],
        ) == project) && (status is None || status == Some(values[n - 1].status)) {
            1int
        } else {
            0int
        }
    }
}

proof fn lemma_count_bounds(
    keys: Seq<Seq<char>>,
    values: Seq<Task>,
    project: Seq<char>,
    namespaced: bool,
    status: Option<GraphTaskStatus>,
    n: int,
)
    requires
        0 <= n,
    ensures
        0 <= count_tasks(keys, values, project, namespaced, status, n) <= n,
    decreases n,
{
    if n > 0 {
        lemma_count_bounds(keys, values, project, namespaced, status, n - 1);
    }
}

/// How a run ended: the number of tasks, of those done and of those
/// failed.
#[derive(Debug, Clone, Copy, PartialEq, Eq, Structural)]
pub struct Completion {
    pub total: usize,
    pub succeeded: usize,
    pub failed: usize,
}

impl Engine {
    /// How many of all tasks have the status `status`.
    pub open spec fn count_all(&self, status: GraphTaskStatus) -> int {
        count_tasks(
            self.scheduler_spec().graph_spec().tasks.keys(),
            self.scheduler_spec().graph_spec().tasks.values(),
            Seq::empty(),
            false,
            Some(status),
            self.scheduler_spec().graph_spec().tasks.keys().len() as int,
        )
    }

    /// How many of all tasks have the status `status`.
    pub fn count_status(&self, status: GraphTaskStatus) -> (count: usize)
        requires
            self.wf(),
        ensures
            count == self.count_all(status),
    {
        let tasks = &self.scheduler().graph().tasks;
        let n = tasks.len();
        let ghost keys = tasks.keys();
        let ghost values = tasks.values();
        let ghost none = Seq::<char>::empty();
        let mut count: usize = 0;
        let mut i: usize = 0;
        while i < n
            invariant
                tasks.wf(),
                n == keys.len(),
                keys == tasks.keys(),
                values == tasks.values(),
                none == Seq::<char>::empty(),
                i <= n,
                count == count_tasks(keys, values, none, false, Some(status), i as int),
            decreases n - i,
        {
            proof {
                lemma_count_bounds(keys, values, none, false, Some(status), i as int);
            }
            if tasks.value_at(i).status == status {
                count += 1;
            }
            i += 1;
        }
        count
    }

    /// How the run ended, once all is done: nothing while a task runs or
    /// has not ended, else the number of tasks, of those done and of
    /// those failed.
    pub fn completion(&self) -> (r: Option<Completion>)
        requires
            self.wf(),
        ensures
            r is Some <==> self.scheduler_spec().finished(),
            r matches Some(c) ==> {
                &&& c.total == self.scheduler_spec().graph_spec().tasks.keys().len()
                &&& c.succeeded == self.count_all(GraphTaskStatus::Done)
                &&& c.failed == self.count_all(GraphTaskStatus::Failed)
            },
    {
        if !self.scheduler().all_done() {
            return None;
        }
        Some(
            Completion {
                total: self.scheduler().graph().tasks.len(),
                succeeded: self.count_status(GraphTaskStatus::Done),
                failed: self.count_status(GraphTaskStatus::Failed),
            },
        )
    }

    /// How the project `name` stands: the number of its tasks, of those
    /// done, in progress and failed, and the status that these stand for.
    /// The port and the last event are passed on as given.
    pub fn project_summary(&self, name: &str, port: Option<u16>, recent_event: Option<String>) -> (s:
        ProjectSummary)
        requires
            self.wf(),
        ensures
            s.name@ == name@,
            s.port == port,
            s.recent_event == recent_event,
            s.task_count == self.count_of(name@, None),
            s.tasks_done == self.count_of(name@, Some(GraphTaskStatus::Done)),
            s.tasks_running == self.count_of(name@, Some(GraphTaskStatus::InProgress)),
            s.tasks_failed == self.count_of(name@, Some(GraphTaskStatus::Failed)),
            s.agent_status == AgentStatus::of_counts(
                s.task_count as int,
                s.tasks_done as int,
                s.tasks_running as int,
                s.tasks_failed as int,
            ),
    {
        let tasks = &self.scheduler().graph().tasks;
        let n = tasks.len();
        let ghost keys = tasks.keys();
        let ghost values = tasks.values();
        let ghost spaced = self.in_workspace();
        let spaced_now = self.is_workspace();
        let mut total: usize = 0;
        let mut done: usize = 0;
        let mut running: usize = 0;
        let mut failed: usize = 0;
        let mut i: usize = 0;
        while i < n
            invariant
                tasks.wf(),
                n == keys.len(),
                keys == tasks.keys(),
                values == tasks.values(),
                spaced == self.in_workspace(),
                spaced_now == spaced,
                i <= n,
                total == count_tasks(keys, values, name@, spaced, None, i as int),
                done == count_tasks(keys, values, name@, spaced, Some(GraphTaskStatus::Done), i as int),
                running == count_tasks(
                    keys,
                    values,
                    name@,
                    spaced,
                    Some(GraphTaskStatus::InProgress),
                    i as int,
                ),
                failed == count_tasks(keys, values, name@, spaced, Some(GraphTaskStatus::Failed), i as int),
            decreases n - i,
        {
            proof {
                lemma_count_bounds(keys, values, name@, spaced, None, i as int);
                lemma_count_bounds(keys, values, name@, spaced, Some(GraphTaskStatus::Done), i as int);
                lemma_count_bounds(keys, values, name@, spaced, Some(GraphTaskStatus::InProgress), i as int);
                lemma_count_bounds(keys, values, name@, spaced, Some(GraphTaskStatus::Failed), i as int);
            }
            let belongs = if spaced_now {
                match self.get_project_name(tasks.key_at(i).as_str()) {
                    Some(p) => crate::text::str_eq(p.as_str(), name),
                    None => false,
                }
            } else {
                true
            };
            if belongs {
                total += 1;
                match tasks.value_at(i).status {
                    GraphTaskStatus::Done => {
                        done += 1;
                    },
                    GraphTaskStatus::InProgress => {
                        running += 1;
                    },
                    GraphTaskStatus::Failed => {
                        failed += 1;
                    },
                    _ => {},
                }
            }
            i += 1;
        }
        ProjectSummary {
            name: owned(name),
            port,
            agent_status: AgentStatus::from_counts(total, done, running, failed),
            task_count: total,
            tasks_done: done,
            tasks_running: running,
            tasks_failed: failed,
            recent_event,
        }
    }

    /// How many tasks of the project `name` have the status `status`, or
    /// how many tasks it has where no status is given.
    pub open spec fn count_of(&self, name: Seq<char>, status: Option<GraphTaskStatus>) -> int {
        count_tasks(
            self.scheduler_spec().graph_spec().tasks.keys(),
            self.scheduler_spec().graph_spec().tasks.values(),
            name,
            self.in_workspace(),
            status,
            self.scheduler_spec().graph_spec().tasks.keys().len() as int,
        )
    }
}

} // verus!
