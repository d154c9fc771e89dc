//! The task graph: tasks keyed by id, their dependencies and their status.

use crate::strmap::StrMap;
use crate::text::chars_of;
use crate::text::clone_opt;
use crate::text::clone_opt_strings;
use crate::text::opt_text;
use crate::text::opt_texts;
use crate::text::string_of;
use vstd::prelude::*;

verus! {

/// Where a task stands in its life cycle.
#[derive(Debug, Clone, Copy, PartialEq, Eq, Structural)]
pub enum GraphTaskStatus {
    Pending,
    InProgress,
    Done,
    Failed,
    Planned,
}

impl Default for GraphTaskStatus {
    fn default() -> (s: Self)
        ensures
            s == GraphTaskStatus::Pending,
    {
        GraphTaskStatus::Pending
    }
}

impl GraphTaskStatus {
    /// The lower-case name of the status, words joined by a hyphen.
    pub open spec fn label(self) -> Seq<char> {
        match self {
            GraphTaskStatus::Pending => "pending"@,
            GraphTaskStatus::InProgress => "in-progress"@,
            GraphTaskStatus::Done => "done"@,
            GraphTaskStatus::Failed => "failed"@,
            GraphTaskStatus::Planned => "planned"@,
        }
    }

    /// The lower-case name of the status.
    pub fn to_string(&self) -> (s: String)
        ensures
            s@ == self.label(),
    {
        let name: &str = match self {
            GraphTaskStatus::Pending => "pending",
            GraphTaskStatus::InProgress => "in-progress",
            GraphTaskStatus::Done => "done",
            GraphTaskStatus::Failed => "failed",
            GraphTaskStatus::Planned => "planned",
        };
        string_of(&chars_of(name))
    }

    /// Whether the status is one a task ends in.
    pub open spec fn is_terminal(self) -> bool {
        self == GraphTaskStatus::Done || self == GraphTaskStatus::Failed
    }

    /// Whether a task that stands at this status may be moved to `to`. A
    /// status moves forward only: a pending task may start, a pending task
    /// or one in progress may end, done or failed. Nothing else moves: a
    /// task that has ended stays as it ended, and a planned task stays
    /// planned.
    pub open spec fn may_become(self, to: GraphTaskStatus) -> bool {
        match to {
            GraphTaskStatus::InProgress => self == GraphTaskStatus::Pending,
            GraphTaskStatus::Done | GraphTaskStatus::Failed => self == GraphTaskStatus::Pending || self
                == GraphTaskStatus::InProgress,
            _ => false,
        }
    }

    /// Whether a task that stands at this status may be moved to `to`.
    pub fn can_become(&self, to: GraphTaskStatus) -> (b: bool)
        ensures
            b == self.may_become(to),
    {
        match to {
            GraphTaskStatus::InProgress => *self == GraphTaskStatus::Pending,
            GraphTaskStatus::Done | GraphTaskStatus::Failed => *self == GraphTaskStatus::Pending || *self
                == GraphTaskStatus::InProgress,
            _ => false,
        }
    }
}

/// What a graph says of itself.
pub struct Metadata {
    pub project: String,
    pub version: Option<String>,
    pub description: Option<String>,
}

/// A part of the project that the tasks work on.
pub struct Node {
    pub node_type: String,
    pub description: String,
    pub layer: Option<String>,
    pub status: String,
    pub priority: Option<String>,
    pub depends_on: Option<Vec<String>>,
    pub path: Option<String>,
}

/// A unit of work: what it is, the command that does it, where it stands,
/// and what it depends on.
pub struct Task {
    pub task_type: String,
    pub description: String,
    pub command: Option<String>,
    pub status: GraphTaskStatus,
    pub priority: Option<String>,
    pub depends_on: Option<Vec<String>>,
    pub component: Option<String>,
    pub estimated_hours: Option<u32>,
    pub tags: Option<Vec<String>>,
    pub semantic_commands: Option<Vec<(String, String)>>,
}

/// The metadata of a graph with its texts as sequences of characters.
pub ghost struct MetadataView {
    pub project: Seq<char>,
    pub version: Option<Seq<char>>,
    pub description: Option<Seq<char>>,
}

impl View for Metadata {
    type V = MetadataView;

    open spec fn view(&self) -> MetadataView {
        MetadataView {
            project: self.project@,
            version: opt_text(self.version),
            description: opt_text(self.description),
        }
    }
}

/// A node with its texts as sequences of characters.
pub ghost struct NodeView {
    pub node_type: Seq<char>,
    pub description: Seq<char>,
    pub layer: Option<Seq<char>>,
    pub status: Seq<char>,
    pub priority: Option<Seq<char>>,
    pub depends_on: Option<Seq<Seq<char>>>,
    pub path: Option<Seq<char>>,
}

impl View for Node {
    type V = NodeView;

    open spec fn view(&self) -> NodeView {
        NodeView {
            node_type: self.node_type@,
            description: self.description@,
            layer: opt_text(self.layer),
            status: self.status@,
            priority: opt_text(self.priority),
            depends_on: opt_texts(self.depends_on),
            path: opt_text(self.path),
        }
    }
}

impl Clone for Node {
    fn clone(&self) -> (r: Self)
        ensures
            r@ == self@,
    {
        Node {
            node_type: self.node_type.clone(),
            description: self.description.clone(),
            layer: clone_opt(&self.layer),
            status: self.status.clone(),
            priority: clone_opt(&self.priority),
            depends_on: clone_opt_strings(&self.depends_on),
            path: clone_opt(&self.path),
        }
    }
}

/// A task with its texts as sequences of characters.
pub ghost struct TaskView {
    pub task_type: Seq<char>,
    pub description: Seq<char>,
    pub command: Option<Seq<char>>,
    pub status: GraphTaskStatus,
    pub priority: Option<Seq<char>>,
    pub depends_on: Option<Seq<Seq<char>>>,
    pub component: Option<Seq<char>>,
    pub estimated_hours: Option<u32>,
    pub tags: Option<Seq<Seq<char>>>,
    pub semantic_commands: Option<Seq<(Seq<char>, Seq<char>)>>,
}

impl View for Task {
    type V = TaskView;

    open spec fn view(&self) -> TaskView {
        TaskView {
            task_type: self.task_type@,
            description: self.description@,
            command: opt_text(self.command),
            status: self.status,
            priority: opt_text(self.priority),
            depends_on: opt_texts(self.depends_on),
            component: opt_text(self.component),
            estimated_hours: self.estimated_hours,
            tags: opt_texts(self.tags),
            semantic_commands: match self.semantic_commands {
                Some(list) => Some(Seq::new(list@.len(), |i: int| (list@[i].0@, list@[i].1@))),
                None => None,
            },
        }
    }
}

impl Clone for Task {
    fn clone(&self) -> (r: Self)
        ensures
            r@ == self@,
    {
        let semantic_commands = match &self.semantic_commands {
            Some(list) => {
                let mut out: Vec<(String, String)> = Vec::new();
                let mut i: usize = 0;
                while i < list.len()
                    invariant
                        i <= list@.len(),
                        out@.len() == i,
                        forall|j: int|
                            0 <= j < i ==> (#[trigger] out@[j]).0@ == list@[j].0@ && out@[j].1@ == list@[j].1@,
                    decreases list@.len() - i,
                {
                    out.push((list[i].0.clone(), list[i].1.clone()));
                    i += 1;
                }
                assert(Seq::new(out@.len(), |i: int| (out@[i].0@, out@[i].1@)) =~= Seq::new(
                    list@.len(),
                    |i: int| (list@[i].0@, list@[i].1@),
                ));
                Some(out)
            },
            None => None,
        };
        Task {
            task_type: self.task_type.clone(),
            description: self.description.clone(),
            command: clone_opt(&self.command),
            status: self.status,
            priority: clone_opt(&self.priority),
            depends_on: clone_opt_strings(&self.depends_on),
            component: clone_opt(&self.component),
            estimated_hours: self.estimated_hours,
            tags: clone_opt_strings(&self.tags),
            semantic_commands,
        }
    }
}

impl Task {
    /// The ids the task depends on; none where the list is absent.
    pub open spec fn deps(&self) -> Seq<Seq<char>> {
        match self.depends_on {
            Some(deps) => Seq::new(deps@.len(), |k: int| deps@[k]@),
            None => Seq::empty(),
        }
    }

    /// The same task with another status.
    pub open spec fn with_status(self, status: GraphTaskStatus) -> Task {
        Task { status, ..self }
    }
}

/// Why an operation on the graph was refused.
#[derive(Debug)]
pub enum GraphError {
    /// No task has the id that was given.
    TaskNotFound { task_id: String },
}

/// Where the graph of a project lies, below the project's directory.
pub const PROJECT_GRAPH: &'static str = ".gid/graph.yml";

/// Where a graph lies that stands on its own.
pub const STANDALONE_GRAPH: &'static str = "gidterm.yml";

/// The message for a directory without a graph.
pub const NO_GRAPH: &'static str =
    "No graph file found. Expected .gid/graph.yml or gidterm.yml in current directory.";


impl GraphError {
    /// What the error says.
    pub open spec fn message_text(&self) -> Seq<char> {
        match self {
            GraphError::TaskNotFound { task_id } => "Task "@ + task_id@ + " not found"@,
        }
    }

    /// What the error says.
    pub fn message(&self) -> (s: String)
        ensures
            s@ == self.message_text(),
    {
        match self {
            GraphError::TaskNotFound { task_id } => {
                let mut out = chars_of("Task ");
                crate::text::push_str(&mut out, task_id.as_str());
                crate::text::push_str(&mut out, " not found");
                string_of(&out)
            },
        }
    }
}

/// The tasks and nodes of a project, each under its id.
pub struct Graph {
    pub metadata: Option<Metadata>,
    pub nodes: StrMap<Node>,
    pub tasks: StrMap<Task>,
}

impl Graph {
    /// The file to load the graph of a directory from: the graph of the
    /// project where `has_project_graph` says that there is one, else the
    /// graph that stands on its own where `has_standalone_graph` says
    /// that there is one. Where there is neither, the message that says
    /// so.
    pub fn auto_load(has_project_graph: bool, has_standalone_graph: bool) -> (r: Result<
        &'static str,
        &'static str,
    >)
        ensures
            r == if has_project_graph {
                Ok::<&'static str, &'static str>(PROJECT_GRAPH)
            } else if has_standalone_graph {
                Ok::<&'static str, &'static str>(STANDALONE_GRAPH)
            } else {
                Err::<&'static str, &'static str>(NO_GRAPH)
            },
    {
        if has_project_graph {
            Ok(PROJECT_GRAPH)
        } else if has_standalone_graph {
            Ok(STANDALONE_GRAPH)
        } else {
            Err(NO_GRAPH)
        }
    }

    /// Both tables are sound maps.
    pub open spec fn wf(&self) -> bool {
        self.nodes.wf() && self.tasks.wf()
    }

    /// The status of the task `id`, meaningful when there is such a task.
    pub open spec fn status_of(&self, id: Seq<char>) -> GraphTaskStatus {
        self.tasks.at(id).status
    }

    /// Whether `dep` names a task that is done.
    pub open spec fn dep_done(&self, dep: Seq<char>) -> bool {
        self.tasks.has(dep) && self.status_of(dep) == GraphTaskStatus::Done
    }

    /// Whether every id in `deps` names a task that is done.
    pub open spec fn all_deps_done(&self, deps: Seq<Seq<char>>) -> bool {
        forall|k: int| 0 <= k < deps.len() ==> self.dep_done(#[trigger] deps[k])
    }

    /// Whether `id` names a task all of whose dependencies are done.
    pub open spec fn startable(&self, id: Seq<char>) -> bool {
        self.tasks.has(id) && self.all_deps_done(self.tasks.at(id).deps())
    }

    /// Whether `id` names a pending task all of whose dependencies are done.
    pub open spec fn ready(&self, id: Seq<char>) -> bool {
        self.startable(id) && self.status_of(id) == GraphTaskStatus::Pending
    }

    /// The ids of the ready tasks, in the order of the task table.
    pub open spec fn ready_ids(&self) -> Seq<Seq<char>> {
        self.tasks.keys().filter(|id: Seq<char>| self.ready(id))
    }

    /// Whether `post` is `pre` with the task `id` moved to `status` and
    /// nothing else touched.
    pub open spec fn restatused(
        pre: &Graph,
        post: &Graph,
        id: Seq<char>,
        status: GraphTaskStatus,
    ) -> bool {
        &&& post.metadata == pre.metadata
        &&& post.nodes == pre.nodes
        &&& post.tasks.keys() == pre.tasks.keys()
        &&& post.tasks.values() == pre.tasks.values().update(
            pre.tasks.slot(id),
            pre.tasks.at(id).with_status(status),
        )
    }

    /// An empty graph.
    pub fn new(metadata: Option<Metadata>) -> (g: Self)
        ensures
            g.wf(),
            g.metadata == metadata,
            g.tasks.keys().len() == 0,
            g.nodes.keys().len() == 0,
    {
        Graph { metadata, nodes: StrMap::new(), tasks: StrMap::new() }
    }

    /// The ids of all tasks that are ready to run.
    pub fn get_ready_tasks(&self) -> (ready: Vec<String>)
        requires
            self.wf(),
        ensures
            ready.deep_view() == self.ready_ids(),
    {
        let mut ready: Vec<String> = Vec::new();
        let n = self.tasks.len();
        let mut i: usize = 0;
        assert(self.tasks.keys().take(0) =~= Seq::empty());
        while i < n
            invariant
                self.wf(),
                n == self.tasks.keys().len(),
                i <= n,
                ready.deep_view() == self.tasks.keys().take(i as int).filter(
                    |id: Seq<char>| self.ready(id),
                ),
            decreases n - i,
        {
            let id = self.tasks.key_at(i);
            let task = self.tasks.value_at(i);
            proof {
                self.tasks.lemma_slot(id@, i as int);
                let keys = self.tasks.keys();
                assert(keys.take(i + 1) =~= keys.take(i as int).push(keys[i as int]));
                keys.take(i as int).lemma_filter_push(keys[i as int], |id: Seq<char>| self.ready(id));
            }
            let startable = self.can_start(id.as_str());
            if startable && task.status == GraphTaskStatus::Pending {
                let ghost before = ready.deep_view();
                ready.push(id.clone());
                assert(ready.deep_view() =~= before.push(id@));
            }
            i += 1;
        }
        assert(self.tasks.keys().take(n as int) =~= self.tasks.keys());
        ready
    }

    /// Whether the task `task_id` exists and all its dependencies are done.
    pub fn can_start(&self, task_id: &str) -> (b: bool)
        requires
            self.wf(),
        ensures
            b == self.startable(task_id@),
    {
        let task = match self.tasks.get(task_id) {
            Some(task) => task,
            None => {
                return false;
            },
        };
        let deps = match &task.depends_on {
            Some(deps) => deps,
            None => {
                return true;
            },
        };
        let mut k: usize = 0;
        while k < deps.len()
            invariant
                self.wf(),
                k <= deps.len(),
                task.depends_on == Some(*deps),
                self.tasks.has(task_id@),
                *task == self.tasks.at(task_id@),
                forall|j: int| 0 <= j < k ==> self.dep_done(#[trigger] task.deps()[j]),
            decreases deps.len() - k,
        {
            let done = match self.tasks.get(deps[k].as_str()) {
                Some(dep) => dep.status == GraphTaskStatus::Done,
                None => false,
            };
            if !done {
                assert(task.deps()[k as int] == deps@[k as int]@);
                assert(!self.dep_done(task.deps()[k as int]));
                return false;
            }
            k += 1;
        }
        true
    }

    /// Moves the task `task_id` to `new_status`, where its status may
    /// become that; a task whose status may not is left as it is, and so
    /// is everything else. Refused, with nothing changed, when there is no
    /// such task.
    pub fn update_task_status(&mut self, task_id: &str, new_status: GraphTaskStatus) -> (r: Result<
        (),
        GraphError,
    >)
        requires
            old(self).wf(),
        ensures
            final(self).wf(),
            match r {
                Ok(()) => {
                    &&& old(self).tasks.has(task_id@)
                    &&& if old(self).status_of(task_id@).may_become(new_status) {
                        Graph::restatused(old(self), final(self), task_id@, new_status)
                    } else {
                        *final(self) == *old(self)
                    }
                },
                Err(GraphError::TaskNotFound { task_id: named }) => {
                    &&& !old(self).tasks.has(task_id@)
                    &&& *final(self) == *old(self)
                    &&& named@ == task_id@
                },
            },
    {
        match self.tasks.position(task_id) {
            Some(i) => {
                proof {
                    self.tasks.lemma_slot(task_id@, i as int);
                }
                if !self.tasks.value_at(i).status.can_become(new_status) {
                    return Ok(());
                }
                let (key, mut task) = self.tasks.remove_at(i);
                task.status = new_status;
                self.tasks.insert_at(i, key, task);
                assert(self.tasks.keys() =~= old(self).tasks.keys());
                assert(self.tasks.values() =~= old(self).tasks.values().update(
                    i as int,
                    old(self).tasks.at(task_id@).with_status(new_status),
                ));
                Ok(())
            },
            None => Err(GraphError::TaskNotFound { task_id: string_of(&chars_of(task_id)) }),
        }
    }

    /// The task stored under `task_id`, if there is one.
    pub fn get_task(&self, task_id: &str) -> (r: Option<&Task>)
        requires
            self.wf(),
        ensures
            match r {
                Some(task) => self.tasks.has(task_id@) && *task == self.tasks.at(task_id@),
                None => !self.tasks.has(task_id@),
            },
    {
        self.tasks.get(task_id)
    }

    /// The whole task table.
    pub fn all_tasks(&self) -> (tasks: &StrMap<Task>)
        ensures
            *tasks == self.tasks,
    {
        &self.tasks
    }
}

} // verus!
