//! A workspace: several projects, each with its graph, and the one graph
//! that holds the tasks of all of them under namespaced ids.

use crate::graph::Graph;
use crate::graph::Metadata;
use crate::graph::Node;
use crate::graph::NodeView;
use crate::graph::Task;
use crate::graph::TaskView;
use crate::strmap::keyed;
use crate::strmap::lemma_stored_through;
use crate::strmap::stored_keys;
use crate::strmap::stored_values;
use crate::strmap::StrMap;
use crate::text::chars_of;
use crate::text::decimal;
use crate::text::lex_sorted;
use crate::text::sorted_strings;
use crate::text::owned;
use crate::text::push_decimal;
use crate::text::push_str;
use crate::text::string_of;
use vstd::prelude::*;

verus! {

/// One project of a workspace.
pub struct Project {
    pub name: String,
    pub path: String,
    pub graph: Graph,
}

/// Several projects under one root, by name.
pub struct Workspace {
    pub root: String,
    pub projects: StrMap<Project>,
}

/// The id `id` of the project `project`, as it stands in the graph of the
/// whole workspace.
pub open spec fn namespaced(project: Seq<char>, id: Seq<char>) -> Seq<char> {
    project + seq![':'] + id
}

/// The ids of `deps`, each as it stands in the graph of the whole
/// workspace.
pub open spec fn namespaced_all(project: Seq<char>, deps: Option<Seq<Seq<char>>>) -> Option<
    Seq<Seq<char>>,
> {
    match deps {
        Some(list) => Some(Seq::new(list.len(), |i: int| namespaced(project, list[i]))),
        None => None,
    }
}

/// The task as it stands in the graph of the whole workspace: as it is,
/// but for the ids it depends on.
pub open spec fn namespaced_task(project: Seq<char>, task: TaskView) -> TaskView {
    TaskView { depends_on: namespaced_all(project, task.depends_on), ..task }
}

/// The node as it stands in the graph of the whole workspace.
pub open spec fn namespaced_node(project: Seq<char>, node: NodeView) -> NodeView {
    NodeView { depends_on: namespaced_all(project, node.depends_on), ..node }
}

/// The tasks of one project, each under its namespaced id.
pub open spec fn project_tasks(project: Seq<char>, graph: &Graph) -> Seq<(Seq<char>, TaskView)> {
    Seq::new(
        graph.tasks.keys().len(),
        |i: int| (namespaced(project, graph.tasks.keys()[i]), namespaced_task(project, graph.tasks.values()[i]@)),
    )
}

/// The nodes of one project, each under its namespaced id.
pub open spec fn project_nodes(project: Seq<char>, graph: &Graph) -> Seq<(Seq<char>, NodeView)> {
    Seq::new(
        graph.nodes.keys().len(),
        |i: int| (namespaced(project, graph.nodes.keys()[i]), namespaced_node(project, graph.nodes.values()[i]@)),
    )
}

/// The tasks of the first `n` projects, project after project.
pub open spec fn workspace_tasks(projects: &StrMap<Project>, n: int) -> Seq<(Seq<char>, TaskView)>
    decreases n,
{
    if n <= 0 {
        Seq::empty()
    } else {
        workspace_tasks(projects, n - 1) + project_tasks(projects.keys()[n - 1], &projects.values()[n - 1].graph)
    }
}

/// The nodes of the first `n` projects, project after project.
pub open spec fn workspace_nodes(projects: &StrMap<Project>, n: int) -> Seq<(Seq<char>, NodeView)>
    decreases n,
{
    if n <= 0 {
        Seq::empty()
    } else {
        workspace_nodes(projects, n - 1) + project_nodes(projects.keys()[n - 1], &projects.values()[n - 1].graph)
    }
}

/// The number of tasks of the first `n` projects.
pub open spec fn task_total(projects: &StrMap<Project>, n: int) -> int
    decreases n,
{
    if n <= 0 {
        0
    } else {
        task_total(projects, n - 1) + projects.values()[n - 1].graph.tasks.keys().len()
    }
}

/// The tasks as the graph of a workspace holds them.
pub open spec fn task_views(tasks: &StrMap<Task>) -> Seq<TaskView> {
    Seq::new(tasks.values().len(), |i: int| tasks.values()[i]@)
}

/// The nodes as the graph of a workspace holds them.
pub open spec fn node_views(nodes: &StrMap<Node>) -> Seq<NodeView> {
    Seq::new(nodes.values().len(), |i: int| nodes.values()[i]@)
}

fn namespace(project: &str, id: &str) -> (out: String)
    ensures
        out@ == namespaced(project@, id@),
{
    let mut text = chars_of(project);
    text.push(':');
    push_str(&mut text, id);
    string_of(&text)
}

fn namespace_all(project: &str, deps: &Option<Vec<String>>) -> (out: Option<Vec<String>>)
    ensures
        crate::text::opt_texts(out) == namespaced_all(project@, crate::text::opt_texts(*deps)),
{
    match deps {
        Some(list) => {
            let mut out: Vec<String> = Vec::new();
            let mut i: usize = 0;
            while i < list.len()
                invariant
                    i <= list@.len(),
                    out@.len() == i,
                    forall|j: int| 0 <= j < i ==> (#[trigger] out@[j])@ == namespaced(project@, list@[j]@),
                decreases list@.len() - i,
            {
                out.push(namespace(project, list[i].as_str()));
                i += 1;
            }
            assert(out.deep_view() =~= Seq::new(
                list.deep_view().len(),
                |i: int| namespaced(project@, list.deep_view()[i]),
            ));
            Some(out)
        },
        None => None,
    }
}

impl Workspace {
    /// The projects are a sound map and the graph of each is sound.
    pub open spec fn wf(&self) -> bool {
        &&& self.projects.wf()
        &&& forall|i: int|
            0 <= i < self.projects.values().len() ==> (#[trigger] self.projects.values()[i]).graph.wf()
    }

    /// A workspace under `root` without projects.
    pub fn new(root: &str) -> (w: Self)
        ensures
            w.wf(),
            w.root@ == root@,
            w.projects.keys().len() == 0,
    {
        Workspace { root: owned(root), projects: StrMap::new() }
    }

    /// The graph of the whole workspace. It holds every task and every
    /// node of every project under the id `project:id`, with the ids it
    /// depends on namespaced alike; of two entries that come to stand
    /// under the same id the later one stays.
    pub fn to_unified_graph(&self) -> (g: Graph)
        requires
            self.wf(),
        ensures
            g.wf(),
            g.metadata matches Some(m) && m.project@ == "workspace"@ && crate::text::opt_text(m.version)
                == Some("1.0.0"@) && crate::text::opt_text(m.description) == Some(
                decimal(self.projects.keys().len()) + " projects"@,
            ),
            g.tasks.keys() == stored_keys(
                workspace_tasks(&self.projects, self.projects.keys().len() as int),
                workspace_tasks(&self.projects, self.projects.keys().len() as int).len() as int,
            ),
            task_views(&g.tasks) == stored_values(
                workspace_tasks(&self.projects, self.projects.keys().len() as int),
                workspace_tasks(&self.projects, self.projects.keys().len() as int).len() as int,
            ),
            g.nodes.keys() == stored_keys(
                workspace_nodes(&self.projects, self.projects.keys().len() as int),
                workspace_nodes(&self.projects, self.projects.keys().len() as int).len() as int,
            ),
            node_views(&g.nodes) == stored_values(
                workspace_nodes(&self.projects, self.projects.keys().len() as int),
                workspace_nodes(&self.projects, self.projects.keys().len() as int).len() as int,
            ),
    {
        let n = self.projects.len();
        let ghost see_task = |t: Task| t@;
        let ghost see_node = |t: Node| t@;
        let mut tasks: Vec<(String, Task)> = Vec::new();
        let mut nodes: Vec<(String, Node)> = Vec::new();
        let mut i: usize = 0;
        assert(keyed(tasks@).map_values(|e: (Seq<char>, Task)| (e.0, see_task(e.1))) =~= workspace_tasks(
            &self.projects,
            0,
        ));
        assert(keyed(nodes@).map_values(|e: (Seq<char>, Node)| (e.0, see_node(e.1))) =~= workspace_nodes(
            &self.projects,
            0,
        ));
        while i < n
            invariant
                self.wf(),
                n == self.projects.keys().len(),
                i <= n,
                see_task == |t: Task| t@,
                see_node == |t: Node| t@,
                keyed(tasks@).map_values(|e: (Seq<char>, Task)| (e.0, see_task(e.1))) == workspace_tasks(
                    &self.projects,
                    i as int,
                ),
                keyed(nodes@).map_values(|e: (Seq<char>, Node)| (e.0, see_node(e.1))) == workspace_nodes(
                    &self.projects,
                    i as int,
                ),
            decreases n - i,
        {
            let name = self.projects.key_at(i);
            let project = self.projects.value_at(i);
            let ghost own_tasks = project_tasks(name@, &project.graph);
            let ghost own_nodes = project_nodes(name@, &project.graph);
            let ghost tasks_before = workspace_tasks(&self.projects, i as int);
            let ghost nodes_before = workspace_nodes(&self.projects, i as int);
            let count = project.graph.tasks.len();
            let mut j: usize = 0;
            assert(tasks_before + own_tasks.take(0) =~= tasks_before);
            while j < count
                invariant
                    project.graph.wf(),
                    count == project.graph.tasks.keys().len(),
                    j <= count,
                    see_task == |t: Task| t@,
                    own_tasks == project_tasks(name@, &project.graph),
                    keyed(tasks@).map_values(|e: (Seq<char>, Task)| (e.0, see_task(e.1))) == tasks_before
                        + own_tasks.take(j as int),
                decreases count - j,
            {
                let id = project.graph.tasks.key_at(j);
                let task = project.graph.tasks.value_at(j);
                let mut copy = task.clone();
                copy.depends_on = namespace_all(name.as_str(), &task.depends_on);
                let key = namespace(name.as_str(), id.as_str());
                assert((key@, copy@) == own_tasks[j as int]);
                let ghost before = keyed(tasks@).map_values(|e: (Seq<char>, Task)| (e.0, see_task(e.1)));
                tasks.push((key, copy));
                assert(keyed(tasks@).map_values(|e: (Seq<char>, Task)| (e.0, see_task(e.1))) =~= before.push(
                    own_tasks[j as int],
                ));
                assert(tasks_before + own_tasks.take(j + 1) =~= (tasks_before + own_tasks.take(
                    j as int,
                )).push(own_tasks[j as int]));
                j += 1;
            }
            assert(own_tasks.take(count as int) =~= own_tasks);
            let node_count = project.graph.nodes.len();
            let mut k: usize = 0;
            assert(nodes_before + own_nodes.take(0) =~= nodes_before);
            while k < node_count
                invariant
                    project.graph.wf(),
                    node_count == project.graph.nodes.keys().len(),
                    k <= node_count,
                    see_node == |t: Node| t@,
                    own_nodes == project_nodes(name@, &project.graph),
                    keyed(nodes@).map_values(|e: (Seq<char>, Node)| (e.0, see_node(e.1))) == nodes_before
                        + own_nodes.take(k as int),
                decreases node_count - k,
            {
                let id = project.graph.nodes.key_at(k);
                let node = project.graph.nodes.value_at(k);
                let mut copy = node.clone();
                copy.depends_on = namespace_all(name.as_str(), &node.depends_on);
                let key = namespace(name.as_str(), id.as_str());
                assert((key@, copy@) == own_nodes[k as int]);
                let ghost before = keyed(nodes@).map_values(|e: (Seq<char>, Node)| (e.0, see_node(e.1)));
                nodes.push((key, copy));
                assert(keyed(nodes@).map_values(|e: (Seq<char>, Node)| (e.0, see_node(e.1))) =~= before.push(
                    own_nodes[k as int],
                ));
                assert(nodes_before + own_nodes.take(k + 1) =~= (nodes_before + own_nodes.take(
                    k as int,
                )).push(own_nodes[k as int]));
                k += 1;
            }
            assert(own_nodes.take(node_count as int) =~= own_nodes);
            i += 1;
        }
        let ghost task_pairs = keyed(tasks@);
        let ghost node_pairs = keyed(nodes@);
        let task_map = StrMap::from_entries(tasks);
        let node_map = StrMap::from_entries(nodes);
        proof {
            lemma_stored_through(task_pairs, see_task, task_pairs.len() as int);
            lemma_stored_through(node_pairs, see_node, node_pairs.len() as int);
            assert(task_views(&task_map) =~= task_map.values().map_values(see_task));
            assert(node_views(&node_map) =~= node_map.values().map_values(see_node));
        }
        let mut description: Vec<char> = Vec::new();
        push_decimal(&mut description, n as u64);
        push_str(&mut description, " projects");
        Graph {
            metadata: Some(
                Metadata {
                    project: owned("workspace"),
                    version: Some(owned("1.0.0")),
                    description: Some(string_of(&description)),
                },
            ),
            nodes: node_map,
            tasks: task_map,
        }
    }

    /// The number of projects.
    pub fn project_count(&self) -> (n: usize)
        requires
            self.wf(),
        ensures
            n == self.projects.keys().len(),
    {
        self.projects.len()
    }

    /// The number of tasks of all projects together.
    pub fn total_task_count(&self) -> (total: usize)
        requires
            self.wf(),
            task_total(&self.projects, self.projects.keys().len() as int) <= usize::MAX,
        ensures
            total == task_total(&self.projects, self.projects.keys().len() as int),
    {
        let n = self.projects.len();
        let mut total: usize = 0;
        let mut i: usize = 0;
        while i < n
            invariant
                self.wf(),
                n == self.projects.keys().len(),
                i <= n,
                total == task_total(&self.projects, i as int),
                task_total(&self.projects, n as int) <= usize::MAX,
            decreases n - i,
        {
            proof {
                lemma_task_total_grows(&self.projects, i + 1, n as int);
            }
            total = total + self.projects.value_at(i).graph.tasks.len();
            i += 1;
        }
        total
    }

    /// The names of the projects, in the order of strings.
    pub fn project_names(&self) -> (names: Vec<String>)
        requires
            self.wf(),
        ensures
            lex_sorted(names.deep_view()),
            names.deep_view().to_multiset() == self.projects.keys().to_multiset(),
    {
        sorted_strings(&self.projects.key_list())
    }

    /// The project `name`, if there is one.
    pub fn get_project(&self, name: &str) -> (r: Option<&Project>)
        requires
            self.wf(),
        ensures
            match r {
                Some(p) => self.projects.has(name@) && *p == self.projects.at(name@),
                None => !self.projects.has(name@),
            },
    {
        self.projects.get(name)
    }
}

proof fn lemma_task_total_grows(projects: &StrMap<Project>, k: int, n: int)
    requires
        0 <= k <= n,
    ensures
        0 <= task_total(projects, k) <= task_total(projects, n),
    decreases n - k,
{
    if k < n {
        lemma_task_total_grows(projects, k + 1, n);
    }
    lemma_task_total_positive(projects, k);
}

proof fn lemma_task_total_positive(projects: &StrMap<Project>, k: int)
    ensures
        0 <= task_total(projects, k),
    decreases k,
{
    if k > 0 {
        lemma_task_total_positive(projects, k - 1);
    }
}

} // verus!
