use gidterm::graph::{Graph, GraphTaskStatus, Node, Task};
use gidterm::scheduler::Scheduler;
use gidterm::workspace::{Project, Workspace};

fn task(deps: Option<&[&str]>) -> Task {
    Task {
        task_type: "build".to_string(),
        description: "step".to_string(),
        command: Some("true".to_string()),
        status: GraphTaskStatus::Pending,
        priority: Some("high".to_string()),
        depends_on: deps.map(|d| d.iter().map(|x| x.to_string()).collect()),
        component: None,
        estimated_hours: Some(2),
        tags: Some(vec!["x".to_string()]),
        semantic_commands: Some(vec![("a".to_string(), "b".to_string())]),
    }
}

fn project(name: &str, tasks: &[(&str, Option<&[&str]>)]) -> Project {
    let mut graph = Graph::new(None);
    for (id, deps) in tasks {
        graph.tasks.insert(id.to_string(), task(*deps));
    }
    graph.nodes.insert(
        "core".to_string(),
        Node {
            node_type: "module".to_string(),
            description: "core".to_string(),
            layer: None,
            status: "active".to_string(),
            priority: None,
            depends_on: Some(vec!["base".to_string()]),
            path: None,
        },
    );
    Project { name: name.to_string(), path: format!("/ws/{}", name), graph }
}

fn workspace() -> Workspace {
    let mut w = Workspace::new("/ws");
    w.projects.insert("web".to_string(), project("web", &[("build", None), ("test", Some(&["build"]))]));
    w.projects.insert("api".to_string(), project("api", &[("build", Some(&[]))]));
    w
}

#[test]
fn test_workspace_creation() {
    let w = Workspace::new("/ws");
    assert_eq!(w.root, "/ws");
    assert_eq!(w.project_count(), 0);
    assert_eq!(w.total_task_count(), 0);
    assert!(w.project_names().is_empty());
}

#[test]
fn counts_and_names() {
    let w = workspace();
    assert_eq!(w.project_count(), 2);
    assert_eq!(w.total_task_count(), 3);
    assert_eq!(w.project_names(), vec!["api", "web"]);
    assert_eq!(w.get_project("web").unwrap().path, "/ws/web");
    assert!(w.get_project("nope").is_none());
}

#[test]
fn the_unified_graph_namespaces_ids_and_dependencies() {
    let g = workspace().to_unified_graph();
    let meta = g.metadata.as_ref().unwrap();
    assert_eq!(meta.project, "workspace");
    assert_eq!(meta.version.as_deref(), Some("1.0.0"));
    assert_eq!(meta.description.as_deref(), Some("2 projects"));
    assert_eq!(g.tasks.key_list(), vec!["web:build", "web:test", "api:build"]);
    assert_eq!(g.tasks.get("web:build").unwrap().depends_on, None);
    assert_eq!(g.tasks.get("web:test").unwrap().depends_on, Some(vec!["web:build".to_string()]));
    assert_eq!(g.tasks.get("api:build").unwrap().depends_on, Some(vec![]));
    let t = g.tasks.get("web:test").unwrap();
    assert_eq!(t.task_type, "build");
    assert_eq!(t.command.as_deref(), Some("true"));
    assert_eq!(t.priority.as_deref(), Some("high"));
    assert_eq!(t.estimated_hours, Some(2));
    assert_eq!(t.tags, Some(vec!["x".to_string()]));
    assert_eq!(t.semantic_commands, Some(vec![("a".to_string(), "b".to_string())]));
    assert_eq!(g.nodes.key_list(), vec!["web:core", "api:core"]);
    assert_eq!(g.nodes.get("api:core").unwrap().depends_on, Some(vec!["api:base".to_string()]));
}

#[test]
fn the_unified_graph_can_be_scheduled() {
    let mut s = Scheduler::new(workspace().to_unified_graph());
    let mut first = s.schedule_next();
    first.sort();
    assert_eq!(first, vec!["api:build", "web:build"]);
    s.mark_done("web:build").unwrap();
    s.mark_done("api:build").unwrap();
    assert_eq!(s.schedule_next(), vec!["web:test"]);
}

#[test]
fn ids_that_fall_together_keep_the_later_entry() {
    let mut w = Workspace::new("/ws");
    let mut first = project("a", &[("b:c", None)]);
    first.graph.tasks.get("b:c");
    w.projects.insert("a".to_string(), first);
    w.projects.insert("a:b".to_string(), project("a:b", &[("c", Some(&["d"]))]));
    let g = w.to_unified_graph();
    assert_eq!(g.tasks.len(), 1);
    assert_eq!(g.tasks.get("a:b:c").unwrap().depends_on, Some(vec!["a:b:d".to_string()]));
}
