use gidterm::graph::{Graph, GraphError, GraphTaskStatus, Task};
use gidterm::scheduler::Scheduler;

fn task(deps: &[&str]) -> Task {
    Task {
        task_type: "build".to_string(),
        description: "step".to_string(),
        command: Some("true".to_string()),
        status: GraphTaskStatus::Pending,
        priority: None,
        depends_on: Some(deps.iter().map(|d| d.to_string()).collect()),
        component: None,
        estimated_hours: None,
        tags: None,
        semantic_commands: None,
    }
}

fn integration_graph() -> Graph {
    let mut graph = Graph::new(None);
    graph.tasks.insert("hello".to_string(), task(&[]));
    graph.tasks.insert("world".to_string(), task(&["hello"]));
    graph.tasks.insert("parallel1".to_string(), task(&["world"]));
    graph.tasks.insert("parallel2".to_string(), task(&["world"]));
    graph.tasks.insert("final".to_string(), task(&["parallel1", "parallel2"]));
    graph
}

#[test]
fn test_parse_graph() {
    let graph = integration_graph();
    assert_eq!(graph.tasks.len(), 5);
}

#[test]
fn test_graph_task_status_deserialization() {
    let graph = integration_graph();
    for i in 0..graph.tasks.len() {
        assert_eq!(graph.tasks.value_at(i).status, GraphTaskStatus::Pending);
    }
}

#[test]
fn test_graph_dependencies() {
    let graph = integration_graph();
    assert!(graph.can_start("hello"));
    assert!(!graph.can_start("world"));
    assert!(!graph.can_start("final"));
}

#[test]
fn test_graph_get_ready_tasks() {
    let graph = integration_graph();
    let ready = graph.get_ready_tasks();
    assert_eq!(ready.len(), 1);
    assert_eq!(ready[0], "hello");
}

#[test]
fn test_graph_update_status() {
    let mut graph = integration_graph();

    graph.update_task_status("hello", GraphTaskStatus::Done).unwrap();
    assert_eq!(graph.get_task("hello").unwrap().status, GraphTaskStatus::Done);

    assert!(graph.can_start("world"));
    let ready = graph.get_ready_tasks();
    assert_eq!(ready.len(), 1);
    assert_eq!(ready[0], "world");
}

#[test]
fn test_graph_update_nonexistent_task() {
    let mut graph = integration_graph();
    let result = graph.update_task_status("nonexistent", GraphTaskStatus::Done);
    assert!(result.is_err());
    match result {
        Err(GraphError::TaskNotFound { task_id }) => assert_eq!(task_id, "nonexistent"),
        Ok(()) => panic!("an unknown task was updated"),
    }
}

#[test]
fn graph_error_message() {
    let e = GraphError::TaskNotFound { task_id: "x".to_string() };
    assert_eq!(e.message(), "Task x not found");
}

#[test]
fn status_names() {
    assert_eq!(GraphTaskStatus::Pending.to_string(), "pending");
    assert_eq!(GraphTaskStatus::InProgress.to_string(), "in-progress");
    assert_eq!(GraphTaskStatus::Done.to_string(), "done");
    assert_eq!(GraphTaskStatus::Failed.to_string(), "failed");
    assert_eq!(GraphTaskStatus::Planned.to_string(), "planned");
    assert_eq!(GraphTaskStatus::default(), GraphTaskStatus::Pending);
}

#[test]
fn a_missing_dependency_blocks() {
    let mut graph = Graph::new(None);
    graph.tasks.insert("a".to_string(), task(&["ghost"]));
    assert!(!graph.can_start("a"));
    assert!(!graph.can_start("ghost"));
    assert!(graph.get_ready_tasks().is_empty());
}

#[test]
fn planned_tasks_are_never_ready() {
    let mut graph = Graph::new(None);
    let mut t = task(&[]);
    t.status = GraphTaskStatus::Planned;
    graph.tasks.insert("p".to_string(), t);
    assert!(graph.can_start("p"));
    assert!(graph.get_ready_tasks().is_empty());
    let scheduler = Scheduler::new(graph);
    assert!(!scheduler.all_done());
}

#[test]
fn test_graph_auto_load() {
    // the graph of the project is there
    let graph = Graph::auto_load(true, false);
    assert!(graph.is_ok());
}

#[test]
fn auto_load_prefers_the_graph_of_the_project() {
    assert_eq!(Graph::auto_load(true, true), Ok(".gid/graph.yml"));
    assert_eq!(Graph::auto_load(true, false), Ok(".gid/graph.yml"));
    assert_eq!(Graph::auto_load(false, true), Ok("gidterm.yml"));
    assert_eq!(
        Graph::auto_load(false, false),
        Err("No graph file found. Expected .gid/graph.yml or gidterm.yml in current directory.")
    );
}

#[test]
fn a_status_moves_forward_only() {
    let mut graph = integration_graph();
    graph.update_task_status("hello", GraphTaskStatus::InProgress).unwrap();
    graph.update_task_status("hello", GraphTaskStatus::Failed).unwrap();
    // none of these moves the task
    for status in [
        GraphTaskStatus::Pending,
        GraphTaskStatus::InProgress,
        GraphTaskStatus::Done,
        GraphTaskStatus::Planned,
    ] {
        assert!(graph.update_task_status("hello", status).is_ok());
        assert_eq!(graph.get_task("hello").unwrap().status, GraphTaskStatus::Failed);
    }
    assert!(graph.update_task_status("world", GraphTaskStatus::Planned).is_ok());
    assert!(graph.update_task_status("world", GraphTaskStatus::Pending).is_ok());
    assert_eq!(graph.get_task("world").unwrap().status, GraphTaskStatus::Pending);
    assert!(GraphTaskStatus::Pending.can_become(GraphTaskStatus::InProgress));
    assert!(GraphTaskStatus::Pending.can_become(GraphTaskStatus::Done));
    assert!(GraphTaskStatus::InProgress.can_become(GraphTaskStatus::Failed));
    assert!(!GraphTaskStatus::InProgress.can_become(GraphTaskStatus::InProgress));
    assert!(!GraphTaskStatus::Done.can_become(GraphTaskStatus::Failed));
    assert!(!GraphTaskStatus::Failed.can_become(GraphTaskStatus::Done));
    assert!(!GraphTaskStatus::Planned.can_become(GraphTaskStatus::InProgress));
}
