use gidterm::control::{AgentStatus, Completion, ControlCommand, ControlMode, TaskStatus, ViewMode};
use gidterm::engine::Engine;
use gidterm::graph::{Graph, GraphTaskStatus, Task};
use gidterm::registry::ParserRegistry;

fn task(status: GraphTaskStatus) -> Task {
    Task {
        task_type: String::new(),
        description: "step".to_string(),
        command: Some("true".to_string()),
        status,
        priority: None,
        depends_on: None,
        component: None,
        estimated_hours: None,
        tags: None,
        semantic_commands: None,
    }
}

#[test]
fn views_go_round() {
    assert_eq!(ViewMode::ProjectOverview.next(true), ViewMode::Dashboard);
    assert_eq!(ViewMode::Dashboard.next(false), ViewMode::Terminal);
    assert_eq!(ViewMode::Terminal.next(false), ViewMode::Graph);
    assert_eq!(ViewMode::Graph.next(false), ViewMode::Comparison);
    assert_eq!(ViewMode::Comparison.next(false), ViewMode::Dashboard);
    assert_eq!(ViewMode::Comparison.next(true), ViewMode::ProjectOverview);
}

#[test]
fn agent_status_signs_and_counts() {
    assert_eq!(AgentStatus::Running.emoji(), "🟢");
    assert_eq!(AgentStatus::WaitingInput.emoji(), "🔵");
    assert_eq!(AgentStatus::Completed.emoji(), "✓");
    assert_eq!(AgentStatus::Error.emoji(), "🔴");
    assert_eq!(AgentStatus::Idle.emoji(), "⏸️");
    assert_eq!(AgentStatus::from_counts(3, 1, 1, 1), AgentStatus::Error);
    assert_eq!(AgentStatus::from_counts(3, 1, 1, 0), AgentStatus::Running);
    assert_eq!(AgentStatus::from_counts(3, 3, 0, 0), AgentStatus::Completed);
    assert_eq!(AgentStatus::from_counts(3, 2, 0, 0), AgentStatus::Idle);
    assert_eq!(AgentStatus::from_counts(0, 0, 0, 0), AgentStatus::Idle);
}

#[test]
fn commands_and_modes_are_plain_values() {
    let cmd = ControlCommand::StartTask { task_id: "build".to_string() };
    match cmd {
        ControlCommand::StartTask { task_id } => assert_eq!(task_id, "build"),
        _ => panic!("wrong variant"),
    }
    assert_ne!(ControlMode::Manual, ControlMode::Agent);
    assert_ne!(TaskStatus::Running, TaskStatus::Done);
}

#[test]
fn project_summaries_count_by_project() {
    let mut graph = Graph::new(None);
    graph.tasks.insert("web:a".to_string(), task(GraphTaskStatus::Done));
    graph.tasks.insert("web:b".to_string(), task(GraphTaskStatus::InProgress));
    graph.tasks.insert("api:a".to_string(), task(GraphTaskStatus::Done));
    graph.tasks.insert("api:b".to_string(), task(GraphTaskStatus::Failed));
    graph.tasks.insert("api:c".to_string(), task(GraphTaskStatus::Pending));
    let e = Engine::new(graph, ParserRegistry::new(), true);
    assert!(e.is_workspace());
    let web = e.project_summary("web", Some(3000), Some("Started: a".to_string()));
    assert_eq!((web.task_count, web.tasks_done, web.tasks_running, web.tasks_failed), (2, 1, 1, 0));
    assert_eq!(web.agent_status, AgentStatus::Running);
    assert_eq!(web.port, Some(3000));
    assert_eq!(web.recent_event.as_deref(), Some("Started: a"));
    let api = e.project_summary("api", None, None);
    assert_eq!((api.task_count, api.tasks_done, api.tasks_running, api.tasks_failed), (3, 1, 0, 1));
    assert_eq!(api.agent_status, AgentStatus::Error);
    let none = e.project_summary("other", None, None);
    assert_eq!(none.task_count, 0);
    assert_eq!(none.agent_status, AgentStatus::Idle);
}

#[test]
fn a_single_project_counts_every_task() {
    let mut graph = Graph::new(None);
    graph.tasks.insert("a".to_string(), task(GraphTaskStatus::Done));
    graph.tasks.insert("b".to_string(), task(GraphTaskStatus::Done));
    let e = Engine::new(graph, ParserRegistry::new(), false);
    let s = e.project_summary("whatever", None, None);
    assert_eq!((s.task_count, s.tasks_done), (2, 2));
    assert_eq!(s.agent_status, AgentStatus::Completed);
    assert_eq!(s.name, "whatever");
}

#[test]
fn the_run_is_summed_up_once_all_is_done() {
    let mut graph = Graph::new(None);
    graph.tasks.insert("a".to_string(), task(GraphTaskStatus::Done));
    graph.tasks.insert("b".to_string(), task(GraphTaskStatus::Failed));
    graph.tasks.insert("c".to_string(), task(GraphTaskStatus::Done));
    let e = Engine::new(graph, ParserRegistry::new(), false);
    assert_eq!(e.completion(), Some(Completion { total: 3, succeeded: 2, failed: 1 }));
    assert_eq!(e.count_status(GraphTaskStatus::Done), 2);
    assert_eq!(e.count_status(GraphTaskStatus::Pending), 0);

    let mut open = Graph::new(None);
    open.tasks.insert("a".to_string(), task(GraphTaskStatus::Done));
    open.tasks.insert("b".to_string(), task(GraphTaskStatus::Pending));
    let e = Engine::new(open, ParserRegistry::new(), false);
    assert_eq!(e.completion(), None);
    assert_eq!(Engine::new(Graph::new(None), ParserRegistry::new(), false).completion(),
        Some(Completion { total: 0, succeeded: 0, failed: 0 }));
}
