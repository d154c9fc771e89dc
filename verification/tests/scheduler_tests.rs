use gidterm::graph::{Graph, GraphTaskStatus, Task};
use gidterm::scheduler::Scheduler;

fn task(command: Option<&str>, deps: &[&str]) -> Task {
    Task {
        task_type: String::new(),
        description: "step".to_string(),
        command: command.map(|c| c.to_string()),
        status: GraphTaskStatus::Pending,
        priority: None,
        depends_on: if deps.is_empty() {
            None
        } else {
            Some(deps.iter().map(|d| d.to_string()).collect())
        },
        component: None,
        estimated_hours: None,
        tags: None,
        semantic_commands: None,
    }
}

fn integration_graph() -> Graph {
    let mut graph = Graph::new(None);
    graph.tasks.insert("hello".to_string(), task(Some("echo hello"), &[]));
    graph.tasks.insert("world".to_string(), task(Some("echo world"), &["hello"]));
    graph.tasks.insert("parallel1".to_string(), task(Some("echo p1"), &["world"]));
    graph.tasks.insert("parallel2".to_string(), task(Some("echo p2"), &["world"]));
    graph.tasks.insert("final".to_string(), task(Some("echo final"), &["parallel1", "parallel2"]));
    graph
}

#[test]
fn test_scheduler_schedule_next() {
    let mut scheduler = Scheduler::new(integration_graph());
    let ready = scheduler.schedule_next();
    assert_eq!(ready.len(), 1);
    assert_eq!(ready[0], "hello");
}

#[test]
fn test_scheduler_full_progression() {
    let mut scheduler = Scheduler::new(integration_graph());

    let ready = scheduler.schedule_next();
    assert_eq!(ready, vec!["hello"]);
    scheduler.mark_started("hello").unwrap();
    scheduler.mark_done("hello").unwrap();

    let ready = scheduler.schedule_next();
    assert_eq!(ready, vec!["world"]);
    scheduler.mark_started("world").unwrap();
    scheduler.mark_done("world").unwrap();

    let mut ready = scheduler.schedule_next();
    ready.sort();
    assert_eq!(ready, vec!["parallel1", "parallel2"]);

    scheduler.mark_started("parallel1").unwrap();
    scheduler.mark_started("parallel2").unwrap();
    scheduler.mark_done("parallel1").unwrap();
    scheduler.mark_done("parallel2").unwrap();

    let ready = scheduler.schedule_next();
    assert_eq!(ready, vec!["final"]);
    scheduler.mark_started("final").unwrap();
    scheduler.mark_done("final").unwrap();

    assert!(scheduler.all_done());
}

#[test]
fn test_scheduler_marks_started() {
    let mut scheduler = Scheduler::new(integration_graph());

    scheduler.mark_started("hello").unwrap();
    assert_eq!(scheduler.get_running(), vec!["hello"]);

    let ready = scheduler.schedule_next();
    assert!(ready.is_empty());
}

#[test]
fn test_scheduler_failed_task_blocks_dependents() {
    let mut scheduler = Scheduler::new(integration_graph());

    scheduler.mark_started("hello").unwrap();
    scheduler.mark_failed("hello").unwrap();

    let ready = scheduler.schedule_next();
    assert!(ready.is_empty());

    assert!(!scheduler.all_done());
    assert!(scheduler.get_running().is_empty());
}

#[test]
fn fan_out_and_fan_in() {
    let mut graph = Graph::new(None);
    graph.tasks.insert("h".to_string(), task(Some("true"), &[]));
    graph.tasks.insert("w".to_string(), task(Some("true"), &["h"]));
    graph.tasks.insert("p1".to_string(), task(Some("true"), &["w"]));
    graph.tasks.insert("p2".to_string(), task(Some("true"), &["w"]));
    graph.tasks.insert("f".to_string(), task(Some("true"), &["p1", "p2"]));
    let mut scheduler = Scheduler::new(graph);
    scheduler.mark_done("h").unwrap();
    scheduler.mark_done("w").unwrap();
    let mut next = scheduler.schedule_next();
    next.sort();
    assert_eq!(next, vec!["p1", "p2"]);
    scheduler.mark_done("p1").unwrap();
    assert!(scheduler.schedule_next() == vec!["p2"]);
    scheduler.mark_done("p2").unwrap();
    assert_eq!(scheduler.schedule_next(), vec!["f"]);
}

#[test]
fn schedule_is_stable_until_marked() {
    let mut scheduler = Scheduler::new(integration_graph());
    assert_eq!(scheduler.schedule_next(), vec!["hello"]);
    assert_eq!(scheduler.schedule_next(), vec!["hello"]);
    scheduler.mark_started("hello").unwrap();
    assert!(scheduler.schedule_next().is_empty());
    assert_eq!(scheduler.graph().get_task("hello").unwrap().status, GraphTaskStatus::InProgress);
}

#[test]
fn marking_an_unknown_task_changes_nothing() {
    let mut scheduler = Scheduler::new(integration_graph());
    assert!(scheduler.mark_started("nope").is_err());
    assert!(scheduler.mark_done("nope").is_err());
    assert!(scheduler.mark_failed("nope").is_err());
    assert!(scheduler.get_running().is_empty());
    assert_eq!(scheduler.schedule_next(), vec!["hello"]);
}

#[test]
fn all_done_stays_true() {
    let mut graph = Graph::new(None);
    graph.tasks.insert("a".to_string(), task(None, &[]));
    graph.tasks.insert("b".to_string(), task(None, &["a"]));
    let mut scheduler = Scheduler::new(graph);
    scheduler.mark_done("a").unwrap();
    scheduler.mark_failed("b").unwrap();
    assert!(scheduler.all_done());
    assert!(scheduler.schedule_next().is_empty());
    scheduler.mark_done("a").unwrap();
    scheduler.mark_failed("a").unwrap();
    assert!(scheduler.all_done());
}

#[test]
fn a_failure_blocks_the_whole_chain() {
    let mut graph = Graph::new(None);
    graph.tasks.insert("a".to_string(), task(Some("true"), &[]));
    graph.tasks.insert("b".to_string(), task(Some("false"), &["a"]));
    graph.tasks.insert("c".to_string(), task(Some("true"), &["b"]));
    graph.tasks.insert("d".to_string(), task(Some("true"), &["c"]));
    let mut scheduler = Scheduler::new(graph);
    scheduler.mark_started("a").unwrap();
    scheduler.mark_done("a").unwrap();
    assert_eq!(scheduler.schedule_next(), vec!["b"]);
    scheduler.mark_started("b").unwrap();
    scheduler.mark_failed("b").unwrap();
    assert!(scheduler.schedule_next().is_empty());
    assert!(!scheduler.all_done());
    assert!(scheduler.get_running().is_empty());
    assert_eq!(scheduler.graph().get_task("c").unwrap().status, GraphTaskStatus::Pending);
    assert_eq!(scheduler.graph().get_task("d").unwrap().status, GraphTaskStatus::Pending);
}

#[test]
fn an_empty_graph_is_done() {
    let scheduler = Scheduler::new(Graph::new(None));
    assert!(scheduler.all_done());
}

#[test]
fn a_task_that_has_ended_is_not_set_back() {
    let mut graph = Graph::new(None);
    graph.tasks.insert("a".to_string(), task(None, &[]));
    graph.tasks.insert("b".to_string(), task(None, &["a"]));
    let mut scheduler = Scheduler::new(graph);
    scheduler.mark_started("a").unwrap();
    scheduler.mark_failed("a").unwrap();
    scheduler.mark_done("b").unwrap();
    assert!(scheduler.all_done());
    // no mark brings a task back, nor turns a failure into a success
    assert!(scheduler.mark_started("a").is_ok());
    assert!(scheduler.mark_started("b").is_ok());
    assert!(scheduler.mark_done("a").is_ok());
    assert!(scheduler.mark_failed("b").is_ok());
    assert_eq!(scheduler.graph().get_task("a").unwrap().status, GraphTaskStatus::Failed);
    assert_eq!(scheduler.graph().get_task("b").unwrap().status, GraphTaskStatus::Done);
    assert!(scheduler.get_running().is_empty());
    assert!(scheduler.all_done());
}

#[test]
fn a_task_in_progress_is_not_started_again() {
    let mut scheduler = Scheduler::new(integration_graph());
    scheduler.mark_started("hello").unwrap();
    scheduler.mark_started("hello").unwrap();
    assert_eq!(scheduler.get_running(), vec!["hello"]);
    scheduler.mark_done("hello").unwrap();
    scheduler.mark_started("hello").unwrap();
    assert!(scheduler.get_running().is_empty());
    assert_eq!(scheduler.graph().get_task("hello").unwrap().status, GraphTaskStatus::Done);
}

#[test]
fn a_planned_task_stays_planned() {
    let mut graph = Graph::new(None);
    let mut planned = task(None, &[]);
    planned.status = GraphTaskStatus::Planned;
    graph.tasks.insert("p".to_string(), planned);
    let mut scheduler = Scheduler::new(graph);
    assert!(scheduler.mark_started("p").is_ok());
    assert!(scheduler.mark_done("p").is_ok());
    assert!(scheduler.mark_failed("p").is_ok());
    assert_eq!(scheduler.graph().get_task("p").unwrap().status, GraphTaskStatus::Planned);
    assert!(scheduler.get_running().is_empty());
}
