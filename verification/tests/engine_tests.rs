use gidterm::engine::{check_waiting_input, is_prompt, CommandError, Engine};
use gidterm::executor::{Executor, TaskEvent};
use gidterm::graph::{Graph, GraphTaskStatus, Task};
use gidterm::registry::ParserRegistry;
use gidterm::strmap::StrMap;

fn task(task_type: &str, command: Option<&str>, deps: &[&str]) -> Task {
    Task {
        task_type: task_type.to_string(),
        description: "step".to_string(),
        command: command.map(|c| c.to_string()),
        status: GraphTaskStatus::Pending,
        priority: None,
        depends_on: Some(deps.iter().map(|d| d.to_string()).collect()),
        component: None,
        estimated_hours: None,
        tags: None,
        semantic_commands: None,
    }
}

fn chain(second_command: &str) -> Graph {
    let mut graph = Graph::new(None);
    graph.tasks.insert("a".to_string(), task("", Some("echo 1"), &[]));
    graph.tasks.insert("b".to_string(), task("", Some(second_command), &["a"]));
    graph.tasks.insert("c".to_string(), task("", Some("echo 3"), &["b"]));
    graph
}

fn engine(graph: Graph) -> Engine {
    Engine::new(graph, ParserRegistry::with_defaults().unwrap(), false)
}

fn completed(id: &str) -> TaskEvent {
    TaskEvent::Completed { task_id: id.to_string(), exit_code: 0 }
}

fn output(id: &str, line: &str) -> TaskEvent {
    TaskEvent::Output { task_id: id.to_string(), line: line.to_string() }
}

fn status(e: &Engine, id: &str) -> GraphTaskStatus {
    e.scheduler().graph().get_task(id).unwrap().status
}

#[test]
fn a_linear_chain_runs_to_the_end() {
    let mut e = engine(chain("echo 2"));
    let mut started = Vec::new();
    for (id, line) in [("a", "1"), ("b", "2"), ("c", "3")] {
        let orders = e.start_ready_tasks();
        assert_eq!(orders.len(), 1);
        assert_eq!(orders[0].task_id, id);
        assert_eq!(orders[0].command, format!("echo {}", line));
        started.push(orders[0].task_id.clone());
        assert!(e.start_ready_tasks().is_empty());
        assert_eq!(e.scheduler().get_running(), vec![id]);
        e.apply_event(&TaskEvent::Started { task_id: id.to_string() }, 0);
        e.apply_event(&output(id, line), 1);
        assert_eq!(e.get_task_output(id, 10), vec![line]);
        e.apply_event(&completed(id), 2);
        assert_eq!(status(&e, id), GraphTaskStatus::Done);
    }
    assert_eq!(started, vec!["a", "b", "c"]);
    assert!(e.scheduler().all_done());
    assert!(e.start_ready_tasks().is_empty());
}

#[test]
fn a_failure_leaves_the_rest_pending() {
    let mut e = engine(chain("false"));
    e.start_ready_tasks();
    e.apply_event(&completed("a"), 0);
    assert_eq!(e.start_ready_tasks()[0].command, "false");
    e.apply_event(
        &TaskEvent::Failed { task_id: "b".to_string(), error: "process exited with code 1".to_string() },
        1,
    );
    assert_eq!(status(&e, "b"), GraphTaskStatus::Failed);
    assert!(e.start_ready_tasks().is_empty());
    assert_eq!(status(&e, "c"), GraphTaskStatus::Pending);
    assert!(!e.scheduler().all_done());
    assert!(e.scheduler().get_running().is_empty());
}

#[test]
fn tasks_without_a_command_are_done_at_once() {
    let mut graph = Graph::new(None);
    graph.tasks.insert("mark".to_string(), task("", None, &[]));
    graph.tasks.insert("run".to_string(), task("", Some("true"), &["mark"]));
    let mut e = engine(graph);
    assert!(e.start_ready_tasks().is_empty());
    assert_eq!(status(&e, "mark"), GraphTaskStatus::Done);
    assert_eq!(status(&e, "run"), GraphTaskStatus::Pending);
    let orders = e.start_ready_tasks();
    assert_eq!(orders.len(), 1);
    assert_eq!(orders[0].task_id, "run");
    assert_eq!(status(&e, "run"), GraphTaskStatus::InProgress);
}

#[test]
fn a_spawn_that_fails_fails_the_task() {
    let mut e = engine(chain("echo 2"));
    e.start_ready_tasks();
    assert!(e.on_spawn_failed("a"));
    assert!(!e.on_spawn_failed("nope"));
    assert_eq!(status(&e, "a"), GraphTaskStatus::Failed);
    assert!(e.scheduler().get_running().is_empty());
}

#[test]
fn events_about_unknown_tasks_change_nothing() {
    let mut e = engine(chain("echo 2"));
    e.apply_event(&completed("ghost"), 0);
    e.apply_event(&TaskEvent::Failed { task_id: "ghost".to_string(), error: "x".to_string() }, 0);
    assert_eq!(status(&e, "a"), GraphTaskStatus::Pending);
    assert_eq!(e.start_ready_tasks().len(), 1);
}

#[test]
fn output_feeds_metrics_history_and_advisor() {
    let mut graph = Graph::new(None);
    graph.tasks.insert("build".to_string(), task("build", Some("cargo build"), &[]));
    let mut e = engine(graph);
    e.apply_event(&output("build", ""), 0);
    assert!(e.get_task_output("build", 10).is_empty());
    e.apply_event(&output("build", "hello"), 0);
    assert!(e.get_task_metrics("build").is_none());
    assert!(e.get_metric_history("build").is_none());
    e.apply_event(&output("build", "[1/4] Building"), 1_000);
    assert_eq!(e.get_task_metrics("build").unwrap().progress, 250_000);
    assert_eq!(e.get_metric_history("build").unwrap().snapshots().len(), 1);
    e.apply_event(&output("build", "[2/4] Building"), 3_000);
    assert_eq!(e.get_task_metrics("build").unwrap().progress, 500_000);
    assert_eq!(e.get_metric_history("build").unwrap().snapshots().len(), 2);
    // 25 % in 2 s: the other 50 % take 4 s
    assert_eq!(e.get_eta("build").as_deref(), Some("4s"));
    assert!(e.get_advisories("build").is_none());
    e.apply_event(&output("build", "error[E0001]: broken"), 4_000);
    let advice = e.get_advisories("build").unwrap();
    assert_eq!(advice.len(), 1);
    assert_eq!(advice[0].message, "1 compilation error(s) detected");
    let m = e.get_task_metrics("build").unwrap();
    assert_eq!(m.errors, vec!["error[E0001]: broken"]);
    assert_eq!(e.get_task_output("build", 2), vec!["[2/4] Building", "error[E0001]: broken"]);
    assert_eq!(e.get_eta("nope"), None);
}

#[test]
fn a_line_that_says_nothing_does_not_erase_what_is_known() {
    let mut graph = Graph::new(None);
    graph.tasks.insert("t".to_string(), task("generic", Some("run"), &[]));
    let mut e = engine(graph);
    e.apply_event(&output("t", "40%"), 0);
    assert_eq!(e.get_task_metrics("t").unwrap().progress, 400_000);
    for i in 0..25 {
        e.apply_event(&output("t", &format!("chatter {}", i)), 10 + i);
    }
    // the percentage has left the window of twenty lines
    assert_eq!(e.get_task_metrics("t").unwrap().progress, 400_000);
    assert_eq!(e.get_metric_history("t").unwrap().snapshots().len(), 1);
}

#[test]
fn only_the_last_two_thousand_lines_are_kept() {
    let mut e = engine(chain("echo 2"));
    for i in 0..2005 {
        e.apply_event(&output("a", &format!("line {}", i)), i);
    }
    let all = e.get_task_output("a", 5000);
    assert_eq!(all.len(), 2000);
    assert_eq!(all[0], "line 5");
    assert_eq!(e.get_task_output("a", 1), vec!["line 2004"]);
    assert!(e.get_task_output("a", 0).is_empty());
}

#[test]
fn names_in_a_workspace() {
    let single = engine(chain("x"));
    assert_eq!(single.get_task_display_name("web:build"), "web:build");
    assert_eq!(single.get_project_name("web:build"), None);
    let multi = Engine::new(chain("x"), ParserRegistry::with_defaults().unwrap(), true);
    assert_eq!(multi.get_task_display_name("web:build"), "build");
    assert_eq!(multi.get_task_display_name("web:build:x"), "build");
    assert_eq!(multi.get_task_display_name("plain"), "plain");
    assert_eq!(multi.get_task_display_name("web:"), "");
    assert_eq!(multi.get_project_name("web:build").as_deref(), Some("web"));
    assert_eq!(multi.get_project_name("plain").as_deref(), Some("plain"));
    assert_eq!(multi.get_task_ids(), vec!["a", "b", "c"]);
}

#[test]
fn semantic_commands_are_rendered_and_sent() {
    let mut graph = Graph::new(None);
    let mut t = task("", Some("cat"), &[]);
    t.semantic_commands = Some(vec![("hello".to_string(), "print(\"{msg}\")".to_string())]);
    graph.tasks.insert("t".to_string(), t);
    graph.tasks.insert("bare".to_string(), task("", Some("cat"), &[]));
    let e = engine(graph);
    let mut executor = Executor::new();
    let mut params = StrMap::new();
    params.insert("msg".to_string(), "hi".to_string());

    assert!(matches!(
        e.execute_semantic_command(&executor, "t", "hello", &params),
        Err(CommandError::Exec(_))
    ));
    executor.start_task("t");
    assert_eq!(
        e.execute_semantic_command(&executor, "t", "hello", &params).unwrap(),
        "print(\"hi\")\n"
    );
    assert_eq!(
        e.execute_semantic_command(&executor, "t", "hello", &StrMap::new()).unwrap(),
        "print(\"{msg}\")\n"
    );
    match e.execute_semantic_command(&executor, "t", "bye", &params) {
        Err(err) => assert_eq!(err.message(), "Command 'bye' not found for task t"),
        Ok(_) => panic!("an unknown command was sent"),
    }
    match e.execute_semantic_command(&executor, "bare", "hello", &params) {
        Err(err) => assert_eq!(err.message(), "No semantic commands for task bare"),
        Ok(_) => panic!("a task without commands got one"),
    }
    assert!(e.get_semantic_commands("t").is_some());
    assert!(e.get_semantic_commands("bare").is_none());
    assert!(e.get_semantic_commands("nope").is_none());
}

#[test]
fn prompts_are_recognised() {
    assert!(check_waiting_input("Press ENTER to go on"));
    assert!(check_waiting_input("Overwrite? [Y/n]"));
    assert!(check_waiting_input("Do you want to continue?"));
    assert!(check_waiting_input("Please CONFIRM"));
    assert!(check_waiting_input("waiting for input..."));
    assert!(!check_waiting_input("Compiling serde v1.0.204"));
    // the line is looked at in lower case, so these phrases never show
    assert!(!check_waiting_input("Enter your name"));
    assert!(!check_waiting_input("Type your answer"));
}

#[test]
fn a_late_event_does_not_undo_an_end() {
    let mut e = engine(chain("false"));
    e.start_ready_tasks();
    e.apply_event(
        &TaskEvent::Failed { task_id: "a".to_string(), error: "process exited with code 1".to_string() },
        0,
    );
    e.apply_event(&completed("a"), 1);
    assert_eq!(status(&e, "a"), GraphTaskStatus::Failed);
    assert!(e.start_ready_tasks().is_empty());
    assert_eq!(status(&e, "b"), GraphTaskStatus::Pending);
}

#[test]
fn prompts_are_told_by_their_phrases() {
    for phrase in [
        "press enter", "press any key", "y/n", "[y/n]", "(y/n)", "continue?", "proceed?", "confirm",
        "waiting for input", "Enter your", "Type your",
    ] {
        assert!(is_prompt(&format!("... {} ...", phrase)));
    }
    assert!(!is_prompt("Press Enter"));
    assert!(!is_prompt("enter your name"));
    assert!(!is_prompt("compiling"));
    assert!(!is_prompt(""));
}
