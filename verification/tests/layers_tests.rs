use gidterm::graph::{Graph, GraphTaskStatus, Task};
use gidterm::layers::{build_layers, calculate_depth, task_depths};

fn task(deps: &[&str]) -> Task {
    Task {
        task_type: String::new(),
        description: "step".to_string(),
        command: None,
        status: GraphTaskStatus::Pending,
        priority: None,
        depends_on: if deps.is_empty() { None } else { Some(deps.iter().map(|d| d.to_string()).collect()) },
        component: None,
        estimated_hours: None,
        tags: None,
        semantic_commands: None,
    }
}

fn graph(tasks: &[(&str, &[&str])]) -> Graph {
    let mut g = Graph::new(None);
    for (id, deps) in tasks {
        g.tasks.insert(id.to_string(), task(deps));
    }
    g
}

#[test]
fn layers_follow_the_longest_chain() {
    let g = graph(&[
        ("final", &["parallel1", "parallel2"]),
        ("hello", &[]),
        ("world", &["hello"]),
        ("parallel2", &["world"]),
        ("parallel1", &["world", "hello"]),
    ]);
    assert_eq!(task_depths(&g), vec![3, 0, 1, 2, 2]);
    assert_eq!(
        build_layers(&g),
        vec![vec!["hello"], vec!["world"], vec!["parallel1", "parallel2"], vec!["final"]]
    );
    assert_eq!(calculate_depth("final", &g), 3);
    assert_eq!(calculate_depth("nope", &g), 0);
}

#[test]
fn an_empty_graph_has_one_empty_layer() {
    let g = graph(&[]);
    assert_eq!(build_layers(&g), vec![Vec::<String>::new()]);
}

#[test]
fn an_unknown_dependency_counts_as_a_task_without_dependencies() {
    let g = graph(&[("a", &["ghost"]), ("b", &["a"])]);
    assert_eq!(task_depths(&g), vec![1, 2]);
    assert_eq!(build_layers(&g), vec![Vec::<String>::new(), vec!["a".to_string()], vec!["b".to_string()]]);
}

#[test]
fn a_cycle_does_not_hang() {
    let g = graph(&[("a", &["b"]), ("b", &["a"]), ("c", &[])]);
    assert_eq!(task_depths(&g), vec![3, 3, 0]);
    assert_eq!(build_layers(&g).len(), 4);
}
