use gidterm::commands::{placeholder_names, word_flags, SemanticCommand, TaskCommands};
use gidterm::graph::{GraphTaskStatus, Task};
use gidterm::strmap::StrMap;

fn map_of(pairs: &[(&str, &str)]) -> StrMap<String> {
    let mut map = StrMap::new();
    for (k, v) in pairs {
        map.insert(k.to_string(), v.to_string());
    }
    map
}

#[test]
fn test_simple_command() {
    let cmd = SemanticCommand::new("save", "model.save('checkpoint.pth')");
    assert!(!cmd.needs_params());
    assert_eq!(cmd.render(&StrMap::new()), "model.save('checkpoint.pth')");
}

#[test]
fn test_parameterized_command() {
    let cmd = SemanticCommand::new("adjust_lr", "optimizer.param_groups[0]['lr'] = {value}");
    assert!(cmd.needs_params());
    assert_eq!(cmd.params, vec!["value"]);

    let mut params = StrMap::new();
    params.insert("value".to_string(), "0.0001".to_string());
    assert_eq!(cmd.render(&params), "optimizer.param_groups[0]['lr'] = 0.0001");
}

#[test]
fn test_task_commands_from_map() {
    let map = map_of(&[("save", "model.save('ckpt.pth')"), ("stop", "trainer.stop()")]);

    let cmds = TaskCommands::from_map(&map);
    assert_eq!(cmds.commands.len(), 2);
    assert!(cmds.get("save").is_some());
    assert!(cmds.get("stop").is_some());
    assert!(cmds.get("nonexistent").is_none());
}

#[test]
fn test_semantic_commands_from_graph() {
    let mut tasks = StrMap::new();
    let sem_cmds = vec![
        ("save".to_string(), "model.save('ckpt.pth')".to_string()),
        ("adjust_lr".to_string(), "optimizer.lr = {value}".to_string()),
    ];

    tasks.insert(
        "train".to_string(),
        Task {
            task_type: "ml_training".to_string(),
            description: "Train model".to_string(),
            command: Some("python train.py".to_string()),
            status: GraphTaskStatus::Pending,
            priority: None,
            depends_on: None,
            component: None,
            estimated_hours: None,
            tags: None,
            semantic_commands: Some(sem_cmds),
        },
    );

    let task = tasks.get("train").unwrap();
    let mut map = StrMap::new();
    for (label, template) in task.semantic_commands.as_ref().unwrap() {
        map.insert(label.clone(), template.clone());
    }
    let cmds = TaskCommands::from_map(&map);

    assert_eq!(cmds.commands.len(), 2);
    assert!(cmds.get("save").is_some());
    assert!(!cmds.get("save").unwrap().needs_params());
    assert!(cmds.get("adjust_lr").unwrap().needs_params());

    let mut params = StrMap::new();
    params.insert("value".to_string(), "0.001".to_string());
    assert_eq!(cmds.get("adjust_lr").unwrap().render(&params), "optimizer.lr = 0.001");
}

#[test]
fn render_replaces_known_and_keeps_unknown_placeholders() {
    let cmd = SemanticCommand::new("mix", "a {x} b {y} c {x}{z}");
    assert_eq!(cmd.params, vec!["x", "y", "x", "z"]);
    let params = map_of(&[("x", "1"), ("z", "{y}")]);
    assert_eq!(cmd.render(&params), "a 1 b {y} c 1{y}");
}

#[test]
fn render_reads_the_template_once() {
    let cmd = SemanticCommand::new("nest", "{a}");
    let params = map_of(&[("a", "{b}"), ("b", "deep")]);
    assert_eq!(cmd.render(&params), "{b}");
}

#[test]
fn extract_params_wants_a_name_between_braces() {
    assert!(SemanticCommand::extract_params("{} { x} {x y} {x").is_empty());
    assert_eq!(SemanticCommand::extract_params("{{a_1}}"), vec!["a_1"]);
    assert_eq!(SemanticCommand::extract_params("print(\"{msg}\")"), vec!["msg"]);
}

#[test]
fn placeholder_names_are_made_of_word_characters() {
    assert_eq!(SemanticCommand::extract_params("{größe} {名前} {a-b} {x.y}"), vec!["größe", "名前"]);
    assert_eq!(SemanticCommand::extract_params("{a}}{_}{9}"), vec!["a", "_", "9"]);
    assert!(SemanticCommand::extract_params("{a b}{}{ }").is_empty());
}

#[test]
fn render_print_template() {
    let cmd = SemanticCommand::new("hello", "print(\"{msg}\")");
    let params = map_of(&[("msg", "hi")]);
    assert_eq!(cmd.render(&params), "print(\"hi\")");
}

#[test]
fn task_commands_labels_and_emptiness() {
    let cmds = TaskCommands::from_map(&map_of(&[("save", "s"), ("stop", "t")]));
    assert_eq!(cmds.labels(), vec!["save", "stop"]);
    assert!(!cmds.is_empty());
    assert!(TaskCommands::from_map(&StrMap::new()).is_empty());
}

fn scan(template: &str, word: &str) -> Vec<String> {
    let t: Vec<char> = template.chars().collect();
    let flags: Vec<bool> = word.chars().map(|c| c == 'w').collect();
    placeholder_names(&t, &flags)
}

#[test]
fn placeholders_are_runs_of_name_characters_between_braces() {
    //                  01234567890123
    assert_eq!(scan("{value}", ".wwwww."), vec!["value"]);
    assert_eq!(scan("a{x}{yz}b", "w.w..ww.w"), vec!["x", "yz"]);
    // the run must reach the closing brace and must not be empty
    assert!(scan("{x y}", ".w.w.").is_empty());
    assert!(scan("{}", "..").is_empty());
    assert!(scan("{x", ".w").is_empty());
    assert!(scan("x}", "w.").is_empty());
    // what counts as a name character is what the flags say
    assert_eq!(scan("{a-b}", ".www."), vec!["a-b"]);
    assert!(scan("{ab}", "....").is_empty());
    // flags that are missing count as false
    assert!(scan("{ab}", ".w").is_empty());
    assert!(scan("", "").is_empty());
}

#[test]
fn word_flags_follow_the_characters() {
    let t: Vec<char> = "a_9 {é}-".chars().collect();
    assert_eq!(word_flags(&t), vec![true, true, true, false, false, true, false, false]);
}
