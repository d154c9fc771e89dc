use gidterm::executor::{reader_step, ExecError, Executor, ReadOutcome, TaskEvent};
use gidterm::pty::{plan_spawn, LineRead, PtyError, PtyState, RawRead};

#[test]
fn commands_run_under_the_shell() {
    let plan = plan_spawn("cd dir && npm run dev | tee log").unwrap();
    assert_eq!(plan.program, "sh");
    assert_eq!(plan.args, vec!["-c", "cd dir && npm run dev | tee log"]);
    assert_eq!((plan.rows, plan.cols, plan.pixel_width, plan.pixel_height), (24, 120, 0, 0));
    assert!(matches!(plan_spawn(""), Err(PtyError::EmptyCommand)));
    assert!(matches!(plan_spawn(" \t\n\u{a0}"), Err(PtyError::EmptyCommand)));
    assert_eq!(PtyError::EmptyCommand.message(), "Empty command");
}

fn line(read: LineRead) -> Option<String> {
    match read {
        LineRead::Line(text) => Some(text),
        _ => None,
    }
}

#[test]
fn reads_strip_line_ends_and_keep_lines() {
    let mut pty = PtyState::new("t");
    assert_eq!(line(pty.on_read(RawRead::Data("hello\r\n".to_string()))).as_deref(), Some("hello"));
    assert_eq!(line(pty.on_read(RawRead::Data("\n".to_string()))).as_deref(), Some(""));
    assert_eq!(line(pty.on_read(RawRead::WouldBlock)).as_deref(), Some(""));
    assert_eq!(line(pty.on_read(RawRead::Data("tail  ".to_string()))).as_deref(), Some("tail  "));
    assert_eq!(pty.get_output(), vec!["hello", "tail  "]);
    assert!(matches!(pty.on_read(RawRead::Failed("io".to_string())), LineRead::Failed(e) if e == "io"));
    assert!(pty.wants_read());
}

#[test]
fn the_end_of_the_output_is_final() {
    let mut pty = PtyState::new("t");
    assert!(matches!(pty.on_read(RawRead::Eof), LineRead::End));
    assert!(!pty.wants_read());
    assert!(matches!(pty.on_read(RawRead::Data("late\n".to_string())), LineRead::End));
    assert!(matches!(pty.on_read(RawRead::WouldBlock), LineRead::End));
    assert!(pty.get_output().is_empty());
}

#[test]
fn only_the_last_thousand_lines_are_kept() {
    let mut pty = PtyState::new("t");
    for i in 0..1005 {
        pty.on_read(RawRead::Data(format!("line {}\n", i)));
    }
    let kept = pty.get_output();
    assert_eq!(kept.len(), 1000);
    assert_eq!(kept[0], "line 5");
    assert_eq!(kept[999], "line 1004");
}

#[test]
fn kill_closes_everything_and_is_idempotent() {
    let mut pty = PtyState::new("t");
    assert_eq!(pty.send_input("go").unwrap(), "go\n");
    assert_eq!(pty.try_wait(None), None);
    assert_eq!(pty.try_wait(Some(3)).map(|r| r.code), Some(3));
    assert_eq!(pty.try_wait(Some(u32::MAX)).map(|r| r.code), Some(1));
    assert!(pty.is_alive());
    assert!(pty.kill());
    assert!(!pty.kill());
    assert!(!pty.is_alive());
    assert!(!pty.wants_wait());
    assert_eq!(pty.try_wait(None).map(|r| r.code), Some(-1));
    assert_eq!(pty.try_wait(Some(0)).map(|r| r.code), Some(-1));
    match pty.send_input("go") {
        Err(e) => assert_eq!(e.message(), "PTY master already closed for task t"),
        Ok(_) => panic!("input went to a closed terminal"),
    }
    assert!(matches!(pty.on_read(RawRead::Data("x\n".to_string())), LineRead::End));
    assert_eq!(pty.id(), "t");
}

fn output_of(step: Option<TaskEvent>) -> Option<(String, String)> {
    match step {
        Some(TaskEvent::Output { task_id, line }) => Some((task_id, line)),
        _ => None,
    }
}

#[test]
fn the_reader_turns_reads_into_events() {
    let step = reader_step("a", ReadOutcome::Line("1".to_string()));
    assert!(!step.done);
    assert_eq!(output_of(step.event), Some(("a".to_string(), "1".to_string())));

    let step = reader_step("a", ReadOutcome::Line(String::new()));
    assert!(!step.done && step.event.is_none());

    let step = reader_step("a", ReadOutcome::Eof { exit_code: Some(0) });
    assert!(step.done);
    assert!(matches!(step.event, Some(TaskEvent::Completed { ref task_id, exit_code: 0 }) if task_id == "a"));

    // without an exit code the task has not ended: the reader asks again
    let step = reader_step("a", ReadOutcome::Eof { exit_code: None });
    assert!(!step.done && step.event.is_none());

    let step = reader_step("b", ReadOutcome::Eof { exit_code: Some(1) });
    assert!(step.done);
    match step.event {
        Some(TaskEvent::Failed { task_id, error }) => {
            assert_eq!(task_id, "b");
            assert_eq!(error, "process exited with code 1");
        }
        _ => panic!("a failed process was not reported"),
    }

    match reader_step("b", ReadOutcome::Eof { exit_code: Some(-1) }).event {
        Some(TaskEvent::Failed { error, .. }) => assert_eq!(error, "process exited with code -1"),
        _ => panic!("a killed process was not reported"),
    }

    let step = reader_step("c", ReadOutcome::ReadError("broken pipe".to_string()));
    assert!(step.done);
    assert!(matches!(step.event, Some(TaskEvent::Failed { ref error, .. }) if error == "broken pipe"));

    let step = reader_step("c", ReadOutcome::WaitError("no child".to_string()));
    assert!(step.done);
    assert!(matches!(step.event, Some(TaskEvent::Failed { ref error, .. }) if error == "no child"));

    let step = reader_step("c", ReadOutcome::WorkerError("join".to_string()));
    assert!(step.done);
    assert!(matches!(step.event, Some(TaskEvent::Failed { ref error, .. }) if error == "internal error: join"));
}

#[test]
fn a_linear_chain_of_events() {
    // what the reader of `echo 1` meets: the line, then the end
    let mut executor = Executor::new();
    let mut trace = vec![executor.start_task("a")];
    let mut pty = PtyState::new("a");
    for raw in [RawRead::WouldBlock, RawRead::Data("1\r\n".to_string()), RawRead::Eof] {
        let read = pty.on_read(raw);
        let code = pty.try_wait(Some(0)).map(|r| r.code);
        let step = reader_step("a", ReadOutcome::of_read(read, Ok(code)));
        trace.extend(step.event);
        if step.done {
            executor.finish_task("a");
        }
    }
    assert_eq!(trace.len(), 3);
    assert!(matches!(trace[0], TaskEvent::Started { ref task_id } if task_id == "a"));
    assert!(matches!(trace[1], TaskEvent::Output { ref line, .. } if line == "1"));
    assert!(matches!(trace[2], TaskEvent::Completed { exit_code: 0, .. }));
    assert!(trace[2].is_terminal() && !trace[1].is_terminal());
    assert_eq!(trace[1].task_id(), "a");
    assert!(!executor.is_running("a"));
}

#[test]
fn the_table_of_terminals() {
    let mut executor = Executor::new();
    assert!(!executor.is_running("t"));
    assert!(matches!(executor.send_input("t", "x"), Err(ExecError::NotRunning { ref task_id }) if task_id == "t"));
    assert_eq!(
        executor.send_input("t", "x").unwrap_err().message(),
        "Task t not running"
    );
    assert!(executor.get_output("t").is_empty());
    assert!(!executor.stop_task("t"));

    executor.start_task("t");
    executor.start_task("u");
    assert!(executor.is_running("t"));
    assert_eq!(executor.send_input("t", "print(\"hi\")").unwrap(), "print(\"hi\")\n");
    assert!(executor.stop_task("t"));
    assert!(!executor.stop_task("t"));
    assert!(executor.is_running("t"));
    assert!(matches!(executor.send_input("t", "x"), Err(ExecError::Pty(PtyError::MasterClosed { .. }))));
    assert_eq!(executor.stop_all(), vec!["u"]);
    assert!(executor.stop_all().is_empty());
    assert!(executor.finish_task("t").is_some());
    assert!(executor.finish_task("t").is_none());
    assert!(!executor.is_running("t"));
    assert!(executor.is_running("u"));
}

#[test]
fn the_table_takes_the_reads_of_its_tasks() {
    let mut executor = Executor::new();
    assert!(!executor.wants_read("t"));
    assert!(matches!(executor.on_read("t", RawRead::Data("lost\n".to_string())), LineRead::End));
    assert_eq!(executor.try_wait("t", Some(0)).map(|r| r.code), Some(-1));
    executor.start_task("t");
    executor.start_task("u");
    assert!(executor.wants_read("t") && executor.wants_wait("t"));
    assert_eq!(line(executor.on_read("t", RawRead::Data("one\r\n".to_string()))).as_deref(), Some("one"));
    assert_eq!(line(executor.on_read("t", RawRead::WouldBlock)).as_deref(), Some(""));
    assert_eq!(line(executor.on_read("u", RawRead::Data("other\n".to_string()))).as_deref(), Some("other"));
    assert_eq!(executor.get_output("t"), vec!["one"]);
    assert_eq!(executor.get_output("u"), vec!["other"]);
    assert_eq!(executor.try_wait("t", None), None);
    assert_eq!(executor.try_wait("t", Some(2)).map(|r| r.code), Some(2));
    assert!(matches!(executor.on_read("t", RawRead::Eof), LineRead::End));
    assert!(!executor.wants_read("t"));
    assert!(executor.wants_read("u"));
    assert!(executor.stop_task("u"));
    assert!(!executor.wants_wait("u") && !executor.wants_read("u"));
    assert_eq!(executor.try_wait("u", Some(0)).map(|r| r.code), Some(-1));
    assert_eq!(executor.get_output("u"), vec!["other"]);
}

#[test]
fn a_task_ends_only_with_an_exit_code_that_was_read() {
    // the output of `false` ends before the child can be reaped
    let mut trace = Vec::new();
    let mut rounds = 0;
    for wait in [Ok(None), Ok(None), Ok(Some(1))] {
        rounds += 1;
        let step = reader_step("b", ReadOutcome::of_read(LineRead::End, wait));
        trace.extend(step.event);
        if step.done {
            break;
        }
    }
    assert_eq!(rounds, 3);
    assert_eq!(trace.len(), 1);
    match &trace[0] {
        TaskEvent::Failed { task_id, error } => {
            assert_eq!(task_id, "b");
            assert_eq!(error, "process exited with code 1");
        }
        _ => panic!("a failed process was reported as completed"),
    }
    let late = reader_step("a", ReadOutcome::of_read(LineRead::End, Ok(Some(0))));
    assert!(late.done);
    assert!(matches!(late.event, Some(TaskEvent::Completed { exit_code: 0, .. })));
    let lost = reader_step("a", ReadOutcome::of_read(LineRead::End, Err("gone".to_string())));
    assert!(lost.done);
    assert!(matches!(lost.event, Some(TaskEvent::Failed { ref error, .. }) if error == "gone"));
    // the wait is not looked at while there is output
    let line = reader_step("a", ReadOutcome::of_read(LineRead::Line("x".to_string()), Err("gone".to_string())));
    assert!(!line.done);
    assert!(matches!(line.event, Some(TaskEvent::Output { ref line, .. }) if line == "x"));
}
