use winget_tasks::events::{StreamEvent, TaskSession};
use winget_tasks::outcome::{finish_status, i32_to_string, interpret_exit, ExitOutcome, SoftSuccessTable};
use winget_tasks::registry::{CancelError, ExecState};

#[test]
fn register_lookup_remove_round_trip() {
    let mut reg = ExecState::new();
    let id = "App.One".to_string();
    assert_eq!(reg.register(id.clone(), 41), None);
    assert_eq!(reg.lookup(&id), Some(41));
    // a second registration overwrites and reports the old process
    assert_eq!(reg.register(id.clone(), 42), Some(41));
    assert_eq!(reg.lookup(&id), Some(42));
    assert_eq!(reg.remove(&id), Some(42));
    assert_eq!(reg.lookup(&id), None);
    // removal is idempotent
    assert_eq!(reg.remove(&id), None);
}

#[test]
fn cancel_unknown_id_reports_not_found_and_changes_nothing() {
    let mut reg = ExecState::default();
    let other = "Other.App".to_string();
    reg.register(other.clone(), 7);
    let missing = "Missing.App".to_string();
    assert_eq!(reg.cancel(&missing), Err(CancelError::NotFound));
    assert_eq!(reg.lookup(&other), Some(7));
    assert_eq!(reg.lookup(&missing), None);
}

#[test]
fn cancelled_task_loses_its_entry_and_finishes_unsuccessfully() {
    let mut reg = ExecState::new();
    let id = "App.One".to_string();
    let mut session = TaskSession::new(id.clone());
    let _ = session.start("winget install --id App.One".to_string());
    reg.register(id.clone(), 4242);
    // the canceller finds the process, removes the entry, and the waiter
    // then reports the killed process as unsuccessful
    assert_eq!(reg.cancel(&id), Ok(4242));
    assert_eq!(reg.lookup(&id), None);
    let e = session.finish(false, Some(1));
    match e {
        StreamEvent::Finished(p) => {
            assert_eq!(p.id, "App.One");
            assert!(!p.success);
        },
        _ => panic!("expected the terminal notification"),
    }
}

#[test]
fn normal_completion_emits_started_logs_finished() {
    let mut session = TaskSession::new("App.One".to_string());
    let mut events: Vec<StreamEvent> = Vec::new();
    events.push(session.start("winget install --id App.One".to_string()));
    events.push(session.log("stdout".to_string(), "installing".to_string()));
    events.push(session.log("stderr".to_string(), "warning".to_string()));
    events.push(session.finish(true, Some(0)));
    assert_eq!(events.len(), 4);
    assert!(matches!(&events[0], StreamEvent::Started(p) if p.id == "App.One"));
    assert!(matches!(&events[1], StreamEvent::Log(p) if p.stream == "stdout"));
    assert!(matches!(&events[2], StreamEvent::Log(p) if p.stream == "stderr"));
    assert!(matches!(&events[3], StreamEvent::Finished(p) if p.success && p.code == Some(0)));
    let started = events.iter().filter(|e| matches!(e, StreamEvent::Started(_))).count();
    let finished = events.iter().filter(|e| matches!(e, StreamEvent::Finished(_))).count();
    assert_eq!(started, 1);
    assert_eq!(finished, 1);
}

#[test]
fn successful_exit_keeps_stdout() {
    let t = SoftSuccessTable::winget_defaults();
    let r = interpret_exit(true, Some(0), "all good\r\n", "", &t);
    assert_eq!(r, ExitOutcome::Success("all good\n".to_string()));
}

#[test]
fn soft_success_code_is_success_with_stdout() {
    let t = SoftSuccessTable::winget_defaults();
    let r = interpret_exit(false, Some(-1978335231), "no applicable update", "", &t);
    assert_eq!(r, ExitOutcome::Success("no applicable update".to_string()));
    let r2 = interpret_exit(false, Some(-1978335207), "up to date", "ignored?", &t);
    assert_eq!(r2, ExitOutcome::Success("up to date".to_string()));
}

#[test]
fn failure_prefers_stderr_text() {
    let t = SoftSuccessTable::winget_defaults();
    let r = interpret_exit(false, Some(1), "partial", "something broke", &t);
    assert_eq!(r, ExitOutcome::Failure("something broke".to_string()));
}

#[test]
fn nonzero_exit_with_only_stdout_is_success() {
    let t = SoftSuccessTable::winget_defaults();
    let r = interpret_exit(false, Some(3), "real results", "   ", &t);
    assert_eq!(r, ExitOutcome::Success("real results".to_string()));
}

#[test]
fn silent_failure_names_the_code() {
    let t = SoftSuccessTable::winget_defaults();
    let r = interpret_exit(false, Some(7), "  ", "", &t);
    assert_eq!(r, ExitOutcome::Failure("winget exited with code 7".to_string()));
    let r2 = interpret_exit(false, None, "", "", &t);
    assert_eq!(r2, ExitOutcome::Failure("winget exited with code -1".to_string()));
}

#[test]
fn escape_sequences_are_stripped_before_classification() {
    let t = SoftSuccessTable::winget_defaults();
    let r = interpret_exit(true, Some(0), "\u{1b}[32mok\u{1b}[0m", "", &t);
    assert_eq!(r, ExitOutcome::Success("ok".to_string()));
}

#[test]
fn decimal_rendering_covers_edges() {
    assert_eq!(i32_to_string(0), "0");
    assert_eq!(i32_to_string(-1), "-1");
    assert_eq!(i32_to_string(12345), "12345");
    assert_eq!(i32_to_string(i32::MIN), "-2147483648");
    assert_eq!(i32_to_string(i32::MAX), "2147483647");
}

#[test]
fn wait_error_maps_to_plain_failure_fields() {
    assert_eq!(finish_status(Some((true, Some(0)))), (true, Some(0)));
    assert_eq!(finish_status(None), (false, None));
}

#[test]
fn empty_registry_finds_nothing() {
    let reg = ExecState::new();
    assert_eq!(reg.lookup(&"anything".to_string()), None);
}

#[test]
fn many_tasks_stay_isolated() {
    let mut reg = ExecState::new();
    for i in 0..100u32 {
        reg.register(format!("App.{}", i), 1000 + i);
    }
    assert_eq!(reg.lookup(&"App.0".to_string()), Some(1000));
    assert_eq!(reg.lookup(&"App.99".to_string()), Some(1099));
    assert_eq!(reg.cancel(&"App.50".to_string()), Ok(1050));
    assert_eq!(reg.lookup(&"App.50".to_string()), None);
    assert_eq!(reg.lookup(&"App.49".to_string()), Some(1049));
    assert_eq!(reg.lookup(&"App.51".to_string()), Some(1051));
}
