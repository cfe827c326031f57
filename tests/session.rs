use for_each_value::session::{exit_code, next_action, Action, Event, RunError};
use for_each_value::split::Splitter;

/// Drives a run over `input` in memory; `status` gives each program's exit
/// code. Returns the command lines spawned and the exit code of the run.
fn drive(
    template: &[&str],
    placeholder: &str,
    d: u8,
    input: &[u8],
    status: impl Fn(&[Vec<u8>]) -> Option<i32>,
) -> (Vec<Vec<Vec<u8>>>, i32) {
    let mut splitter = Splitter::new(d);
    let mut values: Vec<Vec<u8>> = splitter.feed(input);
    if let Some(last) = splitter.finish() {
        values.push(last);
    }
    let mut values = values.into_iter();
    let mut spawned = Vec::new();
    let mut event = match values.next() {
        Some(v) => Event::Value(v),
        None => Event::End,
    };
    loop {
        match next_action(template, placeholder, event) {
            Action::Spawn(cmd) => {
                let code = status(&cmd);
                spawned.push(cmd);
                event = Event::Exited(code);
            }
            Action::ReadNext => {
                event = match values.next() {
                    Some(v) => Event::Value(v),
                    None => Event::End,
                };
            }
            Action::Finish(outcome) => return (spawned, exit_code(outcome)),
        }
    }
}

fn line(words: &[&str]) -> Vec<Vec<u8>> {
    words.iter().map(|w| w.as_bytes().to_vec()).collect()
}

#[test]
fn each_value_runs_once_in_order() {
    let (spawned, code) = drive(&["echo", "{}"], "{}", b'\n', b"a\nb\nc", |_| Some(0));
    assert_eq!(spawned, vec![line(&["echo", "a"]), line(&["echo", "b"]), line(&["echo", "c"])]);
    assert_eq!(code, 0);
}

#[test]
fn first_failure_stops_the_run() {
    let (spawned, code) = drive(&["false"], "{}", b'\n', b"x\ny", |_| Some(1));
    assert_eq!(spawned, vec![line(&["false"])]);
    assert_eq!(code, 1);
}

#[test]
fn failing_code_is_passed_on() {
    let (spawned, code) = drive(&["sh", "{}"], "{}", b',', b"ok,bad,never", |cmd| {
        if cmd[1] == b"bad" {
            Some(42)
        } else {
            Some(0)
        }
    });
    assert_eq!(spawned, vec![line(&["sh", "ok"]), line(&["sh", "bad"])]);
    assert_eq!(code, 42);
}

#[test]
fn program_without_exit_code_counts_as_one() {
    let (spawned, code) = drive(&["kill"], "{}", b'\n', b"x\ny", |_| None);
    assert_eq!(spawned.len(), 1);
    assert_eq!(code, 1);
}

#[test]
fn empty_template_spawns_nothing() {
    let (spawned, code) = drive(&[], "{}", b'\n', b"x", |_| Some(0));
    assert!(spawned.is_empty());
    assert_eq!(code, 1);
    assert!(matches!(
        next_action(&[], "{}", Event::Value(b"x".to_vec())),
        Action::Finish(Err(RunError::NoCommand))
    ));
}

#[test]
fn invalid_text_stops_after_earlier_values() {
    let (spawned, code) = drive(&["echo", "{}"], "{}", b'\n', b"a\n\xff\nb", |_| Some(0));
    assert_eq!(spawned, vec![line(&["echo", "a"])]);
    assert_eq!(code, 1);
    assert!(matches!(
        next_action(&["echo"], "{}", Event::Value(vec![0xc3])),
        Action::Finish(Err(RunError::InvalidEncoding))
    ));
}

#[test]
fn empty_input_succeeds_without_spawning() {
    let (spawned, code) = drive(&["echo", "{}"], "{}", b'\n', b"", |_| Some(0));
    assert!(spawned.is_empty());
    assert_eq!(code, 0);
}

#[test]
fn outside_failures_end_the_run() {
    assert!(matches!(
        next_action(&["echo"], "{}", Event::ReadFailed),
        Action::Finish(Err(RunError::Io))
    ));
    assert!(matches!(
        next_action(&["echo"], "{}", Event::SpawnFailed),
        Action::Finish(Err(RunError::Exec))
    ));
    assert!(matches!(next_action(&["echo"], "{}", Event::End), Action::Finish(Ok(0))));
    assert!(matches!(next_action(&["echo"], "{}", Event::Exited(Some(0))), Action::ReadNext));
    assert!(matches!(
        next_action(&["echo"], "{}", Event::Exited(Some(3))),
        Action::Finish(Ok(3))
    ));
}

#[test]
fn errors_exit_with_one() {
    assert_eq!(exit_code(Ok(0)), 0);
    assert_eq!(exit_code(Ok(7)), 7);
    assert_eq!(exit_code(Err(RunError::Io)), 1);
    assert_eq!(exit_code(Err(RunError::Exec)), 1);
}

#[test]
fn error_messages() {
    assert_eq!(RunError::Io.message(), "io err");
    assert_eq!(RunError::InvalidEncoding.message(), "received invalid utf8 as argument on stdin");
    assert_eq!(RunError::NoCommand.message(), "no command supplied");
    assert_eq!(RunError::Exec.message(), "couldn't execute command");
}
