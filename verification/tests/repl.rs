use tinycalc::repl::{Repl, UpdateAction};

/// Drives the session's decision functions over a bounded fake input stream,
/// the way the interactive loop would: the callback fails on a line that
/// says "boom" and stops the session on "exit". Returns the lines the
/// callback saw and the session's final outcome.
fn drive(lines: &[&str], crash_on_error: bool) -> (Vec<String>, Result<(), String>) {
    let mut repl = Repl::new(crash_on_error);
    let proceed = repl.on_init_outcome(true);
    assert!(proceed);
    let mut seen: Vec<String> = Vec::new();
    let mut stream = lines.iter();
    let mut result: Result<(), String> = Ok(());
    while repl.is_running {
        let Some(line) = stream.next() else {
            break;
        };
        seen.push(line.to_string());
        let outcome: Result<(), String> = if *line == "exit" {
            repl.stop();
            Ok(())
        } else if *line == "boom" {
            Err("the update callback failed".to_string())
        } else {
            Ok(())
        };
        match repl.on_update_outcome(outcome.is_ok()) {
            UpdateAction::Continue => {}
            UpdateAction::ReportAndContinue => {}
            UpdateAction::Propagate => {
                result = outcome;
                break;
            }
        }
    }
    (seen, result)
}

#[test]
fn new_session_is_not_running() {
    let repl = Repl::new(true);
    assert!(!repl.is_running);
    assert!(repl.crash_on_error);
    let lax = Repl::new(false);
    assert!(!lax.crash_on_error);
}

#[test]
fn successful_init_enters_running() {
    let mut repl = Repl::new(false);
    let proceed = repl.on_init_outcome(true);
    assert!(proceed);
    assert!(repl.is_running);
}

#[test]
fn failed_init_never_starts() {
    let mut repl = Repl::new(false);
    let proceed = repl.on_init_outcome(false);
    assert!(!proceed);
    assert!(!repl.is_running);
}

#[test]
fn stop_leaves_running_state() {
    let mut repl = Repl::new(true);
    repl.on_init_outcome(true);
    assert!(repl.is_running);
    repl.stop();
    assert!(!repl.is_running);
    assert!(repl.crash_on_error);
}

#[test]
fn update_success_continues() {
    let mut strict = Repl::new(true);
    strict.on_init_outcome(true);
    assert_eq!(strict.on_update_outcome(true), UpdateAction::Continue);
    let mut lax = Repl::new(false);
    lax.on_init_outcome(true);
    assert_eq!(lax.on_update_outcome(true), UpdateAction::Continue);
}

#[test]
fn update_failure_follows_the_policy() {
    let strict = Repl::new(true);
    assert_eq!(strict.on_update_outcome(false), UpdateAction::Propagate);
    let lax = Repl::new(false);
    assert_eq!(lax.on_update_outcome(false), UpdateAction::ReportAndContinue);
}

#[test]
fn crash_on_error_surfaces_the_failure() {
    let (seen, result) = drive(&["boom", "after", "exit"], true);
    assert_eq!(seen, vec!["boom".to_string()]);
    assert_eq!(result, Err("the update callback failed".to_string()));
}

#[test]
fn lenient_policy_keeps_the_loop_alive() {
    let (seen, result) = drive(&["boom", "after", "exit"], false);
    assert_eq!(
        seen,
        vec!["boom".to_string(), "after".to_string(), "exit".to_string()]
    );
    assert_eq!(result, Ok(()));
}

#[test]
fn exit_line_stops_through_the_callback() {
    let (seen, result) = drive(&["2 + 3", "exit", "never read"], false);
    assert_eq!(seen, vec!["2 + 3".to_string(), "exit".to_string()]);
    assert_eq!(result, Ok(()));
}
