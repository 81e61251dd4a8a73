use rip::terminator::{kill_arguments, kill_result, KillError, KillOutcome, KILL_PROGRAM};

#[test]
fn success_is_a_successful_exit_status() {
    let outcome = KillOutcome::Exited { success: true, status: "exit status: 0".to_string() };
    assert_eq!(kill_result(&outcome), Ok(()));
}

#[test]
fn other_exit_status_is_an_error_that_holds_the_status() {
    let outcome = KillOutcome::Exited { success: false, status: "exit status: 1".to_string() };
    assert_eq!(
        kill_result(&outcome),
        Err(KillError {
            description: "kill command failed with status: exit status: 1".to_string()
        })
    );
    let outcome =
        KillOutcome::Exited { success: false, status: "signal: 9 (SIGKILL)".to_string() };
    assert_eq!(
        kill_result(&outcome).unwrap_err().description,
        "kill command failed with status: signal: 9 (SIGKILL)"
    );
}

#[test]
fn utility_that_did_not_run_is_an_error_that_holds_the_cause() {
    let outcome = KillOutcome::NotRun { cause: "permission denied".to_string() };
    assert_eq!(
        kill_result(&outcome),
        Err(KillError { description: "permission denied".to_string() })
    );
}

#[test]
fn utility_is_handed_the_signal_and_the_process() {
    assert_eq!(KILL_PROGRAM, "kill");
    assert_eq!(kill_arguments(1234), vec!["-9", "1234"]);
    assert_eq!(kill_arguments(0), vec!["-9", "0"]);
    assert_eq!(kill_arguments(u32::MAX), vec!["-9", "4294967295"]);
}
