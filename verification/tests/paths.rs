use agent_witness::emit::{
    emit_outcome, watch_answer, watch_step, EmitOutcome, WatchStep, ACK_BYTE,
};
use agent_witness::messages::{fallback_note, init_failure_message};
use agent_witness::paths::{home_dir, resolve};

#[test]
fn init_failure_message_is_actionable_and_names_the_cause() {
    // Mimic the observed ENXIO failure ("Device not configured").
    let message = init_failure_message("show", "agent-witness report", "Device not configured");

    assert!(
        message.contains("needs an interactive terminal"),
        "keeps the shared actionable phrasing: {message}"
    );
    assert!(
        message.contains("agent-witness show"),
        "names the command that failed: {message}"
    );
    assert!(
        message.contains("terminal init failed: Device not configured"),
        "surfaces the underlying init error: {message}"
    );
    assert!(
        message.contains("agent-witness report"),
        "suggests the non-interactive fallback: {message}"
    );
    assert!(
        !message.contains("panicked"),
        "an error message, not a panic: {message}"
    );
}

#[test]
fn the_socket_goes_to_the_runtime_directory_where_there_is_one() {
    let paths = resolve(Some("/home/me"), Some("/run/user/1")).unwrap();
    assert_eq!(paths.socket, "/run/user/1/agent-witness/witness.sock");
    assert_eq!(paths.sessions_root, "/home/me/.agent-witness/sessions");
    for runtime in [None, Some("")] {
        let paths = resolve(Some("/home/me"), runtime).unwrap();
        assert_eq!(paths.socket, "/home/me/.agent-witness/witness.sock");
    }
}

#[test]
fn without_a_home_there_are_no_paths() {
    assert_eq!(resolve(None, Some("/run")), None);
    assert_eq!(resolve(Some(""), Some("/run")), None);
    assert_eq!(home_dir(Some("")), None);
    assert_eq!(home_dir(Some("/h")), Some("/h"));
}

#[test]
fn a_payload_is_forwarded_only_on_the_acknowledgement() {
    assert_eq!(emit_outcome(Some(&vec![ACK_BYTE])), EmitOutcome::Forwarded);
    assert_eq!(emit_outcome(Some(&vec![])), EmitOutcome::Fallback);
    assert_eq!(emit_outcome(Some(&vec![7])), EmitOutcome::Fallback);
    assert_eq!(emit_outcome(Some(&vec![ACK_BYTE, ACK_BYTE])), EmitOutcome::Fallback);
    assert_eq!(emit_outcome(None), EmitOutcome::Fallback);
}

#[test]
fn the_daemon_acknowledges_only_what_it_wrote() {
    assert_eq!(watch_step(true), WatchStep::Acknowledge);
    assert_eq!(watch_step(false), WatchStep::Forget);
    assert_eq!(emit_outcome(Some(&watch_answer(watch_step(true)))), EmitOutcome::Forwarded);
    assert_eq!(emit_outcome(Some(&watch_answer(watch_step(false)))), EmitOutcome::Fallback);
}

#[test]
fn the_fallback_is_told() {
    assert_eq!(
        fallback_note("/p", "sess"),
        "No session recorded for /p; showing the most recent session (sess) instead."
    );
}
