use p2p_tunnel::auth::audit::{AuthAuditLog, AuthEventSource};
use p2p_tunnel::auth::trust::{TrustDecision, TrustKey, TrustStore};
use p2p_tunnel::auth::{AuthDecision, AuthRequest};
use p2p_tunnel::control_shell::{execute_line_with_context, ShellEffect, ShellOutcome};
use p2p_tunnel::controller::{Direction, ForwardController, Proto};

fn execute_line(controller: &mut ForwardController, line: &str) -> Result<ShellOutcome, String> {
    let mut store = TrustStore::new();
    execute_line_with_context(controller, &mut store, &AuthAuditLog::default(), line)
}

#[test]
fn add_serve_registers_forward() {
    let mut controller = ForwardController::new();

    let outcome = execute_line(&mut controller, "add serve tcp://127.0.0.1:80").unwrap();

    assert_eq!(outcome.output, "added tcp:80\n");
    assert!(!outcome.should_quit);
    let statuses = controller.list_forwards();
    assert_eq!(statuses.len(), 1);
    assert_eq!(statuses[0].spec.direction, Direction::Serve);
    assert_eq!(statuses[0].spec.addr, "127.0.0.1:80");
}

#[test]
fn add_connect_registers_listen_and_remote_target() {
    let mut controller = ForwardController::new();

    execute_line(&mut controller, "add connect udp://19000:9000").unwrap();

    let statuses = controller.list_forwards();
    assert_eq!(statuses[0].spec.direction, Direction::Connect);
    assert_eq!(statuses[0].spec.proto, Proto::Udp);
    assert_eq!(statuses[0].spec.listen_port, 19000);
    assert_eq!(statuses[0].spec.target, "udp:9000");
}

#[test]
fn remove_deletes_forward() {
    let mut controller = ForwardController::new();
    execute_line(&mut controller, "add serve :80").unwrap();

    let outcome = execute_line(&mut controller, "remove tcp:80").unwrap();

    assert_eq!(outcome.output, "removed tcp:80\n");
    assert!(controller.list_forwards().is_empty());
}

#[test]
fn list_renders_registered_forwards() {
    let mut controller = ForwardController::new();
    execute_line(&mut controller, "add serve :80").unwrap();

    let outcome = execute_line(&mut controller, "list").unwrap();

    assert!(outcome.output.contains("key direction proto endpoint"));
    assert!(outcome.output.contains("tcp:80 serve tcp :80 listening"));
}

#[test]
fn quit_marks_shell_complete() {
    let mut controller = ForwardController::new();

    let outcome = execute_line(&mut controller, "quit").unwrap();

    assert_eq!(outcome.output, "bye\n");
    assert!(outcome.should_quit);
}

#[test]
fn unknown_command_is_rejected() {
    let mut controller = ForwardController::new();

    let err = execute_line(&mut controller, "wat").unwrap_err();

    assert!(err.contains("unknown command"));
}

#[test]
fn empty_line_does_nothing() {
    let mut controller = ForwardController::new();
    let outcome = execute_line(&mut controller, "  \t\n").unwrap();
    assert_eq!(outcome.output, "");
    assert!(!outcome.should_quit);
    assert_eq!(outcome.effect, ShellEffect::Nothing);
}

#[test]
fn direction_has_to_be_known() {
    let mut controller = ForwardController::new();
    let err = execute_line(&mut controller, "add both :80").unwrap_err();
    assert_eq!(err, "direction must be `serve` or `connect`");
    assert!(controller.list_forwards().is_empty());
}

#[test]
fn failed_lines_leave_the_forwards_alone() {
    let mut controller = ForwardController::new();
    execute_line(&mut controller, "add serve :80").unwrap();
    assert_eq!(
        execute_line(&mut controller, "add serve 127.0.0.1:80").unwrap_err(),
        "forward already exists: tcp:80"
    );
    assert_eq!(
        execute_line(&mut controller, "rm udp:53").unwrap_err(),
        "forward not found: udp:53"
    );
    assert_eq!(controller.list_forwards().len(), 1);
    assert_eq!(controller.list_forwards()[0].spec.addr, ":80");
}

#[test]
fn removed_forward_is_stopped_and_withdrawn() {
    let mut controller = ForwardController::new();
    execute_line(&mut controller, "add serve :80").unwrap();
    let outcome = execute_line(&mut controller, "rm tcp:80").unwrap();
    match outcome.effect {
        ShellEffect::Stop(removed) => {
            assert!(removed.unpublish);
            assert_eq!(removed.spec.target, "tcp:80");
        }
        other => panic!("unexpected effect {:?}", other),
    }
}

#[test]
fn whole_listing_of_one_forward() {
    let mut controller = ForwardController::new();
    assert_eq!(
        execute_line(&mut controller, "ls").unwrap().output,
        "no forwards\n"
    );
    execute_line(&mut controller, "add connect 15432:5432").unwrap();
    assert_eq!(
        execute_line(&mut controller, "ls").unwrap().output,
        "key direction proto endpoint state conns in out\n\
         tcp:5432 connect tcp :15432 listening 0 0 0\n"
    );
}

#[test]
fn trust_lines_change_what_is_remembered() {
    let mut controller = ForwardController::new();
    let mut store = TrustStore::new();
    let log = AuthAuditLog::default();
    let key = TrustKey {
        peer_id: "peer-a".to_string(),
        forward_key: "tcp:80".to_string(),
    };

    let listed = execute_line_with_context(&mut controller, &mut store, &log, "trust list");
    assert_eq!(listed.unwrap().output, "no trust entries\n");
    let denied =
        execute_line_with_context(&mut controller, &mut store, &log, "trust deny peer-a tcp:80")
            .unwrap();
    assert_eq!(denied.output, "denied peer-a tcp:80\n");
    assert_eq!(denied.effect, ShellEffect::SaveTrust);
    assert_eq!(store.get(&key), Some(TrustDecision::Deny));
    let allowed =
        execute_line_with_context(&mut controller, &mut store, &log, "t allow peer-a tcp:80")
            .unwrap();
    assert_eq!(allowed.output, "allowed peer-a tcp:80\n");
    let listed = execute_line_with_context(&mut controller, &mut store, &log, "trust list");
    assert_eq!(listed.unwrap().output, "allow peer-a tcp:80\n");
    let removed =
        execute_line_with_context(&mut controller, &mut store, &log, "t remove peer-a tcp:80")
            .unwrap();
    assert_eq!(removed.output, "removed peer-a tcp:80\n");
    assert_eq!(store.get(&key), None);
    let again =
        execute_line_with_context(&mut controller, &mut store, &log, "t remove peer-a tcp:80")
            .unwrap();
    assert_eq!(again.output, "trust entry not found\n");
    assert_eq!(again.effect, ShellEffect::Nothing);
    assert!(execute_line_with_context(&mut controller, &mut store, &log, "trust").is_err());
}

#[test]
fn events_are_listed() {
    let mut controller = ForwardController::new();
    let mut store = TrustStore::new();
    let mut log = AuthAuditLog::default();
    let none = execute_line_with_context(&mut controller, &mut store, &log, "ev").unwrap();
    assert_eq!(none.output, "no events\n");
    log.record(
        &AuthRequest {
            peer_id: "peer-a".to_string(),
            forward_key: "tcp:80".to_string(),
            target_addr: "127.0.0.1:80".to_string(),
            proto: "tcp".to_string(),
        },
        AuthDecision::DenyAlways,
        AuthEventSource::TrustStore,
        5,
    );
    let one = execute_line_with_context(&mut controller, &mut store, &log, "events").unwrap();
    assert_eq!(
        one.output,
        "#1 deny_always trust_store peer-a tcp:80 127.0.0.1:80\n"
    );
}

#[test]
fn help_names_every_command() {
    let mut controller = ForwardController::new();
    let help = execute_line(&mut controller, "help").unwrap().output;
    assert!(help.starts_with("commands:\n"));
    assert!(help.ends_with("  quit\n"));
    assert_eq!(help.lines().count(), 11);
}
