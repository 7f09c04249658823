use p2p_tunnel::controller::{Direction, ForwardController};
use p2p_tunnel::startup::{add_forwards, log_filter, plan_serve, room_or_new};

fn strings(items: &[&str]) -> Vec<String> {
    items.iter().map(|s| s.to_string()).collect()
}

#[test]
fn verbosity_names_a_filter() {
    assert_eq!(log_filter(0), "error");
    assert_eq!(log_filter(1), "info");
    assert_eq!(log_filter(2), "debug");
    assert_eq!(log_filter(255), "debug");
}

#[test]
fn room_is_taken_or_made() {
    let given = room_or_new(Some("my-room"));
    assert_eq!(given.id, "my-room");
    assert!(!given.fresh);
    let made = room_or_new(None);
    assert_eq!(made.id.len(), 8);
    assert!(made.fresh);
}

#[test]
fn serve_is_planned() {
    let plan = plan_serve(&strings(&["room", ":80"]), &[]);
    assert_eq!(plan.room.id, "room");
    assert_eq!(plan.forwards, strings(&[":80"]));
    assert!(!plan.is_idle());
    let plan = plan_serve(&strings(&[":80", ":81"]), &strings(&["cat"]));
    assert!(plan.room.fresh);
    assert_eq!(plan.forwards.len(), 2);
    assert!(plan.runs_command);
    let plan = plan_serve(&strings(&[""]), &[]);
    assert!(plan.room.fresh);
    assert!(plan.is_idle());
    assert!(plan_serve(&[], &[]).is_idle());
}

#[test]
fn forwards_are_added_up_to_the_first_failure() {
    let mut controller = ForwardController::new();
    let specs = add_forwards(
        &mut controller,
        Direction::Serve,
        &strings(&[":80", "udp://127.0.0.1:53"]),
    )
    .unwrap();
    assert_eq!(specs.len(), 2);
    assert_eq!(specs[1].target, "udp:53");
    assert_eq!(controller.list_forwards().len(), 2);

    let failed = add_forwards(
        &mut controller,
        Direction::Connect,
        &strings(&["8080:81", "9090:80", "1:2"]),
    );
    assert_eq!(
        failed.unwrap_err().message(),
        "forward already exists: tcp:80"
    );
    assert_eq!(controller.list_forwards().len(), 3);
}
