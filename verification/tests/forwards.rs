use p2p_tunnel::controller::{
    Direction, ForwardController, ForwardError, ForwardSpec, ForwardState, Proto, Traffic,
};
use p2p_tunnel::forward_runtime::{ForwardMetrics, ForwardRuntime, PeerMetrics};
use p2p_tunnel::forward_store::ForwardStore;
use p2p_tunnel::negotiation::{ForwardNegotiator, OutgoingForward};

#[test]
fn metrics_start_at_zero() {
    let runtime = ForwardRuntime::new();

    assert_eq!(
        runtime.metrics(),
        ForwardMetrics {
            active_conns: 0,
            bytes_in: 0,
            bytes_out: 0
        }
    );
}

#[test]
fn records_connections_and_bytes() {
    let mut runtime = ForwardRuntime::new();

    runtime.record_conn_open();
    runtime.record_conn_open();
    runtime.record_conn_close();
    runtime.record_bytes_in(10);
    runtime.record_bytes_in(5);
    runtime.record_bytes_out(7);

    assert_eq!(
        runtime.metrics(),
        ForwardMetrics {
            active_conns: 1,
            bytes_in: 15,
            bytes_out: 7
        }
    );
}

#[test]
fn per_peer_metrics_are_tracked_and_aggregated() {
    let mut runtime = ForwardRuntime::new();

    runtime.record_conn_open_for("peer-b");
    runtime.record_bytes_in_for("peer-b", 100);
    runtime.record_conn_open_for("peer-a");
    runtime.record_bytes_out_for("peer-a", 50);
    runtime.record_conn_close_for("peer-b");

    // Aggregate reflects the sum across peers.
    assert_eq!(
        runtime.metrics(),
        ForwardMetrics {
            active_conns: 1,
            bytes_in: 100,
            bytes_out: 50,
        }
    );

    // Per-peer breakdown is sorted by peer id and persists byte totals.
    assert_eq!(
        runtime.peer_metrics(),
        vec![
            PeerMetrics {
                peer_id: "peer-a".to_string(),
                active_conns: 1,
                bytes_in: 0,
                bytes_out: 50,
            },
            PeerMetrics {
                peer_id: "peer-b".to_string(),
                active_conns: 0,
                bytes_in: 100,
                bytes_out: 0,
            },
        ]
    );
}

#[test]
fn close_connection_saturates_at_zero() {
    let mut runtime = ForwardRuntime::new();

    runtime.record_conn_close();

    assert_eq!(runtime.metrics().active_conns, 0);
}

#[test]
fn cancel_notifies_subscribers() {
    let mut runtime = ForwardRuntime::new();
    let mut shutdown = runtime.subscribe();
    assert!(!runtime.changed(&mut shutdown));

    runtime.cancel();
    assert!(runtime.changed(&mut shutdown));

    assert!(runtime.is_cancelled());
    assert!(!runtime.changed(&mut shutdown));
}

#[test]
fn cancel_without_a_subscriber_is_lost() {
    let mut runtime = ForwardRuntime::new();
    runtime.cancel();
    assert!(!runtime.is_cancelled());

    let gone = runtime.subscribe();
    runtime.unsubscribe(gone);
    runtime.cancel();
    assert!(!runtime.is_cancelled());

    let mut late = runtime.subscribe();
    assert!(!runtime.changed(&mut late));
    runtime.cancel();
    assert!(runtime.is_cancelled());
    runtime.cancel();
    assert!(runtime.changed(&mut late));
}

fn spec() -> ForwardSpec {
    ForwardSpec {
        direction: Direction::Connect,
        proto: Proto::Tcp,
        addr: String::new(),
        listen_port: 8080,
        target: "tcp:127.0.0.1:80".into(),
    }
}

#[test]
fn round_trips_specs_through_disk() {
    let mut store = ForwardStore::from_entries(Vec::new());
    store.add(&spec());

    let mut reloaded = ForwardStore::from_entries(store.list());
    let entries = reloaded.list();
    assert_eq!(entries.len(), 1);
    assert_eq!(entries[0].to_spec().unwrap(), spec());

    assert!(reloaded.remove("tcp:127.0.0.1:80"));
    assert!(ForwardStore::from_entries(reloaded.list()).list().is_empty());
    assert!(!reloaded.remove("tcp:127.0.0.1:80"));
}

#[test]
fn add_is_idempotent_per_target() {
    let mut store = ForwardStore::from_entries(Vec::new());
    store.add(&spec());
    store.add(&spec());
    assert_eq!(store.list().len(), 1);
}

#[test]
fn stored_forwards_with_unknown_words_are_not_read() {
    let mut store = ForwardStore::from_entries(Vec::new());
    store.add(&spec());
    let mut entries = store.list();
    entries[0].proto = "sctp".to_string();
    assert_eq!(
        entries[0].to_spec().unwrap_err(),
        "unsupported protocol: sctp"
    );
    let mut entries = store.list();
    entries[0].direction = "both".to_string();
    assert!(entries[0].to_spec().is_err());
}

fn sample_outgoing() -> OutgoingForward {
    OutgoingForward {
        peer_id: "peer-1".into(),
        proto: "tcp".into(),
        listen_port: 8080,
        local_addr: "127.0.0.1:8080".into(),
        remote_addr: "127.0.0.1:80".into(),
        target: "tcp:127.0.0.1:80".into(),
    }
}

#[test]
fn incoming_requests_are_listed_and_taken() {
    let mut neg = ForwardNegotiator::new();
    let id = neg.record_incoming(
        "r1".into(),
        "peer-1".into(),
        "tcp".into(),
        "127.0.0.1:80".into(),
        "tcp:127.0.0.1:80".into(),
    );

    assert_eq!(neg.list_incoming().len(), 1);
    let taken = neg.take_incoming(id).unwrap();
    assert_eq!(taken.req_id, "r1");
    assert!(neg.list_incoming().is_empty());
    assert!(neg.take_incoming(id).is_none());
}

#[test]
fn responses_match_outgoing_and_produce_outcomes() {
    let mut neg = ForwardNegotiator::new();
    neg.record_outgoing("r1".into(), sample_outgoing());

    // Unknown req id is ignored.
    neg.record_response("nope", true);
    assert!(neg.drain_outcomes().is_empty());

    neg.record_response("r1", true);
    let outcomes = neg.drain_outcomes();
    assert_eq!(outcomes.len(), 1);
    assert!(outcomes[0].accepted);
    assert_eq!(outcomes[0].outgoing.listen_port, 8080);

    // Drained once only; a second response for the same id no longer matches.
    neg.record_response("r1", true);
    assert!(neg.drain_outcomes().is_empty());
}

#[test]
fn purged_requests_fail_with_a_reason() {
    let mut neg = ForwardNegotiator::new();
    neg.record_outgoing("r1".into(), sample_outgoing());
    let mut other = sample_outgoing();
    other.peer_id = "peer-2".into();
    neg.record_outgoing("r2".into(), other);
    neg.record_incoming(
        "r3".into(),
        "peer-1".into(),
        "tcp".into(),
        "127.0.0.1:80".into(),
        "tcp:127.0.0.1:80".into(),
    );

    assert_eq!(neg.purge_peer("peer-1"), (1, 1));

    assert!(neg.list_incoming().is_empty());
    assert_eq!(neg.list_outgoing().len(), 1);
    let outcomes = neg.drain_outcomes();
    assert_eq!(outcomes.len(), 1);
    assert!(!outcomes[0].accepted);
    assert_eq!(outcomes[0].reason.as_deref(), Some("peer disconnected"));
}

#[test]
fn withdrawn_request_is_not_answered() {
    let mut neg = ForwardNegotiator::new();
    neg.record_outgoing("r1".into(), sample_outgoing());
    neg.remove_outgoing("r1");
    neg.record_response("r1", true);
    assert!(neg.drain_outcomes().is_empty());
}

#[test]
fn controller_refuses_bad_forwards() {
    let mut controller = ForwardController::new();
    let mut empty = spec();
    empty.target = String::new();
    assert_eq!(
        controller.add_forward(&empty).unwrap_err().message(),
        "forward target must not be empty"
    );
    assert_eq!(controller.add_forward(&spec()).unwrap(), "tcp:127.0.0.1:80");
    assert_eq!(
        controller.add_forward(&spec()).unwrap_err().message(),
        "forward already exists: tcp:127.0.0.1:80"
    );
    match controller.remove_forward("udp:1") {
        Err(ForwardError::NotFound(key)) => assert_eq!(key, "udp:1"),
        _ => panic!("a missing forward was removed"),
    }
}

#[test]
fn traffic_is_counted_for_each_forward_and_peer() {
    let mut controller = ForwardController::new();
    let key = controller.add_forward(&spec()).unwrap();
    controller.record_traffic(&key, "peer-1", Traffic::Opened);
    controller.record_traffic(&key, "peer-1", Traffic::BytesIn(3));
    controller.record_traffic(&key, "peer-2", Traffic::Opened);
    controller.record_traffic(&key, "peer-2", Traffic::BytesOut(4));
    controller.record_traffic(&key, "peer-1", Traffic::Closed);
    controller.record_traffic("udp:1", "peer-1", Traffic::Opened);

    let statuses = controller.list_forwards();
    assert_eq!(statuses.len(), 1);
    assert_eq!(statuses[0].active_conns, 1);
    assert_eq!(statuses[0].bytes_in, 3);
    assert_eq!(statuses[0].bytes_out, 4);
    assert_eq!(statuses[0].peers.len(), 2);
    assert_eq!(statuses[0].peers[0].bytes_in, 3);
    assert_eq!(statuses[0].state, ForwardState::Listening);

    controller.fail_forward(&key, "port in use");
    assert_eq!(
        controller.list_forwards()[0].state,
        ForwardState::Error("port in use".to_string())
    );
}

#[test]
fn forwards_are_listed_by_key() {
    let mut controller = ForwardController::new();
    for target in ["udp:53", "tcp:80", "tcp:443"] {
        let mut s = spec();
        s.target = target.to_string();
        controller.add_forward(&s).unwrap();
    }
    let keys: Vec<String> = controller
        .list_forwards()
        .into_iter()
        .map(|s| s.key)
        .collect();
    assert_eq!(keys, vec!["tcp:443", "tcp:80", "udp:53"]);
}

#[test]
fn protocols_have_names() {
    assert_eq!(Proto::from_name("tcp").unwrap(), Proto::Tcp);
    assert_eq!(Proto::from_name("udp").unwrap(), Proto::Udp);
    assert_eq!(
        Proto::from_name("icmp").unwrap_err(),
        "unsupported protocol: icmp"
    );
    assert_eq!(Proto::Udp.as_str(), "udp");
}
