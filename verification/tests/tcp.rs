use p2p_tunnel::auth::AuthDecision;
use p2p_tunnel::controller::Traffic;
use p2p_tunnel::rtc::tunnel_message::TunnelMessage;
use p2p_tunnel::tcp::sequence::{
    on_local_read, LocalRead, LocalStep, SeqDecision, SeqState, TunnelSender,
};
use p2p_tunnel::tcp::{
    bind_address_for, is_message, target_for, tunnel_ready, Readiness, TcpAction, TcpManager,
};

fn test_manager() -> TcpManager {
    TcpManager::new("tcp:22", "")
}

#[test]
fn peer_rejoin_within_grace_window_cancels_pending_close() {
    let mut mgr = test_manager();
    mgr.track_conn("conn-1", "peer-1", true);

    let plan = mgr.schedule_close_all_for_peer("peer-1");
    mgr.cancel_pending_close("peer-1");
    assert!(mgr.on_grace_elapsed("peer-1", plan).is_empty());

    assert!(
        mgr.has_conn("conn-1"),
        "conn should have survived: peer rejoined before the grace window expired"
    );
}

#[test]
fn peer_that_does_not_rejoin_is_closed_after_grace_window() {
    let mut mgr = test_manager();
    mgr.track_conn("conn-1", "peer-1", true);

    let plan = mgr.schedule_close_all_for_peer("peer-1");
    assert_eq!(mgr.on_grace_elapsed("peer-1", plan), vec!["conn-1".to_string()]);

    assert!(
        !mgr.has_conn("conn-1"),
        "conn should be closed once the grace window expires with no rejoin"
    );
}

#[test]
fn inbound_data_is_still_accepted_while_a_peer_close_is_pending() {
    let mut mgr = test_manager();
    mgr.track_conn("conn-1", "peer-1", true);

    mgr.schedule_close_all_for_peer("peer-1");

    assert!(mgr.has_conn("conn-1"));
    let mut sender = TunnelSender::new("conn-1", "tcp:22");
    assert_eq!(
        mgr.on_tunnel_message("peer-1", &sender.data(b"hi")),
        vec![TcpAction::Write {
            peer_id: "peer-1".to_string(),
            conn_id: "conn-1".to_string(),
            payload: b"hi".to_vec()
        }]
    );
}

#[test]
fn cancel_pending_close_is_a_no_op_without_a_scheduled_close() {
    let mut mgr = test_manager();
    // Must not create a spurious epoch entry for a peer that never had a
    // close scheduled.
    mgr.cancel_pending_close("peer-never-left");
    assert!(!mgr.has_close_epoch("peer-never-left"));
}

#[test]
fn keepalive_ping_failures_do_not_close_the_connection() {
    let mut mgr = test_manager();
    mgr.track_conn("conn-1", "peer-1", true);

    let pinged = mgr.send_keepalive_pings();

    assert_eq!(
        pinged,
        vec![TcpAction::Send {
            peer_id: "peer-1".to_string(),
            message: TunnelMessage {
                msg_type: "ping".to_string(),
                conn_id: String::new(),
                target: "tcp:22".to_string(),
                payload: None,
                seq: None,
            }
        }]
    );
    assert!(mgr.has_conn("conn-1"));
}

#[test]
fn send_keepalive_pings_is_a_no_op_with_no_active_conns() {
    let mgr = test_manager();
    let pinged = mgr.send_keepalive_pings();
    assert!(pinged.is_empty());
}

#[test]
fn active_peer_ids_dedupes_multiple_conns_for_the_same_peer() {
    let mut mgr = test_manager();
    mgr.track_conn("conn-1", "peer-1", true);
    mgr.track_conn("conn-2", "peer-1", true);
    mgr.track_conn("conn-3", "peer-2", true);

    let ids = mgr.active_peer_ids();
    assert_eq!(ids, vec!["peer-1", "peer-2"]);
}

#[test]
fn keepalive_task_starts_on_first_conn_and_stops_once_conns_are_gone() {
    let mut mgr = test_manager();
    assert!(!mgr.keepalive_running());

    let actions = mgr.track_conn("conn-1", "peer-1", true);
    assert!(
        mgr.keepalive_running(),
        "track_conn should arm the keepalive task"
    );
    assert!(actions.contains(&TcpAction::StartKeepalive));

    mgr.close_conn("conn-1", false);
    assert!(mgr.keepalive_tick().is_none());

    assert!(
        !mgr.keepalive_running(),
        "keepalive task should stop once no conns remain"
    );
}

#[test]
fn ping_and_unknown_message_types_are_ignored_gracefully() {
    let mut mgr = test_manager();
    mgr.track_conn("conn-1", "peer-1", true);

    let ping = TunnelMessage {
        msg_type: "ping".into(),
        conn_id: String::new(),
        target: "tcp:22".into(),
        payload: None,
        seq: None,
    };
    assert!(mgr.on_tunnel_message("peer-1", &ping).is_empty());

    let unknown = TunnelMessage {
        msg_type: "future-version-type".into(),
        conn_id: "conn-1".into(),
        target: "tcp:22".into(),
        payload: None,
        seq: None,
    };
    assert!(mgr.on_tunnel_message("peer-1", &unknown).is_empty());

    // Neither message type is recognized as a close/data/connect, so the
    // existing conn must be untouched.
    assert!(mgr.has_conn("conn-1"));
}

#[test]
fn in_order_sequence_is_accepted() {
    let mut s = SeqState::new();
    assert_eq!(s.observe(Some(1)), SeqDecision::Accept);
    assert_eq!(s.observe(Some(2)), SeqDecision::Accept);
    assert_eq!(s.observe(Some(3)), SeqDecision::Accept);
}

#[test]
fn duplicate_seq_is_flagged_and_does_not_advance_expectation() {
    let mut s = SeqState::new();
    assert_eq!(s.observe(Some(1)), SeqDecision::Accept);
    assert_eq!(s.observe(Some(2)), SeqDecision::Accept);
    assert_eq!(s.observe(Some(2)), SeqDecision::Duplicate { received: 2 });
    // The tracker should still expect 3 next, unaffected by the dup.
    assert_eq!(s.observe(Some(3)), SeqDecision::Accept);
}

#[test]
fn gap_in_sequence_is_flagged() {
    let mut s = SeqState::new();
    assert_eq!(s.observe(Some(1)), SeqDecision::Accept);
    assert_eq!(
        s.observe(Some(3)),
        SeqDecision::Gap {
            expected: 2,
            received: 3
        }
    );
}

#[test]
fn unsequenced_legacy_sender_is_always_accepted() {
    let mut s = SeqState::new();
    assert_eq!(s.observe(None), SeqDecision::Accept);
    assert_eq!(s.observe(None), SeqDecision::Accept);
    assert_eq!(s.observe(None), SeqDecision::Accept);
}

#[test]
fn switching_from_sequenced_to_unsequenced_is_inconsistent() {
    let mut s = SeqState::new();
    assert_eq!(s.observe(Some(1)), SeqDecision::Accept);
    assert_eq!(s.observe(None), SeqDecision::Inconsistent);
}

#[test]
fn first_expected_seq_is_one() {
    let mut s = SeqState::new();
    assert_eq!(
        s.observe(Some(2)),
        SeqDecision::Gap {
            expected: 1,
            received: 2
        }
    );
}

#[test]
fn switching_from_unsequenced_to_sequenced_is_accepted_and_enables_gap_detection() {
    let mut s = SeqState::new();
    // A legacy (unsequenced) message arrives first -- accepted as
    // before, and must not itself count as "seq 1".
    assert_eq!(s.observe(None), SeqDecision::Accept);
    // The peer then starts sending seq numbers, starting at 1: also
    // accepted, since this is the first sequenced message seen.
    assert_eq!(s.observe(Some(1)), SeqDecision::Accept);
    // Gap detection is now live: a skipped seq 2 is caught.
    assert_eq!(
        s.observe(Some(3)),
        SeqDecision::Gap {
            expected: 2,
            received: 3
        }
    );
}

#[test]
fn empty_data_message_uses_up_its_number() {
    let mut mgr = test_manager();
    mgr.track_conn("conn-1", "peer-1", true);
    let mut sender = TunnelSender::new("conn-1", "tcp:22");
    assert!(mgr.on_tunnel_message("peer-1", &sender.data(b"")).is_empty());
    assert_eq!(
        mgr.on_tunnel_message("peer-1", &sender.data(b"x")).len(),
        1
    );
    assert!(mgr.has_conn("conn-1"));
}

#[test]
fn missing_data_message_closes_the_connection() {
    let mut mgr = test_manager();
    mgr.track_conn("conn-1", "peer-1", true);
    let mut sender = TunnelSender::new("conn-1", "tcp:22");
    let _lost = sender.data(b"a");
    let actions = mgr.on_tunnel_message("peer-1", &sender.data(b"b"));
    assert!(!mgr.has_conn("conn-1"));
    assert_eq!(
        actions[0],
        TcpAction::Count {
            peer_id: "peer-1".to_string(),
            traffic: Traffic::Closed
        }
    );
    match &actions[1] {
        TcpAction::Send { message, .. } => assert_eq!(message.msg_type, "close"),
        other => panic!("unexpected action {:?}", other),
    }
    assert_eq!(actions.len(), 2);
}

#[test]
fn repeated_data_message_is_dropped() {
    let mut mgr = test_manager();
    mgr.track_conn("conn-1", "peer-1", true);
    let mut sender = TunnelSender::new("conn-1", "tcp:22");
    let first = sender.data(b"a");
    assert_eq!(mgr.on_tunnel_message("peer-1", &first).len(), 1);
    assert!(mgr.on_tunnel_message("peer-1", &first).is_empty());
    assert!(mgr.has_conn("conn-1"));
}

#[test]
fn remote_connection_is_authorized_first() {
    let mut mgr = TcpManager::new("tcp:80", "80");
    assert!(mgr.publishes());
    let connect = TunnelMessage {
        msg_type: "connect".into(),
        conn_id: "conn-1".into(),
        target: "tcp:80".into(),
        payload: None,
        seq: None,
    };
    let actions = mgr.on_tunnel_message("peer-1", &connect);
    match &actions[0] {
        TcpAction::Authorize { request, conn_id } => {
            assert_eq!(conn_id, "conn-1");
            assert_eq!(request.peer_id, "peer-1");
            assert_eq!(request.forward_key, "tcp:80");
            assert_eq!(request.target_addr, "127.0.0.1:80");
            assert_eq!(request.proto, "tcp");
        }
        other => panic!("unexpected action {:?}", other),
    }
    assert_eq!(
        mgr.on_authorized("peer-1", "conn-1", AuthDecision::AllowAlways),
        vec![TcpAction::Connect {
            addr: "127.0.0.1:80".to_string(),
            peer_id: "peer-1".to_string(),
            conn_id: "conn-1".to_string()
        }]
    );
    match &mgr.on_authorized("peer-1", "conn-1", AuthDecision::Deny)[0] {
        TcpAction::Send { peer_id, message } => {
            assert_eq!(peer_id, "peer-1");
            assert_eq!(message.msg_type, "close");
        }
        other => panic!("unexpected action {:?}", other),
    }
    mgr.on_connected("peer-1", "conn-1", false);
    assert!(!mgr.has_conn("conn-1"));
    mgr.on_connected("peer-1", "conn-1", true);
    assert!(mgr.has_conn("conn-1"));
}

#[test]
fn failed_write_closes_and_tells_the_peer() {
    let mut mgr = test_manager();
    mgr.track_conn("conn-1", "peer-1", true);
    assert_eq!(
        mgr.on_written("peer-1", "conn-1", 3, true),
        vec![TcpAction::Count {
            peer_id: "peer-1".to_string(),
            traffic: Traffic::BytesOut(3)
        }]
    );
    assert_eq!(mgr.on_written("peer-1", "conn-1", 3, false).len(), 2);
    assert!(!mgr.has_conn("conn-1"));
}

#[test]
fn failed_send_closes_without_telling_the_peer() {
    let mut mgr = test_manager();
    mgr.track_conn("conn-1", "peer-1", true);
    assert_eq!(
        mgr.on_sent("peer-1", "conn-1", 5, true),
        vec![TcpAction::Count {
            peer_id: "peer-1".to_string(),
            traffic: Traffic::BytesIn(5)
        }]
    );
    assert_eq!(mgr.on_sent("peer-1", "conn-1", 5, false).len(), 1);
    assert!(!mgr.has_conn("conn-1"));
}

#[test]
fn closing_all_takes_only_one_peer() {
    let mut mgr = test_manager();
    mgr.track_conn("conn-1", "peer-1", true);
    mgr.track_conn("conn-2", "peer-2", true);
    mgr.track_conn("conn-3", "peer-1", true);
    assert_eq!(mgr.close_all_for_peer("peer-1"), vec!["conn-1", "conn-3"]);
    assert!(mgr.has_conn("conn-2"));
}

#[test]
fn local_connection_asks_the_peer_to_connect() {
    let mut mgr = test_manager();
    let actions = mgr.open_local("conn-1", "peer-1");
    match actions.last().unwrap() {
        TcpAction::Send { peer_id, message } => {
            assert_eq!(peer_id, "peer-1");
            assert_eq!(message.msg_type, "connect");
            assert_eq!(message.target, "tcp:22");
        }
        other => panic!("unexpected action {:?}", other),
    }
    assert!(mgr.has_conn("conn-1"));
}

#[test]
fn waiting_for_a_peer_ends() {
    let peers = vec!["peer-1".to_string(), "peer-2".to_string()];
    assert_eq!(
        tunnel_ready(&peers, 99, 10),
        Readiness::Ready("peer-1".to_string())
    );
    assert_eq!(tunnel_ready(&Vec::new(), 9, 10), Readiness::Retry);
    assert_eq!(tunnel_ready(&Vec::new(), 10, 10), Readiness::TimedOut);
}

#[test]
fn local_reads_are_numbered() {
    let mut sender = TunnelSender::new("conn-1", "tcp:22");
    match on_local_read(&mut sender, LocalRead::Data(vec![7])) {
        LocalStep::Send(m) => {
            assert_eq!(m.seq, Some(1));
            assert_eq!(m.payload, Some(vec![7]));
        }
        other => panic!("unexpected step {:?}", other),
    }
    match on_local_read(&mut sender, LocalRead::Data(vec![8])) {
        LocalStep::Send(m) => assert_eq!(m.seq, Some(2)),
        other => panic!("unexpected step {:?}", other),
    }
    assert_eq!(
        on_local_read(&mut sender, LocalRead::Eof),
        LocalStep::Close {
            notify_remote: true
        }
    );
    assert_eq!(
        on_local_read(&mut sender, LocalRead::Shutdown),
        LocalStep::Close {
            notify_remote: false
        }
    );
}

#[test]
fn addresses_and_targets_of_a_forward() {
    assert_eq!(target_for("tcp", 8080, ""), "tcp:8080");
    assert_eq!(target_for("udp", -1, "127.0.0.1:53"), "udp:53");
    assert_eq!(bind_address_for(-1), None);
    assert_eq!(bind_address_for(8080), Some("0.0.0.0:8080".to_string()));
    assert!(is_message(b"{}"));
    assert!(!is_message(b"[]"));
    assert!(!is_message(b""));
}
