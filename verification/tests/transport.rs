use p2p_tunnel::auth::AuthDecision;
use p2p_tunnel::proxy::Executor;
use p2p_tunnel::rtc::manager::payload::P2pPayload;
use p2p_tunnel::rtc::manager::PeerRole;
use p2p_tunnel::rtc::remote_peer::{ChannelKind, MessageIds, RemotePeer};
use p2p_tunnel::rtc::router::{Routing, SignalingRouter, CACHE_EXPIRY_NS};
use p2p_tunnel::rtc::tunnel_message::TunnelMessage;
use p2p_tunnel::signal::client::{
    calculate_backoff, ReconnectAction, ReconnectEvent, SignalClient, SocketAction, SocketEvent,
    MAX_RETRIES,
};
use p2p_tunnel::signal::message::{answer, candidate, offer, SignalMessage};
use p2p_tunnel::stdio::bridge::{Bridge, BridgeOutput};
use p2p_tunnel::stdio::packet::{unwrap_packet, wrap_packet, StreamType};
use p2p_tunnel::udp::{UdpManager, UdpStep, UDP_TIMEOUT_NS};

fn packet(conn_id: &str, payload: &[u8]) -> TunnelMessage {
    TunnelMessage {
        msg_type: "data".to_string(),
        conn_id: conn_id.to_string(),
        target: "udp:53".to_string(),
        payload: Some(payload.to_vec()),
        seq: None,
    }
}

#[test]
fn packets_carry_their_stream() {
    assert_eq!(wrap_packet(StreamType::Stderr, b"ab"), vec![2, b'a', b'b']);
    assert_eq!(
        unwrap_packet(&[1, 7]),
        (StreamType::Stdout, &[7u8][..])
    );
    assert_eq!(unwrap_packet(&[9, 7]), (StreamType::Stdin, &[7u8][..]));
    assert_eq!(unwrap_packet(&[]), (StreamType::Stdin, &[][..]));
}

#[test]
fn early_input_goes_to_the_first_peer() {
    let mut bridge = Bridge::new();
    assert!(bridge.on_stdin(b"one").is_none());
    assert!(bridge.on_stdin(b"two").is_none());
    let sent = bridge.on_open("peer-1");
    assert_eq!(sent.len(), 2);
    assert_eq!(sent[0].peer_id, "peer-1");
    assert_eq!(
        sent[1].payload,
        P2pPayload::Stdio {
            data: wrap_packet(StreamType::Stdin, b"two")
        }
    );
    assert!(bridge.on_open("peer-2").is_empty());
    assert_eq!(bridge.on_stdin(b"x").unwrap().peer_id, "peer-1");
    assert_eq!(
        bridge.on_message("peer-1", &wrap_packet(StreamType::Stdout, b"out")),
        BridgeOutput::Stdout(b"out".to_vec())
    );
    bridge.on_close("peer-1");
    assert!(bridge.on_stdin(b"y").is_none());
}

#[test]
fn command_runs_for_one_peer() {
    let mut executor = Executor::new(vec!["cat".to_string(), "-n".to_string()]);
    let start = executor.on_open("peer-1", true).unwrap();
    assert_eq!(start.program, "cat");
    assert_eq!(start.args, vec!["-n"]);
    executor.on_started();
    assert!(executor.on_open("peer-2", true).is_none());
    assert_eq!(
        executor.on_message("peer-1", &wrap_packet(StreamType::Stdin, b"in"), true),
        Some(b"in".to_vec())
    );
    let out = executor.on_output(StreamType::Stdout, b"1 in").unwrap();
    assert_eq!(out.peer_id, "peer-1");
    assert!(!executor.on_close("peer-2"));
    assert!(executor.on_close("peer-1"));
    assert!(executor
        .on_message("peer-1", &wrap_packet(StreamType::Stdin, b"in"), true)
        .is_none());
    assert!(Executor::new(Vec::new()).on_open("peer-1", true).is_none());
}

#[test]
fn waits_double_up_to_the_limit() {
    let waits: Vec<u64> = (1..=7).map(calculate_backoff).collect();
    assert_eq!(waits, vec![1000, 2000, 4000, 8000, 16000, 30000, 30000]);
    assert_eq!(calculate_backoff(1000), 30000);
}

#[test]
fn reconnecting_gives_up_after_the_last_attempt() {
    let (mut client, first) = SignalClient::new("self", "room");
    assert_eq!(first.msg_type, "Request");
    assert_eq!(first.room_id.as_deref(), Some("room"));
    let mut action = client.start_reconnect();
    for n in 1..=MAX_RETRIES {
        match action {
            ReconnectAction::Wait { attempt, .. } => assert_eq!(attempt, n),
            other => panic!("unexpected action {:?}", other),
        }
        assert_eq!(
            client.reconnect_step(ReconnectEvent::Waited),
            ReconnectAction::Connect
        );
        action = client.reconnect_step(ReconnectEvent::ConnectFailed);
    }
    assert_eq!(action, ReconnectAction::Stop);
}

#[test]
fn reconnected_client_asks_for_the_room_again() {
    let (mut client, first) = SignalClient::new("self", "room");
    assert_eq!(client.on_socket(SocketEvent::Failed), SocketAction::Reconnect);
    client.start_reconnect();
    assert_eq!(client.start_reconnect(), ReconnectAction::Stop);
    client.reconnect_step(ReconnectEvent::Waited);
    assert_eq!(
        client.reconnect_step(ReconnectEvent::Connected),
        ReconnectAction::Announce(first)
    );
    assert_eq!(client.start_reconnect(), ReconnectAction::Stop);
    assert_eq!(
        client.reconnect_step(ReconnectEvent::Announced),
        ReconnectAction::Stop
    );
    assert!(matches!(
        client.start_reconnect(),
        ReconnectAction::Wait { attempt: 1, .. }
    ));
}

#[test]
fn closed_client_stays_closed() {
    let (mut client, _) = SignalClient::new("self", "room");
    assert!(client.check_open().is_ok());
    client.close();
    assert_eq!(client.check_open().unwrap_err(), "connection closed");
    assert_eq!(client.on_socket(SocketEvent::Closed), SocketAction::Stop);
    assert_eq!(
        client.on_socket(SocketEvent::Text(None)),
        SocketAction::Continue
    );
    assert_eq!(client.start_reconnect(), ReconnectAction::Stop);
}

#[test]
fn signaling_messages_are_addressed() {
    let o = offer("sdp", "self", "peer", "room", "server");
    assert_eq!(o.msg_type, "offer");
    assert_eq!(o.role.as_deref(), Some("server"));
    assert_eq!(o.receiver_id.as_deref(), Some("peer"));
    assert_eq!(answer("sdp", "self", "peer", "room", "client").msg_type, "answer");
    let c = candidate("ice", "self", "peer", "room");
    assert_eq!(c.msg_type, "candidate");
    assert_eq!(c.role, None);
    assert_eq!(c.data.as_deref(), Some("ice"));
}

fn routed(receiver: &str, id: &str) -> SignalMessage {
    SignalMessage {
        receiver_id: Some(receiver.to_string()),
        msg_id: Some(id.to_string()),
        ..SignalMessage::default()
    }
}

#[test]
fn messages_are_routed_once() {
    let mut router = SignalingRouter::new("self");
    let here = Routing {
        relay: false,
        deliver: true,
    };
    let away = Routing {
        relay: true,
        deliver: false,
    };
    let both = Routing {
        relay: true,
        deliver: true,
    };
    let nowhere = Routing {
        relay: false,
        deliver: false,
    };
    assert_eq!(router.receive(&routed("self", "a"), 1), here);
    assert_eq!(router.receive(&routed("other", "b"), 2), away);
    assert_eq!(router.receive(&routed("", "c"), 3), both);
    assert_eq!(router.receive(&routed("self", "a"), 4), nowhere);
    router.cleanup(CACHE_EXPIRY_NS + 1);
    assert_eq!(router.receive(&routed("self", "a"), 5), here);
    assert_eq!(router.receive(&routed("other", "b"), 6), nowhere);
    assert_eq!(router.receive(&routed("self", ""), 7), here);
    assert_eq!(router.receive(&routed("self", ""), 8), here);
}

#[test]
fn message_ids_are_numbered() {
    let mut ids = MessageIds::new();
    assert_eq!(ids.msg_id_at("120000.000", "abcdef"), "120000.000_abcd_0");
    assert_eq!(ids.msg_id_at("120000.000", "abc"), "120000.000_abc_1");
    let id = ids.next_msg_id("abcdef");
    assert!(id.ends_with("_abcd_2"));
    let stamp = id.split('_').next().unwrap();
    assert_eq!(stamp.len(), 10);
    assert_eq!(stamp.as_bytes()[6], b'.');
    assert!(stamp[..2].parse::<u32>().unwrap() < 24);
    assert!(stamp[2..4].parse::<u32>().unwrap() < 60);
}

#[test]
fn channels_of_a_peer() {
    let mut peer = RemotePeer::new("peer-1");
    assert_eq!(peer.peer_id(), "peer-1");
    assert!(!peer.has_pc());
    assert!(!peer.begin_connection());
    assert_eq!(peer.add_channel("chat"), Some(ChannelKind::Chat));
    assert_eq!(peer.add_channel("other"), None);
    assert_eq!(
        peer.check_signal_channel().unwrap_err(),
        "signal data channel not ready"
    );
    peer.add_channel("signal");
    assert!(peer.check_signal_channel().is_ok());
    peer.set_role(PeerRole::Server);
    assert!(peer.is_server());
    assert!(peer.begin_reconnect());
    assert!(!peer.begin_reconnect());
    assert!(!peer.has_pc());
    peer.end_reconnect();
    assert!(peer.begin_reconnect());
    assert_eq!(ChannelKind::from_label("stdio").unwrap().label(), "stdio");
    assert!(!peer.teardown());
}

#[test]
fn udp_answers_go_back_to_their_address() {
    let mut mgr = UdpManager::new("udp:53", "", true);
    assert!(mgr.local_packet("127.0.0.1:5000", b"q", 1).is_none());
    assert!(mgr.open_local("127.0.0.1:5000", "peer-1", 1));
    let (peer, message) = mgr.local_packet("127.0.0.1:5000", b"q", 2).unwrap();
    assert_eq!(peer, "peer-1");
    assert_eq!(message, packet("127.0.0.1:5000", b"q"));
    assert_eq!(
        mgr.on_tunnel_message("peer-1", &packet("127.0.0.1:5000", b"a")),
        UdpStep::SendToClient {
            addr: "127.0.0.1:5000".to_string(),
            payload: b"a".to_vec()
        }
    );
    assert_eq!(
        mgr.on_tunnel_message("peer-1", &packet("127.0.0.1:6000", b"a")),
        UdpStep::SendToAddress {
            conn_id: "127.0.0.1:6000".to_string(),
            payload: b"a".to_vec()
        }
    );
    assert_eq!(
        mgr.on_tunnel_message("peer-1", &packet("127.0.0.1:5000", b"")),
        UdpStep::Ignore
    );
}

#[test]
fn udp_sessions_are_authorized_and_expire() {
    let mut mgr = UdpManager::new("udp:53", "127.0.0.1:53", false);
    assert!(mgr.publishes());
    match mgr.on_tunnel_message("peer-1", &packet("c", b"q")) {
        UdpStep::Authorize { request } => {
            assert_eq!(request.proto, "udp");
            assert_eq!(request.target_addr, "127.0.0.1:53");
            assert_eq!(request.forward_key, "udp:53");
        }
        other => panic!("unexpected step {:?}", other),
    }
    assert_eq!(mgr.on_authorized(AuthDecision::Deny), None);
    assert_eq!(mgr.on_authorized(AuthDecision::DenyAlways), None);
    assert_eq!(
        mgr.on_authorized(AuthDecision::Allow),
        Some("127.0.0.1:53".to_string())
    );
    assert!(mgr.open_remote("c", "peer-1", 0));
    assert!(!mgr.open_remote("c", "peer-1", 0));
    assert_eq!(
        mgr.on_tunnel_message("peer-1", &packet("c", b"q")),
        UdpStep::SendToTarget {
            conn_id: "c".to_string(),
            payload: b"q".to_vec()
        }
    );
    mgr.touch("c", 10);
    assert!(mgr.cleanup(UDP_TIMEOUT_NS + 10).is_empty());
    assert_eq!(mgr.cleanup(UDP_TIMEOUT_NS + 11), vec!["peer-1"]);
    assert_eq!(mgr.peer_of("c"), None);
    let mut ping = packet("c", b"q");
    ping.msg_type = "ping".to_string();
    assert_eq!(mgr.on_tunnel_message("peer-1", &ping), UdpStep::Ignore);
}
