use p2p_tunnel::rtc::manager::payload::{Delivery, Outgoing, P2pPayload};
use p2p_tunnel::rtc::manager::{PeerRole, RTCManagerHandle};
use p2p_tunnel::rtc::tunnel_message::TunnelMessage;
use p2p_tunnel::rtc::wire_bytes::{decode_repr, decode_string, encode_bytes, BytesRepr};

fn test_manager(self_id: &str) -> RTCManagerHandle {
    RTCManagerHandle::new(self_id.to_string(), false)
}

fn tunnel(target: &str, conn_id: &str) -> TunnelMessage {
    TunnelMessage {
        msg_type: "data".to_string(),
        conn_id: conn_id.to_string(),
        target: target.to_string(),
        payload: Some(vec![42]),
        seq: None,
    }
}

fn encode_tunnel(target: &str, conn_id: &str) -> Vec<u8> {
    let msg = tunnel(target, conn_id);
    format!(
        r#"{{"type":"{}","conn_id":"{}","target":"{}","payload":"{}"}}"#,
        msg.msg_type,
        msg.conn_id,
        msg.target,
        encode_bytes(&msg.payload.unwrap())
    )
    .into_bytes()
}

/// Hands a tunnel message over and gives the handlers that receive it.
fn receivers(manager: &mut RTCManagerHandle, target: &str, conn_id: &str) -> Vec<u64> {
    let msg = tunnel(target, conn_id);
    let data = encode_tunnel(target, conn_id);
    manager
        .handle_payload(
            "peer-1",
            Some(P2pPayload::Tunnel { data: data.clone() }),
            Some(&msg),
        )
        .into_iter()
        .filter_map(|d| match d {
            Delivery::Tunnel {
                handler,
                peer_id,
                data: got,
            } => {
                assert_eq!(peer_id, "peer-1");
                assert_eq!(got, data);
                Some(handler)
            }
            _ => None,
        })
        .collect()
}

#[test]
fn role_payload_tracks_server_peers() {
    let mut manager = test_manager("self");

    manager.handle_payload(
        "server-1",
        Some(P2pPayload::Role {
            role: "server".to_string(),
        }),
        None,
    );
    manager.handle_payload(
        "client-1",
        Some(P2pPayload::Role {
            role: "client".to_string(),
        }),
        None,
    );

    assert_eq!(manager.get_server_peers(), vec!["server-1".to_string()]);
}

#[test]
fn message_payloads_are_dispatched_to_registered_handlers() {
    let mut manager = test_manager("self");
    let handler = manager.on_tunnel_message();
    manager.handle_payload("peer-1", None, None);

    assert_eq!(
        manager.handle_payload(
            "peer-1",
            Some(P2pPayload::Chat {
                text: "hello".to_string(),
            }),
            None,
        ),
        vec![Delivery::Chat {
            peer_id: "peer-1".to_string(),
            text: "hello".to_string()
        }]
    );
    assert_eq!(
        manager.handle_payload(
            "peer-1",
            Some(P2pPayload::Tunnel {
                data: vec![1, 2, 3],
            }),
            None,
        ),
        vec![Delivery::Tunnel {
            handler,
            peer_id: "peer-1".to_string(),
            data: vec![1, 2, 3]
        }]
    );
    assert_eq!(
        manager.handle_payload("peer-1", Some(P2pPayload::Stdio { data: vec![4, 5] }), None),
        vec![Delivery::Stdio {
            peer_id: "peer-1".to_string(),
            data: vec![4, 5]
        }]
    );
}

#[test]
fn invalid_and_self_payloads_are_ignored() {
    let mut manager = test_manager("self");

    let own = manager.handle_payload(
        "self",
        Some(P2pPayload::Chat {
            text: "self-message".to_string(),
        }),
        None,
    );
    let unreadable = manager.handle_payload("peer-1", None, None);

    assert!(own.is_empty());
    assert!(!unreadable
        .iter()
        .any(|d| matches!(d, Delivery::Chat { .. })));
}

#[test]
fn leave_removes_peer_state_and_notifies_close_handlers() {
    let mut manager = test_manager("self");
    manager.handle_join("peer-1");
    manager.handle_payload(
        "peer-1",
        Some(P2pPayload::Role {
            role: "server".to_string(),
        }),
        None,
    );

    let told = manager.handle_leave("peer-1");

    assert!(!manager.connected_peers().contains(&"peer-1".to_string()));
    assert!(manager.get_server_peers().is_empty());
    assert_eq!(
        told,
        vec![
            Delivery::TunnelClose("peer-1".to_string()),
            Delivery::StdioClose("peer-1".to_string()),
            Delivery::PeerLeave {
                peer_id: "peer-1".to_string(),
                epoch: 1
            },
        ]
    );
}

#[test]
fn burst_of_raw_events_is_processed_in_order() {
    let mut manager = test_manager("self");
    manager.on_tunnel_message();
    let mut order = Vec::new();
    for seq in 0..10u32 {
        let data = seq.to_string().into_bytes();
        for d in manager.handle_payload("peer-1", Some(P2pPayload::Tunnel { data }), None) {
            if let Delivery::Tunnel { data, .. } = d {
                order.push(String::from_utf8(data).unwrap());
            }
        }
    }
    let expected: Vec<String> = (0..10u32).map(|n| n.to_string()).collect();
    assert_eq!(order, expected);
}

#[test]
fn tunnel_message_payload_is_encoded_as_hex_string() {
    let encoded = encode_tunnel("tcp:80", "conn-1");

    assert_eq!(
        String::from_utf8(encoded).unwrap(),
        r#"{"type":"data","conn_id":"conn-1","target":"tcp:80","payload":"b64:Kg=="}"#
    );
}

fn payload_of(json: &[u8]) -> Option<Vec<u8>> {
    let value: serde_json::Value = serde_json::from_slice(json).unwrap();
    let repr = match &value["payload"] {
        serde_json::Value::String(s) => BytesRepr::Str(s.clone()),
        serde_json::Value::Array(items) => BytesRepr::Legacy(
            items.iter().map(|i| i.as_u64().unwrap() as u8).collect(),
        ),
        _ => return None,
    };
    Some(decode_repr(repr).unwrap())
}

#[test]
fn legacy_tunnel_message_payload_array_is_still_accepted() {
    let decoded = payload_of(br#"{"type":"data","conn_id":"conn-1","payload":[42]}"#);

    assert_eq!(decoded, Some(vec![42]));
}

#[test]
fn legacy_tunnel_message_payload_hex_is_still_accepted() {
    let decoded = payload_of(br#"{"type":"data","conn_id":"conn-1","payload":"2a"}"#);

    assert_eq!(decoded, Some(vec![42]));
}

#[test]
fn bytes_survive_encoding() {
    for n in 0..40u8 {
        let bytes: Vec<u8> = (0..n).map(|b| b.wrapping_mul(37)).collect();
        let text = encode_bytes(&bytes);
        assert!(text.starts_with("b64:"));
        assert_eq!(decode_string(&text).unwrap(), bytes);
    }
    assert_eq!(encode_bytes(&[]), "b64:");
    assert_eq!(decode_string("").unwrap(), Vec::<u8>::new());
}

#[test]
fn bad_payload_texts_are_refused_with_a_reason() {
    assert_eq!(decode_string("2").unwrap_err(), "Odd number of digits");
    assert_eq!(
        decode_string("zz").unwrap_err(),
        "Invalid character 'z' at position 0"
    );
    assert!(decode_string("b64:*").is_err());
    assert_eq!(decode_string("2A").unwrap(), vec![42]);
}

#[test]
fn capability_payload_tracks_targeted_server_peers() {
    let mut manager = test_manager("self");

    manager.handle_payload(
        "server-1",
        Some(P2pPayload::Capabilities {
            forwards: vec!["tcp:80".to_string()],
        }),
        None,
    );
    manager.handle_payload(
        "server-2",
        Some(P2pPayload::Capabilities {
            forwards: vec!["tcp:5432".to_string()],
        }),
        None,
    );

    assert_eq!(
        manager.get_server_peers_for("tcp:5432"),
        vec!["server-2".to_string()]
    );
}

#[test]
fn select_server_peer_round_robins_across_advertised_peers() {
    let mut manager = test_manager("self");

    for peer in ["server-b", "server-a", "server-c"] {
        manager.handle_payload(
            peer,
            Some(P2pPayload::Capabilities {
                forwards: vec!["tcp:80".to_string()],
            }),
            None,
        );
    }

    // Deterministic ordering (sorted) with a round-robin cursor.
    let mut picks = Vec::new();
    for _ in 0..6 {
        picks.push(manager.select_server_peer_for("tcp:80").unwrap());
    }
    assert_eq!(
        picks,
        vec![
            "server-a".to_string(),
            "server-b".to_string(),
            "server-c".to_string(),
            "server-a".to_string(),
            "server-b".to_string(),
            "server-c".to_string(),
        ]
    );
}

#[test]
fn select_server_peer_returns_none_without_advertised_peers() {
    let mut manager = test_manager("self");
    assert_eq!(manager.select_server_peer_for("tcp:80"), None);
}

#[test]
fn targeted_tunnel_handlers_receive_only_matching_targets() {
    let mut manager = test_manager("self");
    let _tcp_80 = manager.on_tunnel_message_for("tcp:80");
    let tcp_5432 = manager.on_tunnel_message_for("tcp:5432");

    assert_eq!(
        receivers(&mut manager, "tcp:5432", "conn-5432"),
        vec![tcp_5432]
    );
}

#[test]
fn empty_tunnel_target_routes_to_first_registered_target() {
    let mut manager = test_manager("self");
    let first = manager.on_tunnel_message_for("tcp:80");
    let _second = manager.on_tunnel_message_for("tcp:5432");

    assert_eq!(receivers(&mut manager, "", "legacy-conn"), vec![first]);
}

#[test]
fn removed_tunnel_handler_no_longer_receives_targeted_messages() {
    let mut manager = test_manager("self");
    let handler_id = manager.on_tunnel_message_for("tcp:80");

    assert!(manager.remove_tunnel_message_handler(handler_id));

    assert!(receivers(&mut manager, "tcp:80", "conn-80").is_empty());
    assert!(!manager.remove_tunnel_message_handler(handler_id));
}

#[test]
fn empty_tunnel_target_uses_next_handler_after_default_removed() {
    let mut manager = test_manager("self");
    let first_handler = manager.on_tunnel_message_for("tcp:80");
    let second = manager.on_tunnel_message_for("tcp:5432");

    assert!(manager.remove_tunnel_message_handler(first_handler));

    assert_eq!(receivers(&mut manager, "", "legacy-conn"), vec![second]);
}

#[test]
fn handler_numbers_are_not_given_again() {
    let mut manager = test_manager("self");
    let first = manager.on_tunnel_message_for("tcp:80");
    let second = manager.on_tunnel_message();
    assert!(manager.remove_tunnel_message_handler(first));
    let third = manager.on_tunnel_message_for("tcp:80");

    assert_ne!(first, second);
    assert_ne!(third, first);
    assert_ne!(third, second);
}

#[test]
fn joining_peer_is_greeted() {
    let mut manager = RTCManagerHandle::new("self".to_string(), true);
    manager.publish_tunnel_target("tcp:80");
    let told = manager.handle_join("peer-1");
    assert_eq!(
        told,
        vec![
            Delivery::PeerConnected("peer-1".to_string()),
            Delivery::TunnelOpen("peer-1".to_string()),
            Delivery::StdioOpen("peer-1".to_string()),
            Delivery::Send(Outgoing {
                peer_id: "peer-1".to_string(),
                payload: P2pPayload::Role {
                    role: "server".to_string()
                },
            }),
            Delivery::Send(Outgoing {
                peer_id: "peer-1".to_string(),
                payload: P2pPayload::Capabilities {
                    forwards: vec!["tcp:80".to_string()]
                },
            }),
        ]
    );
    assert!(manager.handle_join("self").is_empty());
    assert_eq!(manager.connected_peers(), vec!["peer-1".to_string()]);
}

#[test]
fn each_join_starts_a_session() {
    let mut manager = test_manager("self");
    assert_eq!(manager.peer_epoch("peer-1"), 0);
    manager.handle_join("peer-1");
    assert_eq!(manager.peer_epoch("peer-1"), 1);
    manager.handle_leave("peer-1");
    assert_eq!(manager.peer_epoch("peer-1"), 1);
    manager.handle_join("peer-1");
    assert_eq!(manager.peer_epoch("peer-1"), 2);
}

#[test]
fn departed_peer_is_not_picked() {
    let mut manager = test_manager("self");
    for peer in ["server-a", "server-b"] {
        manager.handle_payload(
            peer,
            Some(P2pPayload::Capabilities {
                forwards: vec!["tcp:80".to_string()],
            }),
            None,
        );
    }
    manager.handle_leave("server-a");
    assert_eq!(
        manager.select_server_peer_for("tcp:80"),
        Some("server-b".to_string())
    );
}

#[test]
fn targets_are_announced_and_withdrawn() {
    let mut manager = test_manager("self");
    let announced = manager.publish_tunnel_target("tcp:80");
    assert_eq!(announced.peer_id, "");
    assert_eq!(
        announced.payload,
        P2pPayload::Capabilities {
            forwards: vec!["tcp:80".to_string()]
        }
    );
    let withdrawn = manager.unpublish_tunnel_target("tcp:80");
    assert_eq!(
        withdrawn.payload,
        P2pPayload::Capabilities { forwards: vec![] }
    );
}

#[test]
fn role_names_are_read_back() {
    assert_eq!(PeerRole::from_str(PeerRole::Server.as_str()), PeerRole::Server);
    assert_eq!(PeerRole::from_str(PeerRole::Client.as_str()), PeerRole::Client);
    assert_eq!(PeerRole::from_str("other"), PeerRole::Client);
}
