use p2p_tunnel::auth::audit::{AuthAuditLog, AuthEvent, AuthEventSource};
use p2p_tunnel::auth::pending::{PendingAuthorization, PendingAuthorizations, PendingAuthorizer};
use p2p_tunnel::auth::trust::{TrustDecision, TrustEntry, TrustKey, TrustStore};
use p2p_tunnel::auth::{AuthDecision, AuthRequest};
use p2p_tunnel::calendar::format_timestamp_ms;
use p2p_tunnel::controller::{Direction, ForwardSpec, ForwardState, ForwardStatus, Proto};
use p2p_tunnel::forward_store::ForwardStore;
use p2p_tunnel::negotiation::{IncomingForward, OutgoingForward};
use p2p_tunnel::rtc::manager::RTCManagerHandle;
use p2p_tunnel::session::{NoticeKind, SessionContext, SessionError, SessionNotice};
use p2p_tunnel::web::routes::{
    pending_auth_result, post_forwards, remove_result, requested_decision, requested_room,
    send_result, session_result, trust_result, AddForwardBody,
};
use p2p_tunnel::web::state::{
    build_state_dto, event_dto, forward_dto, forward_state_str, local_endpoint, notice_dto,
    parse_auth_decision, pending_auth_dto, pending_forward_dto, pending_outgoing_dto, trust_dto,
    EventDto, ForwardDto, NoticeDto, PeerDto, PendingAuthDto, PendingForwardDto,
    PendingOutgoingDto, StateDto, TrustDto,
};

fn text(s: &str) -> serde_json::Value {
    serde_json::Value::String(s.to_string())
}

fn object(fields: Vec<(&str, serde_json::Value)>) -> serde_json::Value {
    serde_json::Value::Object(
        fields
            .into_iter()
            .map(|(k, v)| (k.to_string(), v))
            .collect(),
    )
}

fn list<T>(items: &[T], one: fn(&T) -> serde_json::Value) -> serde_json::Value {
    serde_json::Value::Array(items.iter().map(one).collect())
}

fn to_value(dto: &StateDto) -> serde_json::Value {
    let StateDto {
        node_id,
        room_id,
        peers,
        forwards,
        pending_auth,
        pending_forwards,
        pending_outgoing,
        trust,
        events,
        notices,
    } = dto;
    object(vec![
        ("node_id", text(node_id)),
        ("room_id", text(room_id)),
        ("peers", list(peers, |p| object(vec![("id", text(&p.id))]))),
        (
            "forwards",
            list(forwards, |f| {
                object(vec![
                    ("id", text(&f.id)),
                    ("proto", text(&f.proto)),
                    ("direction", text(&f.direction)),
                    ("local", text(&f.local)),
                    ("target", text(&f.target)),
                    ("status", text(&f.status)),
                ])
            }),
        ),
        (
            "pending_auth",
            list(pending_auth, |p| {
                object(vec![("id", serde_json::Value::from(p.id))])
            }),
        ),
        (
            "pending_forwards",
            list(pending_forwards, |p| {
                object(vec![("id", serde_json::Value::from(p.id))])
            }),
        ),
        (
            "pending_outgoing",
            list(pending_outgoing, |p| {
                object(vec![("local", text(&p.local)), ("remote", text(&p.remote))])
            }),
        ),
        (
            "trust",
            list(trust, |t| object(vec![("decision", text(&t.decision))])),
        ),
        (
            "events",
            list(events, |e| object(vec![("source", text(&e.source))])),
        ),
        (
            "notices",
            list(notices, |n| {
                object(vec![("kind", text(&n.kind)), ("text", text(&n.text))])
            }),
        ),
    ])
}

#[test]
fn state_dto_round_trips_through_json() {
    let dto = StateDto {
        node_id: "node-1".into(),
        room_id: "room-1".into(),
        peers: vec![PeerDto {
            id: "peer-1".into(),
        }],
        forwards: vec![ForwardDto {
            id: "tcp:127.0.0.1:80".into(),
            proto: "tcp".into(),
            direction: "serve".into(),
            local: "127.0.0.1:80".into(),
            target: "tcp:127.0.0.1:80@node-a".into(),
            status: "listening".into(),
        }],
        pending_auth: vec![PendingAuthDto {
            id: 1,
            peer_id: "peer-1".into(),
            forward_key: "tcp:127.0.0.1:80".into(),
            target_addr: "127.0.0.1:80".into(),
            proto: "tcp".into(),
        }],
        pending_forwards: vec![PendingForwardDto {
            id: 2,
            peer_id: "peer-1".into(),
            proto: "tcp".into(),
            remote_addr: "127.0.0.1:80".into(),
            target: "tcp:127.0.0.1:80".into(),
        }],
        pending_outgoing: vec![PendingOutgoingDto {
            peer_id: "peer-1".into(),
            proto: "tcp".into(),
            local: "127.0.0.1:8080".into(),
            remote: "10.0.0.5:80".into(),
            target: "tcp:10.0.0.5:80".into(),
        }],
        trust: vec![TrustDto {
            peer_id: "peer-1".into(),
            forward_key: "tcp:127.0.0.1:80".into(),
            decision: "allow".into(),
        }],
        events: vec![EventDto {
            time: "2026-01-01T00:00:00.000Z".into(),
            peer_id: "peer-1".into(),
            forward_key: "tcp:127.0.0.1:80".into(),
            decision: "allow".into(),
            source: "policy".into(),
        }],
        notices: vec![NoticeDto {
            time: "2026-01-01T00:00:00.000Z".into(),
            kind: "info".into(),
            text: "forward established: tcp:127.0.0.1:80".into(),
        }],
    };

    let json = to_value(&dto);
    assert_eq!(json["node_id"], "node-1");
    assert_eq!(json["room_id"], "room-1");
    assert_eq!(json["peers"][0]["id"], "peer-1");
    assert_eq!(json["forwards"][0]["proto"], "tcp");
    assert_eq!(json["forwards"][0]["direction"], "serve");
    assert_eq!(json["forwards"][0]["target"], "tcp:127.0.0.1:80@node-a");
    assert_eq!(json["pending_auth"][0]["id"], 1);
    assert_eq!(json["pending_forwards"][0]["id"], 2);
    assert_eq!(json["pending_outgoing"][0]["local"], "127.0.0.1:8080");
    assert_eq!(json["pending_outgoing"][0]["remote"], "10.0.0.5:80");
    assert_eq!(json["trust"][0]["decision"], "allow");
    assert_eq!(json["events"][0]["source"], "policy");
    assert_eq!(json["notices"][0]["kind"], "info");
    assert_eq!(
        json["notices"][0]["text"],
        "forward established: tcp:127.0.0.1:80"
    );

    let mut keys: Vec<_> = json.as_object().unwrap().keys().cloned().collect();
    keys.sort();
    assert_eq!(
        keys,
        vec![
            "events",
            "forwards",
            "node_id",
            "notices",
            "peers",
            "pending_auth",
            "pending_forwards",
            "pending_outgoing",
            "room_id",
            "trust",
        ]
    );
}

#[test]
fn notice_dto_maps_kind_and_formats_timestamp() {
    let info = notice_dto(&SessionNotice {
        timestamp_ms: 1_609_459_200_000,
        kind: NoticeKind::Info,
        text: "forward established: tcp:127.0.0.1:80".into(),
    });
    assert_eq!(info.kind, "info");
    assert_eq!(info.time, "2021-01-01T00:00:00.000Z");

    let error = notice_dto(&SessionNotice {
        timestamp_ms: 1_609_459_200_000,
        kind: NoticeKind::Error,
        text: "peer denied tcp:127.0.0.1:80".into(),
    });
    assert_eq!(error.kind, "error");
}

#[test]
fn formats_known_timestamp() {
    // 2021-01-01T00:00:00.000Z
    assert_eq!(
        format_timestamp_ms(1_609_459_200_000),
        "2021-01-01T00:00:00.000Z"
    );
}

#[test]
fn formats_timestamps_around_leap_days() {
    assert_eq!(format_timestamp_ms(0), "1970-01-01T00:00:00.000Z");
    assert_eq!(
        format_timestamp_ms(951_782_399_999),
        "2000-02-28T23:59:59.999Z"
    );
    assert_eq!(
        format_timestamp_ms(951_782_400_000),
        "2000-02-29T00:00:00.000Z"
    );
    assert_eq!(
        format_timestamp_ms(4_107_542_400_000),
        "2100-03-01T00:00:00.000Z"
    );
}

#[test]
fn parses_known_decision_strings() {
    assert_eq!(parse_auth_decision("allow"), Some(AuthDecision::Allow));
    assert_eq!(
        parse_auth_decision("allow_always"),
        Some(AuthDecision::AllowAlways)
    );
    assert_eq!(parse_auth_decision("deny"), Some(AuthDecision::Deny));
    assert_eq!(
        parse_auth_decision("deny_always"),
        Some(AuthDecision::DenyAlways)
    );
    assert_eq!(parse_auth_decision("nope"), None);
}

fn scoped_forward_status(target: &str) -> ForwardStatus {
    ForwardStatus {
        key: "tcp:127.0.0.1:80".into(),
        spec: ForwardSpec {
            direction: Direction::Connect,
            proto: Proto::Tcp,
            addr: "127.0.0.1:9000".into(),
            listen_port: 9000,
            target: target.into(),
        },
        active_conns: 0,
        bytes_in: 0,
        bytes_out: 0,
        state: ForwardState::Listening,
        peers: Vec::new(),
    }
}

#[test]
fn forward_dto_keeps_full_scoped_target() {
    let dto = forward_dto(&scoped_forward_status("tcp:127.0.0.1:80@node-a"));
    assert_eq!(dto.target, "tcp:127.0.0.1:80@node-a");
    // local_endpoint reads `spec.addr`/`spec.listen_port`, not `target`,
    // so it's unaffected by scoping either way.
    assert_eq!(dto.local, "127.0.0.1:9000");
}

#[test]
fn forward_dto_leaves_unscoped_target_unchanged() {
    let dto = forward_dto(&scoped_forward_status("tcp:127.0.0.1:80"));
    assert_eq!(dto.target, "tcp:127.0.0.1:80");
}

#[test]
fn pending_forward_dto_keeps_full_scoped_target() {
    let item = IncomingForward {
        id: 2,
        req_id: "req-1".into(),
        peer_id: "peer-1".into(),
        proto: "tcp".into(),
        remote_addr: "127.0.0.1:80".into(),
        target: "tcp:127.0.0.1:80@node-a".into(),
    };
    let dto = pending_forward_dto(&item);
    assert_eq!(dto.target, "tcp:127.0.0.1:80@node-a");
}

#[test]
fn pending_outgoing_dto_keeps_full_scoped_target() {
    let item = OutgoingForward {
        peer_id: "peer-1".into(),
        proto: "tcp".into(),
        listen_port: 8080,
        local_addr: "127.0.0.1:8080".into(),
        remote_addr: "10.0.0.5:80".into(),
        target: "tcp:10.0.0.5:80@node-a".into(),
    };
    let dto = pending_outgoing_dto(&item);
    assert_eq!(dto.target, "tcp:10.0.0.5:80@node-a");
}

#[test]
fn small_dtos_keep_their_fields() {
    let request = AuthRequest {
        peer_id: "peer-1".into(),
        forward_key: "tcp:80".into(),
        target_addr: "127.0.0.1:80".into(),
        proto: "tcp".into(),
    };
    let auth = pending_auth_dto(&PendingAuthorization { id: 4, request });
    assert_eq!(auth.id, 4);
    assert_eq!(auth.forward_key, "tcp:80");
    let trust = trust_dto(&TrustEntry {
        key: TrustKey {
            peer_id: "peer-1".into(),
            forward_key: "tcp:80".into(),
        },
        decision: TrustDecision::Deny,
    });
    assert_eq!(trust.decision, "deny");
    let event = event_dto(&AuthEvent {
        sequence: 1,
        timestamp_ms: 1_609_459_200_001,
        peer_id: "peer-1".into(),
        forward_key: "tcp:80".into(),
        target_addr: "127.0.0.1:80".into(),
        proto: "tcp".into(),
        decision: AuthDecision::AllowAlways,
        source: AuthEventSource::TrustStore,
    });
    assert_eq!(event.time, "2021-01-01T00:00:00.001Z");
    assert_eq!(event.decision, "allow_always");
    assert_eq!(event.source, "trust_store");
    assert_eq!(forward_state_str(&ForwardState::Stopped), "stopped");
    assert_eq!(
        forward_state_str(&ForwardState::Error("port in use".into())),
        "error: port in use"
    );
    let mut spec = scoped_forward_status("tcp:80").spec;
    spec.addr = String::new();
    assert_eq!(local_endpoint(&spec), ":9000");
}

fn body(proto: &str, local: &str, remote: &str, peer: &str) -> AddForwardBody {
    AddForwardBody {
        proto: proto.to_string(),
        local: local.to_string(),
        remote: remote.to_string(),
        peer_id: if peer.is_empty() {
            None
        } else {
            Some(peer.to_string())
        },
    }
}

#[test]
fn posted_forward_becomes_a_draft() {
    let peers = vec!["node-a".to_string(), "node-b".to_string()];
    let draft = post_forwards(&body("TCP", " 127.0.0.1:8080 ", "10.0.0.5:80", "node-a"), &peers)
        .unwrap();
    assert_eq!(draft.proto, "tcp");
    assert_eq!(draft.listen_port, 8080);
    assert_eq!(draft.peer_id, "node-a");
    assert_eq!(draft.local_addr, "127.0.0.1:8080");
    assert_eq!(draft.target, "tcp:10.0.0.5:80@node-a");
}

#[test]
fn bad_posted_forwards_are_refused() {
    let one = vec!["node-a".to_string()];
    let two = vec!["node-a".to_string(), "node-b".to_string()];
    let refusal = |b: AddForwardBody, peers: &Vec<String>| {
        let refused = post_forwards(&b, peers).unwrap_err();
        assert_eq!(refused.status(), 400);
        refused.error().unwrap().to_string()
    };
    assert_eq!(
        refusal(body("sctp", "127.0.0.1:1", "10.0.0.5:80", ""), &one),
        "unsupported protocol: sctp"
    );
    assert_eq!(
        refusal(body("tcp", " ", "10.0.0.5:80", ""), &one),
        "local and remote are required"
    );
    assert_eq!(
        refusal(body("tcp", "127.0.0.1:x", "10.0.0.5:80", ""), &one),
        "local must be host:port"
    );
    assert_eq!(
        refusal(body("tcp", "127.0.0.1:1", "10.0.0.5:80", ""), &Vec::new()),
        "no peers connected"
    );
    assert_eq!(
        refusal(body("tcp", "127.0.0.1:1", "10.0.0.5:80", " "), &two),
        "multiple peers connected; peer_id is required"
    );
    let only = post_forwards(&body("udp", "127.0.0.1:1", "10.0.0.5:80", ""), &one).unwrap();
    assert_eq!(only.peer_id, "node-a");
}

#[test]
fn results_have_statuses() {
    assert_eq!(requested_decision("deny").unwrap(), AuthDecision::Deny);
    assert_eq!(requested_decision("maybe").unwrap_err().status(), 400);
    assert_eq!(pending_auth_result(1, true).status(), 200);
    assert_eq!(pending_auth_result(1, false).status(), 404);
    let missing = Err(SessionError::NotFound("gone".to_string()));
    let invalid = Err(SessionError::Invalid("bad".to_string()));
    assert_eq!(session_result(&Ok("fine".to_string())).status(), 200);
    assert_eq!(session_result(&missing).status(), 404);
    assert_eq!(session_result(&missing).error(), Some("gone"));
    assert_eq!(session_result(&invalid).error(), Some("bad"));
    assert!(send_result(&invalid).status() >= 400);
    assert_eq!(remove_result(None).status(), 200);
    assert!(remove_result(invalid.as_ref().err()).status() >= 400);
    assert_eq!(trust_result(&Ok(true)).status(), 200);
    assert_eq!(trust_result(&Ok(false)).status(), 404);
}

#[test]
fn rooms_are_trimmed() {
    assert_eq!(requested_room(Some(" r1 ")), Some("r1".to_string()));
    assert_eq!(requested_room(Some("  ")), None);
    assert_eq!(requested_room(None), None);
}

#[test]
fn state_of_a_session() {
    let (mut ctx, _) = SessionContext::build(
        "room-1".to_string(),
        RTCManagerHandle::new("node-1".to_string(), true),
        PendingAuthorizer::with_audit_log(
            TrustStore::new(),
            PendingAuthorizations::new(),
            AuthAuditLog::default(),
        ),
        ForwardStore::from_entries(Vec::new()),
    );
    ctx.manager.handle_join("peer-b");
    ctx.manager.handle_join("peer-a");
    ctx.push_notice(NoticeKind::Info, "hello", 1_609_459_200_000);
    let dto = build_state_dto(&ctx);
    assert_eq!(dto.node_id, "node-1");
    assert_eq!(dto.room_id, "room-1");
    assert_eq!(dto.peers.len(), 2);
    assert_eq!(dto.peers[0].id, "peer-a");
    assert_eq!(dto.notices[0].time, "2021-01-01T00:00:00.000Z");
    assert!(dto.forwards.is_empty());
}

#[test]
fn timestamps_sort_as_moments() {
    let moments: [u128; 7] = [
        0,
        999,
        59_999,
        86_399_999,
        1_700_000_000_000,
        1_700_000_000_001,
        253_402_300_799_999,
    ];
    let texts: Vec<String> = moments.iter().map(|ms| format_timestamp_ms(*ms)).collect();
    for pair in texts.windows(2) {
        assert!(pair[0] < pair[1]);
    }
    assert!(texts.iter().all(|text| text.len() == 24));
    assert_eq!(texts[6], "9999-12-31T23:59:59.999Z");
    assert_eq!(format_timestamp_ms(253_402_300_800_000).len(), 25);
}
