use p2p_tunnel::auth::audit::AuthAuditLog;
use p2p_tunnel::auth::pending::{PendingAuthorizations, PendingAuthorizer};
use p2p_tunnel::auth::trust::{TrustDecision, TrustKey, TrustStore};
use p2p_tunnel::auth::{AuthDecision, AuthRequest};
use p2p_tunnel::controller::{Direction, ForwardSpec, Proto};
use p2p_tunnel::forward_store::ForwardStore;
use p2p_tunnel::negotiation::{ForwardOutcome, OutgoingForward};
use p2p_tunnel::rtc::manager::payload::P2pPayload;
use p2p_tunnel::rtc::manager::{ForwardRequestEvent, ForwardResponseEvent, RTCManagerHandle};
use p2p_tunnel::session::{
    finish_resolve, finish_trust_removal, parse_addr_port, NoticeKind, SessionContext,
    SessionError, MAX_NOTICES,
};

#[test]
fn parses_port_from_addr() {
    assert_eq!(parse_addr_port("127.0.0.1:8080"), Some(8080));
    assert_eq!(parse_addr_port("8080"), Some(8080));
    assert_eq!(parse_addr_port(""), None);
    assert_eq!(parse_addr_port("127.0.0.1:abc"), None);
}

#[test]
fn session_error_display_matches_inner_message() {
    let e = SessionError::NotFound("forward request no longer exists".into());
    assert_eq!(e.message(), "forward request no longer exists");
    let e = SessionError::Invalid("invalid proto: nope".into());
    assert_eq!(e.message(), "invalid proto: nope");
}

fn sample_request(peer_id: &str) -> AuthRequest {
    AuthRequest {
        peer_id: peer_id.to_string(),
        forward_key: "tcp:80".to_string(),
        target_addr: "127.0.0.1:80".to_string(),
        proto: "tcp".to_string(),
    }
}

fn session_with(forward_store: ForwardStore) -> (SessionContext, Vec<ForwardSpec>) {
    SessionContext::build(
        "room".to_string(),
        RTCManagerHandle::new("self".to_string(), false),
        PendingAuthorizer::with_audit_log(
            TrustStore::new(),
            PendingAuthorizations::new(),
            AuthAuditLog::default(),
        ),
        forward_store,
    )
}

fn test_session_context() -> SessionContext {
    session_with(ForwardStore::from_entries(Vec::new())).0
}

fn sample_outgoing_forward(target: &str) -> OutgoingForward {
    OutgoingForward {
        peer_id: "peer-1".to_string(),
        proto: "tcp".to_string(),
        listen_port: 8080,
        local_addr: "127.0.0.1:8080".to_string(),
        remote_addr: "127.0.0.1:80".to_string(),
        target: target.to_string(),
    }
}

#[test]
fn apply_forward_outcome_pushes_info_notice_on_success() {
    let mut ctx = test_session_context();
    let outcome = ForwardOutcome {
        outgoing: sample_outgoing_forward("tcp:127.0.0.1:80"),
        accepted: true,
        reason: None,
    };

    let applied = ctx.apply_forward_outcome(&outcome, 1);
    assert_eq!(
        applied.result.unwrap(),
        "forward established: tcp:127.0.0.1:80"
    );

    assert_eq!(ctx.notices.len(), 1);
    assert_eq!(ctx.notices[0].kind, NoticeKind::Info);
    assert_eq!(
        ctx.notices[0].text,
        "forward established: tcp:127.0.0.1:80"
    );
}

#[test]
fn apply_forward_outcome_pushes_error_notice_on_add_failure() {
    let mut ctx = test_session_context();
    // An empty target is refused and isn't a duplicate-key situation, so
    // this exercises the plain add-failure path.
    let outcome = ForwardOutcome {
        outgoing: sample_outgoing_forward(""),
        accepted: true,
        reason: None,
    };

    let err = ctx.apply_forward_outcome(&outcome, 1).result.unwrap_err();
    assert!(err.message().contains("add failed"));

    assert_eq!(ctx.notices.len(), 1);
    assert_eq!(ctx.notices[0].kind, NoticeKind::Error);
    assert!(ctx.notices[0].text.contains("add failed"));
}

#[test]
fn apply_forward_outcome_pushes_error_notice_on_denied_and_failed() {
    let mut ctx = test_session_context();

    let denied = ForwardOutcome {
        outgoing: sample_outgoing_forward("tcp:127.0.0.1:80"),
        accepted: false,
        reason: None,
    };
    let msg = ctx.apply_forward_outcome(&denied, 1).result.unwrap();
    assert_eq!(msg, "peer denied tcp:127.0.0.1:80");

    let failed = ForwardOutcome {
        outgoing: sample_outgoing_forward("tcp:127.0.0.1:81"),
        accepted: false,
        reason: Some("peer disconnected".to_string()),
    };
    let msg = ctx.apply_forward_outcome(&failed, 2).result.unwrap();
    assert_eq!(msg, "forward tcp:127.0.0.1:81 failed: peer disconnected");

    assert_eq!(ctx.notices.len(), 2);
    assert!(ctx.notices.iter().all(|n| n.kind == NoticeKind::Error));
}

#[test]
fn apply_forward_outcome_replaces_stale_duplicate_key() {
    let mut ctx = test_session_context();
    let target = "tcp:127.0.0.1:80";

    // Stands in for a forward restored from the stored ones at startup that
    // happens to share a key with a forward now being negotiated fresh.
    ctx.controller
        .add_forward(&ForwardSpec {
            direction: Direction::Serve,
            proto: Proto::Tcp,
            addr: "stale:1".to_string(),
            listen_port: -1,
            target: target.to_string(),
        })
        .unwrap();

    let outcome = ForwardOutcome {
        outgoing: sample_outgoing_forward(target),
        accepted: true,
        reason: None,
    };
    let applied = ctx.apply_forward_outcome(&outcome, 1);
    assert_eq!(
        applied.result.unwrap(),
        format!("forward established: {}", target)
    );
    assert!(applied.replaced.unwrap().unpublish);

    let statuses = ctx.controller.list_forwards();
    assert_eq!(
        statuses.len(),
        1,
        "the stale entry must be replaced, not duplicated"
    );
    assert_eq!(statuses[0].spec.direction, Direction::Connect);
    assert_eq!(statuses[0].spec.addr, "127.0.0.1:8080");

    assert_eq!(ctx.notices.len(), 1);
    assert_eq!(ctx.notices[0].kind, NoticeKind::Info);
}

#[test]
fn apply_forward_outcome_scoped_targets_on_different_peers_coexist() {
    let mut ctx = test_session_context();

    // Two forwards to the same remote addr but on different peer nodes must
    // not collide on the unscoped target key.
    let mut on_a = sample_outgoing_forward("tcp:127.0.0.1:22@node-a");
    on_a.listen_port = 10022;
    let outcome_a = ForwardOutcome {
        outgoing: on_a,
        accepted: true,
        reason: None,
    };
    let msg = ctx.apply_forward_outcome(&outcome_a, 1).result.unwrap();
    assert_eq!(msg, "forward established: tcp:127.0.0.1:22@node-a");

    let mut on_b = sample_outgoing_forward("tcp:127.0.0.1:22@node-b");
    on_b.listen_port = 10023;
    let outcome_b = ForwardOutcome {
        outgoing: on_b,
        accepted: true,
        reason: None,
    };
    let msg = ctx.apply_forward_outcome(&outcome_b, 2).result.unwrap();
    assert_eq!(msg, "forward established: tcp:127.0.0.1:22@node-b");

    let statuses = ctx.controller.list_forwards();
    assert_eq!(
        statuses.len(),
        2,
        "forwards to the same remote addr but scoped to different peers must coexist"
    );
}

#[test]
fn apply_forward_outcome_replaces_same_scoped_target() {
    let mut ctx = test_session_context();
    let target = "tcp:127.0.0.1:22@node-a";

    let mut first = sample_outgoing_forward(target);
    first.listen_port = 10022;
    let outcome_first = ForwardOutcome {
        outgoing: first,
        accepted: true,
        reason: None,
    };
    ctx.apply_forward_outcome(&outcome_first, 1).result.unwrap();

    let mut second = sample_outgoing_forward(target);
    second.listen_port = 10099;
    let outcome_second = ForwardOutcome {
        outgoing: second,
        accepted: true,
        reason: None,
    };
    ctx.apply_forward_outcome(&outcome_second, 2).result.unwrap();

    let statuses = ctx.controller.list_forwards();
    assert_eq!(
        statuses.len(),
        1,
        "second outcome for the same scoped target must replace, not duplicate"
    );
    assert_eq!(statuses[0].spec.listen_port, 10099);
}

fn waiting_session() -> SessionContext {
    let mut ctx = test_session_context();
    ctx.auth.authorize(&sample_request("peer-1"), 1);
    ctx.on_forward_request("peer-1", proposal("req-1", "tcp"));
    ctx
}

fn proposal(req_id: &str, proto: &str) -> ForwardRequestEvent {
    ForwardRequestEvent {
        req_id: req_id.to_string(),
        proto: proto.to_string(),
        remote_addr: "127.0.0.1:80".to_string(),
        target: "tcp:127.0.0.1:80".to_string(),
    }
}

#[test]
fn purge_after_grace_skips_when_epoch_moved_on() {
    let mut ctx = waiting_session();

    // The peer never actually joined (its epoch stays 0); a mismatched
    // epoch stands in for "the peer rejoined before the grace window
    // elapsed".
    assert!(ctx.purge_after_grace("peer-1", 1, 2).is_none());

    assert_eq!(
        ctx.auth.pending.list().len(),
        1,
        "a peer whose epoch moved on must not have its pending auth purged"
    );
    assert_eq!(
        ctx.negotiator.list_incoming().len(),
        1,
        "a peer whose epoch moved on must not have its forward proposals purged"
    );
}

#[test]
fn purge_after_grace_purges_when_epoch_unchanged() {
    let mut ctx = waiting_session();

    let purged = ctx.purge_after_grace("peer-1", 0, 2).unwrap();

    assert!(ctx.auth.pending.list().is_empty());
    assert_eq!(purged.auth, vec![1]);
    assert_eq!(purged.incoming, 1);
    assert_eq!(purged.outgoing, 0);
    let events = ctx.auth.audit_log.list();
    assert_eq!(events[0].decision, AuthDecision::Deny);
    assert!(ctx.negotiator.list_incoming().is_empty());
}

#[test]
fn approved_proposal_serves_and_trusts_the_peer() {
    let mut ctx = waiting_session();
    let id = ctx.negotiator.list_incoming()[0].id;

    let reply = ctx.resolve_forward(id, true).unwrap();

    assert!(reply.accepted);
    assert_eq!(
        reply.message.payload,
        P2pPayload::ForwardResponse {
            req_id: "req-1".to_string(),
            target: "tcp:127.0.0.1:80".to_string(),
            accepted: true
        }
    );
    assert_eq!(reply.started.as_ref().unwrap().addr, "127.0.0.1:80");
    assert_eq!(ctx.controller.list_forwards().len(), 1);
    assert_eq!(ctx.forward_store.list().len(), 1);
    assert_eq!(
        ctx.auth.store.get(&TrustKey {
            peer_id: "peer-1".to_string(),
            forward_key: "tcp:127.0.0.1:80".to_string()
        }),
        Some(TrustDecision::Allow)
    );
    assert_eq!(
        finish_resolve(&reply, Ok(())).unwrap(),
        "accepted forward tcp:127.0.0.1:80"
    );
    assert_eq!(
        finish_resolve(&reply, Err("gone".to_string()))
            .unwrap_err()
            .message(),
        "accepted locally, but failed to notify peer: gone"
    );
    match ctx.resolve_forward(id, true) {
        Err(SessionError::NotFound(m)) => assert_eq!(m, "forward request no longer exists"),
        _ => panic!("a proposal was taken twice"),
    }
}

#[test]
fn denied_proposal_changes_nothing_else() {
    let mut ctx = waiting_session();
    let reply = ctx.resolve_forward(1, false).unwrap();
    assert!(!reply.accepted);
    assert!(ctx.controller.list_forwards().is_empty());
    assert!(ctx.forward_store.list().is_empty());
    assert!(ctx.auth.store.list().is_empty());
    assert_eq!(
        finish_resolve(&reply, Ok(())).unwrap(),
        "denied forward tcp:127.0.0.1:80"
    );
}

#[test]
fn bad_proposals_are_refused() {
    let mut ctx = test_session_context();
    let id = ctx.on_forward_request("peer-1", proposal("req-1", "sctp"));
    assert_eq!(
        ctx.resolve_forward(id, true).unwrap_err().message(),
        "invalid proto: unsupported protocol: sctp"
    );
    let id = ctx.on_forward_request("peer-1", proposal("req-2", "tcp"));
    ctx.resolve_forward(id, true).unwrap();
    let id = ctx.on_forward_request("peer-1", proposal("req-3", "tcp"));
    assert_eq!(
        ctx.resolve_forward(id, true).unwrap_err().message(),
        "add failed: forward already exists: tcp:127.0.0.1:80"
    );
}

#[test]
fn answer_that_comes_early_is_not_lost() {
    let mut ctx = test_session_context();
    let (req_id, message) = ctx.send_outgoing_forward(&sample_outgoing_forward("tcp:1"));
    match message.payload {
        P2pPayload::ForwardRequest {
            req_id: sent,
            target,
            ..
        } => {
            assert_eq!(sent, req_id);
            assert_eq!(target, "tcp:1");
        }
        other => panic!("unexpected payload {:?}", other),
    }
    ctx.on_forward_response(&ForwardResponseEvent {
        req_id: req_id.clone(),
        target: "tcp:1".to_string(),
        accepted: true,
    });
    assert_eq!(
        ctx.finish_outgoing(&req_id, "tcp:1", Ok(())).unwrap(),
        "request sent: tcp:1"
    );
    let applied = ctx.drain_and_apply_outcomes(5);
    assert_eq!(applied.len(), 1);
    assert_eq!(applied[0].started.as_ref().unwrap().target, "tcp:1");
    assert!(ctx.drain_and_apply_outcomes(6).is_empty());
}

#[test]
fn request_ids_are_fresh() {
    let mut ctx = test_session_context();
    let (a, _) = ctx.send_outgoing_forward(&sample_outgoing_forward("tcp:1"));
    let (b, _) = ctx.send_outgoing_forward(&sample_outgoing_forward("tcp:1"));
    assert_ne!(a, b);
    assert_eq!(a.len(), 36);
    assert_eq!(uuid::Uuid::parse_str(&a).unwrap().to_string(), a);
}

#[test]
fn unsent_request_is_forgotten() {
    let mut ctx = test_session_context();
    let (req_id, _) = ctx.send_outgoing_forward(&sample_outgoing_forward("tcp:1"));
    assert_eq!(
        ctx.finish_outgoing(&req_id, "tcp:1", Err("no route".to_string()))
            .unwrap_err()
            .message(),
        "send failed: no route"
    );
    assert!(ctx.negotiator.list_outgoing().is_empty());
}

#[test]
fn stored_forwards_come_back() {
    let mut store = ForwardStore::from_entries(Vec::new());
    store.add(&ForwardSpec {
        direction: Direction::Serve,
        proto: Proto::Udp,
        addr: "127.0.0.1:53".to_string(),
        listen_port: -1,
        target: "udp:53".to_string(),
    });
    let mut entries = store.list();
    let mut broken = store.list().remove(0);
    broken.proto = "sctp".to_string();
    broken.target = "sctp:1".to_string();
    entries.push(broken);

    let (ctx, started) = session_with(ForwardStore::from_entries(entries));

    assert_eq!(started.len(), 1);
    assert_eq!(started[0].target, "udp:53");
    assert_eq!(ctx.controller.list_forwards().len(), 1);
}

#[test]
fn notices_are_limited() {
    let mut ctx = test_session_context();
    for n in 0..(MAX_NOTICES as u128 + 3) {
        ctx.push_notice(NoticeKind::Info, &n.to_string(), n);
    }
    assert_eq!(ctx.notices.len(), MAX_NOTICES);
    assert_eq!(ctx.notices[0].text, "3");
    assert_eq!(ctx.notices[MAX_NOTICES - 1].text, "52");
}

#[test]
fn removed_forward_is_not_stored_any_more() {
    let mut ctx = waiting_session();
    ctx.resolve_forward(1, true).unwrap();
    assert!(ctx.remove_forward("tcp:127.0.0.1:80").unwrap().unpublish);
    assert!(ctx.forward_store.list().is_empty());
    assert_eq!(
        ctx.remove_forward("tcp:127.0.0.1:80").unwrap_err().message(),
        "remove failed: forward not found: tcp:127.0.0.1:80"
    );
}

#[test]
fn trust_can_be_taken_back() {
    let mut ctx = waiting_session();
    ctx.resolve_forward(1, true).unwrap();
    assert!(ctx.remove_trust("peer-1", "tcp:127.0.0.1:80"));
    assert!(!ctx.remove_trust("peer-1", "tcp:127.0.0.1:80"));
    assert!(finish_trust_removal(true, Ok(())).unwrap());
    assert!(!finish_trust_removal(false, Ok(())).unwrap());
    assert_eq!(
        finish_trust_removal(true, Err("disk full".to_string()))
            .unwrap_err()
            .message(),
        "remove failed: disk full"
    );
}

#[test]
fn snapshot_shows_the_session() {
    let mut ctx = waiting_session();
    ctx.manager.handle_join("peer-1");
    ctx.push_notice(NoticeKind::Error, "oops", 3);
    let shown = ctx.snapshot();
    assert_eq!(shown.self_id, "self");
    assert_eq!(shown.room, "room");
    assert_eq!(shown.peers, vec!["peer-1"]);
    assert_eq!(shown.pending_auth.len(), 1);
    assert_eq!(shown.pending_forwards.len(), 1);
    assert!(shown.pending_outgoing.is_empty());
    assert!(shown.forwards.is_empty());
    assert!(shown.trust.is_empty());
    assert!(shown.events.is_empty());
    assert_eq!(shown.notices.len(), 1);
}

#[test]
fn agreed_forward_stands_on_both_sides() {
    let mut asker = test_session_context();
    let mut server = test_session_context();
    let draft = sample_outgoing_forward("tcp:127.0.0.1:80@server");

    let (req_id, request) = asker.send_outgoing_forward(&draft);
    assert_eq!(request.peer_id, "peer-1");
    let request = match request.payload {
        P2pPayload::ForwardRequest {
            req_id,
            proto,
            remote_addr,
            target,
        } => ForwardRequestEvent {
            req_id,
            proto,
            remote_addr,
            target,
        },
        other => panic!("not a request: {:?}", other),
    };
    assert_eq!(request.req_id, req_id);

    let id = server.on_forward_request("asker", request);
    let reply = server.resolve_forward(id, true).unwrap();
    assert_eq!(reply.message.peer_id, "asker");
    let response = match reply.message.payload {
        P2pPayload::ForwardResponse {
            req_id,
            target,
            accepted,
        } => ForwardResponseEvent {
            req_id,
            target,
            accepted,
        },
        other => panic!("not an answer: {:?}", other),
    };
    asker.on_forward_response(&response);
    assert_eq!(asker.drain_and_apply_outcomes(1).len(), 1);

    let listening = asker.controller.list_forwards();
    let serving = server.controller.list_forwards();
    assert_eq!(listening.len(), 1);
    assert_eq!(serving.len(), 1);
    assert_eq!(listening[0].key, serving[0].key);
    assert_eq!(listening[0].spec.direction, Direction::Connect);
    assert_eq!(listening[0].spec.listen_port, 8080);
    assert_eq!(serving[0].spec.direction, Direction::Serve);
    assert_eq!(serving[0].spec.addr, "127.0.0.1:80");
    assert_eq!(asker.forward_store.list().len(), 1);
    assert_eq!(server.forward_store.list().len(), 1);
    let key = TrustKey {
        peer_id: "asker".to_string(),
        forward_key: serving[0].key.clone(),
    };
    assert_eq!(server.auth.store.get(&key), Some(TrustDecision::Allow));
}

#[test]
fn proposals_are_decided_once() {
    for (first, second) in [(true, true), (true, false), (false, true), (false, false)] {
        let mut ctx = test_session_context();
        let id = ctx.on_forward_request("peer-1", proposal("req-1", "tcp"));
        assert!(ctx.resolve_forward(id, first).is_ok());
        assert_eq!(
            ctx.resolve_forward(id, second).unwrap_err(),
            SessionError::NotFound("forward request no longer exists".to_string())
        );
    }
}

#[test]
fn numbers_stay_apart_when_a_peer_is_gone() {
    let mut ctx = test_session_context();
    let gone = ctx.on_forward_request("peer-1", proposal("req-1", "tcp"));
    let kept = ctx.on_forward_request("peer-2", proposal("req-2", "tcp"));
    assert_eq!(ctx.negotiator.purge_peer("peer-1"), (1, 0));
    let late = ctx.on_forward_request("peer-3", proposal("req-3", "tcp"));
    let ids: Vec<u64> = ctx.negotiator.list_incoming().iter().map(|f| f.id).collect();
    assert_eq!(ids, vec![kept, late]);
    assert!(gone < kept && kept < late);
    assert!(ctx.resolve_forward(gone, true).is_err());
    assert!(ctx.resolve_forward(kept, false).is_ok());
}
