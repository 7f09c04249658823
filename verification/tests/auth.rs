use p2p_tunnel::auth::audit::{AuthAuditLog, AuthEventSource};
use p2p_tunnel::auth::pending::{Authorization, PendingAuthorizations, PendingAuthorizer};
use p2p_tunnel::auth::trust::{TrustDecision, TrustKey, TrustStore};
use p2p_tunnel::auth::{
    allow_all, AuthDecision, AuthPolicy, AuthRequest, ConnectionAuthorizer, PolicyAuthorizer,
};

fn request(peer_id: &str, forward_key: &str) -> AuthRequest {
    AuthRequest {
        peer_id: peer_id.to_string(),
        forward_key: forward_key.to_string(),
        target_addr: "127.0.0.1:80".to_string(),
        proto: "tcp".to_string(),
    }
}

fn key(peer_id: &str, forward_key: &str) -> TrustKey {
    TrustKey {
        peer_id: peer_id.to_string(),
        forward_key: forward_key.to_string(),
    }
}

fn reloaded(store: &TrustStore) -> TrustStore {
    TrustStore::from_entries(&store.list())
}

#[test]
fn allow_all_authorizer_allows_any_request() {
    let authorizer = allow_all();

    let decision = authorizer.authorize(&request("peer-a", "tcp:80"));

    assert_eq!(decision, AuthDecision::Allow);
    assert!(decision.is_allowed());
}

#[test]
fn allowlist_allows_only_listed_peer() {
    let store = TrustStore::new();
    let authorizer =
        PolicyAuthorizer::new(AuthPolicy::allow_peers(&vec!["peer-a".to_string()]), store);

    assert_eq!(
        authorizer.authorize(&request("peer-a", "tcp:80")),
        AuthDecision::Allow
    );
    assert_eq!(
        authorizer.authorize(&request("peer-b", "tcp:80")),
        AuthDecision::Deny
    );
}

#[test]
fn deny_unknown_denies_without_trust_entry() {
    let store = TrustStore::new();
    let authorizer = PolicyAuthorizer::new(AuthPolicy::DenyUnknown, store);

    let decision = authorizer.authorize(&request("peer-a", "tcp:80"));

    assert_eq!(decision, AuthDecision::Deny);
    assert!(!decision.is_allowed());
}

#[test]
fn trust_store_persists_remembered_decisions() {
    let mut store = TrustStore::new();
    store.remember(&key("peer-a", "tcp:80"), TrustDecision::Allow);

    let loaded = reloaded(&store);
    let decision = loaded.get(&key("peer-a", "tcp:80"));

    assert_eq!(decision, Some(TrustDecision::Allow));
}

#[test]
fn trust_store_lists_entries_in_stable_order() {
    let mut store = TrustStore::new();
    store.remember(&key("peer-b", "udp:53"), TrustDecision::Deny);
    store.remember(&key("peer-a", "tcp:80"), TrustDecision::Allow);

    let entries = store.list();

    assert_eq!(entries.len(), 2);
    assert_eq!(entries[0].key.peer_id, "peer-a");
    assert_eq!(entries[1].key.peer_id, "peer-b");
}

#[test]
fn trust_store_removes_entry() {
    let key = key("peer-a", "tcp:80");
    let mut store = TrustStore::new();
    store.remember(&key, TrustDecision::Allow);

    assert!(store.remove(&key));
    assert_eq!(store.get(&key), None);

    let loaded = reloaded(&store);
    assert_eq!(loaded.get(&key), None);
}

#[test]
fn trust_store_takes_precedence_over_policy() {
    let mut store = TrustStore::new();
    store.remember(&key("peer-a", "tcp:80"), TrustDecision::Deny);
    let authorizer = PolicyAuthorizer::new(AuthPolicy::AutoAccept, store);

    let decision = authorizer.authorize(&request("peer-a", "tcp:80"));

    assert_eq!(decision, AuthDecision::Deny);
}

#[test]
fn pending_authorizer_queues_unknown_until_resolved() {
    let mut authorizer = PendingAuthorizer::new(TrustStore::new(), PendingAuthorizations::new());

    let queued = authorizer.authorize(&request("peer-a", "tcp:80"), 1);
    let items = authorizer.pending.list();

    assert_eq!(items.len(), 1);
    assert_eq!(items[0].request.peer_id, "peer-a");
    assert_eq!(queued, Authorization::Queued(items[0].id));
    assert!(authorizer.resolve(items[0].id, AuthDecision::Allow, 2));
    assert!(authorizer.pending.list().is_empty());
    assert!(!authorizer.resolve(items[0].id, AuthDecision::Allow, 3));
}

#[test]
fn pending_authorizer_remembers_allow_always() {
    let mut authorizer = PendingAuthorizer::new(TrustStore::new(), PendingAuthorizations::new());

    let _ = authorizer.authorize(&request("peer-a", "tcp:80"), 1);
    let id = authorizer.pending.list()[0].id;
    assert!(authorizer.resolve(id, AuthDecision::AllowAlways, 2));

    assert_eq!(
        authorizer.store.get(&key("peer-a", "tcp:80")),
        Some(TrustDecision::Allow)
    );
}

#[test]
fn pending_authorizer_uses_trust_store_without_queuing() {
    let mut store = TrustStore::new();
    store.remember(&key("peer-a", "tcp:80"), TrustDecision::Deny);
    let mut authorizer = PendingAuthorizer::new(store, PendingAuthorizations::new());

    let decision = authorizer.authorize(&request("peer-a", "tcp:80"), 1);

    assert_eq!(decision, Authorization::Decided(AuthDecision::Deny));
    assert!(authorizer.pending.list().is_empty());
}

#[test]
fn pending_authorizer_records_pending_decision_events() {
    let mut authorizer = PendingAuthorizer::with_audit_log(
        TrustStore::new(),
        PendingAuthorizations::new(),
        AuthAuditLog::default(),
    );

    let _ = authorizer.authorize(&request("peer-a", "tcp:80"), 1);
    let id = authorizer.pending.list()[0].id;
    assert!(authorizer.resolve(id, AuthDecision::Deny, 2));

    let events = authorizer.audit_log.list();
    assert_eq!(events.len(), 1);
    assert_eq!(events[0].decision, AuthDecision::Deny);
    assert_eq!(events[0].source, AuthEventSource::Pending);
}

#[test]
fn policy_follows_from_the_arguments() {
    let peers = vec!["peer-a".to_string()];
    let listed = PolicyAuthorizer::new(AuthPolicy::from_args(true, &peers), TrustStore::new());
    assert!(!listed.authorize(&request("peer-b", "tcp:80")).is_allowed());
    let open = PolicyAuthorizer::new(AuthPolicy::from_args(true, &Vec::new()), TrustStore::new());
    assert!(open.authorize(&request("peer-b", "tcp:80")).is_allowed());
    let shut = PolicyAuthorizer::new(AuthPolicy::from_args(false, &Vec::new()), TrustStore::new());
    assert!(!shut.authorize(&request("peer-b", "tcp:80")).is_allowed());
}

#[test]
fn only_lasting_decisions_are_remembered() {
    assert_eq!(AuthDecision::Allow.trust_decision(), None);
    assert_eq!(AuthDecision::Deny.trust_decision(), None);
    assert_eq!(
        AuthDecision::AllowAlways.trust_decision(),
        Some(TrustDecision::Allow)
    );
    assert_eq!(
        AuthDecision::DenyAlways.trust_decision(),
        Some(TrustDecision::Deny)
    );
}

#[test]
fn audit_log_drops_the_oldest_events() {
    let mut log = AuthAuditLog::with_capacity(2);
    for n in 0..3u128 {
        log.record(
            &request("peer-a", "tcp:80"),
            AuthDecision::Allow,
            AuthEventSource::Policy,
            n,
        );
    }
    let events = log.list();
    assert_eq!(events.len(), 2);
    assert_eq!(events[0].sequence, 2);
    assert_eq!(events[1].sequence, 3);
    assert_eq!(events[1].timestamp_ms, 2);
}

#[test]
fn purge_denies_only_what_the_peer_asked_for() {
    let mut authorizer = PendingAuthorizer::with_audit_log(
        TrustStore::new(),
        PendingAuthorizations::new(),
        AuthAuditLog::default(),
    );
    let _ = authorizer.authorize(&request("peer-a", "tcp:80"), 1);
    let _ = authorizer.authorize(&request("peer-b", "tcp:80"), 2);
    let _ = authorizer.authorize(&request("peer-a", "udp:53"), 3);

    assert_eq!(authorizer.purge_peer("peer-a", 4), vec![1, 3]);

    let left = authorizer.pending.list();
    assert_eq!(left.len(), 1);
    assert_eq!(left[0].request.peer_id, "peer-b");
    let events = authorizer.audit_log.list();
    assert_eq!(events.len(), 2);
    assert!(events.iter().all(|e| e.decision == AuthDecision::Deny));
}

#[test]
fn remembering_again_replaces_the_decision() {
    let mut store = TrustStore::new();
    store.remember(&key("peer-a", "tcp:80"), TrustDecision::Allow);
    store.remember(&key("peer-a", "tcp:80"), TrustDecision::Deny);
    assert_eq!(store.list().len(), 1);
    assert_eq!(
        store.get(&key("peer-a", "tcp:80")),
        Some(TrustDecision::Deny)
    );
    assert!(!store.remove(&key("peer-a", "udp:53")));
}

#[test]
fn authorizer_without_a_log_starts_empty() {
    let authorizer = PendingAuthorizer::new(TrustStore::new(), PendingAuthorizations::new());
    assert!(authorizer.audit_log.list().is_empty());
    assert!(authorizer.pending.list().is_empty());
}
