//! Who may connect to which forward.
use vstd::prelude::*;

use crate::text;
use crate::text::texts;
use crate::text_set::TextSet;

pub mod audit;
pub mod pending;
pub mod trust;

use crate::auth::trust::{TrustDecision, TrustKey, TrustKeyView, TrustStore};

verus! {

/// A peer that asks to connect to a forward.
#[derive(Debug, PartialEq, Eq)]
pub struct AuthRequest {
    pub peer_id: String,
    pub forward_key: String,
    pub target_addr: String,
    pub proto: String,
}

/// The model of `AuthRequest`.
pub struct AuthRequestView {
    pub peer_id: Seq<char>,
    pub forward_key: Seq<char>,
    pub target_addr: Seq<char>,
    pub proto: Seq<char>,
}

impl View for AuthRequest {
    type V = AuthRequestView;

    open spec fn view(&self) -> AuthRequestView {
        AuthRequestView {
            peer_id: self.peer_id@,
            forward_key: self.forward_key@,
            target_addr: self.target_addr@,
            proto: self.proto@,
        }
    }
}

impl Clone for AuthRequest {
    fn clone(&self) -> (r: Self)
        ensures
            r@ == self@,
    {
        AuthRequest {
            peer_id: text::copy(self.peer_id.as_str()),
            forward_key: text::copy(self.forward_key.as_str()),
            target_addr: text::copy(self.target_addr.as_str()),
            proto: text::copy(self.proto.as_str()),
        }
    }
}

/// The answer to a request: for this once, or from now on.
#[derive(Debug, Clone, Copy, PartialEq, Eq, Structural)]
pub enum AuthDecision {
    Allow,
    Deny,
    AllowAlways,
    DenyAlways,
}

impl AuthDecision {
    /// Whether a decision lets the peer in.
    pub open spec fn allowed(self) -> bool {
        self is Allow || self is AllowAlways
    }

    /// What a decision leaves to be remembered.
    pub open spec fn trust(self) -> Option<TrustDecision> {
        match self {
            AuthDecision::AllowAlways => Some(TrustDecision::Allow),
            AuthDecision::DenyAlways => Some(TrustDecision::Deny),
            AuthDecision::Allow | AuthDecision::Deny => None,
        }
    }

    /// Whether the peer is let in.
    pub fn is_allowed(self) -> (r: bool)
        ensures
            r == self.allowed(),
    {
        matches!(self, AuthDecision::Allow | AuthDecision::AllowAlways)
    }

    /// What is to be remembered; nothing for a decision for this once.
    pub fn trust_decision(self) -> (r: Option<TrustDecision>)
        ensures
            r == self.trust(),
    {
        match self {
            AuthDecision::AllowAlways => Some(TrustDecision::Allow),
            AuthDecision::DenyAlways => Some(TrustDecision::Deny),
            AuthDecision::Allow | AuthDecision::Deny => None,
        }
    }
}

/// What a remembered decision answers.
pub open spec fn remembered_answer(decision: TrustDecision) -> AuthDecision {
    match decision {
        TrustDecision::Allow => AuthDecision::Allow,
        TrustDecision::Deny => AuthDecision::Deny,
    }
}

/// Answers with a remembered decision.
pub fn answer_remembered(decision: TrustDecision) -> (r: AuthDecision)
    ensures
        r == remembered_answer(decision),
{
    match decision {
        TrustDecision::Allow => AuthDecision::Allow,
        TrustDecision::Deny => AuthDecision::Deny,
    }
}

/// A decision that was remembered lets in whom it let in when it was made.
pub proof fn law_remembered_answer_agrees(decision: AuthDecision)
    ensures
        decision.trust() matches Some(t) ==> remembered_answer(t).allowed() == decision.allowed(),
        decision.trust() is Some <==> decision is AllowAlways || decision is DenyAlways,
{
}

/// Decides at once whether a peer may connect.
pub trait ConnectionAuthorizer {
    /// The decision on a request.
    spec fn decision(&self, req: AuthRequestView) -> AuthDecision;

    /// Decides on a request.
    fn authorize(&self, req: &AuthRequest) -> (r: AuthDecision)
        ensures
            r == self.decision(req@),
    ;
}

/// Lets every peer connect.
pub struct AllowAllAuthorizer {}

/// An authorizer that lets every peer connect.
pub fn allow_all() -> (r: AllowAllAuthorizer)
    ensures
        forall|req: AuthRequestView| #[trigger] r.decision(req) == AuthDecision::Allow,
{
    AllowAllAuthorizer {  }
}

impl ConnectionAuthorizer for AllowAllAuthorizer {
    open spec fn decision(&self, req: AuthRequestView) -> AuthDecision {
        AuthDecision::Allow
    }

    fn authorize(&self, _req: &AuthRequest) -> (r: AuthDecision) {
        AuthDecision::Allow
    }
}

/// Whom to let in where nothing is remembered.
pub enum AuthPolicy {
    AutoAccept,
    AllowPeers(TextSet),
    DenyUnknown,
}

/// The model of `AuthPolicy`.
pub enum AuthPolicyView {
    AutoAccept,
    AllowPeers(Set<Seq<char>>),
    DenyUnknown,
}

impl View for AuthPolicy {
    type V = AuthPolicyView;

    open spec fn view(&self) -> AuthPolicyView {
        match self {
            AuthPolicy::AutoAccept => AuthPolicyView::AutoAccept,
            AuthPolicy::AllowPeers(peers) => AuthPolicyView::AllowPeers(peers@),
            AuthPolicy::DenyUnknown => AuthPolicyView::DenyUnknown,
        }
    }
}

impl AuthPolicy {
    /// Lets in the peers of a list.
    pub fn allow_peers(peers: &Vec<String>) -> (r: Self)
        ensures
            r@ == AuthPolicyView::AllowPeers(texts(peers@).to_set()),
    {
        AuthPolicy::AllowPeers(TextSet::from_texts(peers))
    }

    /// The policy that the command line asks for: the listed peers where there
    /// are any, else everyone where all are to be accepted, else no one.
    pub fn from_args(auto_accept: bool, allow_peer: &Vec<String>) -> (r: Self)
        ensures
            r@ == policy_for(auto_accept, texts(allow_peer@)),
    {
        if allow_peer.len() > 0 {
            AuthPolicy::allow_peers(allow_peer)
        } else if auto_accept {
            AuthPolicy::AutoAccept
        } else {
            AuthPolicy::DenyUnknown
        }
    }
}

/// The policy that the command line asks for.
pub open spec fn policy_for(auto_accept: bool, allow_peer: Seq<Seq<char>>) -> AuthPolicyView {
    if allow_peer.len() > 0 {
        AuthPolicyView::AllowPeers(allow_peer.to_set())
    } else if auto_accept {
        AuthPolicyView::AutoAccept
    } else {
        AuthPolicyView::DenyUnknown
    }
}

/// What a policy says of a peer.
pub open spec fn policy_decision(policy: AuthPolicyView, peer_id: Seq<char>) -> AuthDecision {
    match policy {
        AuthPolicyView::AutoAccept => AuthDecision::Allow,
        AuthPolicyView::AllowPeers(peers) => if peers.contains(peer_id) {
            AuthDecision::Allow
        } else {
            AuthDecision::Deny
        },
        AuthPolicyView::DenyUnknown => AuthDecision::Deny,
    }
}

/// The decision on a request: what is remembered of the peer and the forward,
/// else what the policy says.
pub open spec fn policy_answer(
    policy: AuthPolicyView,
    store: Map<TrustKeyView, TrustDecision>,
    req: AuthRequestView,
) -> AuthDecision {
    let key = TrustKeyView { peer_id: req.peer_id, forward_key: req.forward_key };
    if store.contains_key(key) {
        remembered_answer(store[key])
    } else {
        policy_decision(policy, req.peer_id)
    }
}

/// Decides by what is remembered and, failing that, by a policy.
pub struct PolicyAuthorizer {
    policy: AuthPolicy,
    store: TrustStore,
}

impl PolicyAuthorizer {
    /// The policy that is followed.
    pub closed spec fn policy(&self) -> AuthPolicyView {
        self.policy@
    }

    /// What is remembered.
    pub closed spec fn store(&self) -> Map<TrustKeyView, TrustDecision> {
        self.store@
    }

    /// An authorizer with a policy and what is remembered.
    pub fn new(policy: AuthPolicy, store: TrustStore) -> (r: Self)
        ensures
            r.policy() == policy@,
            r.store() == store@,
    {
        PolicyAuthorizer { policy, store }
    }
}

impl ConnectionAuthorizer for PolicyAuthorizer {
    open spec fn decision(&self, req: AuthRequestView) -> AuthDecision {
        policy_answer(self.policy(), self.store(), req)
    }

    fn authorize(&self, req: &AuthRequest) -> (r: AuthDecision) {
        let key = TrustKey {
            peer_id: text::copy(req.peer_id.as_str()),
            forward_key: text::copy(req.forward_key.as_str()),
        };
        if let Some(decision) = self.store.get(&key) {
            return answer_remembered(decision);
        }
        match &self.policy {
            AuthPolicy::AutoAccept => AuthDecision::Allow,
            AuthPolicy::AllowPeers(peers) => if peers.contains(req.peer_id.as_str()) {
                AuthDecision::Allow
            } else {
                AuthDecision::Deny
            },
            AuthPolicy::DenyUnknown => AuthDecision::Deny,
        }
    }
}

/// What is remembered of a peer and a forward decides under any policy.
pub proof fn law_trust_store_takes_precedence(
    policy: AuthPolicyView,
    store: Map<TrustKeyView, TrustDecision>,
    req: AuthRequestView,
    decision: TrustDecision,
)
    ensures
        ({
            let key = TrustKeyView { peer_id: req.peer_id, forward_key: req.forward_key };
            policy_answer(policy, store.insert(key, decision), req) == remembered_answer(decision)
        }),
{
}

/// A policy alone never leaves anything to be remembered.
pub proof fn law_policy_remembers_nothing(policy: AuthPolicyView, peer_id: Seq<char>)
    ensures
        policy_decision(policy, peer_id).trust() is None,
{
}

/// Which decisions let a peer in, and what they leave to be remembered.
pub proof fn law_what_decisions_mean(decision: AuthDecision)
    ensures
        AuthDecision::Allow.allowed() && AuthDecision::AllowAlways.allowed(),
        !AuthDecision::Deny.allowed() && !AuthDecision::DenyAlways.allowed(),
        AuthDecision::Allow.trust() is None && AuthDecision::Deny.trust() is None,
        AuthDecision::AllowAlways.trust() == Some(TrustDecision::Allow),
        AuthDecision::DenyAlways.trust() == Some(TrustDecision::Deny),
        remembered_answer(TrustDecision::Allow).allowed(),
        !remembered_answer(TrustDecision::Deny).allowed(),
        remembered_answer(TrustDecision::Allow).trust() is None,
        remembered_answer(TrustDecision::Deny).trust() is None,
{
}

/// The command line lets in exactly the listed peers where it lists any, else everyone
/// where all are to be accepted, else no one.
pub proof fn law_command_line_policy(
    auto_accept: bool,
    allow_peer: Seq<Seq<char>>,
    peer_id: Seq<char>,
)
    ensures
        policy_decision(policy_for(auto_accept, allow_peer), peer_id).allowed() <==> if allow_peer.len()
            > 0 {
            allow_peer.contains(peer_id)
        } else {
            auto_accept
        },
{
}

/// A policy lets in whom it names: everyone, the peers of its list, or no one. It asks
/// for the peer alone; what is remembered of other peers or forwards does not count.
pub proof fn law_policy_decides_the_rest(
    policy: AuthPolicyView,
    store: Map<TrustKeyView, TrustDecision>,
    req: AuthRequestView,
    all: AllowAllAuthorizer,
)
    ensures
        policy_decision(policy, req.peer_id).allowed() <==> match policy {
            AuthPolicyView::AutoAccept => true,
            AuthPolicyView::AllowPeers(peers) => peers.contains(req.peer_id),
            AuthPolicyView::DenyUnknown => false,
        },
        ({
            let key = TrustKeyView { peer_id: req.peer_id, forward_key: req.forward_key };
            &&& !store.contains_key(key) ==> policy_answer(policy, store, req).allowed()
                == policy_decision(policy, req.peer_id).allowed()
            &&& store.contains_key(key) ==> (policy_answer(policy, store, req).allowed()
                <==> store[key] is Allow)
        }),
        all.decision(req).allowed(),
{
}

} // verus!
