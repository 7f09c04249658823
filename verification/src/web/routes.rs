//! The answers to the requests of the web front end.
use vstd::prelude::*;
use vstd::utf8::is_ascii_chars;

use crate::auth::AuthDecision;
use crate::controller::{proto_named, Proto};
use crate::forward_args::{node_scoped_target, scoped_target};
use crate::model::opt_view;
use crate::negotiation::{OutgoingForward, OutgoingForwardView};
use crate::number::{decimal, decimal_u64, i32_of};
use crate::session::{parse_addr_port, ErrorView, SessionError};
use crate::text;
use crate::text::{after_last, ascii_lowered, lower_case, texts, trimmed};
use crate::web::state::{decision_named, parse_auth_decision};

verus! {

/// The answer to a request.
#[derive(Debug, PartialEq, Eq)]
pub enum ApiResult {
    Success,
    NotFound(String),
    BadRequest(String),
}

/// The model of `ApiResult`.
pub enum ApiView {
    Success,
    NotFound(Seq<char>),
    BadRequest(Seq<char>),
}

impl View for ApiResult {
    type V = ApiView;

    open spec fn view(&self) -> ApiView {
        match self {
            ApiResult::Success => ApiView::Success,
            ApiResult::NotFound(m) => ApiView::NotFound(m@),
            ApiResult::BadRequest(m) => ApiView::BadRequest(m@),
        }
    }
}

impl ApiView {
    /// The HTTP status of the answer.
    pub open spec fn code(self) -> u16 {
        match self {
            ApiView::Success => 200,
            ApiView::NotFound(_) => 404,
            ApiView::BadRequest(_) => 400,
        }
    }

    /// The error that the answer carries.
    pub open spec fn complaint(self) -> Option<Seq<char>> {
        match self {
            ApiView::Success => None,
            ApiView::NotFound(m) => Some(m),
            ApiView::BadRequest(m) => Some(m),
        }
    }
}

/// The answer to a request on a waiting connection.
pub open spec fn auth_answer(id: u64, resolved: bool) -> ApiView {
    if resolved {
        ApiView::Success
    } else {
        ApiView::NotFound("pending auth "@ + decimal(id as int) + " not found"@)
    }
}

/// The answer to an operation of the session that failed, or did not.
pub open spec fn session_answer(error: Option<ErrorView>) -> ApiView {
    match error {
        None => ApiView::Success,
        Some(ErrorView::NotFound(m)) => ApiView::NotFound(m),
        Some(ErrorView::Invalid(m)) => ApiView::BadRequest(m),
    }
}

/// The answer to a proposal that could not be sent, or could.
pub open spec fn send_answer(error: Option<ErrorView>) -> ApiView {
    match error {
        None => ApiView::Success,
        Some(e) => ApiView::BadRequest(e.text()),
    }
}

/// The answer to the removal of a forward.
pub open spec fn remove_answer(error: Option<ErrorView>) -> ApiView {
    match error {
        None => ApiView::Success,
        Some(e) => ApiView::NotFound(e.text()),
    }
}

/// The answer to the removal of a remembered decision.
pub open spec fn trust_answer(removed: Result<bool, ErrorView>) -> ApiView {
    match removed {
        Ok(true) => ApiView::Success,
        Ok(false) => ApiView::NotFound("trust entry not found"@),
        Err(e) => ApiView::BadRequest(e.text()),
    }
}

/// The error of an operation that failed.
pub open spec fn failure<T>(result: Result<T, SessionError>) -> Option<ErrorView> {
    match result {
        Ok(_) => None,
        Err(e) => Some(e@),
    }
}

impl ApiResult {
    /// The HTTP status of the answer.
    pub fn status(&self) -> (r: u16)
        ensures
            r == self@.code(),
    {
        match self {
            ApiResult::Success => 200,
            ApiResult::NotFound(_) => 404,
            ApiResult::BadRequest(_) => 400,
        }
    }

    /// The error that the answer carries.
    pub fn error(&self) -> (r: Option<&str>)
        ensures
            opt_view(r) == self@.complaint(),
    {
        match self {
            ApiResult::Success => None,
            ApiResult::NotFound(m) => Some(m.as_str()),
            ApiResult::BadRequest(m) => Some(m.as_str()),
        }
    }
}

/// Reads the decision of a request on a waiting connection.
pub fn requested_decision(decision: &str) -> (r: Result<AuthDecision, ApiResult>)
    ensures
        match r {
            Ok(d) => decision_named(decision@) == Some(d),
            Err(e) => decision_named(decision@) is None && e@ == ApiView::BadRequest(
                "unknown decision: "@ + decision@,
            ),
        },
{
    match parse_auth_decision(decision) {
        Some(d) => Ok(d),
        None => Err(ApiResult::BadRequest(text::cat2("unknown decision: ", decision))),
    }
}

/// The answer to a request on a waiting connection.
pub fn pending_auth_result(id: u64, resolved: bool) -> (r: ApiResult)
    ensures
        r@ == auth_answer(id, resolved),
{
    if resolved {
        ApiResult::Success
    } else {
        let number = decimal_u64(id);
        ApiResult::NotFound(text::cat3("pending auth ", number.as_str(), " not found"))
    }
}

/// The answer to an operation of the session.
pub fn session_result(result: &Result<String, SessionError>) -> (r: ApiResult)
    ensures
        r@ == session_answer(failure(*result)),
{
    match result {
        Ok(_) => ApiResult::Success,
        Err(SessionError::NotFound(m)) => ApiResult::NotFound(text::copy(m.as_str())),
        Err(SessionError::Invalid(m)) => ApiResult::BadRequest(text::copy(m.as_str())),
    }
}

/// The answer to a proposal that was to be sent: any failure is a bad request.
pub fn send_result(result: &Result<String, SessionError>) -> (r: ApiResult)
    ensures
        r@ == send_answer(failure(*result)),
{
    match result {
        Ok(_) => ApiResult::Success,
        Err(e) => ApiResult::BadRequest(e.message()),
    }
}

/// The answer to the removal of a forward: it fails only where there is none.
pub fn remove_result(error: Option<&SessionError>) -> (r: ApiResult)
    ensures
        r@ == remove_answer(opt_view(error)),
{
    match error {
        None => ApiResult::Success,
        Some(e) => ApiResult::NotFound(e.message()),
    }
}

/// The answer to the removal of a remembered decision.
pub fn trust_result(result: &Result<bool, SessionError>) -> (r: ApiResult)
    ensures
        r@ == trust_answer(
            match result {
                Ok(removed) => Ok(*removed),
                Err(e) => Err(e@),
            },
        ),
{
    match result {
        Ok(true) => ApiResult::Success,
        Ok(false) => ApiResult::NotFound(text::copy("trust entry not found")),
        Err(e) => ApiResult::BadRequest(e.message()),
    }
}

/// A request for a forward.
pub struct AddForwardBody {
    pub proto: String,
    pub local: String,
    pub remote: String,
    pub peer_id: Option<String>,
}

/// The peer that a request names, where it names one.
pub open spec fn named_peer(peer_id: Option<Seq<char>>) -> Option<Seq<char>> {
    match peer_id {
        Some(p) => if trimmed(p).len() > 0 {
            Some(trimmed(p))
        } else {
            None
        },
        None => None,
    }
}

/// The peer to which a proposal goes: the one that is named, or else the only one
/// that is connected.
pub open spec fn chosen_peer(
    peer_id: Option<Seq<char>>,
    peers: Seq<Seq<char>>,
) -> Result<Seq<char>, Seq<char>> {
    match named_peer(peer_id) {
        Some(p) => Ok(p),
        None => if peers.len() == 0 {
            Err("no peers connected"@)
        } else if peers.len() == 1 {
            Ok(peers[0])
        } else {
            Err("multiple peers connected; peer_id is required"@)
        },
    }
}

/// The proposal that a request makes for a protocol in lower case, or what is
/// wrong with it.
pub open spec fn draft_of(
    proto: Seq<char>,
    local: Seq<char>,
    remote: Seq<char>,
    peer_id: Option<Seq<char>>,
    peers: Seq<Seq<char>>,
) -> Result<OutgoingForwardView, Seq<char>> {
    let port = i32_of(after_last(trimmed(local), ':'));
    if proto_named(proto) is None {
        Err("unsupported protocol: "@ + proto)
    } else if trimmed(local).len() == 0 || trimmed(remote).len() == 0 {
        Err("local and remote are required"@)
    } else if port is None {
        Err("local must be host:port"@)
    } else {
        match chosen_peer(peer_id, peers) {
            Err(e) => Err(e),
            Ok(peer) => Ok(
                OutgoingForwardView {
                    peer_id: peer,
                    proto,
                    listen_port: port->0,
                    local_addr: trimmed(local),
                    remote_addr: trimmed(remote),
                    target: scoped_target(proto + ":"@ + trimmed(remote), peer),
                },
            ),
        }
    }
}

fn choose_peer(peer_id: &Option<String>, peers: &Vec<String>) -> (r: Result<String, String>)
    ensures
        match r {
            Ok(p) => chosen_peer(opt_view(*peer_id), texts(peers@)) == Ok::<Seq<char>, Seq<char>>(
                p@,
            ),
            Err(e) => chosen_peer(opt_view(*peer_id), texts(peers@)) == Err::<
                Seq<char>,
                Seq<char>,
            >(e@),
        },
{
    if let Some(p) = peer_id {
        let p = text::trim(p.as_str());
        if p.unicode_len() > 0 {
            return Ok(text::copy(p));
        }
    }
    if peers.len() == 0 {
        Err(text::copy("no peers connected"))
    } else if peers.len() == 1 {
        assert(texts(peers@)[0] == peers@[0]@);
        Ok(text::copy(peers[0].as_str()))
    } else {
        Err(text::copy("multiple peers connected; peer_id is required"))
    }
}

/// Makes the proposal of a request whose protocol is already in lower case.
pub fn forward_draft(proto: &str, body: &AddForwardBody, peers: &Vec<String>) -> (r: Result<
    OutgoingForward,
    String,
>)
    ensures
        ({
            let expected = draft_of(
                proto@,
                body.local@,
                body.remote@,
                opt_view(body.peer_id),
                texts(peers@),
            );
            match r {
                Ok(draft) => expected == Ok::<OutgoingForwardView, Seq<char>>(draft@),
                Err(e) => expected == Err::<OutgoingForwardView, Seq<char>>(e@),
            }
        }),
{
    if Proto::from_name(proto).is_err() {
        return Err(text::cat2("unsupported protocol: ", proto));
    }
    let local = text::trim(body.local.as_str());
    let remote = text::trim(body.remote.as_str());
    if local.unicode_len() == 0 || remote.unicode_len() == 0 {
        return Err(text::copy("local and remote are required"));
    }
    let listen_port: i32 = match parse_addr_port(local) {
        Some(p) => p,
        None => {
            return Err(text::copy("local must be host:port"));
        },
    };
    let peer_id = match choose_peer(&body.peer_id, peers) {
        Ok(p) => p,
        Err(e) => {
            return Err(e);
        },
    };
    let plain = text::cat3(proto, ":", remote);
    let target = node_scoped_target(plain.as_str(), peer_id.as_str());
    Ok(
        OutgoingForward {
            peer_id,
            proto: text::copy(proto),
            listen_port,
            local_addr: text::copy(local),
            remote_addr: text::copy(remote),
            target,
        },
    )
}

/// Makes the proposal of a request. The protocol may be given in any case.
pub fn post_forwards(body: &AddForwardBody, peers: &Vec<String>) -> (r: Result<
    OutgoingForward,
    ApiResult,
>)
    ensures
        ({
            let expected = draft_of(
                lower_case(trimmed(body.proto@)),
                body.local@,
                body.remote@,
                opt_view(body.peer_id),
                texts(peers@),
            );
            match r {
                Ok(draft) => expected == Ok::<OutgoingForwardView, Seq<char>>(draft@),
                Err(e) => e@ matches ApiView::BadRequest(m) && expected == Err::<
                    OutgoingForwardView,
                    Seq<char>,
                >(m),
            }
        }),
{
    let proto = text::to_lowercase(text::trim(body.proto.as_str()));
    match forward_draft(proto.as_str(), body, peers) {
        Ok(draft) => Ok(draft),
        Err(e) => Err(ApiResult::BadRequest(e)),
    }
}

/// The room that a request names, where it names one.
pub fn requested_room(room_id: Option<&str>) -> (r: Option<String>)
    ensures
        opt_view(r) == named_peer(opt_view(room_id)),
{
    match room_id {
        Some(room) => {
            let room = text::trim(room);
            if room.unicode_len() > 0 {
                Some(text::copy(room))
            } else {
                None
            }
        },
        None => None,
    }
}

/// The protocol of a request is understood in any case: it makes the same
/// proposal as in lower case.
pub proof fn law_protocol_in_any_case(proto: Seq<char>)
    requires
        is_ascii_chars(proto),
    ensures
        lower_case(lower_case(proto)) == lower_case(proto),
        proto.len() == 3 && (proto[0] == 'T' || proto[0] == 't') && (proto[1] == 'C' || proto[1]
            == 'c') && (proto[2] == 'P' || proto[2] == 'p') ==> proto_named(lower_case(proto))
            == Some(Proto::Tcp),
        proto.len() == 3 && (proto[0] == 'U' || proto[0] == 'u') && (proto[1] == 'D' || proto[1]
            == 'd') && (proto[2] == 'P' || proto[2] == 'p') ==> proto_named(lower_case(proto))
            == Some(Proto::Udp),
{
    reveal_strlit("tcp");
    reveal_strlit("udp");
    let low = ascii_lowered(proto);
    assert(ascii_lowered(low) =~= low);
    assert("tcp"@ =~= seq!['t', 'c', 'p']);
    assert("udp"@ =~= seq!['u', 'd', 'p']);
    assert(proto.len() == 3 ==> low =~= seq![low[0], low[1], low[2]]);
}

/// Proposals to the same address on different nodes have different targets.
pub proof fn law_targets_name_their_node(
    proto: Seq<char>,
    local: Seq<char>,
    remote: Seq<char>,
    a: Option<Seq<char>>,
    b: Option<Seq<char>>,
    peers: Seq<Seq<char>>,
)
    requires
        draft_of(proto, local, remote, a, peers) is Ok,
        draft_of(proto, local, remote, b, peers) is Ok,
        draft_of(proto, local, remote, a, peers)->Ok_0.peer_id != draft_of(
            proto,
            local,
            remote,
            b,
            peers,
        )->Ok_0.peer_id,
    ensures
        draft_of(proto, local, remote, a, peers)->Ok_0.target != draft_of(
            proto,
            local,
            remote,
            b,
            peers,
        )->Ok_0.target,
{
    reveal_strlit("@");
    let x = draft_of(proto, local, remote, a, peers)->Ok_0;
    let y = draft_of(proto, local, remote, b, peers)->Ok_0;
    let plain = proto + ":"@ + trimmed(remote);
    if x.target == y.target {
        assert(x.target.skip(plain.len() as int + 1) =~= x.peer_id);
        assert(y.target.skip(plain.len() as int + 1) =~= y.peer_id);
    }
}

/// A proposal from the web front end names the node it goes to, a known protocol
/// and an address, so that it can be set up once it is accepted.
pub proof fn law_draft_can_be_set_up(
    proto: Seq<char>,
    local: Seq<char>,
    remote: Seq<char>,
    peer_id: Option<Seq<char>>,
    peers: Seq<Seq<char>>,
)
    requires
        draft_of(proto, local, remote, peer_id, peers) is Ok,
    ensures
        ({
            let draft = draft_of(proto, local, remote, peer_id, peers)->Ok_0;
            &&& proto_named(draft.proto) is Some
            &&& draft.target.len() > 0
            &&& draft.remote_addr.len() > 0
            &&& named_peer(peer_id) is None ==> peers.contains(draft.peer_id)
        }),
{
    reveal_strlit("@");
    if named_peer(peer_id) is None {
        assert(peers.contains(peers[0]));
    }
}

/// A request that was carried out is answered with the code 200 and no error, one for what is
/// not there with 404 and any other failure with 400, with the words of the failure.
pub proof fn law_answers_tell_what_happened(id: u64, m: Seq<char>)
    ensures
        ApiView::Success.code() == 200 && ApiView::Success.complaint() is None,
        ApiView::NotFound(m).code() == 404 && ApiView::NotFound(m).complaint() == Some(m),
        ApiView::BadRequest(m).code() == 400 && ApiView::BadRequest(m).complaint() == Some(m),
        auth_answer(id, true).code() == 200,
        auth_answer(id, false).code() == 404 && auth_answer(id, false).complaint() == Some(
            "pending auth "@ + decimal(id as int) + " not found"@,
        ),
        session_answer(None).code() == 200 && send_answer(None).code() == 200 && remove_answer(
            None,
        ).code() == 200,
        session_answer(Some(ErrorView::NotFound(m))).code() == 404,
        session_answer(Some(ErrorView::Invalid(m))).code() == 400,
        session_answer(Some(ErrorView::NotFound(m))).complaint() == Some(m) && session_answer(
            Some(ErrorView::Invalid(m)),
        ).complaint() == Some(m),
        forall|e: ErrorView| #[trigger]
            send_answer(Some(e)).code() == 400 && send_answer(Some(e)).complaint() == Some(
                e.text(),
            ),
        forall|e: ErrorView| #[trigger]
            remove_answer(Some(e)).code() == 404 && remove_answer(Some(e)).complaint() == Some(
                e.text(),
            ),
        trust_answer(Ok(true)).code() == 200,
        trust_answer(Ok(false)).code() == 404 && trust_answer(Ok(false)).complaint() == Some(
            "trust entry not found"@,
        ),
        forall|e: ErrorView| #[trigger]
            trust_answer(Err(e)).code() == 400 && trust_answer(Err(e)).complaint() == Some(
                e.text(),
            ),
{
}

/// A request for a forward proposes what it names: the protocol, both addresses without the
/// white space around them, the port of the local one to listen on, and as the target the
/// remote address on that node. It is refused exactly where the protocol is unknown, an
/// address or the port is missing, or the peer is not clear.
pub proof fn law_request_proposes_what_it_names(
    proto: Seq<char>,
    local: Seq<char>,
    remote: Seq<char>,
    peer_id: Option<Seq<char>>,
    peers: Seq<Seq<char>>,
)
    ensures
        draft_of(proto, local, remote, peer_id, peers) is Ok <==> proto_named(proto) is Some
            && trimmed(local).len() > 0 && trimmed(remote).len() > 0
            && crate::session::addr_port(trimmed(local)) is Some && (named_peer(peer_id) is Some
            || peers.len() == 1),
        draft_of(proto, local, remote, peer_id, peers) matches Ok(d) ==> {
            &&& d.proto == proto
            &&& d.local_addr == trimmed(local) && d.remote_addr == trimmed(remote)
            &&& Some(d.listen_port) == crate::session::addr_port(trimmed(local))
            &&& d.target == proto + ":"@ + trimmed(remote) + "@"@ + d.peer_id
            &&& named_peer(peer_id) matches Some(p) ==> d.peer_id == p
            &&& named_peer(peer_id) is None ==> d.peer_id == peers[0]
        },
        peer_id matches Some(p) ==> (named_peer(peer_id) is Some <==> trimmed(p).len() > 0) && (
        named_peer(peer_id) is Some ==> named_peer(peer_id) == Some(trimmed(p))),
        peer_id is None ==> named_peer(peer_id) is None,
        named_peer(peer_id) is None && peers.len() == 0 ==> chosen_peer(peer_id, peers) == Err::<
            Seq<char>,
            Seq<char>,
        >("no peers connected"@),
        named_peer(peer_id) is None && peers.len() > 1 ==> chosen_peer(peer_id, peers) == Err::<
            Seq<char>,
            Seq<char>,
        >("multiple peers connected; peer_id is required"@),
{
}

} // verus!
