//! How things are written on the screen.
use vstd::prelude::*;

use crate::auth::audit::{AuthEvent, AuthEventSource, AuthEventView};
use crate::auth::trust::TrustDecision;
use crate::auth::AuthDecision;
use crate::control_shell::{
    connect_forward, connect_spec_of, proto_in, serve_forward, serve_spec_of,
};
use crate::controller::{Direction, ForwardSpec, ForwardSpecView, Proto};
use crate::number::{decimal, decimal_i64, decimal_u64};
use crate::text;
use crate::text::{padded, split_words, texts, words};

verus! {

/// The forward that a line of the form `<serve|connect> <forward>` stands for.
pub open spec fn forward_of_line(line: Seq<char>) -> Result<ForwardSpecView, Seq<char>> {
    let parts = words(line);
    if parts.len() != 2 {
        Err("`<serve|connect> <forward>` の形式で入力"@)
    } else if parts[0] == "serve"@ || parts[0] == "s"@ {
        Ok(serve_forward(parts[1], proto_in(parts[1])))
    } else if parts[0] == "connect"@ || parts[0] == "c"@ {
        Ok(connect_forward(parts[1], proto_in(parts[1])))
    } else {
        Err("方向は serve / connect"@)
    }
}

/// Reads a line of the form `<serve|connect> <forward>`.
pub fn parse_add_line(line: &str) -> (r: Result<ForwardSpec, String>)
    ensures
        match r {
            Ok(spec) => forward_of_line(line@) == Ok::<ForwardSpecView, Seq<char>>(spec@),
            Err(e) => forward_of_line(line@) == Err::<ForwardSpecView, Seq<char>>(e@),
        },
{
    let parts = split_words(line);
    if parts.len() != 2 {
        assert(texts(parts@).len() != 2);
        return Err(text::copy("`<serve|connect> <forward>` の形式で入力"));
    }
    assert(texts(parts@)[0] == parts@[0]@);
    assert(texts(parts@)[1] == parts@[1]@);
    let direction = parts[0].as_str();
    if text::same(direction, "serve") || text::same(direction, "s") {
        Ok(serve_spec_of(parts[1].as_str()))
    } else if text::same(direction, "connect") || text::same(direction, "c") {
        Ok(connect_spec_of(parts[1].as_str()))
    } else {
        Err(text::copy("方向は serve / connect"))
    }
}

/// The sign for a direction.
pub open spec fn arrow(d: Direction) -> Seq<char> {
    match d {
        Direction::Serve => "→"@,
        Direction::Connect => "←"@,
    }
}

/// The sign for a direction.
pub fn dir_arrow(d: Direction) -> (r: &'static str)
    ensures
        r@ == arrow(d),
{
    match d {
        Direction::Serve => "→",
        Direction::Connect => "←",
    }
}

/// The role that this node has in a forward.
pub open spec fn role_word(d: Direction) -> Seq<char> {
    match d {
        Direction::Serve => "serve"@,
        Direction::Connect => "conn"@,
    }
}

/// The role that this node has in a forward.
pub fn role_label(d: Direction) -> (r: &'static str)
    ensures
        r@ == role_word(d),
{
    match d {
        Direction::Serve => "serve",
        Direction::Connect => "conn",
    }
}

/// The name of a protocol in capitals.
pub open spec fn proto_word(p: Proto) -> Seq<char> {
    match p {
        Proto::Tcp => "TCP"@,
        Proto::Udp => "UDP"@,
    }
}

/// The name of a protocol in capitals.
pub fn proto_name(p: Proto) -> (r: &'static str)
    ensures
        r@ == proto_word(p),
{
    match p {
        Proto::Tcp => "TCP",
        Proto::Udp => "UDP",
    }
}

/// The ends of a forward: the address that it serves, or the port that leads to
/// the target.
pub open spec fn ends_of(spec: ForwardSpecView) -> Seq<char> {
    match spec.direction {
        Direction::Serve => spec.addr,
        Direction::Connect => ":"@ + decimal(spec.listen_port as int) + "→"@ + spec.target,
    }
}

/// The ends of a forward.
pub fn endpoint(spec: &ForwardSpec) -> (r: String)
    ensures
        r@ == ends_of(spec@),
{
    match spec.direction {
        Direction::Serve => text::copy(spec.addr.as_str()),
        Direction::Connect => {
            let port = decimal_i64(spec.listen_port as i64);
            text::cat4(":", port.as_str(), "→", spec.target.as_str())
        },
    }
}

/// The word for a remembered decision, both of one width.
pub open spec fn trust_label(d: TrustDecision) -> Seq<char> {
    match d {
        TrustDecision::Allow => "allow"@,
        TrustDecision::Deny => "deny "@,
    }
}

/// The word for a remembered decision.
pub fn trust_name(d: TrustDecision) -> (r: &'static str)
    ensures
        r@ == trust_label(d),
{
    match d {
        TrustDecision::Allow => "allow",
        TrustDecision::Deny => "deny ",
    }
}

/// The word for a decision; a star marks one that is remembered.
pub open spec fn decision_label(d: AuthDecision) -> Seq<char> {
    match d {
        AuthDecision::Allow => "allow"@,
        AuthDecision::AllowAlways => "allow*"@,
        AuthDecision::Deny => "deny"@,
        AuthDecision::DenyAlways => "deny*"@,
    }
}

/// The word for what made a decision.
pub open spec fn source_label(s: AuthEventSource) -> Seq<char> {
    match s {
        AuthEventSource::Policy => "policy"@,
        AuthEventSource::TrustStore => "trust"@,
        AuthEventSource::Pending => "prompt"@,
    }
}

/// The beginning of an id that is shown for it.
pub open spec fn short(id: Seq<char>) -> Seq<char> {
    if id.len() > 8 {
        id.take(8)
    } else {
        id
    }
}

/// The beginning of an id that is shown for it.
pub fn short_id(id: &str) -> (r: String)
    ensures
        r@ == short(id@),
{
    let n = id.unicode_len();
    if n > 8 {
        assert(id@.subrange(0, 8) =~= id@.take(8));
        text::copy(id.substring_char(0, 8))
    } else {
        text::copy(id)
    }
}

/// The line for an event.
pub open spec fn event_text(e: AuthEventView) -> Seq<char> {
    "#"@ + decimal(e.sequence as int) + " "@ + padded(decision_label(e.decision), 6) + " "@
        + padded(source_label(e.source), 6) + " "@ + short(e.request.peer_id) + " → "@
        + e.request.forward_key + " ("@ + e.request.target_addr + ")"@
}

/// The line for an event.
pub fn format_event(e: &AuthEvent) -> (r: String)
    ensures
        r@ == event_text(e@),
{
    let decision = match e.decision {
        AuthDecision::Allow => "allow",
        AuthDecision::AllowAlways => "allow*",
        AuthDecision::Deny => "deny",
        AuthDecision::DenyAlways => "deny*",
    };
    let source = match e.source {
        AuthEventSource::Policy => "policy",
        AuthEventSource::TrustStore => "trust",
        AuthEventSource::Pending => "prompt",
    };
    let mut out = text::copy("#");
    out.append(decimal_u64(e.sequence).as_str());
    out.append(" ");
    out.append(text::pad(decision, 6).as_str());
    out.append(" ");
    out.append(text::pad(source, 6).as_str());
    out.append(" ");
    out.append(short_id(e.peer_id.as_str()).as_str());
    out.append(" → ");
    out.append(e.forward_key.as_str());
    out.append(" (");
    out.append(e.target_addr.as_str());
    out.append(")");
    out
}

/// The line `serve <forward>` or `s <forward>`, with white space around and between the
/// words, asks for a forward that serves, `connect` and `c` for one that connects; other
/// first words, and more or fewer of them, are refused.
pub proof fn law_two_words_ask_for_a_forward(line: Seq<char>)
    ensures
        ({
            let parts = words(line);
            let r = forward_of_line(line);
            &&& r is Ok ==> parts.len() == 2
            &&& parts.len() == 2 && (parts[0] == "serve"@ || parts[0] == "s"@) ==> (r matches Ok(
                spec,
            ) && spec.direction is Serve && spec == serve_forward(parts[1], proto_in(parts[1])))
            &&& parts.len() == 2 && (parts[0] == "connect"@ || parts[0] == "c"@) ==> (r matches Ok(
                spec,
            ) && spec.direction is Connect && spec == connect_forward(
                parts[1],
                proto_in(parts[1]),
            ))
            &&& r is Ok ==> parts[0] == "serve"@ || parts[0] == "s"@ || parts[0] == "connect"@
                || parts[0] == "c"@
        }),
{
    reveal_strlit("serve");
    reveal_strlit("s");
    reveal_strlit("connect");
    reveal_strlit("c");
    assert("serve"@.len() == 5 && "s"@.len() == 1 && "connect"@.len() == 7 && "c"@.len() == 1);
    assert("serve"@[0] == 's' && "s"@[0] == 's' && "connect"@[0] == 'c' && "c"@[0] == 'c');
}

/// What the words and signs of the screen stand for. Both words for a remembered decision
/// take the same room.
pub proof fn law_words_of_the_screen(spec: ForwardSpecView)
    ensures
        arrow(Direction::Serve) == "→"@ && arrow(Direction::Connect) == "←"@,
        role_word(Direction::Serve) == "serve"@ && role_word(Direction::Connect) == "conn"@,
        proto_word(Proto::Tcp) == "TCP"@ && proto_word(Proto::Udp) == "UDP"@,
        trust_label(TrustDecision::Allow) == "allow"@,
        trust_label(TrustDecision::Deny) == "deny "@,
        trust_label(TrustDecision::Allow).len() == trust_label(TrustDecision::Deny).len(),
        decision_label(AuthDecision::Allow) == "allow"@,
        decision_label(AuthDecision::Deny) == "deny"@,
        decision_label(AuthDecision::AllowAlways) == decision_label(AuthDecision::Allow) + "*"@,
        decision_label(AuthDecision::DenyAlways) == decision_label(AuthDecision::Deny) + "*"@,
        source_label(AuthEventSource::Policy) == "policy"@,
        source_label(AuthEventSource::TrustStore) == "trust"@,
        source_label(AuthEventSource::Pending) == "prompt"@,
        spec.direction is Serve ==> ends_of(spec) == spec.addr,
        spec.direction is Connect ==> ends_of(spec) == ":"@ + decimal(spec.listen_port as int)
            + "→"@ + spec.target,
{
    reveal_strlit("allow");
    reveal_strlit("deny ");
    reveal_strlit("deny");
    reveal_strlit("*");
    reveal_strlit("allow*");
    reveal_strlit("deny*");
    assert("allow*"@ =~= "allow"@ + "*"@);
    assert("deny*"@ =~= "deny"@ + "*"@);
}

/// A long id is shown by its first eight characters, a short one whole.
pub proof fn law_ids_are_cut_short(id: Seq<char>, i: int)
    ensures
        short(id).len() <= 8,
        id.len() <= 8 ==> short(id) == id,
        id.len() > 8 ==> short(id).len() == 8,
        0 <= i < short(id).len() ==> short(id)[i] == id[i],
        short(short(id)) == short(id),
{
}

/// The line of an event shows its number, the decision and what made it, each filled up to
/// six characters, the peer, the forward and the address.
pub proof fn law_event_line_shows_the_event(e: AuthEventView)
    ensures
        event_text(e) == "#"@ + decimal(e.sequence as int) + " "@ + padded(
            decision_label(e.decision),
            6,
        ) + " "@ + padded(source_label(e.source), 6) + " "@ + short(e.request.peer_id) + " → "@
            + e.request.forward_key + " ("@ + e.request.target_addr + ")"@,
{
}

} // verus!
