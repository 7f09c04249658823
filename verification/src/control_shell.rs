//! A command line by which a session is controlled.
use vstd::prelude::*;

use crate::auth::audit::{AuthAuditLog, AuthEvent, AuthEventView};
use crate::auth::trust::{TrustDecision, TrustEntryView, TrustKey, TrustKeyView, TrustStore};
use crate::controller::{
    fresh_handle, statuses, Direction, ForwardController, ForwardSpec, ForwardSpecView,
    ForwardState, ForwardStateView, ForwardStatus, ForwardStatusView, HandleView, Proto,
    RemovedForward,
};
use crate::forward_args::{
    address_of, forward_key, key_of, last_port, listen_port_of, parse_connect_forward,
    parse_forward, proto_of, remote_port_of,
};
use crate::forward_store::direction_name;
use crate::model::views;
use crate::number::{decimal, decimal_i64, decimal_u64};
use crate::session::add_error;
use crate::text;
use crate::text::{concatenated, lemma_concatenated_push, split_words, texts, words};
use crate::web::state::{decision_word, source_word, trust_word};

verus! {

/// What is to be done with what is remembered of a peer and a forward.
#[derive(Debug, PartialEq, Eq)]
pub enum TrustCommand {
    List,
    Remember { key: TrustKey, decision: TrustDecision },
    Forget { key: TrustKey },
}

/// The model of `TrustCommand`.
pub enum TrustCommandView {
    List,
    Remember { key: TrustKeyView, decision: TrustDecision },
    Forget { key: TrustKeyView },
}

impl View for TrustCommand {
    type V = TrustCommandView;

    open spec fn view(&self) -> TrustCommandView {
        match self {
            TrustCommand::List => TrustCommandView::List,
            TrustCommand::Remember { key, decision } => TrustCommandView::Remember {
                key: key@,
                decision: *decision,
            },
            TrustCommand::Forget { key } => TrustCommandView::Forget { key: key@ },
        }
    }
}

/// A command.
#[derive(Debug, PartialEq, Eq)]
pub enum ShellCommand {
    Add(ForwardSpec),
    Remove(String),
    List,
    Events,
    Trust(TrustCommand),
    Help,
    Quit,
}

/// The model of `ShellCommand`.
pub enum CommandView {
    Add(ForwardSpecView),
    Remove(Seq<char>),
    List,
    Events,
    Trust(TrustCommandView),
    Help,
    Quit,
}

impl View for ShellCommand {
    type V = CommandView;

    open spec fn view(&self) -> CommandView {
        match self {
            ShellCommand::Add(spec) => CommandView::Add(spec@),
            ShellCommand::Remove(key) => CommandView::Remove(key@),
            ShellCommand::List => CommandView::List,
            ShellCommand::Events => CommandView::Events,
            ShellCommand::Trust(command) => CommandView::Trust(command@),
            ShellCommand::Help => CommandView::Help,
            ShellCommand::Quit => CommandView::Quit,
        }
    }
}

/// The serving forward that an address stands for.
pub open spec fn serve_forward(forward: Seq<char>, proto: Proto) -> ForwardSpecView {
    ForwardSpecView {
        direction: Direction::Serve,
        proto,
        addr: address_of(forward),
        listen_port: -1i32,
        target: key_of(proto_of(forward), last_port(address_of(forward)) as int),
    }
}

/// The connecting forward that ports stand for.
pub open spec fn connect_forward(forward: Seq<char>, proto: Proto) -> ForwardSpecView {
    ForwardSpecView {
        direction: Direction::Connect,
        proto,
        addr: Seq::empty(),
        listen_port: listen_port_of(forward),
        target: key_of(proto_of(forward), remote_port_of(forward) as int),
    }
}

/// The protocol of a forward.
pub open spec fn proto_in(forward: Seq<char>) -> Proto {
    if proto_of(forward) == "udp"@ {
        Proto::Udp
    } else {
        Proto::Tcp
    }
}

proof fn lemma_proto_is_known(forward: Seq<char>)
    ensures
        crate::controller::proto_named(proto_of(forward)) == Some(proto_in(forward)),
{
    crate::controller::law_proto_name_round_trip(Proto::Tcp);
    crate::controller::law_proto_name_round_trip(Proto::Udp);
    reveal_strlit("tcp");
    reveal_strlit("udp");
    assert("tcp"@[0] != "udp"@[0]);
}

/// Makes the serving forward that an address stands for.
pub fn serve_spec_of(forward: &str) -> (r: ForwardSpec)
    ensures
        r@ == serve_forward(forward@, proto_in(forward@)),
{
    let (proto, addr, _) = parse_forward(forward);
    let target = forward_key(proto, addr);
    proof {
        lemma_proto_is_known(forward@);
    }
    let proto = match Proto::from_name(proto) {
        Ok(p) => p,
        Err(_) => Proto::Tcp,
    };
    ForwardSpec {
        direction: Direction::Serve,
        proto,
        addr: text::copy(addr),
        listen_port: -1,
        target,
    }
}

/// Makes the connecting forward that ports stand for.
pub fn connect_spec_of(forward: &str) -> (r: ForwardSpec)
    ensures
        r@ == connect_forward(forward@, proto_in(forward@)),
{
    let (proto, listen_port, target) = parse_connect_forward(forward);
    proof {
        lemma_proto_is_known(forward@);
    }
    let proto = match Proto::from_name(proto) {
        Ok(p) => p,
        Err(_) => Proto::Tcp,
    };
    let r = ForwardSpec {
        direction: Direction::Connect,
        proto,
        addr: String::new(),
        listen_port,
        target,
    };
    assert(r@.addr =~= Seq::empty());
    r
}

/// The words for a line that is no command.
pub open spec fn unknown_command() -> Seq<char> {
    "unknown command; type `help` for usage"@
}

/// The command of an `add` line.
pub open spec fn add_command(direction: Seq<char>, forward: Seq<char>) -> Result<
    CommandView,
    Seq<char>,
> {
    if direction == "serve"@ {
        Ok(CommandView::Add(serve_forward(forward, proto_in(forward))))
    } else if direction == "connect"@ {
        Ok(CommandView::Add(connect_forward(forward, proto_in(forward))))
    } else {
        Err("direction must be `serve` or `connect`"@)
    }
}

/// The command of a `trust` line.
pub open spec fn trust_command(parts: Seq<Seq<char>>) -> Result<CommandView, Seq<char>> {
    if parts.len() == 2 && parts[1] == "list"@ {
        Ok(CommandView::Trust(TrustCommandView::List))
    } else if parts.len() == 4 {
        let key = TrustKeyView { peer_id: parts[2], forward_key: parts[3] };
        if parts[1] == "allow"@ {
            Ok(
                CommandView::Trust(
                    TrustCommandView::Remember { key, decision: TrustDecision::Allow },
                ),
            )
        } else if parts[1] == "deny"@ {
            Ok(
                CommandView::Trust(
                    TrustCommandView::Remember { key, decision: TrustDecision::Deny },
                ),
            )
        } else if parts[1] == "remove"@ {
            Ok(CommandView::Trust(TrustCommandView::Forget { key }))
        } else {
            Err(unknown_command())
        }
    } else {
        Err(unknown_command())
    }
}

/// The command of the words of a line.
pub open spec fn command_of(parts: Seq<Seq<char>>) -> Result<CommandView, Seq<char>> {
    let name = parts[0];
    let n = parts.len();
    if name == "add"@ && n == 3 {
        add_command(parts[1], parts[2])
    } else if (name == "remove"@ || name == "rm"@) && n == 2 {
        Ok(CommandView::Remove(parts[1]))
    } else if (name == "list"@ || name == "ls"@) && n == 1 {
        Ok(CommandView::List)
    } else if (name == "events"@ || name == "ev"@) && n == 1 {
        Ok(CommandView::Events)
    } else if name == "trust"@ || name == "t"@ {
        trust_command(parts)
    } else if (name == "help"@ || name == "h"@) && n == 1 {
        Ok(CommandView::Help)
    } else if (name == "quit"@ || name == "q"@ || name == "exit"@) && n == 1 {
        Ok(CommandView::Quit)
    } else {
        Err(unknown_command())
    }
}

fn no_command<T>() -> (r: Result<T, String>)
    ensures
        r matches Err(e) && e@ == unknown_command(),
{
    Err(text::copy("unknown command; type `help` for usage"))
}

fn parse_add(direction: &str, forward: &str) -> (r: Result<ShellCommand, String>)
    ensures
        match r {
            Ok(command) => add_command(direction@, forward@) == Ok::<CommandView, Seq<char>>(
                command@,
            ),
            Err(e) => add_command(direction@, forward@) == Err::<CommandView, Seq<char>>(e@),
        },
{
    if text::same(direction, "serve") {
        Ok(ShellCommand::Add(serve_spec_of(forward)))
    } else if text::same(direction, "connect") {
        Ok(ShellCommand::Add(connect_spec_of(forward)))
    } else {
        Err(text::copy("direction must be `serve` or `connect`"))
    }
}

fn parse_trust(parts: &Vec<String>) -> (r: Result<ShellCommand, String>)
    ensures
        match r {
            Ok(command) => trust_command(texts(parts@)) == Ok::<CommandView, Seq<char>>(command@),
            Err(e) => trust_command(texts(parts@)) == Err::<CommandView, Seq<char>>(e@),
        },
{
    if parts.len() == 2 {
        assert(texts(parts@)[1] == parts@[1]@);
        if text::same(parts[1].as_str(), "list") {
            return Ok(ShellCommand::Trust(TrustCommand::List));
        }
        return no_command();
    }
    if parts.len() != 4 {
        return no_command();
    }
    assert(texts(parts@)[1] == parts@[1]@);
    assert(texts(parts@)[2] == parts@[2]@);
    assert(texts(parts@)[3] == parts@[3]@);
    let key = TrustKey {
        peer_id: text::copy(parts[2].as_str()),
        forward_key: text::copy(parts[3].as_str()),
    };
    let name = parts[1].as_str();
    if text::same(name, "allow") {
        Ok(
            ShellCommand::Trust(
                TrustCommand::Remember { key, decision: TrustDecision::Allow },
            ),
        )
    } else if text::same(name, "deny") {
        Ok(
            ShellCommand::Trust(TrustCommand::Remember { key, decision: TrustDecision::Deny }),
        )
    } else if text::same(name, "remove") {
        Ok(ShellCommand::Trust(TrustCommand::Forget { key }))
    } else {
        no_command()
    }
}

/// Reads a line; an empty one holds no command.
pub fn parse_command(line: &str) -> (r: Result<Option<ShellCommand>, String>)
    ensures
        match r {
            Ok(None) => words(line@).len() == 0,
            Ok(Some(command)) => words(line@).len() > 0 && command_of(words(line@)) == Ok::<
                CommandView,
                Seq<char>,
            >(command@),
            Err(e) => words(line@).len() > 0 && command_of(words(line@)) == Err::<
                CommandView,
                Seq<char>,
            >(e@),
        },
{
    let parts = split_words(line);
    let n = parts.len();
    if n == 0 {
        assert(texts(parts@).len() == 0);
        return Ok(None);
    }
    assert(texts(parts@)[0] == parts@[0]@);
    let name = parts[0].as_str();
    if text::same(name, "add") && n == 3 {
        assert(texts(parts@)[1] == parts@[1]@);
        assert(texts(parts@)[2] == parts@[2]@);
        return match parse_add(parts[1].as_str(), parts[2].as_str()) {
            Ok(command) => Ok(Some(command)),
            Err(e) => Err(e),
        };
    }
    if (text::same(name, "remove") || text::same(name, "rm")) && n == 2 {
        assert(texts(parts@)[1] == parts@[1]@);
        return Ok(Some(ShellCommand::Remove(text::copy(parts[1].as_str()))));
    }
    if (text::same(name, "list") || text::same(name, "ls")) && n == 1 {
        return Ok(Some(ShellCommand::List));
    }
    if (text::same(name, "events") || text::same(name, "ev")) && n == 1 {
        return Ok(Some(ShellCommand::Events));
    }
    if text::same(name, "trust") || text::same(name, "t") {
        return match parse_trust(&parts) {
            Ok(command) => Ok(Some(command)),
            Err(e) => Err(e),
        };
    }
    if (text::same(name, "help") || text::same(name, "h")) && n == 1 {
        return Ok(Some(ShellCommand::Help));
    }
    if (text::same(name, "quit") || text::same(name, "q") || text::same(name, "exit")) && n == 1 {
        return Ok(Some(ShellCommand::Quit));
    }
    no_command()
}

/// The help.
pub open spec fn help() -> Seq<char> {
    "commands:\n  add serve <[proto://]<addr>>\n  add connect <[proto://]<listen-port>[:remote-port]>\n  remove <target>\n  list\n  events\n  trust list\n  trust allow <peer-id> <target>\n  trust deny <peer-id> <target>\n  trust remove <peer-id> <target>\n  quit\n"@
}

/// The help.
pub fn help_text() -> (r: String)
    ensures
        r@ == help(),
{
    text::copy(
        "commands:\n  add serve <[proto://]<addr>>\n  add connect <[proto://]<listen-port>[:remote-port]>\n  remove <target>\n  list\n  events\n  trust list\n  trust allow <peer-id> <target>\n  trust deny <peer-id> <target>\n  trust remove <peer-id> <target>\n  quit\n",
    )
}

/// The end of a forward on this node.
pub open spec fn endpoint_of(spec: ForwardSpecView) -> Seq<char> {
    match spec.direction {
        Direction::Serve => spec.addr,
        Direction::Connect => ":"@ + decimal(spec.listen_port as int),
    }
}

fn endpoint(spec: &ForwardSpec) -> (r: String)
    ensures
        r@ == endpoint_of(spec@),
{
    match spec.direction {
        Direction::Serve => text::copy(spec.addr.as_str()),
        Direction::Connect => {
            let port = decimal_i64(spec.listen_port as i64);
            text::cat2(":", port.as_str())
        },
    }
}

/// How a forward fares, in a word.
pub open spec fn state_word(state: ForwardStateView) -> Seq<char> {
    match state {
        ForwardStateView::Listening => "listening"@,
        ForwardStateView::Error(_) => "error"@,
        ForwardStateView::Stopped => "stopped"@,
    }
}

/// How a forward fares, in a word.
pub fn state_name(state: &ForwardState) -> (r: &'static str)
    ensures
        r@ == state_word(state@),
{
    match state {
        ForwardState::Listening => "listening",
        ForwardState::Error(_) => "error",
        ForwardState::Stopped => "stopped",
    }
}

/// The line for a forward.
pub open spec fn status_line(s: ForwardStatusView) -> Seq<char> {
    s.key + " "@ + direction_name(s.spec.direction) + " "@ + s.spec.proto.name() + " "@
        + endpoint_of(s.spec) + " "@ + state_word(s.state) + " "@ + decimal(s.active_conns as int)
        + " "@ + decimal(s.bytes_in as int) + " "@ + decimal(s.bytes_out as int) + "\n"@
}

/// The lines for the forwards.
pub open spec fn status_lines(list: Seq<ForwardStatusView>) -> Seq<char> {
    if list.len() == 0 {
        "no forwards\n"@
    } else {
        "key direction proto endpoint state conns in out\n"@ + concatenated(
            list.map_values(|s: ForwardStatusView| status_line(s)),
        )
    }
}

fn format_status(s: &ForwardStatus) -> (r: String)
    ensures
        r@ == status_line(s@),
{
    let direction = match s.spec.direction {
        Direction::Serve => "serve",
        Direction::Connect => "connect",
    };
    let mut out = text::copy(s.key.as_str());
    out.append(" ");
    out.append(direction);
    out.append(" ");
    out.append(s.spec.proto.as_str());
    out.append(" ");
    out.append(endpoint(&s.spec).as_str());
    out.append(" ");
    out.append(state_name(&s.state));
    out.append(" ");
    out.append(decimal_u64(s.active_conns as u64).as_str());
    out.append(" ");
    out.append(decimal_u64(s.bytes_in).as_str());
    out.append(" ");
    out.append(decimal_u64(s.bytes_out).as_str());
    out.append("\n");
    out
}

/// Writes the forwards as lines.
pub fn format_statuses(list: &Vec<ForwardStatus>) -> (r: String)
    ensures
        r@ == status_lines(views(list@)),
{
    if list.len() == 0 {
        return text::copy("no forwards\n");
    }
    let ghost line = |s: ForwardStatusView| status_line(s);
    let ghost all = views(list@);
    let ghost head = "key direction proto endpoint state conns in out\n"@;
    let mut out = text::copy("key direction proto endpoint state conns in out\n");
    let mut i: usize = 0;
    assert(all.take(0).map_values(line) =~= Seq::empty());
    assert(out@ =~= head + concatenated(all.take(0).map_values(line)));
    while i < list.len()
        invariant
            i <= list@.len(),
            all == views(list@),
            line == (|s: ForwardStatusView| status_line(s)),
            out@ == head + concatenated(all.take(i as int).map_values(line)),
        decreases list@.len() - i,
    {
        let text = format_status(&list[i]);
        proof {
            let done = all.take(i as int).map_values(line);
            lemma_concatenated_push(done, text@);
            assert(all.take(i + 1).map_values(line) =~= done.push(text@));
        }
        out.append(text.as_str());
        i = i + 1;
        assert(out@ =~= head + concatenated(all.take(i as int).map_values(line)));
    }
    assert(all.take(i as int) =~= all);
    out
}

/// The line for an event.
pub open spec fn event_line(e: AuthEventView) -> Seq<char> {
    "#"@ + decimal(e.sequence as int) + " "@ + decision_word(e.decision) + " "@ + source_word(
        e.source,
    ) + " "@ + e.request.peer_id + " "@ + e.request.forward_key + " "@ + e.request.target_addr
        + "\n"@
}

/// The lines for the events.
pub open spec fn event_lines(list: Seq<AuthEventView>) -> Seq<char> {
    if list.len() == 0 {
        "no events\n"@
    } else {
        concatenated(list.map_values(|e: AuthEventView| event_line(e)))
    }
}

fn format_event(e: &AuthEvent) -> (r: String)
    ensures
        r@ == event_line(e@),
{
    let shown = crate::web::state::event_dto(e);
    let mut out = text::copy("#");
    out.append(decimal_u64(e.sequence).as_str());
    out.append(" ");
    out.append(shown.decision.as_str());
    out.append(" ");
    out.append(shown.source.as_str());
    out.append(" ");
    out.append(e.peer_id.as_str());
    out.append(" ");
    out.append(e.forward_key.as_str());
    out.append(" ");
    out.append(e.target_addr.as_str());
    out.append("\n");
    out
}

fn format_events(log: &AuthAuditLog) -> (r: String)
    ensures
        r@ == event_lines(log@.events),
{
    let list = log.list();
    if list.len() == 0 {
        assert(views(list@).len() == 0);
        return text::copy("no events\n");
    }
    let ghost line = |e: AuthEventView| event_line(e);
    let ghost all = views(list@);
    let mut out = String::new();
    let mut i: usize = 0;
    assert(all.take(0).map_values(line) =~= Seq::empty());
    assert(out@ =~= concatenated(all.take(0).map_values(line)));
    while i < list.len()
        invariant
            i <= list@.len(),
            all == views(list@),
            line == (|e: AuthEventView| event_line(e)),
            out@ == concatenated(all.take(i as int).map_values(line)),
        decreases list@.len() - i,
    {
        let text = format_event(&list[i]);
        proof {
            let done = all.take(i as int).map_values(line);
            lemma_concatenated_push(done, text@);
            assert(all.take(i + 1).map_values(line) =~= done.push(text@));
        }
        out.append(text.as_str());
        i = i + 1;
    }
    assert(all.take(i as int) =~= all);
    assert(views(list@).len() > 0);
    out
}

/// The line for a remembered decision.
pub open spec fn trust_line(e: TrustEntryView) -> Seq<char> {
    trust_word(e.decision) + " "@ + e.key.peer_id + " "@ + e.key.forward_key + "\n"@
}

/// The lines for the remembered decisions.
pub open spec fn trust_lines(list: Seq<TrustEntryView>) -> Seq<char> {
    if list.len() == 0 {
        "no trust entries\n"@
    } else {
        concatenated(list.map_values(|e: TrustEntryView| trust_line(e)))
    }
}

/// The text for a store that is listed.
pub open spec fn is_trust_listing(
    output: Seq<char>,
    store: Map<TrustKeyView, TrustDecision>,
) -> bool {
    exists|list: Seq<TrustEntryView>| #[trigger]
        crate::auth::trust::is_listing(list, store) && output == trust_lines(list)
}

fn format_trust(store: &TrustStore) -> (r: String)
    ensures
        is_trust_listing(r@, store@),
{
    let list = store.list();
    let ghost all = views(list@);
    if list.len() == 0 {
        let out = text::copy("no trust entries\n");
        assert(crate::auth::trust::is_listing(all, store@) && out@ == trust_lines(all));
        return out;
    }
    let ghost line = |e: TrustEntryView| trust_line(e);
    let mut out = String::new();
    let mut i: usize = 0;
    assert(all.take(0).map_values(line) =~= Seq::empty());
    assert(out@ =~= concatenated(all.take(0).map_values(line)));
    while i < list.len()
        invariant
            i <= list@.len(),
            all == views(list@),
            line == (|e: TrustEntryView| trust_line(e)),
            out@ == concatenated(all.take(i as int).map_values(line)),
        decreases list@.len() - i,
    {
        let entry = &list[i];
        let word = match entry.decision {
            TrustDecision::Allow => "allow",
            TrustDecision::Deny => "deny",
        };
        let mut text = text::cat4(word, " ", entry.key.peer_id.as_str(), " ");
        text.append(entry.key.forward_key.as_str());
        text.append("\n");
        proof {
            let done = all.take(i as int).map_values(line);
            lemma_concatenated_push(done, text@);
            assert(all.take(i + 1).map_values(line) =~= done.push(text@));
        }
        out.append(text.as_str());
        i = i + 1;
    }
    assert(all.take(i as int) =~= all);
    assert(crate::auth::trust::is_listing(all, store@) && out@ == trust_lines(all));
    out
}

/// What has to follow a line.
#[derive(Debug, PartialEq, Eq)]
pub enum ShellEffect {
    Nothing,
    /// Start a forward.
    Start(ForwardSpec),
    /// Stop a forward.
    Stop(RemovedForward),
    /// Write out what is remembered.
    SaveTrust,
}

/// What came of a line.
#[derive(Debug, PartialEq, Eq)]
pub struct ShellOutcome {
    pub output: String,
    pub should_quit: bool,
    pub effect: ShellEffect,
}

/// What a command changes and says.
pub open spec fn is_outcome_of(
    command: CommandView,
    events: Seq<AuthEventView>,
    before: Map<Seq<char>, HandleView>,
    store: Map<TrustKeyView, TrustDecision>,
    after: Map<Seq<char>, HandleView>,
    store_after: Map<TrustKeyView, TrustDecision>,
    r: Result<ShellOutcome, String>,
) -> bool {
    &&& match command {
        CommandView::Add(spec) => {
            &&& store_after == store
            &&& match add_error(before, spec.target) {
                Some(e) => after == before && (r matches Err(m) && m@ == e),
                None => after == before.insert(spec.target, fresh_handle(spec)) && (r matches Ok(o)
                    && o.output@ == "added "@ + spec.target + "\n"@ && (o.effect
                    matches ShellEffect::Start(s) && s@ == spec)),
            }
        },
        CommandView::Remove(key) => {
            &&& store_after == store
            &&& after == before.remove(key)
            &&& if before.contains_key(key) {
                r matches Ok(o) && o.output@ == "removed "@ + key + "\n"@ && (o.effect
                    matches ShellEffect::Stop(s) && s.spec@ == before[key].spec && s.unpublish == (
                before[key].spec.direction == Direction::Serve))
            } else {
                r matches Err(m) && m@ == "forward not found: "@ + key
            }
        },
        CommandView::List => after == before && store_after == store && (r matches Ok(o)
            && o.output@ == status_lines(statuses(before)) && o.effect is Nothing)
            && before.dom().finite(),
        CommandView::Events => after == before && store_after == store && (r matches Ok(o)
            && o.output@ == event_lines(events) && o.effect is Nothing),
        CommandView::Trust(TrustCommandView::List) => after == before && store_after == store && (r
            matches Ok(o) && is_trust_listing(o.output@, store) && o.effect is Nothing),
        CommandView::Trust(TrustCommandView::Remember { key, decision }) => {
            &&& after == before
            &&& store_after == store.insert(key, decision)
            &&& r matches Ok(o) && o.output@ == (if decision == TrustDecision::Allow {
                "allowed "@
            } else {
                "denied "@
            }) + key.peer_id + " "@ + key.forward_key + "\n"@ && o.effect is SaveTrust
        },
        CommandView::Trust(TrustCommandView::Forget { key }) => {
            &&& after == before
            &&& store_after == store.remove(key)
            &&& r matches Ok(o) && if store.contains_key(key) {
                o.output@ == "removed "@ + key.peer_id + " "@ + key.forward_key + "\n"@ && o.effect
                    is SaveTrust
            } else {
                o.output@ == "trust entry not found\n"@ && o.effect is Nothing
            }
        },
        CommandView::Help => after == before && store_after == store && (r matches Ok(o)
            && o.output@ == help() && o.effect is Nothing),
        CommandView::Quit => after == before && store_after == store && (r matches Ok(o)
            && o.output@ == "bye\n"@ && o.effect is Nothing),
    }
    &&& r matches Ok(o) ==> o.should_quit == (command is Quit)
}

fn said(output: String) -> (r: Result<ShellOutcome, String>)
    ensures
        r matches Ok(o) && o.output == output && !o.should_quit && o.effect is Nothing,
{
    Ok(ShellOutcome { output, should_quit: false, effect: ShellEffect::Nothing })
}

/// Runs a command.
pub fn run_command(
    controller: &mut ForwardController,
    trust_store: &mut TrustStore,
    audit_log: &AuthAuditLog,
    command: ShellCommand,
) -> (r: Result<ShellOutcome, String>)
    ensures
        is_outcome_of(
            command@,
            audit_log@.events,
            old(controller)@,
            old(trust_store)@,
            final(controller)@,
            final(trust_store)@,
            r,
        ),
{
    match command {
        ShellCommand::Add(spec) => match controller.add_forward(&spec) {
            Ok(key) => Ok(
                ShellOutcome {
                    output: text::cat3("added ", key.as_str(), "\n"),
                    should_quit: false,
                    effect: ShellEffect::Start(spec),
                },
            ),
            Err(e) => Err(e.message()),
        },
        ShellCommand::Remove(key) => match controller.remove_forward(key.as_str()) {
            Ok(removed) => Ok(
                ShellOutcome {
                    output: text::cat3("removed ", key.as_str(), "\n"),
                    should_quit: false,
                    effect: ShellEffect::Stop(removed),
                },
            ),
            Err(e) => Err(e.message()),
        },
        ShellCommand::List => {
            let list = controller.list_forwards();
            said(format_statuses(&list))
        },
        ShellCommand::Events => said(format_events(audit_log)),
        ShellCommand::Trust(TrustCommand::List) => said(format_trust(trust_store)),
        ShellCommand::Trust(TrustCommand::Remember { key, decision }) => {
            trust_store.remember(&key, decision);
            let word = match decision {
                TrustDecision::Allow => "allowed ",
                TrustDecision::Deny => "denied ",
            };
            let mut output = text::cat4(
                word,
                key.peer_id.as_str(),
                " ",
                key.forward_key.as_str(),
            );
            output.append("\n");
            Ok(
                ShellOutcome {
                    output,
                    should_quit: false,
                    effect: ShellEffect::SaveTrust,
                },
            )
        },
        ShellCommand::Trust(TrustCommand::Forget { key }) => {
            let removed = trust_store.remove(&key);
            if !removed {
                return said(text::copy("trust entry not found\n"));
            }
            let mut output = text::cat4(
                "removed ",
                key.peer_id.as_str(),
                " ",
                key.forward_key.as_str(),
            );
            output.append("\n");
            Ok(
                ShellOutcome {
                    output,
                    should_quit: false,
                    effect: ShellEffect::SaveTrust,
                },
            )
        },
        ShellCommand::Help => said(help_text()),
        ShellCommand::Quit => Ok(
            ShellOutcome {
                output: text::copy("bye\n"),
                should_quit: true,
                effect: ShellEffect::Nothing,
            },
        ),
    }
}

/// Runs a line. An empty line does nothing, and a line that is no command is
/// refused.
pub fn execute_line_with_context(
    controller: &mut ForwardController,
    trust_store: &mut TrustStore,
    audit_log: &AuthAuditLog,
    line: &str,
) -> (r: Result<ShellOutcome, String>)
    ensures
        is_outcome_of_line(
            line@,
            audit_log@.events,
            old(controller)@,
            old(trust_store)@,
            final(controller)@,
            final(trust_store)@,
            r,
        ),
{
    match parse_command(line) {
        Err(e) => Err(e),
        Ok(None) => said(String::new()),
        Ok(Some(command)) => run_command(controller, trust_store, audit_log, command),
    }
}

/// What a line changes and says.
pub open spec fn is_outcome_of_line(
    line: Seq<char>,
    events: Seq<AuthEventView>,
    before: Map<Seq<char>, HandleView>,
    store: Map<TrustKeyView, TrustDecision>,
    after: Map<Seq<char>, HandleView>,
    store_after: Map<TrustKeyView, TrustDecision>,
    r: Result<ShellOutcome, String>,
) -> bool {
    if words(line).len() == 0 {
        &&& after == before
        &&& store_after == store
        &&& r matches Ok(o) && o.output@.len() == 0 && !o.should_quit && o.effect is Nothing
    } else {
        match command_of(words(line)) {
            Err(e) => {
                &&& after == before
                &&& store_after == store
                &&& r matches Err(m) && m@ == e
            },
            Ok(command) => is_outcome_of(
                command,
                events,
                before,
                store,
                after,
                store_after,
                r,
            ),
        }
    }
}

/// A line that fails changes nothing.
pub proof fn law_failed_line_changes_nothing(
    line: Seq<char>,
    events: Seq<AuthEventView>,
    before: Map<Seq<char>, HandleView>,
    store: Map<TrustKeyView, TrustDecision>,
    after: Map<Seq<char>, HandleView>,
    store_after: Map<TrustKeyView, TrustDecision>,
    r: Result<ShellOutcome, String>,
)
    requires
        is_outcome_of_line(line, events, before, store, after, store_after, r),
        r is Err,
    ensures
        after == before,
        store_after == store,
{
    assert(after =~= before);
}

/// A forward that a line added is gone again after the line that removes it, and
/// the forwards are then as before.
pub proof fn law_added_forward_can_be_removed(
    spec: ForwardSpecView,
    events: Seq<AuthEventView>,
    m0: Map<Seq<char>, HandleView>,
    store: Map<TrustKeyView, TrustDecision>,
    m1: Map<Seq<char>, HandleView>,
    r1: Result<ShellOutcome, String>,
    m2: Map<Seq<char>, HandleView>,
    r2: Result<ShellOutcome, String>,
)
    requires
        is_outcome_of(CommandView::Add(spec), events, m0, store, m1, store, r1),
        r1 is Ok,
        is_outcome_of(CommandView::Remove(spec.target), events, m1, store, m2, store, r2),
    ensures
        r2 is Ok,
        m2 == m0,
{
    crate::controller::law_add_then_remove(m0, spec, spec.target);
}

/// What the words that commands are made of start with, and how long they are.
proof fn lemma_starts()
    ensures
        "add"@[0] == 'a' && "remove"@[0] == 'r' && "rm"@[0] == 'r' && "list"@[0] == 'l' && "ls"@[0]
            == 'l' && "events"@[0] == 'e' && "ev"@[0] == 'e' && "trust"@[0] == 't' && "t"@[0]
            == 't' && "help"@[0] == 'h' && "h"@[0] == 'h' && "quit"@[0] == 'q' && "q"@[0] == 'q'
            && "exit"@[0] == 'e',
        "serve"@[0] == 's' && "connect"@[0] == 'c' && "allow"@[0] == 'a' && "deny"@[0] == 'd',
        "exit"@.len() == 4 && "events"@.len() == 6 && "ev"@.len() == 2,
{
    reveal_strlit("add");
    reveal_strlit("remove");
    reveal_strlit("rm");
    reveal_strlit("list");
    reveal_strlit("ls");
    reveal_strlit("events");
    reveal_strlit("ev");
    reveal_strlit("trust");
    reveal_strlit("t");
    reveal_strlit("help");
    reveal_strlit("h");
    reveal_strlit("quit");
    reveal_strlit("q");
    reveal_strlit("exit");
    reveal_strlit("serve");
    reveal_strlit("connect");
    reveal_strlit("allow");
    reveal_strlit("deny");
}

/// The commands that add and remove forwards: the words behind them name the side and the
/// forward, or the target.
pub proof fn law_lines_that_add_and_remove(a: Seq<char>, b: Seq<char>)
    ensures
        command_of(seq!["add"@, "serve"@, a]) == Ok::<CommandView, Seq<char>>(
            CommandView::Add(serve_forward(a, proto_in(a))),
        ),
        command_of(seq!["add"@, "connect"@, a]) == Ok::<CommandView, Seq<char>>(
            CommandView::Add(connect_forward(a, proto_in(a))),
        ),
        a != "serve"@ && a != "connect"@ ==> command_of(seq!["add"@, a, b]) is Err,
        command_of(seq!["remove"@, a]) == Ok::<CommandView, Seq<char>>(CommandView::Remove(a)),
        command_of(seq!["rm"@, a]) == command_of(seq!["remove"@, a]),
{
    lemma_starts();
}

/// The commands of one word, long and short: each has its own meaning.
pub proof fn law_lines_of_one_word()
    ensures
        command_of(seq!["list"@]) == Ok::<CommandView, Seq<char>>(CommandView::List),
        command_of(seq!["ls"@]) == command_of(seq!["list"@]),
        command_of(seq!["events"@]) == Ok::<CommandView, Seq<char>>(CommandView::Events),
        command_of(seq!["ev"@]) == command_of(seq!["events"@]),
        command_of(seq!["help"@]) == Ok::<CommandView, Seq<char>>(CommandView::Help),
        command_of(seq!["h"@]) == command_of(seq!["help"@]),
        command_of(seq!["quit"@]) == Ok::<CommandView, Seq<char>>(CommandView::Quit),
        command_of(seq!["q"@]) == command_of(seq!["quit"@]),
        command_of(seq!["exit"@]) == command_of(seq!["quit"@]),
{
    lemma_starts();
}

/// The commands about what is remembered: the words behind them name the peer and the target.
pub proof fn law_lines_about_trust(a: Seq<char>, b: Seq<char>)
    ensures
        command_of(seq!["trust"@, "list"@]) == Ok::<CommandView, Seq<char>>(
            CommandView::Trust(TrustCommandView::List),
        ),
        ({
            let key = TrustKeyView { peer_id: a, forward_key: b };
            &&& command_of(seq!["trust"@, "allow"@, a, b]) == Ok::<CommandView, Seq<char>>(
                CommandView::Trust(
                    TrustCommandView::Remember { key, decision: TrustDecision::Allow },
                ),
            )
            &&& command_of(seq!["trust"@, "deny"@, a, b]) == Ok::<CommandView, Seq<char>>(
                CommandView::Trust(
                    TrustCommandView::Remember { key, decision: TrustDecision::Deny },
                ),
            )
            &&& command_of(seq!["trust"@, "remove"@, a, b]) == Ok::<CommandView, Seq<char>>(
                CommandView::Trust(TrustCommandView::Forget { key }),
            )
            &&& command_of(seq!["t"@, "allow"@, a, b]) == command_of(
                seq!["trust"@, "allow"@, a, b],
            )
        }),
{
    lemma_starts();
}

/// A line with words too few or too many, or with another name, is no command.
pub proof fn law_other_lines_are_refused(parts: Seq<Seq<char>>)
    requires
        parts.len() > 0,
    ensures
        command_of(parts) is Ok ==> parts.len() <= 4,
        command_of(parts) matches Ok(CommandView::Add(_)) ==> parts.len() == 3 && parts[0]
            == "add"@,
        command_of(parts) matches Ok(CommandView::Remove(key)) ==> parts.len() == 2 && key
            == parts[1],
        command_of(parts) matches Ok(CommandView::Quit) ==> parts.len() == 1,
        command_of(parts) matches Ok(CommandView::Trust(c)) ==> parts[0] == "trust"@ || parts[0]
            == "t"@,
        parts.len() == 1 && parts[0] == "add"@ ==> command_of(parts) is Err,
{
    lemma_starts();
}

/// An address to serve, and a port to connect to, name the same target where they name the
/// same protocol and port; the one keeps the address and listens nowhere, the other listens
/// on its port and keeps no address.
pub proof fn law_both_sides_of_a_line(
    proto: Option<Proto>,
    host: Seq<char>,
    port: i32,
    listen: i32,
)
    requires
        proto is None ==> !crate::forward_args::names_scheme(host + ":"@ + decimal(port as int)),
    ensures
        ({
            let addr = host + ":"@ + decimal(port as int);
            let a = crate::forward_args::with_scheme(proto, addr);
            let b = crate::forward_args::with_scheme(
                proto,
                decimal(listen as int) + ":"@ + decimal(port as int),
            );
            let serve = serve_forward(a, proto_in(a));
            let connect = connect_forward(b, proto_in(b));
            &&& serve.direction is Serve && serve.addr == addr && serve.listen_port == -1
            &&& connect.direction is Connect && connect.addr.len() == 0 && connect.listen_port
                == listen
            &&& serve.target == connect.target
            &&& serve.target == crate::forward_args::meant(proto) + ":"@ + decimal(port as int)
            &&& serve.proto == connect.proto
            &&& serve.proto is Udp <==> proto == Some(Proto::Udp)
        }),
{
    reveal_strlit("tcp");
    reveal_strlit("udp");
    assert("tcp"@[0] != "udp"@[0]);
    let addr = host + ":"@ + decimal(port as int);
    crate::forward_args::law_forward_is_taken_apart(proto, addr, port);
    crate::forward_args::law_forward_is_taken_apart(proto, host, port);
    crate::forward_args::law_sides_agree(proto, host, port, listen);
    crate::forward_args::law_connect_maps_ports(proto, listen, port);
}

/// What a command changes: adding and removing touch that forward only and start or stop it;
/// remembering and forgetting touch that peer and target only and have it written out; all
/// else changes nothing. Only `quit` ends the session.
pub proof fn law_commands_do_what_they_say(
    command: CommandView,
    events: Seq<AuthEventView>,
    before: Map<Seq<char>, HandleView>,
    store: Map<TrustKeyView, TrustDecision>,
    after: Map<Seq<char>, HandleView>,
    store_after: Map<TrustKeyView, TrustDecision>,
    r: Result<ShellOutcome, String>,
    other: Seq<char>,
    pair: TrustKeyView,
)
    requires
        is_outcome_of(command, events, before, store, after, store_after, r),
    ensures
        r matches Ok(o) ==> (o.should_quit <==> command is Quit),
        !(command is Add) && !(command is Remove) ==> after == before,
        !(command is Trust) ==> store_after == store,
        command matches CommandView::Add(spec) ==> {
            &&& r is Ok <==> spec.target.len() > 0 && !before.contains_key(spec.target)
            &&& r is Ok ==> after.contains_key(spec.target) && after[spec.target] == fresh_handle(
                spec,
            )
            &&& r matches Ok(o) ==> o.effect matches ShellEffect::Start(s) && s@ == spec
            &&& other != spec.target || r is Err ==> (after.contains_key(other)
                <==> before.contains_key(other))
            &&& other != spec.target && before.contains_key(other) ==> after[other]
                == before[other]
        },
        command matches CommandView::Remove(key) ==> {
            &&& r is Ok <==> before.contains_key(key)
            &&& !after.contains_key(key)
            &&& r matches Ok(o) ==> o.effect matches ShellEffect::Stop(s) && s.spec@
                == before[key].spec && (s.unpublish <==> before[key].spec.direction is Serve)
            &&& other != key ==> (after.contains_key(other) <==> before.contains_key(other))
            &&& other != key && before.contains_key(other) ==> after[other] == before[other]
        },
        command matches CommandView::Trust(TrustCommandView::Remember { key, decision }) ==> {
            &&& r is Ok && r->Ok_0.effect is SaveTrust
            &&& crate::auth::trust::found(store_after, key) == Some(decision)
            &&& pair != key ==> crate::auth::trust::found(store_after, pair)
                == crate::auth::trust::found(store, pair)
        },
        command matches CommandView::Trust(TrustCommandView::Forget { key }) ==> {
            &&& r is Ok && (r->Ok_0.effect is SaveTrust <==> store.contains_key(key))
            &&& crate::auth::trust::found(store_after, key) is None
            &&& pair != key ==> crate::auth::trust::found(store_after, pair)
                == crate::auth::trust::found(store, pair)
        },
        command matches CommandView::Trust(TrustCommandView::List) ==> store_after == store,
        command is List ==> r is Ok && r->Ok_0.output@ == status_lines(statuses(before))
            && r->Ok_0.effect is Nothing,
        command is Events ==> r is Ok && r->Ok_0.output@ == event_lines(events) && r->Ok_0.effect
            is Nothing,
        command is Help ==> r is Ok && r->Ok_0.output@ == help() && r->Ok_0.effect is Nothing,
{
}

/// The line of a forward shows, with spaces between them, its key, its side, its protocol,
/// its end on this node, how it fares, and its connections and bytes in and out.
pub proof fn law_status_line_shows_the_forward(s: ForwardStatusView)
    ensures
        status_line(s) == text::joined(
            seq![
                s.key,
                direction_name(s.spec.direction),
                s.spec.proto.name(),
                endpoint_of(s.spec),
                state_word(s.state),
                decimal(s.active_conns as int),
                decimal(s.bytes_in as int),
                decimal(s.bytes_out as int),
            ],
            " "@,
        ) + "\n"@,
        s.spec.direction is Serve ==> endpoint_of(s.spec) == s.spec.addr,
        s.spec.direction is Connect ==> endpoint_of(s.spec) == ":"@ + decimal(
            s.spec.listen_port as int,
        ),
        s.state is Listening <==> state_word(s.state) == "listening"@,
        s.state is Error <==> state_word(s.state) == "error"@,
        s.state is Stopped <==> state_word(s.state) == "stopped"@,
{
    reveal_strlit("listening");
    reveal_strlit("error");
    reveal_strlit("stopped");
    assert("listening"@.len() == 9 && "error"@.len() == 5 && "stopped"@.len() == 7);
    let parts = seq![
        s.key,
        direction_name(s.spec.direction),
        s.spec.proto.name(),
        endpoint_of(s.spec),
        state_word(s.state),
        decimal(s.active_conns as int),
        decimal(s.bytes_in as int),
        decimal(s.bytes_out as int),
    ];
    lemma_joined_head(parts, 1);
    lemma_joined_head(parts, 2);
    lemma_joined_head(parts, 3);
    lemma_joined_head(parts, 4);
    lemma_joined_head(parts, 5);
    lemma_joined_head(parts, 6);
    lemma_joined_head(parts, 7);
    assert(parts.take(1) =~= seq![s.key]);
    assert(parts.take(8) =~= parts);
    assert(status_line(s) =~= text::joined(parts, " "@) + "\n"@);
}

proof fn lemma_joined_head(parts: Seq<Seq<char>>, n: int)
    requires
        0 < n < parts.len(),
    ensures
        text::joined(parts.take(n + 1), " "@) == text::joined(parts.take(n), " "@) + " "@
            + parts[n],
{
    assert(parts.take(n + 1).drop_last() =~= parts.take(n));
    assert(parts.take(n + 1).last() == parts[n]);
}

/// The lines of an event and of a remembered decision show what they are about, with spaces
/// between; and a list shows one line for each, in its order.
pub proof fn law_lines_show_their_entries(
    e: AuthEventView,
    t: TrustEntryView,
    events: Seq<AuthEventView>,
    entries: Seq<TrustEntryView>,
    list: Seq<ForwardStatusView>,
    s: ForwardStatusView,
)
    ensures
        event_line(e) == "#"@ + text::joined(
            seq![
                decimal(e.sequence as int),
                decision_word(e.decision),
                source_word(e.source),
                e.request.peer_id,
                e.request.forward_key,
                e.request.target_addr,
            ],
            " "@,
        ) + "\n"@,
        trust_line(t) == text::joined(
            seq![trust_word(t.decision), t.key.peer_id, t.key.forward_key],
            " "@,
        ) + "\n"@,
        events.len() > 0 ==> event_lines(events.push(e)) == event_lines(events) + event_line(e),
        event_lines(seq![e]) == event_line(e),
        entries.len() > 0 ==> trust_lines(entries.push(t)) == trust_lines(entries) + trust_line(t),
        trust_lines(seq![t]) == trust_line(t),
        list.len() > 0 ==> status_lines(list.push(s)) == status_lines(list) + status_line(s),
        status_lines(Seq::empty()) == "no forwards\n"@,
        event_lines(Seq::empty()) == "no events\n"@,
        trust_lines(Seq::empty()) == "no trust entries\n"@,
{
    let p = seq![
        decimal(e.sequence as int),
        decision_word(e.decision),
        source_word(e.source),
        e.request.peer_id,
        e.request.forward_key,
        e.request.target_addr,
    ];
    lemma_joined_head(p, 1);
    lemma_joined_head(p, 2);
    lemma_joined_head(p, 3);
    lemma_joined_head(p, 4);
    lemma_joined_head(p, 5);
    assert(p.take(1) =~= seq![p[0]]);
    assert(p.take(6) =~= p);
    assert(event_line(e) =~= "#"@ + text::joined(p, " "@) + "\n"@);
    let q = seq![trust_word(t.decision), t.key.peer_id, t.key.forward_key];
    lemma_joined_head(q, 1);
    lemma_joined_head(q, 2);
    assert(q.take(1) =~= seq![q[0]]);
    assert(q.take(3) =~= q);
    assert(trust_line(t) =~= text::joined(q, " "@) + "\n"@);
    let fe = |e: AuthEventView| event_line(e);
    let ft = |e: TrustEntryView| trust_line(e);
    let fs = |s: ForwardStatusView| status_line(s);
    assert(events.push(e).map_values(fe) =~= events.map_values(fe).push(event_line(e)));
    lemma_concatenated_push(events.map_values(fe), event_line(e));
    assert(entries.push(t).map_values(ft) =~= entries.map_values(ft).push(trust_line(t)));
    lemma_concatenated_push(entries.map_values(ft), trust_line(t));
    assert(list.push(s).map_values(fs) =~= list.map_values(fs).push(status_line(s)));
    lemma_concatenated_push(list.map_values(fs), status_line(s));
    assert(status_lines(list.push(s)) =~= if list.len() > 0 {
        status_lines(list) + status_line(s)
    } else {
        status_lines(list.push(s))
    });
    let none = Seq::<Seq<char>>::empty();
    assert(seq![e].map_values(fe) =~= none.push(event_line(e)));
    assert(seq![t].map_values(ft) =~= none.push(trust_line(t)));
    lemma_concatenated_push(none, event_line(e));
    lemma_concatenated_push(none, trust_line(t));
    assert(concatenated(none) + event_line(e) =~= event_line(e));
    assert(concatenated(none) + trust_line(t) =~= trust_line(t));
}

} // verus!
