//! What stands on the screen.
use vstd::prelude::*;

use crate::auth::audit::AuthEventView;
use crate::auth::trust::TrustEntryView;
use crate::control_shell::{state_name, state_word};
use crate::controller::{Direction, ForwardStatus, ForwardStatusView};
use crate::forward_runtime::{PeerMetrics, PeerMetricsView};
use crate::model::{lemma_views_push, views};
use crate::number::{decimal, decimal_u64};
use crate::text;
use crate::text::{joined, texts, upper_case};
use crate::tui::app::{
    AddField, AddForm, AddFormView, App, AppView, Focus, PeerSelect, PeerSelectView, PendingRow,
    RowView,
};
use crate::tui::format::{
    ends_of, endpoint, event_text, format_event, proto_name, proto_word, role_label, role_word,
    short, short_id, trust_label, trust_name,
};

verus! {

/// The part of the first line on the peers.
pub open spec fn peers_text(peers: Seq<Seq<char>>) -> Seq<char> {
    if peers.len() == 0 {
        "peers: 0 (waiting…)"@
    } else {
        "peers: "@ + decimal(peers.len() as int) + " ["@ + joined(
            peers.map_values(|p: Seq<char>| short(p)),
            ", "@,
        ) + "]"@
    }
}

/// How many forwards this node serves.
pub open spec fn served(forwards: Seq<ForwardStatusView>) -> int {
    forwards.filter(|s: ForwardStatusView| s.spec.direction == Direction::Serve).len() as int
}

/// The first line.
pub open spec fn header(app: AppView, room: Seq<char>) -> Seq<char> {
    " p2p — room: "@ + room + "   "@ + peers_text(app.peers) + "   serve: "@ + decimal(
        served(app.forwards),
    ) + " / conn: "@ + decimal(app.forwards.len() - served(app.forwards)) + "   pending: "@
        + decimal(app.rows().len() as int) + " "@
}

fn short_ids(peers: &Vec<String>) -> (r: Vec<String>)
    ensures
        texts(r@) == texts(peers@).map_values(|p: Seq<char>| short(p)),
{
    let ghost all = texts(peers@).map_values(|p: Seq<char>| short(p));
    let mut out: Vec<String> = Vec::new();
    let mut i: usize = 0;
    while i < peers.len()
        invariant
            i <= peers@.len(),
            all == texts(peers@).map_values(|p: Seq<char>| short(p)),
            texts(out@) == all.take(i as int),
        decreases peers@.len() - i,
    {
        let ghost before = out@;
        let id = short_id(peers[i].as_str());
        out.push(id);
        assert(texts(out@) =~= texts(before).push(id@));
        i = i + 1;
        assert(texts(out@) =~= all.take(i as int));
    }
    assert(texts(out@) =~= all);
    out
}

fn count_served(forwards: &Vec<ForwardStatus>) -> (r: usize)
    ensures
        r == served(views(forwards@)),
        r <= forwards@.len(),
{
    let ghost all = views(forwards@);
    let ghost serves = |s: ForwardStatusView| s.spec.direction == Direction::Serve;
    let mut n: usize = 0;
    let mut i: usize = 0;
    proof {
        reveal(Seq::filter);
        assert(all.take(0).filter(serves).len() == 0);
    }
    while i < forwards.len()
        invariant
            n <= i <= forwards@.len(),
            all == views(forwards@),
            serves == (|s: ForwardStatusView| s.spec.direction == Direction::Serve),
            n == all.take(i as int).filter(serves).len(),
        decreases forwards@.len() - i,
    {
        proof {
            reveal(Seq::filter);
            let head = all.take(i + 1);
            assert(head.drop_last() =~= all.take(i as int));
            assert(head.last() == forwards@[i as int]@);
        }
        if forwards[i].spec.direction == Direction::Serve {
            n = n + 1;
        }
        i = i + 1;
    }
    assert(all.take(i as int) =~= all);
    n
}

/// Writes the first line.
pub fn header_text(app: &App, room: &str) -> (r: String)
    ensures
        r@ == header(app@, room@),
{
    let n = app.peers.len();
    assert(texts(app.peers@).len() == n);
    let peers = if n == 0 {
        text::copy("peers: 0 (waiting…)")
    } else {
        let ids = text::join(&short_ids(&app.peers), ", ");
        let mut peers = text::cat4(
            "peers: ",
            decimal_u64(n as u64).as_str(),
            " [",
            ids.as_str(),
        );
        peers.append("]");
        peers
    };
    let serve = count_served(&app.forwards);
    let conn = app.forwards.len() - serve;
    let rows = app.pending_rows();
    assert(rows@.len() == app@.rows().len());
    let mut out = text::cat4(" p2p — room: ", room, "   ", peers.as_str());
    out.append("   serve: ");
    out.append(decimal_u64(serve as u64).as_str());
    out.append(" / conn: ");
    out.append(decimal_u64(conn as u64).as_str());
    out.append("   pending: ");
    out.append(decimal_u64(rows.len() as u64).as_str());
    out.append(" ");
    out
}

/// A line of the table of forwards. Amounts of bytes are written out by the
/// terminal.
#[derive(Debug, PartialEq, Eq)]
pub enum ForwardRow {
    Forward {
        selected: bool,
        role: String,
        key: String,
        proto: String,
        endpoint: String,
        state: String,
        conns: String,
        bytes_in: u64,
        bytes_out: u64,
    },
    /// The selected forward has no peers.
    NoPeers,
    /// A peer of the selected forward.
    Peer { label: String, conns: String, bytes_in: u64, bytes_out: u64 },
}

/// The model of `ForwardRow`.
pub enum ForwardRowView {
    Forward {
        selected: bool,
        role: Seq<char>,
        key: Seq<char>,
        proto: Seq<char>,
        endpoint: Seq<char>,
        state: Seq<char>,
        conns: Seq<char>,
        bytes_in: u64,
        bytes_out: u64,
    },
    NoPeers,
    Peer { label: Seq<char>, conns: Seq<char>, bytes_in: u64, bytes_out: u64 },
}

impl View for ForwardRow {
    type V = ForwardRowView;

    open spec fn view(&self) -> ForwardRowView {
        match self {
            ForwardRow::Forward {
                selected,
                role,
                key,
                proto,
                endpoint,
                state,
                conns,
                bytes_in,
                bytes_out,
            } => ForwardRowView::Forward {
                selected: *selected,
                role: role@,
                key: key@,
                proto: proto@,
                endpoint: endpoint@,
                state: state@,
                conns: conns@,
                bytes_in: *bytes_in,
                bytes_out: *bytes_out,
            },
            ForwardRow::NoPeers => ForwardRowView::NoPeers,
            ForwardRow::Peer { label, conns, bytes_in, bytes_out } => ForwardRowView::Peer {
                label: label@,
                conns: conns@,
                bytes_in: *bytes_in,
                bytes_out: *bytes_out,
            },
        }
    }
}

/// The line for a forward.
pub open spec fn forward_row(s: ForwardStatusView, selected: bool) -> ForwardRowView {
    ForwardRowView::Forward {
        selected,
        role: role_word(s.spec.direction),
        key: s.key,
        proto: proto_word(s.spec.proto),
        endpoint: ends_of(s.spec),
        state: state_word(s.state),
        conns: decimal(s.active_conns as int),
        bytes_in: s.bytes_in,
        bytes_out: s.bytes_out,
    }
}

/// The line for a peer of a forward.
pub open spec fn peer_row(p: PeerMetricsView) -> ForwardRowView {
    ForwardRowView::Peer {
        label: "  └ "@ + short(p.peer_id),
        conns: decimal(p.active_conns as int),
        bytes_in: p.bytes_in,
        bytes_out: p.bytes_out,
    }
}

/// The lines for the peers of a forward.
pub open spec fn peer_rows(peers: Seq<PeerMetricsView>) -> Seq<ForwardRowView> {
    if peers.len() == 0 {
        seq![ForwardRowView::NoPeers]
    } else {
        peers.map_values(|p: PeerMetricsView| peer_row(p))
    }
}

impl AppView {
    /// Whether a forward is selected.
    pub open spec fn selects_forward(self, i: int) -> bool {
        self.focus == Focus::Forwards && i == self.forwards_sel
    }

    /// The lines for the first forwards. The selected one is followed by its peers
    /// where it is expanded.
    pub open spec fn forward_rows(self, n: int) -> Seq<ForwardRowView>
        decreases n,
    {
        if n <= 0 {
            Seq::empty()
        } else {
            let i = n - 1;
            let s = self.forwards[i];
            let lines = self.forward_rows(i).push(forward_row(s, self.selects_forward(i)));
            if self.selects_forward(i) && self.expanded {
                lines + peer_rows(s.peers)
            } else {
                lines
            }
        }
    }
}

fn push_peer_rows(out: &mut Vec<ForwardRow>, peers: &Vec<PeerMetrics>)
    ensures
        views(final(out)@) == views(old(out)@) + peer_rows(views(peers@)),
{
    let ghost before = views(out@);
    let ghost all = views(peers@);
    if peers.len() == 0 {
        proof {
            lemma_views_push(out@, ForwardRow::NoPeers);
        }
        out.push(ForwardRow::NoPeers);
        assert(views(out@) =~= before + peer_rows(all));
        return;
    }
    let mut i: usize = 0;
    assert(views(out@) =~= before + peer_rows(all).take(0));
    while i < peers.len()
        invariant
            0 < peers@.len(),
            i <= peers@.len(),
            all == views(peers@),
            views(out@) == before + peer_rows(all).take(i as int),
        decreases peers@.len() - i,
    {
        let peer = &peers[i];
        let row = ForwardRow::Peer {
            label: text::cat2("  └ ", short_id(peer.peer_id.as_str()).as_str()),
            conns: decimal_u64(peer.active_conns as u64),
            bytes_in: peer.bytes_in,
            bytes_out: peer.bytes_out,
        };
        proof {
            lemma_views_push(out@, row);
            assert(peer_rows(all)[i as int] == row@);
        }
        out.push(row);
        i = i + 1;
        assert(views(out@) =~= before + peer_rows(all).take(i as int));
    }
    assert(views(out@) =~= before + peer_rows(all));
}

/// The lines of the table of forwards.
pub fn forward_rows(app: &App) -> (r: Vec<ForwardRow>)
    ensures
        views(r@) == app@.forward_rows(app@.forwards.len() as int),
{
    let mut out: Vec<ForwardRow> = Vec::new();
    let mut i: usize = 0;
    assert(views(out@) =~= app@.forward_rows(0));
    while i < app.forwards.len()
        invariant
            i <= app.forwards@.len(),
            views(out@) == app@.forward_rows(i as int),
        decreases app.forwards@.len() - i,
    {
        let s = &app.forwards[i];
        assert(app@.forwards[i as int] == s@);
        let selected = app.focus == Focus::Forwards && i == app.forwards_sel;
        let row = ForwardRow::Forward {
            selected,
            role: text::copy(role_label(s.spec.direction)),
            key: text::copy(s.key.as_str()),
            proto: text::copy(proto_name(s.spec.proto)),
            endpoint: endpoint(&s.spec),
            state: text::copy(state_name(&s.state)),
            conns: decimal_u64(s.active_conns as u64),
            bytes_in: s.bytes_in,
            bytes_out: s.bytes_out,
        };
        proof {
            lemma_views_push(out@, row);
        }
        out.push(row);
        if selected && app.expanded {
            push_peer_rows(&mut out, &s.peers);
        }
        i = i + 1;
    }
    out
}

/// A line of a list.
#[derive(Debug, PartialEq, Eq)]
pub struct Item {
    pub text: String,
    pub selected: bool,
}

/// The model of `Item`.
pub struct ItemView {
    pub text: Seq<char>,
    pub selected: bool,
}

impl View for Item {
    type V = ItemView;

    open spec fn view(&self) -> ItemView {
        ItemView { text: self.text@, selected: self.selected }
    }
}

/// The text for something that waits.
pub open spec fn pending_text(row: RowView) -> Seq<char> {
    match row {
        RowView::Forward(r) => "[FWD] "@ + short(r.peer_id) + " wants "@ + upper_case(r.proto)
            + " "@ + r.remote_addr + " (you become the server)"@,
        RowView::Conn(p) => "[CONN] "@ + short(p.request.peer_id) + " → "@ + p.request.forward_key
            + " ("@ + p.request.target_addr + ")"@,
    }
}

/// The lines of what waits.
pub open spec fn pending_lines(app: AppView) -> Seq<ItemView> {
    if app.rows().len() == 0 {
        seq![ItemView { text: "(none)"@, selected: false }]
    } else {
        Seq::new(
            app.rows().len(),
            |i: int|
                ItemView {
                    text: pending_text(app.rows()[i]),
                    selected: app.focus == Focus::Pending && i == app.pending_sel,
                },
        )
    }
}

fn single(words: &str) -> (r: Vec<Item>)
    ensures
        views(r@) == seq![ItemView { text: words@, selected: false }],
{
    let mut out: Vec<Item> = Vec::new();
    let item = Item { text: text::copy(words), selected: false };
    proof {
        lemma_views_push(out@, item);
    }
    out.push(item);
    assert(views(out@) =~= seq![ItemView { text: words@, selected: false }]);
    out
}

fn pending_words(row: &PendingRow) -> (r: String)
    ensures
        r@ == pending_text(row@),
{
    match row {
        PendingRow::Forward(f) => {
            let mut out = text::cat3("[FWD] ", short_id(f.peer_id.as_str()).as_str(), " wants ");
            out.append(text::to_uppercase(f.proto.as_str()).as_str());
            out.append(" ");
            out.append(f.remote_addr.as_str());
            out.append(" (you become the server)");
            out
        },
        PendingRow::Conn(p) => {
            let mut out = text::cat3(
                "[CONN] ",
                short_id(p.request.peer_id.as_str()).as_str(),
                " → ",
            );
            out.append(p.request.forward_key.as_str());
            out.append(" (");
            out.append(p.request.target_addr.as_str());
            out.append(")");
            out
        },
    }
}

/// The lines of what waits.
pub fn pending_items(app: &App) -> (r: Vec<Item>)
    ensures
        views(r@) == pending_lines(app@),
{
    let rows = app.pending_rows();
    let ghost all = pending_lines(app@);
    assert(rows@.len() == app@.rows().len());
    if rows.len() == 0 {
        return single("(none)");
    }
    let mut out: Vec<Item> = Vec::new();
    let mut i: usize = 0;
    while i < rows.len()
        invariant
            0 < rows@.len(),
            i <= rows@.len(),
            views(rows@) == app@.rows(),
            rows@.len() == app@.rows().len(),
            all == pending_lines(app@),
            views(out@) == all.take(i as int),
        decreases rows@.len() - i,
    {
        let item = Item {
            text: pending_words(&rows[i]),
            selected: app.focus == Focus::Pending && i == app.pending_sel,
        };
        proof {
            assert(app@.rows()[i as int] == rows@[i as int]@);
            lemma_views_push(out@, item);
            assert(all[i as int] == item@);
        }
        out.push(item);
        i = i + 1;
        assert(views(out@) =~= all.take(i as int));
    }
    assert(views(out@) =~= all);
    out
}

/// The lines of the log that fit, latest first.
pub open spec fn event_rows(events: Seq<AuthEventView>, max: int) -> Seq<Seq<char>> {
    let n = if events.len() < max {
        events.len() as int
    } else {
        max
    };
    Seq::new(n as nat, |i: int| event_text(events[events.len() - 1 - i]))
}

/// The lines of the log that fit, latest first.
pub fn event_items(app: &App, max: usize) -> (r: Vec<String>)
    ensures
        texts(r@) == event_rows(app@.events, max as int),
{
    let ghost all = event_rows(app@.events, max as int);
    let total = app.events.len();
    let n = if total < max {
        total
    } else {
        max
    };
    let mut out: Vec<String> = Vec::new();
    let mut i: usize = 0;
    while i < n
        invariant
            i <= n <= app.events@.len(),
            total == app.events@.len(),
            n == all.len(),
            all == event_rows(app@.events, max as int),
            texts(out@) == all.take(i as int),
        decreases n - i,
    {
        let ghost before = out@;
        let line = format_event(&app.events[total - 1 - i]);
        assert(app@.events[total - 1 - i] == app.events@[total - 1 - i]@);
        out.push(line);
        assert(texts(out@) =~= texts(before).push(line@));
        assert(all[i as int] == line@);
        i = i + 1;
        assert(texts(out@) =~= all.take(i as int));
    }
    assert(texts(out@) =~= all);
    out
}

/// The last line: the message, or else what the keys do.
pub open spec fn footer(message: Option<Seq<char>>) -> Seq<char> {
    match message {
        Some(m) => " "@ + m + " "@,
        None => " [a]dd forward  [d]elete  [Enter]expand  [Tab]focus  [t]rust  [y/n]approve  [w]eb ui  [q]uit "@,
    }
}

/// Writes the last line.
pub fn footer_text(app: &App) -> (r: String)
    ensures
        r@ == footer(app@.message),
{
    match &app.message {
        Some(m) => text::cat3(" ", m.as_str(), " "),
        None => text::copy(
            " [a]dd forward  [d]elete  [Enter]expand  [Tab]focus  [t]rust  [y/n]approve  [w]eb ui  [q]uit ",
        ),
    }
}

/// A field of the form; the one that the keys go to is marked.
pub open spec fn field_row(label: Seq<char>, value: Seq<char>, focused: bool) -> Seq<char> {
    if focused {
        "▶ "@ + label + ": "@ + value + "_"@
    } else {
        "  "@ + label + ": "@ + value + ""@
    }
}

/// Writes a field of the form.
pub fn field_line(label: &str, value: &str, focused: bool) -> (r: String)
    ensures
        r@ == field_row(label@, value@, focused),
{
    let marker = if focused {
        "▶ "
    } else {
        "  "
    };
    let cursor = if focused {
        "_"
    } else {
        ""
    };
    let mut out = text::cat4(marker, label, ": ", value);
    out.append(cursor);
    out
}

/// The lines of the form, each with whether the keys go to it.
pub open spec fn form_rows(form: AddFormView) -> Seq<ItemView> {
    let proto = if form.proto_tcp {
        "( TCP )  UDP "@
    } else {
        " TCP  ( UDP )"@
    };
    let on_proto = form.field == AddField::Proto;
    let on_local = form.field == AddField::Local;
    let on_remote = form.field == AddField::Remote;
    seq![
        ItemView { text: field_row("Proto"@, proto, on_proto), selected: on_proto },
        ItemView { text: field_row("Local "@, form.local, on_local), selected: on_local },
        ItemView { text: field_row("Remote"@, form.remote, on_remote), selected: on_remote },
    ]
}

/// Writes the lines of the form.
pub fn form_items(form: &AddForm) -> (r: Vec<Item>)
    ensures
        views(r@) == form_rows(form@),
{
    let proto = if form.proto_tcp {
        "( TCP )  UDP "
    } else {
        " TCP  ( UDP )"
    };
    let on_proto = form.field == AddField::Proto;
    let on_local = form.field == AddField::Local;
    let on_remote = form.field == AddField::Remote;
    let mut out: Vec<Item> = Vec::new();
    out.push(Item { text: field_line("Proto", proto, on_proto), selected: on_proto });
    out.push(
        Item { text: field_line("Local ", form.local.as_str(), on_local), selected: on_local },
    );
    out.push(
        Item { text: field_line("Remote", form.remote.as_str(), on_remote), selected: on_remote },
    );
    assert(views(out@) =~= form_rows(form@));
    out
}

/// The lines of the choice of a peer.
pub open spec fn peer_lines(sel: PeerSelectView) -> Seq<ItemView> {
    Seq::new(
        sel.peers.len(),
        |i: int| ItemView { text: short(sel.peers[i]), selected: i == sel.sel },
    )
}

/// Writes the lines of the choice of a peer.
pub fn peer_items(sel: &PeerSelect) -> (r: Vec<Item>)
    ensures
        views(r@) == peer_lines(sel@),
{
    let peers = sel.peers();
    let selected = sel.selected();
    let ghost all = peer_lines(sel@);
    assert(texts(peers@).len() == peers@.len());
    let mut out: Vec<Item> = Vec::new();
    let mut i: usize = 0;
    while i < peers.len()
        invariant
            i <= peers@.len(),
            peers@.len() == all.len(),
            texts(peers@) == sel@.peers,
            selected == sel@.sel,
            all == peer_lines(sel@),
            views(out@) == all.take(i as int),
        decreases peers@.len() - i,
    {
        let item = Item { text: short_id(peers[i].as_str()), selected: i == selected };
        proof {
            assert(sel@.peers[i as int] == peers@[i as int]@);
            lemma_views_push(out@, item);
            assert(all[i as int] == item@);
        }
        out.push(item);
        i = i + 1;
        assert(views(out@) =~= all.take(i as int));
    }
    assert(views(out@) =~= all);
    out
}

/// The title of the choice of a peer for a target.
pub open spec fn peer_heading(target: Seq<char>) -> Seq<char> {
    " Send '"@ + target + "' to ([Enter]選択 [Esc]中止) "@
}

/// The title of the choice of a peer.
pub fn peer_title(sel: &PeerSelect) -> (r: String)
    ensures
        r@ == peer_heading(sel@.draft.target),
{
    text::cat3(" Send '", sel.draft().target.as_str(), "' to ([Enter]選択 [Esc]中止) ")
}

/// The text for a remembered decision.
pub open spec fn trust_text(e: TrustEntryView) -> Seq<char> {
    trust_label(e.decision) + " "@ + short(e.key.peer_id) + " → "@ + e.key.forward_key
}

/// The lines of what is remembered.
pub open spec fn trust_rows(trust: Seq<TrustEntryView>, sel: int) -> Seq<ItemView> {
    if trust.len() == 0 {
        seq![ItemView { text: "(empty)"@, selected: false }]
    } else {
        Seq::new(
            trust.len(),
            |i: int| ItemView { text: trust_text(trust[i]), selected: i == sel },
        )
    }
}

/// Writes the lines of what is remembered.
pub fn trust_items(app: &App, sel: usize) -> (r: Vec<Item>)
    ensures
        views(r@) == trust_rows(app@.trust, sel as int),
{
    let ghost all = trust_rows(app@.trust, sel as int);
    if app.trust.len() == 0 {
        return single("(empty)");
    }
    let mut out: Vec<Item> = Vec::new();
    let mut i: usize = 0;
    while i < app.trust.len()
        invariant
            0 < app.trust@.len(),
            i <= app.trust@.len(),
            all == trust_rows(app@.trust, sel as int),
            views(out@) == all.take(i as int),
        decreases app.trust@.len() - i,
    {
        let e = &app.trust[i];
        let item = Item {
            text: {
                let id = short_id(e.key.peer_id.as_str());
                let mut line = text::cat4(trust_name(e.decision), " ", id.as_str(), " → ");
                line.append(e.key.forward_key.as_str());
                line
            },
            selected: i == sel,
        };
        proof {
            assert(app@.trust[i as int] == e@);
            lemma_views_push(out@, item);
            assert(all[i as int] == item@);
        }
        out.push(item);
        i = i + 1;
        assert(views(out@) =~= all.take(i as int));
    }
    assert(views(out@) =~= all);
    out
}

/// At most one line of what waits is marked: the selected one, and only where the
/// pane has the focus.
pub proof fn law_one_line_is_marked(app: AppView, i: int, j: int)
    requires
        0 <= i < pending_lines(app).len(),
        0 <= j < pending_lines(app).len(),
        pending_lines(app)[i].selected,
        pending_lines(app)[j].selected,
    ensures
        i == j,
        app.focus == Focus::Pending,
        i == app.pending_sel,
{
}

/// With nothing expanded, the table has one line for each forward.
pub proof fn law_one_line_for_each_forward(app: AppView, n: int)
    requires
        !app.expanded,
        0 <= n <= app.forwards.len(),
    ensures
        app.forward_rows(n).len() == n,
        forall|i: int|
            0 <= i < n ==> #[trigger] app.forward_rows(n)[i] == forward_row(
                app.forwards[i],
                app.selects_forward(i),
            ),
    decreases n,
{
    if n > 0 {
        law_one_line_for_each_forward(app, n - 1);
    }
}

/// The first line counts each forward once, under its own direction, and all that waits, and
/// shows the room and the peers by the beginnings of their ids.
pub proof fn law_header_counts_forwards(
    app: AppView,
    room: Seq<char>,
    forwards: Seq<ForwardStatusView>,
    s: ForwardStatusView,
)
    ensures
        served(Seq::empty()) == 0,
        served(forwards.push(s)) == served(forwards) + if s.spec.direction is Serve {
            1int
        } else {
            0
        },
        ({
            let serve = served(app.forwards);
            header(app, room) == " p2p — room: "@ + room + "   "@ + peers_text(app.peers)
                + "   serve: "@ + decimal(serve) + " / conn: "@ + decimal(
                app.forwards.len() - serve,
            ) + "   pending: "@ + decimal(
                (app.forward_pending.len() + app.pending.len()) as int,
            ) + " "@
        }),
        app.peers.len() == 0 ==> peers_text(app.peers) == "peers: 0 (waiting…)"@,
        app.peers.len() > 0 ==> peers_text(app.peers) == "peers: "@ + decimal(
            app.peers.len() as int,
        ) + " ["@ + joined(Seq::new(app.peers.len(), |i: int| short(app.peers[i])), ", "@) + "]"@,
{
    reveal(Seq::filter);
    assert(forwards.push(s).drop_last() =~= forwards);
    assert(app.rows().len() == app.forward_pending.len() + app.pending.len());
    assert(app.peers.map_values(|p: Seq<char>| short(p)) =~= Seq::new(
        app.peers.len(),
        |i: int| short(app.peers[i]),
    ));
}

/// The line of a forward shows what it is and its own counters, and the line of a peer that
/// peer's.
pub proof fn law_rows_show_their_counters(
    s: ForwardStatusView,
    p: PeerMetricsView,
    selected: bool,
)
    ensures
        forward_row(s, selected) matches ForwardRowView::Forward {
            selected: marked,
            role,
            key,
            proto,
            endpoint,
            state,
            conns,
            bytes_in,
            bytes_out,
        } && marked == selected && key == s.key && role == role_word(s.spec.direction) && proto
            == proto_word(s.spec.proto) && endpoint == ends_of(s.spec) && state == state_word(
            s.state,
        ) && conns == decimal(s.active_conns as int) && bytes_in == s.bytes_in && bytes_out
            == s.bytes_out,
        peer_row(p) matches ForwardRowView::Peer { label, conns, bytes_in, bytes_out } && label
            == "  └ "@ + short(p.peer_id) && conns == decimal(p.active_conns as int) && bytes_in
            == p.bytes_in && bytes_out == p.bytes_out,
{
}

/// How many lines follow an expanded forward: one for each peer, or one that says that there
/// are none.
pub open spec fn lines_below(s: ForwardStatusView) -> int {
    if s.peers.len() == 0 {
        1
    } else {
        s.peers.len() as int
    }
}

/// The expanded forward is followed by the lines of its peers, in their order; every other
/// forward has its one line, and all of them keep their order.
pub proof fn law_expanded_forward_shows_its_peers(app: AppView, n: int, i: int)
    requires
        app.expanded,
        app.focus is Forwards,
        0 <= i == app.forwards_sel,
        0 <= n <= app.forwards.len(),
    ensures
        n <= i ==> app.forward_rows(n).len() == n,
        n > i ==> app.forward_rows(n).len() == n + lines_below(app.forwards[i]),
        forall|j: int|
            0 <= j < n && j <= i ==> #[trigger] app.forward_rows(n)[j] == forward_row(
                app.forwards[j],
                j == i,
            ),
        n > i && app.forwards[i].peers.len() == 0 ==> app.forward_rows(n)[i + 1] is NoPeers,
        n > i ==> forall|k: int|
            0 <= k < app.forwards[i].peers.len() ==> app.forward_rows(n)[i + 1 + k] == peer_row(
                #[trigger] app.forwards[i].peers[k],
            ),
        forall|j: int|
            i < j < n ==> app.forward_rows(n)[j + lines_below(app.forwards[i])] == forward_row(
                #[trigger] app.forwards[j],
                false,
            ),
    decreases n,
{
    if n > 0 {
        law_expanded_forward_shows_its_peers(app, n - 1, i);
    }
}

/// Each thing that waits has its line, in the order of the list; where nothing waits, the one
/// line says so. A proposal tells what the peer wants, a connection where it is to go.
pub proof fn law_what_waits_is_shown(
    app: AppView,
    i: int,
    f: crate::negotiation::IncomingForwardView,
    p: crate::auth::pending::PendingView,
)
    ensures
        app.rows().len() == 0 ==> pending_lines(app).len() == 1 && pending_lines(app)[0].text
            == "(none)"@ && !pending_lines(app)[0].selected,
        app.rows().len() > 0 ==> pending_lines(app).len() == app.rows().len(),
        0 <= i < app.rows().len() ==> pending_lines(app)[i].text == pending_text(app.rows()[i])
            && (pending_lines(app)[i].selected <==> app.focus is Pending && i == app.pending_sel),
        pending_text(RowView::Forward(f)) == "[FWD] "@ + short(f.peer_id) + " wants "@ + upper_case(
            f.proto,
        ) + " "@ + f.remote_addr + " (you become the server)"@,
        pending_text(RowView::Conn(p)) == "[CONN] "@ + short(p.request.peer_id) + " → "@
            + p.request.forward_key + " ("@ + p.request.target_addr + ")"@,
{
}

/// The log shows the latest events, the last one first, as many as fit.
pub proof fn law_latest_events_are_shown(events: Seq<AuthEventView>, max: int, i: int)
    requires
        max >= 0,
    ensures
        event_rows(events, max).len() <= max,
        event_rows(events, max).len() == if events.len() < max {
            events.len() as int
        } else {
            max
        },
        0 <= i < event_rows(events, max).len() ==> event_rows(events, max)[i] == event_text(
            events[events.len() - 1 - i],
        ),
{
}

/// The last line is the message, with a space at either side, or else the help on the keys.
/// The title of the choice of a peer names the target.
pub proof fn law_message_takes_the_last_line(m: Seq<char>, target: Seq<char>)
    ensures
        footer(Some(m)) == " "@ + m + " "@,
        footer(None)
            == " [a]dd forward  [d]elete  [Enter]expand  [Tab]focus  [t]rust  [y/n]approve  [w]eb ui  [q]uit "@,
        peer_heading(target) == " Send '"@ + target + "' to ([Enter]選択 [Esc]中止) "@,
{
}

/// The form shows the protocol and both addresses as they were typed, and marks the field
/// that the keys go to and no other.
pub proof fn law_form_marks_its_field(form: AddFormView)
    ensures
        ({
            let rows = form_rows(form);
            &&& rows.len() == 3
            &&& rows[0].selected <==> form.field is Proto
            &&& rows[1].selected <==> form.field is Local
            &&& rows[2].selected <==> form.field is Remote
            &&& rows[0].text == field_row(
                "Proto"@,
                if form.proto_tcp {
                    "( TCP )  UDP "@
                } else {
                    " TCP  ( UDP )"@
                },
                rows[0].selected,
            )
            &&& rows[1].text == field_row("Local "@, form.local, rows[1].selected)
            &&& rows[2].text == field_row("Remote"@, form.remote, rows[2].selected)
        }),
        forall|label: Seq<char>, value: Seq<char>| #[trigger]
            field_row(label, value, true) == "▶ "@ + label + ": "@ + value + "_"@,
        forall|label: Seq<char>, value: Seq<char>| #[trigger]
            field_row(label, value, false) == "  "@ + label + ": "@ + value,
{
    reveal_strlit("");
    assert forall|label: Seq<char>, value: Seq<char>| #[trigger]
        field_row(label, value, false) == "  "@ + label + ": "@ + value by {
        assert("  "@ + label + ": "@ + value + ""@ =~= "  "@ + label + ": "@ + value);
    }
}

/// Each peer to choose from, and each remembered decision, has its line in the order of the
/// list, and the selected one is marked.
pub proof fn law_choices_are_listed(
    sel: PeerSelectView,
    trust: Seq<TrustEntryView>,
    chosen: int,
    i: int,
)
    ensures
        peer_lines(sel).len() == sel.peers.len(),
        0 <= i < sel.peers.len() ==> peer_lines(sel)[i].text == short(sel.peers[i]) && (peer_lines(
            sel,
        )[i].selected <==> i == sel.sel),
        trust.len() == 0 ==> trust_rows(trust, chosen) == seq![
            ItemView { text: "(empty)"@, selected: false },
        ],
        trust.len() > 0 ==> trust_rows(trust, chosen).len() == trust.len(),
        0 <= i < trust.len() ==> trust_rows(trust, chosen)[i].text == trust_label(trust[i].decision)
            + " "@ + short(trust[i].key.peer_id) + " → "@ + trust[i].key.forward_key && (trust_rows(
            trust,
            chosen,
        )[i].selected <==> i == chosen),
{
}

} // verus!
