//! What the terminal shows, and what the keys do.
use vstd::prelude::*;

use crate::auth::audit::{AuthEvent, AuthEventView};
use crate::auth::pending::{place_of, PendingAuthorization, PendingView};
use crate::auth::trust::{is_listing, TrustEntry, TrustEntryView, TrustKeyView};
use crate::auth::AuthDecision;
use crate::controller::{statuses, ForwardStatus, ForwardStatusView, RemovedForward};
use crate::identity::is_uuid;
use crate::model::{lemma_views_push, opt_view, views};
use crate::negotiation::{
    IncomingForward, IncomingForwardView, OutgoingForward, OutgoingForwardView,
};
use crate::number::{decimal, decimal_u64, i32_of};
use crate::rtc::manager::payload::Outgoing;
use crate::session::{
    all_applied, answer_words, finish_resolve, finish_trust_removal, parse_addr_port,
    request_message,
    AppliedOutcome, ForwardReply, SessionContext, SessionError, SessionView,
};
use crate::text;
use crate::text::{after_last, texts, trimmed};
use crate::text_map::sorted;

verus! {

/// A key of the keyboard.
#[derive(Debug, Clone, Copy, PartialEq, Eq, Structural)]
pub enum Key {
    Char(char),
    Enter,
    Esc,
    Tab,
    Backspace,
    Delete,
    Up,
    Down,
    Left,
    Right,
    Other,
}

/// The pane that the keys go to.
#[derive(Debug, Clone, Copy, PartialEq, Eq, Structural)]
pub enum Focus {
    Forwards,
    Pending,
}

impl Focus {
    /// The other pane.
    pub open spec fn other(self) -> Focus {
        match self {
            Focus::Forwards => Focus::Pending,
            Focus::Pending => Focus::Forwards,
        }
    }
}

/// A field of the form for a new forward. This node always listens at the local
/// address and reaches the remote one through the peer.
#[derive(Debug, Clone, Copy, PartialEq, Eq, Structural)]
pub enum AddField {
    Proto,
    Local,
    Remote,
}

impl AddField {
    /// The field below.
    pub open spec fn below(self) -> AddField {
        match self {
            AddField::Proto => AddField::Local,
            AddField::Local => AddField::Remote,
            AddField::Remote => AddField::Proto,
        }
    }

    /// The field above.
    pub open spec fn above(self) -> AddField {
        match self {
            AddField::Proto => AddField::Remote,
            AddField::Local => AddField::Proto,
            AddField::Remote => AddField::Local,
        }
    }
}

/// The field below.
pub fn next_field(f: AddField) -> (r: AddField)
    ensures
        r == f.below(),
{
    match f {
        AddField::Proto => AddField::Local,
        AddField::Local => AddField::Remote,
        AddField::Remote => AddField::Proto,
    }
}

/// The field above.
pub fn prev_field(f: AddField) -> (r: AddField)
    ensures
        r == f.above(),
{
    match f {
        AddField::Proto => AddField::Remote,
        AddField::Local => AddField::Proto,
        AddField::Remote => AddField::Local,
    }
}

/// Going down and up again leads back, and so does going down three times.
pub proof fn law_fields_are_a_cycle(f: AddField)
    ensures
        f.below().above() == f,
        f.above().below() == f,
        f.below().below().below() == f,
{
}

/// The form for a new forward.
#[derive(Debug, PartialEq, Eq)]
pub struct AddForm {
    pub proto_tcp: bool,
    pub local: String,
    pub remote: String,
    pub field: AddField,
}

/// The model of `AddForm`.
#[verifier::ext_equal]
pub struct AddFormView {
    pub proto_tcp: bool,
    pub local: Seq<char>,
    pub remote: Seq<char>,
    pub field: AddField,
}

impl View for AddForm {
    type V = AddFormView;

    open spec fn view(&self) -> AddFormView {
        AddFormView {
            proto_tcp: self.proto_tcp,
            local: self.local@,
            remote: self.remote@,
            field: self.field,
        }
    }
}

/// The empty form.
pub open spec fn empty_form() -> AddFormView {
    AddFormView {
        proto_tcp: true,
        local: Seq::empty(),
        remote: Seq::empty(),
        field: AddField::Proto,
    }
}

impl Default for AddForm {
    /// The empty form.
    fn default() -> (r: Self)
        ensures
            r@ == empty_form(),
    {
        let r = AddForm {
            proto_tcp: true,
            local: String::new(),
            remote: String::new(),
            field: AddField::Proto,
        };
        assert(r@ =~= empty_form());
        r
    }
}

/// The choice of the peer that a new forward is proposed to.
pub struct PeerSelect {
    peers: Vec<String>,
    sel: usize,
    draft: OutgoingForward,
}

/// The model of `PeerSelect`.
#[verifier::ext_equal]
pub struct PeerSelectView {
    pub peers: Seq<Seq<char>>,
    pub sel: int,
    pub draft: OutgoingForwardView,
}

impl View for PeerSelect {
    type V = PeerSelectView;

    closed spec fn view(&self) -> PeerSelectView {
        PeerSelectView { peers: texts(self.peers@), sel: self.sel as int, draft: self.draft@ }
    }
}

impl PeerSelectView {
    /// One of the peers is selected.
    pub open spec fn wf(self) -> bool {
        0 <= self.sel < self.peers.len()
    }
}

impl PeerSelect {
    #[verifier::type_invariant]
    spec fn inv(self) -> bool {
        self.sel < self.peers@.len()
    }

    /// A choice among peers; the first is selected.
    pub fn new(peers: Vec<String>, draft: OutgoingForward) -> (r: Self)
        requires
            peers@.len() > 0,
        ensures
            r@ == (PeerSelectView { peers: texts(peers@), sel: 0, draft: draft@ }),
    {
        PeerSelect { peers, sel: 0, draft }
    }

    /// The peers.
    pub fn peers(&self) -> (r: &Vec<String>)
        ensures
            texts(r@) == self@.peers,
    {
        &self.peers
    }

    /// The place of the selected peer.
    pub fn selected(&self) -> (r: usize)
        ensures
            r == self@.sel,
            self@.wf(),
    {
        proof {
            use_type_invariant(self);
        }
        self.sel
    }

    /// The forward that is to be proposed.
    pub fn draft(&self) -> (r: &OutgoingForward)
        ensures
            r@ == self@.draft,
    {
        &self.draft
    }

    fn moved(self, down: bool) -> (r: Self)
        ensures
            r@ == (PeerSelectView {
                sel: stepped(self@.sel, self@.peers.len() as int, down),
                ..self@
            }),
    {
        proof {
            use_type_invariant(&self);
        }
        let sel = step(self.sel, self.peers.len(), down);
        PeerSelect { peers: self.peers, sel, draft: self.draft }
    }

    fn into_draft(self) -> (r: OutgoingForward)
        ensures
            self@.wf(),
            r@ == (OutgoingForwardView { peer_id: self@.peers[self@.sel], ..self@.draft }),
    {
        proof {
            use_type_invariant(&self);
        }
        let peer_id = text::copy(self.peers[self.sel].as_str());
        let mut draft = self.draft;
        draft.peer_id = peer_id;
        draft
    }
}

/// The place after a step down or up in a list that goes round.
pub open spec fn stepped(sel: int, len: int, down: bool) -> int {
    if down {
        (sel + 1) % len
    } else {
        (sel - 1) % len
    }
}

/// A step down or up in a list that goes round.
fn step(sel: usize, len: usize, down: bool) -> (r: usize)
    requires
        len > 0,
    ensures
        r == stepped(sel as int, len as int, down),
        r < len,
{
    let at = sel % len;
    let ghost n = len as int;
    proof {
        let s = sel as int;
        vstd::arithmetic::div_mod::lemma_add_mod_noop(s, 1, n);
        vstd::arithmetic::div_mod::lemma_sub_mod_noop(s, 1, n);
        vstd::arithmetic::div_mod::lemma_add_mod_noop(at as int, 1, n);
        vstd::arithmetic::div_mod::lemma_sub_mod_noop(at as int, 1, n);
        vstd::arithmetic::div_mod::lemma_mod_twice(s, n);
        if at + 1 < n {
            vstd::arithmetic::div_mod::lemma_small_mod((at + 1) as nat, n as nat);
        } else {
            vstd::arithmetic::div_mod::lemma_mod_self_0(n);
        }
        if at >= 1 {
            vstd::arithmetic::div_mod::lemma_small_mod((at - 1) as nat, n as nat);
        } else {
            vstd::arithmetic::div_mod::lemma_mod_add_multiples_vanish(-1, n);
            vstd::arithmetic::div_mod::lemma_small_mod((n - 1) as nat, n as nat);
        }
    }
    if down {
        if at == len - 1 {
            0
        } else {
            at + 1
        }
    } else if at == 0 {
        len - 1
    } else {
        at - 1
    }
}

/// In a list that goes round, a step up undoes a step down, and the selected
/// place stays in the list.
pub proof fn law_steps_go_round(sel: int, len: int)
    requires
        0 <= sel < len,
    ensures
        0 <= stepped(sel, len, true) < len,
        0 <= stepped(sel, len, false) < len,
        stepped(stepped(sel, len, true), len, false) == sel,
        stepped(stepped(sel, len, false), len, true) == sel,
{
    if sel + 1 < len {
        vstd::arithmetic::div_mod::lemma_small_mod((sel + 1) as nat, len as nat);
    } else {
        vstd::arithmetic::div_mod::lemma_mod_self_0(len);
    }
    vstd::arithmetic::div_mod::lemma_small_mod(sel as nat, len as nat);
    vstd::arithmetic::div_mod::lemma_mod_add_multiples_vanish(-1, len);
    vstd::arithmetic::div_mod::lemma_small_mod((len - 1) as nat, len as nat);
    vstd::arithmetic::div_mod::lemma_mod_self_0(len);
    if sel >= 1 {
        vstd::arithmetic::div_mod::lemma_small_mod((sel - 1) as nat, len as nat);
    }
}

/// A row of the pane for what waits.
#[derive(Debug, PartialEq, Eq)]
pub enum PendingRow {
    Conn(PendingAuthorization),
    Forward(IncomingForward),
}

/// The model of `PendingRow`.
pub enum RowView {
    Conn(PendingView),
    Forward(IncomingForwardView),
}

impl View for PendingRow {
    type V = RowView;

    open spec fn view(&self) -> RowView {
        match self {
            PendingRow::Conn(item) => RowView::Conn(item@),
            PendingRow::Forward(item) => RowView::Forward(item@),
        }
    }
}

/// What lies over the panes.
pub enum Popup {
    Closed,
    Add(AddForm),
    SelectPeer(PeerSelect),
    Trust(usize),
}

/// The model of `Popup`.
pub enum PopupView {
    Closed,
    Add(AddFormView),
    SelectPeer(PeerSelectView),
    Trust(int),
}

impl View for Popup {
    type V = PopupView;

    open spec fn view(&self) -> PopupView {
        match self {
            Popup::Closed => PopupView::Closed,
            Popup::Add(form) => PopupView::Add(form@),
            Popup::SelectPeer(sel) => PopupView::SelectPeer(sel@),
            Popup::Trust(sel) => PopupView::Trust(*sel as int),
        }
    }
}

/// What a key asks the session to do.
pub enum UiAction {
    Nothing,
    RemoveForward(String),
    ResolveAuth { id: u64, decision: AuthDecision },
    ResolveForward { id: u64, allow: bool },
    /// Propose a forward to a peer.
    Ask(OutgoingForward),
    RemoveTrust { peer_id: String, forward_key: String },
    OpenWeb,
}

/// The model of `UiAction`.
pub enum ActionView {
    Nothing,
    RemoveForward(Seq<char>),
    ResolveAuth { id: u64, decision: AuthDecision },
    ResolveForward { id: u64, allow: bool },
    Ask(OutgoingForwardView),
    RemoveTrust { peer_id: Seq<char>, forward_key: Seq<char> },
    OpenWeb,
}

impl View for UiAction {
    type V = ActionView;

    open spec fn view(&self) -> ActionView {
        match self {
            UiAction::Nothing => ActionView::Nothing,
            UiAction::RemoveForward(key) => ActionView::RemoveForward(key@),
            UiAction::ResolveAuth { id, decision } => ActionView::ResolveAuth {
                id: *id,
                decision: *decision,
            },
            UiAction::ResolveForward { id, allow } => ActionView::ResolveForward {
                id: *id,
                allow: *allow,
            },
            UiAction::Ask(draft) => ActionView::Ask(draft@),
            UiAction::RemoveTrust { peer_id, forward_key } => ActionView::RemoveTrust {
                peer_id: peer_id@,
                forward_key: forward_key@,
            },
            UiAction::OpenWeb => ActionView::OpenWeb,
        }
    }
}

/// What the terminal shows.
pub struct App {
    pub focus: Focus,
    pub popup: Popup,
    pub forwards: Vec<ForwardStatus>,
    pub pending: Vec<PendingAuthorization>,
    pub forward_pending: Vec<IncomingForward>,
    pub events: Vec<AuthEvent>,
    pub trust: Vec<TrustEntry>,
    pub peers: Vec<String>,
    pub forwards_sel: usize,
    pub pending_sel: usize,
    pub expanded: bool,
    pub message: Option<String>,
    pub should_quit: bool,
    /// Where the web front end is reached, once it was started.
    pub web_url: Option<String>,
}

/// The model of `App`.
#[verifier::ext_equal]
pub struct AppView {
    pub focus: Focus,
    pub popup: PopupView,
    pub forwards: Seq<ForwardStatusView>,
    pub pending: Seq<PendingView>,
    pub forward_pending: Seq<IncomingForwardView>,
    pub events: Seq<AuthEventView>,
    pub trust: Seq<TrustEntryView>,
    pub peers: Seq<Seq<char>>,
    pub forwards_sel: int,
    pub pending_sel: int,
    pub expanded: bool,
    pub message: Option<Seq<char>>,
    pub should_quit: bool,
    pub web_url: Option<Seq<char>>,
}

impl View for App {
    type V = AppView;

    open spec fn view(&self) -> AppView {
        AppView {
            focus: self.focus,
            popup: self.popup@,
            forwards: views(self.forwards@),
            pending: views(self.pending@),
            forward_pending: views(self.forward_pending@),
            events: views(self.events@),
            trust: views(self.trust@),
            peers: texts(self.peers@),
            forwards_sel: self.forwards_sel as int,
            pending_sel: self.pending_sel as int,
            expanded: self.expanded,
            message: opt_view(self.message),
            should_quit: self.should_quit,
            web_url: opt_view(self.web_url),
        }
    }
}

/// Whether a decision lets a proposal in.
pub open spec fn lets_in(decision: AuthDecision) -> bool {
    decision == AuthDecision::Allow || decision == AuthDecision::AllowAlways
}

impl AddFormView {
    /// The form after a key other than those that leave it.
    pub open spec fn edited(self, key: Key) -> AddFormView {
        let on_proto = self.field == AddField::Proto;
        match key {
            Key::Tab | Key::Down => AddFormView { field: self.field.below(), ..self },
            Key::Up => AddFormView { field: self.field.above(), ..self },
            Key::Left | Key::Right => if on_proto {
                AddFormView { proto_tcp: !self.proto_tcp, ..self }
            } else {
                self
            },
            Key::Backspace => match self.field {
                AddField::Local => AddFormView { local: without_last(self.local), ..self },
                AddField::Remote => AddFormView { remote: without_last(self.remote), ..self },
                AddField::Proto => self,
            },
            Key::Char(c) => match self.field {
                AddField::Local => AddFormView { local: self.local.push(c), ..self },
                AddField::Remote => AddFormView { remote: self.remote.push(c), ..self },
                AddField::Proto => if c == ' ' {
                    AddFormView { proto_tcp: !self.proto_tcp, ..self }
                } else {
                    self
                },
            },
            _ => self,
        }
    }

    /// Why the form cannot be sent, if so.
    pub open spec fn fault(self) -> Option<Seq<char>> {
        if trimmed(self.local).len() == 0 || trimmed(self.remote).len() == 0 {
            Some("local と remote の ip:port を入力"@)
        } else if port_of(trimmed(self.local)) is None {
            Some("local は ip:port 形式"@)
        } else if port_of(trimmed(self.remote)) is None {
            Some("remote は ip:port 形式"@)
        } else {
            None
        }
    }

    /// The forward that the form stands for, for a peer.
    pub open spec fn draft_for(self, peer_id: Seq<char>) -> OutgoingForwardView {
        let proto = if self.proto_tcp {
            "tcp"@
        } else {
            "udp"@
        };
        OutgoingForwardView {
            peer_id,
            proto,
            listen_port: port_of(trimmed(self.local))->0,
            local_addr: trimmed(self.local),
            remote_addr: trimmed(self.remote),
            target: proto + ":"@ + trimmed(self.remote),
        }
    }
}

/// The port of an address.
pub open spec fn port_of(addr: Seq<char>) -> Option<i32> {
    i32_of(after_last(addr, ':'))
}

/// A text without its last character.
pub open spec fn without_last(s: Seq<char>) -> Seq<char> {
    if s.len() == 0 {
        s
    } else {
        s.drop_last()
    }
}

impl AppView {
    /// The rows of what waits: the proposals, then the connections.
    pub open spec fn rows(self) -> Seq<RowView> {
        self.forward_pending.map_values(|f: IncomingForwardView| RowView::Forward(f))
            + self.pending.map_values(|p: PendingView| RowView::Conn(p))
    }

    /// Nothing but the popup changes.
    pub open spec fn under(self, popup: PopupView) -> AppView {
        AppView { popup, ..self }
    }

    /// Nothing but the message changes.
    pub open spec fn saying(self, message: Seq<char>) -> AppView {
        AppView { message: Some(message), ..self }
    }

    /// The web front end is reached at an address.
    pub open spec fn reached(self, url: Seq<char>, opened: bool, copied: bool) -> AppView {
        (AppView { web_url: Some(url), ..self }).saying(
            "web ui: "@ + url + " ("@ + web_note(opened, copied) + ")"@,
        )
    }

    /// The selection after a step in the pane that has the focus.
    pub open spec fn moved(self, down: bool) -> AppView {
        match self.focus {
            Focus::Forwards => if self.forwards.len() == 0 {
                self
            } else {
                AppView {
                    forwards_sel: stepped(self.forwards_sel, self.forwards.len() as int, down),
                    ..self
                }
            },
            Focus::Pending => if self.rows().len() == 0 {
                self
            } else {
                AppView {
                    pending_sel: stepped(self.pending_sel, self.rows().len() as int, down),
                    ..self
                }
            },
        }
    }

    /// What the selected row asks for with a decision.
    pub open spec fn resolution(self, decision: AuthDecision) -> ActionView {
        if self.pending_sel < self.rows().len() {
            match self.rows()[self.pending_sel] {
                RowView::Conn(item) => ActionView::ResolveAuth { id: item.id, decision },
                RowView::Forward(item) => ActionView::ResolveForward {
                    id: item.id,
                    allow: lets_in(decision),
                },
            }
        } else {
            ActionView::Nothing
        }
    }

    /// What a key does where nothing lies over the panes.
    pub open spec fn main_key(self, key: Key) -> (AppView, ActionView) {
        let on_forwards = self.focus == Focus::Forwards;
        match key {
            Key::Tab => (AppView { focus: self.focus.other(), ..self }, ActionView::Nothing),
            Key::Up => (self.moved(false), ActionView::Nothing),
            Key::Down => (self.moved(true), ActionView::Nothing),
            Key::Enter => if on_forwards {
                (AppView { expanded: !self.expanded, ..self }, ActionView::Nothing)
            } else {
                (self, ActionView::Nothing)
            },
            Key::Char(c) => if c == 'q' {
                (AppView { should_quit: true, ..self }, ActionView::Nothing)
            } else if c == 'a' {
                (self.under(PopupView::Add(empty_form())), ActionView::Nothing)
            } else if c == 't' {
                (self.under(PopupView::Trust(0)), ActionView::Nothing)
            } else if c == 'k' {
                (self.moved(false), ActionView::Nothing)
            } else if c == 'j' {
                (self.moved(true), ActionView::Nothing)
            } else if c == 'w' {
                (self, ActionView::OpenWeb)
            } else if on_forwards && c == ' ' {
                (AppView { expanded: !self.expanded, ..self }, ActionView::Nothing)
            } else if on_forwards && c == 'd' {
                (
                    self,
                    if self.forwards_sel < self.forwards.len() {
                        ActionView::RemoveForward(self.forwards[self.forwards_sel].key)
                    } else {
                        ActionView::Nothing
                    },
                )
            } else if !on_forwards && c == 'y' {
                (self, self.resolution(AuthDecision::Allow))
            } else if !on_forwards && c == 'Y' {
                (self, self.resolution(AuthDecision::AllowAlways))
            } else if !on_forwards && c == 'n' {
                (self, self.resolution(AuthDecision::Deny))
            } else if !on_forwards && c == 'N' {
                (self, self.resolution(AuthDecision::DenyAlways))
            } else {
                (self, ActionView::Nothing)
            },
            _ => (self, ActionView::Nothing),
        }
    }

    /// What sending the form does: with one peer the forward is proposed to it,
    /// with several one is chosen first. A form with a fault stays open.
    pub open spec fn submitted(self, form: AddFormView, peers: Seq<Seq<char>>) -> (
        AppView,
        ActionView,
    ) {
        match form.fault() {
            Some(fault) => (self.saying(fault).under(PopupView::Add(form)), ActionView::Nothing),
            None => if peers.len() == 0 {
                (
                    self.saying("接続中のピアがいません"@).under(PopupView::Add(form)),
                    ActionView::Nothing,
                )
            } else if peers.len() == 1 {
                (self, ActionView::Ask(form.draft_for(peers[0])))
            } else {
                (
                    self.under(
                        PopupView::SelectPeer(
                            PeerSelectView { peers, sel: 0, draft: form.draft_for(Seq::empty()) },
                        ),
                    ),
                    ActionView::Nothing,
                )
            },
        }
    }

    /// What a key does in the form.
    pub open spec fn add_key(self, key: Key, form: AddFormView, peers: Seq<Seq<char>>) -> (
        AppView,
        ActionView,
    ) {
        match key {
            Key::Esc => (self, ActionView::Nothing),
            Key::Enter => self.submitted(form, peers),
            _ => (self.under(PopupView::Add(form.edited(key))), ActionView::Nothing),
        }
    }

    /// What a key does in the choice of a peer.
    pub open spec fn peer_key(self, key: Key, sel: PeerSelectView) -> (AppView, ActionView) {
        let down = PeerSelectView { sel: stepped(sel.sel, sel.peers.len() as int, true), ..sel };
        let up = PeerSelectView { sel: stepped(sel.sel, sel.peers.len() as int, false), ..sel };
        match key {
            Key::Esc => (self, ActionView::Nothing),
            Key::Enter => (
                self,
                ActionView::Ask(
                    OutgoingForwardView { peer_id: sel.peers[sel.sel], ..sel.draft },
                ),
            ),
            Key::Up => (self.under(PopupView::SelectPeer(up)), ActionView::Nothing),
            Key::Down => (self.under(PopupView::SelectPeer(down)), ActionView::Nothing),
            Key::Char(c) => if c == 'k' {
                (self.under(PopupView::SelectPeer(up)), ActionView::Nothing)
            } else if c == 'j' {
                (self.under(PopupView::SelectPeer(down)), ActionView::Nothing)
            } else {
                (self.under(PopupView::SelectPeer(sel)), ActionView::Nothing)
            },
            _ => (self.under(PopupView::SelectPeer(sel)), ActionView::Nothing),
        }
    }

    /// What a key does in the list of what is remembered.
    pub open spec fn trust_key(self, key: Key, sel: int) -> (AppView, ActionView) {
        let n = self.trust.len() as int;
        let closes = key == Key::Esc || key == Key::Char('t') || key == Key::Char('q');
        let up = key == Key::Up || key == Key::Char('k');
        let down = key == Key::Down || key == Key::Char('j');
        let removes = key == Key::Delete || key == Key::Char('x');
        if closes {
            (self, ActionView::Nothing)
        } else if n > 0 && (up || down) {
            (self.under(PopupView::Trust(stepped(sel, n, down))), ActionView::Nothing)
        } else if n > 0 && removes {
            (
                self.under(
                    PopupView::Trust(
                        if sel > 0 {
                            sel - 1
                        } else {
                            sel
                        },
                    ),
                ),
                if sel < n {
                    ActionView::RemoveTrust {
                        peer_id: self.trust[sel].key.peer_id,
                        forward_key: self.trust[sel].key.forward_key,
                    }
                } else {
                    ActionView::Nothing
                },
            )
        } else {
            (self.under(PopupView::Trust(sel)), ActionView::Nothing)
        }
    }

    /// What a key does. A message is gone with the next key.
    pub open spec fn key_pressed(self, key: Key, ctrl: bool, peers: Seq<Seq<char>>) -> (
        AppView,
        ActionView,
    ) {
        let bare = AppView { message: None, popup: PopupView::Closed, ..self };
        if ctrl && key == Key::Char('c') {
            (AppView { should_quit: true, ..self }, ActionView::Nothing)
        } else {
            match self.popup {
                PopupView::Closed => bare.main_key(key),
                PopupView::Add(form) => bare.add_key(key, form, peers),
                PopupView::SelectPeer(sel) => bare.peer_key(key, sel),
                PopupView::Trust(sel) => bare.trust_key(key, sel),
            }
        }
    }
}

fn drop_last_char(s: &mut String)
    ensures
        final(s)@ == without_last(old(s)@),
{
    let _ = s.pop();
}

impl AddForm {
    fn edit(&mut self, key: Key)
        ensures
            final(self)@ == old(self)@.edited(key),
    {
        match key {
            Key::Tab | Key::Down => {
                self.field = next_field(self.field);
            },
            Key::Up => {
                self.field = prev_field(self.field);
            },
            Key::Left | Key::Right => if self.field == AddField::Proto {
                self.proto_tcp = !self.proto_tcp;
            },
            Key::Backspace => match self.field {
                AddField::Local => drop_last_char(&mut self.local),
                AddField::Remote => drop_last_char(&mut self.remote),
                AddField::Proto => {},
            },
            Key::Char(c) => match self.field {
                AddField::Local => self.local.push(c),
                AddField::Remote => self.remote.push(c),
                AddField::Proto => if c == ' ' {
                    self.proto_tcp = !self.proto_tcp;
                },
            },
            _ => {},
        }
    }

    /// The forward that the form stands for, or what is wrong with the form.
    pub fn draft(&self) -> (r: Result<OutgoingForward, &'static str>)
        ensures
            match r {
                Ok(draft) => self@.fault() is None && draft@ == self@.draft_for(Seq::empty()),
                Err(fault) => self@.fault() == Some(fault@),
            },
    {
        let local = text::trim(self.local.as_str());
        let remote = text::trim(self.remote.as_str());
        if local.unicode_len() == 0 || remote.unicode_len() == 0 {
            return Err("local と remote の ip:port を入力");
        }
        let listen_port = match parse_addr_port(local) {
            Some(port) => port,
            None => {
                return Err("local は ip:port 形式");
            },
        };
        if parse_addr_port(remote).is_none() {
            return Err("remote は ip:port 形式");
        }
        let proto = if self.proto_tcp {
            "tcp"
        } else {
            "udp"
        };
        let peer_id = String::new();
        assert(peer_id@ =~= Seq::empty());
        Ok(
            OutgoingForward {
                peer_id,
                proto: text::copy(proto),
                listen_port,
                local_addr: text::copy(local),
                remote_addr: text::copy(remote),
                target: text::cat3(proto, ":", remote),
            },
        )
    }
}

/// The terminal before anything was shown.
pub open spec fn blank() -> AppView {
    AppView {
        focus: Focus::Forwards,
        popup: PopupView::Closed,
        forwards: Seq::empty(),
        pending: Seq::empty(),
        forward_pending: Seq::empty(),
        events: Seq::empty(),
        trust: Seq::empty(),
        peers: Seq::empty(),
        forwards_sel: 0,
        pending_sel: 0,
        expanded: false,
        message: None,
        should_quit: false,
        web_url: None,
    }
}

/// A selection that is kept within a list.
pub open spec fn clamped(sel: int, len: int) -> int {
    if sel < len {
        sel
    } else if len == 0 {
        0
    } else {
        len - 1
    }
}

fn clamp(sel: usize, len: usize) -> (r: usize)
    ensures
        r == clamped(sel as int, len as int),
{
    if sel < len {
        sel
    } else if len == 0 {
        0
    } else {
        len - 1
    }
}

/// The words of the result of an operation.
pub open spec fn result_words(r: Result<String, SessionError>) -> Seq<char> {
    match r {
        Ok(s) => s@,
        Err(e) => e@.text(),
    }
}

fn words_of(r: &Result<String, SessionError>) -> (s: String)
    ensures
        s@ == result_words(*r),
{
    match r {
        Ok(s) => text::copy(s.as_str()),
        Err(e) => e.message(),
    }
}

/// What has to be done outside after a key.
pub enum UiEffect {
    Nothing,
    /// Stop a forward.
    Stop(RemovedForward),
    /// Tell the connection that waited.
    Settle { id: u64, decision: AuthDecision },
    /// Start the forward, if there is one, and send the answer; what came of it
    /// is handed to `answer_sent`.
    Answer(ForwardReply),
    /// Send a proposal; what came of it is handed to `proposal_sent`.
    Propose { req_id: String, target: String, message: Outgoing },
    /// Write out what is remembered; what came of it is handed to `trust_saved`.
    SaveTrust { removed: bool },
    /// Open the web front end, and start it where it has no address yet; what
    /// came of it is handed to `web_opened`.
    OpenWeb(Option<String>),
}

impl AppView {
    /// What the session makes of an action, what the terminal says of it, and
    /// what has to be done outside.
    pub open spec fn performs(
        self,
        session: SessionView,
        action: ActionView,
        now_ms: u128,
        after: AppView,
        session_after: SessionView,
        effect: UiEffect,
    ) -> bool {
        match action {
            ActionView::Nothing => after == self && session_after == session && effect is Nothing,
            ActionView::RemoveForward(key) => if session.controller.contains_key(key) {
                &&& after == self.saying("removed "@ + key)
                &&& session_after == session.without_forward(key)
                &&& effect matches UiEffect::Stop(s) && s.spec@ == session.controller[key].spec
                    && s.unpublish == (s.spec@.direction == crate::controller::Direction::Serve)
            } else {
                &&& after == self.saying("remove failed: "@ + ("forward not found: "@ + key))
                &&& session_after == session
                &&& effect is Nothing
            },
            ActionView::ResolveAuth { id, decision } => if place_of(
                session.auth.pending.waiting,
                id,
            ) < session.auth.pending.waiting.len() {
                &&& after == self.saying("resolved #"@ + decimal(id as int))
                &&& session_after == session.decided(id, decision, now_ms)
                &&& effect == (UiEffect::Settle { id, decision })
            } else {
                &&& after == self.saying("pending #"@ + decimal(id as int) + " no longer exists"@)
                &&& session_after == session
                &&& effect is Nothing
            },
            ActionView::ResolveForward { id, allow } => {
                &&& session_after == session.resolved_forward(id, allow).0
                &&& match session.resolved_forward(id, allow).1 {
                    Ok(reply) => after == self && (effect matches UiEffect::Answer(r) && r@
                        == reply),
                    Err(e) => after == self.saying(e.text()) && effect is Nothing,
                }
            },
            ActionView::Ask(draft) => {
                &&& after == self
                &&& effect matches UiEffect::Propose { req_id, target, message } && is_uuid(req_id@)
                    && target@ == draft.target && message@ == request_message(req_id@, draft)
                    && session_after == session.asked(req_id@, draft)
            },
            ActionView::RemoveTrust { peer_id, forward_key } => {
                let key = TrustKeyView { peer_id, forward_key };
                &&& after == self
                &&& session_after == session.without_trust(key)
                &&& effect == (UiEffect::SaveTrust {
                    removed: session.auth.store.contains_key(key),
                })
            },
            ActionView::OpenWeb => {
                &&& after == self
                &&& session_after == session
                &&& effect matches UiEffect::OpenWeb(url) && opt_view(url) == self.web_url
            },
        }
    }
}

impl App {
    /// The terminal before anything was shown.
    pub fn new() -> (r: Self)
        ensures
            r@ == blank(),
    {
        let r = App {
            focus: Focus::Forwards,
            popup: Popup::Closed,
            forwards: Vec::new(),
            pending: Vec::new(),
            forward_pending: Vec::new(),
            events: Vec::new(),
            trust: Vec::new(),
            peers: Vec::new(),
            forwards_sel: 0,
            pending_sel: 0,
            expanded: false,
            message: None,
            should_quit: false,
            web_url: None,
        };
        assert(r@ =~= blank());
        r
    }

    /// The rows of what waits: the proposals, then the connections.
    pub fn pending_rows(&self) -> (r: Vec<PendingRow>)
        ensures
            views(r@) == self@.rows(),
    {
        let ghost rows = self@.rows();
        let n = self.forward_pending.len();
        let mut out: Vec<PendingRow> = Vec::new();
        let mut i: usize = 0;
        while i < self.forward_pending.len()
            invariant
                i <= self.forward_pending@.len(),
                n == self.forward_pending@.len(),
                rows == self@.rows(),
                views(out@) == rows.take(i as int),
            decreases self.forward_pending@.len() - i,
        {
            let row = PendingRow::Forward(self.forward_pending[i].clone());
            proof {
                lemma_views_push(out@, row);
                assert(rows[i as int] == row@);
            }
            out.push(row);
            i = i + 1;
            assert(views(out@) =~= rows.take(i as int));
        }
        let mut i: usize = 0;
        while i < self.pending.len()
            invariant
                i <= self.pending@.len(),
                n == self.forward_pending@.len(),
                rows == self@.rows(),
                views(out@) == rows.take(n + i),
            decreases self.pending@.len() - i,
        {
            let row = PendingRow::Conn(self.pending[i].clone());
            proof {
                lemma_views_push(out@, row);
                assert(rows[n + i] == row@);
            }
            out.push(row);
            i = i + 1;
            assert(views(out@) =~= rows.take(n + i));
        }
        assert(views(out@) =~= rows);
        out
    }

    /// Applies the outcomes that came in, and shows the session as it then is.
    /// The message tells of the latest outcome. Gives what the outcomes ask for.
    pub fn refresh(&mut self, session: &mut SessionContext, now_ms: u128) -> (r: Vec<
        AppliedOutcome,
    >)
        ensures
            r@.len() == old(session)@.negotiator.outcomes.len(),
            forall|i: int|
                0 <= i < r@.len() ==> all_applied(
                    old(session)@.drained(),
                    old(session)@.negotiator.outcomes.take(i),
                    now_ms,
                ).tells(old(session)@.negotiator.outcomes[i], now_ms, #[trigger] r@[i]),
            final(session)@ == all_applied(
                old(session)@.drained(),
                old(session)@.negotiator.outcomes,
                now_ms,
            ),
            final(session)@.manager.peers.finite(),
            final(session)@.controller.dom().finite(),
            forall|key: Seq<char>| #[trigger]
                final(session)@.controller.contains_key(key)
                    ==> final(session)@.controller[key].runtime.per_peer.dom().finite(),
            is_listing(final(self)@.trust, final(session)@.auth.store),
            final(self)@ == old(self)@.refreshed(
                final(session)@,
                final(self)@.trust,
                if r@.len() == 0 {
                    old(self)@.message
                } else {
                    Some(result_words(r@.last().result))
                },
            ),
    {
        let outcomes = session.drain_and_apply_outcomes(now_ms);
        if outcomes.len() > 0 {
            self.message = Some(words_of(&outcomes[outcomes.len() - 1].result));
        }
        self.forwards = session.controller.list_forwards();
        self.pending = session.auth.pending.list();
        self.forward_pending = session.negotiator.list_incoming();
        self.events = session.auth.audit_log.list();
        self.trust = session.auth.store.list();
        self.peers = session.manager.connected_peers();
        self.forwards_sel = clamp(self.forwards_sel, self.forwards.len());
        let rows = self.pending_rows();
        self.pending_sel = clamp(self.pending_sel, rows.len());
        assert(self@.rows() == self@.refreshed(session@, self@.trust, self@.message).rows());
        assert(views(rows@).len() == rows@.len());
        outcomes
    }

    /// Handles a key, with the peers that are connected, and gives what the
    /// session is to do.
    pub fn handle_key(&mut self, key: Key, ctrl: bool, peers: Vec<String>) -> (r: UiAction)
        ensures
            (final(self)@, r@) == old(self)@.key_pressed(key, ctrl, texts(peers@)),
    {
        if ctrl && key == Key::Char('c') {
            self.should_quit = true;
            return UiAction::Nothing;
        }
        self.message = None;
        let mut popup = Popup::Closed;
        std::mem::swap(&mut popup, &mut self.popup);
        match popup {
            Popup::Closed => self.handle_main_key(key),
            Popup::Add(form) => self.handle_add_key(key, form, peers),
            Popup::SelectPeer(sel) => self.handle_peer_select_key(key, sel),
            Popup::Trust(sel) => self.handle_trust_key(key, sel),
        }
    }

    fn handle_main_key(&mut self, key: Key) -> (r: UiAction)
        ensures
            (final(self)@, r@) == old(self)@.main_key(key),
    {
        let on_forwards = self.focus == Focus::Forwards;
        match key {
            Key::Tab => {
                self.focus = match self.focus {
                    Focus::Forwards => Focus::Pending,
                    Focus::Pending => Focus::Forwards,
                };
                UiAction::Nothing
            },
            Key::Up => self.move_sel(false),
            Key::Down => self.move_sel(true),
            Key::Enter => {
                if on_forwards {
                    self.expanded = !self.expanded;
                }
                UiAction::Nothing
            },
            Key::Char(c) => if c == 'q' {
                self.should_quit = true;
                UiAction::Nothing
            } else if c == 'a' {
                self.popup = Popup::Add(AddForm::default());
                UiAction::Nothing
            } else if c == 't' {
                self.popup = Popup::Trust(0);
                UiAction::Nothing
            } else if c == 'k' {
                self.move_sel(false)
            } else if c == 'j' {
                self.move_sel(true)
            } else if c == 'w' {
                UiAction::OpenWeb
            } else if on_forwards && c == ' ' {
                self.expanded = !self.expanded;
                UiAction::Nothing
            } else if on_forwards && c == 'd' {
                self.remove_selected()
            } else if !on_forwards && c == 'y' {
                self.resolve_pending(AuthDecision::Allow)
            } else if !on_forwards && c == 'Y' {
                self.resolve_pending(AuthDecision::AllowAlways)
            } else if !on_forwards && c == 'n' {
                self.resolve_pending(AuthDecision::Deny)
            } else if !on_forwards && c == 'N' {
                self.resolve_pending(AuthDecision::DenyAlways)
            } else {
                UiAction::Nothing
            },
            _ => UiAction::Nothing,
        }
    }

    fn move_sel(&mut self, down: bool) -> (r: UiAction)
        ensures
            final(self)@ == old(self)@.moved(down),
            r is Nothing,
    {
        match self.focus {
            Focus::Forwards => {
                let n = self.forwards.len();
                if n > 0 {
                    self.forwards_sel = step(self.forwards_sel, n, down);
                }
            },
            Focus::Pending => {
                let rows = self.pending_rows();
                let n = rows.len();
                assert(n == self@.rows().len());
                if n > 0 {
                    self.pending_sel = step(self.pending_sel, n, down);
                }
            },
        }
        UiAction::Nothing
    }

    fn remove_selected(&self) -> (r: UiAction)
        ensures
            r@ == if self@.forwards_sel < self@.forwards.len() {
                ActionView::RemoveForward(self@.forwards[self@.forwards_sel].key)
            } else {
                ActionView::Nothing
            },
    {
        if self.forwards_sel < self.forwards.len() {
            UiAction::RemoveForward(text::copy(self.forwards[self.forwards_sel].key.as_str()))
        } else {
            UiAction::Nothing
        }
    }

    fn resolve_pending(&self, decision: AuthDecision) -> (r: UiAction)
        ensures
            r@ == self@.resolution(decision),
    {
        let rows = self.pending_rows();
        assert(rows@.len() == self@.rows().len());
        if self.pending_sel < rows.len() {
            assert(self@.rows()[self.pending_sel as int] == rows@[self.pending_sel as int]@);
            match &rows[self.pending_sel] {
                PendingRow::Conn(item) => UiAction::ResolveAuth { id: item.id, decision },
                PendingRow::Forward(item) => {
                    let allow = match decision {
                        AuthDecision::Allow => true,
                        AuthDecision::AllowAlways => true,
                        AuthDecision::Deny => false,
                        AuthDecision::DenyAlways => false,
                    };
                    UiAction::ResolveForward { id: item.id, allow }
                },
            }
        } else {
            UiAction::Nothing
        }
    }

    fn handle_add_key(&mut self, key: Key, form: AddForm, peers: Vec<String>) -> (r: UiAction)
        ensures
            (final(self)@, r@) == old(self)@.add_key(key, form@, texts(peers@)),
    {
        match key {
            Key::Esc => UiAction::Nothing,
            Key::Enter => self.submit_add(form, peers),
            _ => {
                let mut form = form;
                form.edit(key);
                self.popup = Popup::Add(form);
                UiAction::Nothing
            },
        }
    }

    fn submit_add(&mut self, form: AddForm, peers: Vec<String>) -> (r: UiAction)
        ensures
            (final(self)@, r@) == old(self)@.submitted(form@, texts(peers@)),
    {
        let mut draft = match form.draft() {
            Ok(draft) => draft,
            Err(fault) => {
                self.message = Some(text::copy(fault));
                self.popup = Popup::Add(form);
                return UiAction::Nothing;
            },
        };
        assert(texts(peers@).len() == peers@.len());
        if peers.len() == 0 {
            self.message = Some(text::copy("接続中のピアがいません"));
            self.popup = Popup::Add(form);
            UiAction::Nothing
        } else if peers.len() == 1 {
            assert(texts(peers@)[0] == peers@[0]@);
            draft.peer_id = text::copy(peers[0].as_str());
            UiAction::Ask(draft)
        } else {
            self.popup = Popup::SelectPeer(PeerSelect::new(peers, draft));
            UiAction::Nothing
        }
    }

    fn handle_peer_select_key(&mut self, key: Key, sel: PeerSelect) -> (r: UiAction)
        ensures
            (final(self)@, r@) == old(self)@.peer_key(key, sel@),
    {
        let up = key == Key::Up || key == Key::Char('k');
        let down = key == Key::Down || key == Key::Char('j');
        if key == Key::Esc {
            return UiAction::Nothing;
        }
        if key == Key::Enter {
            return UiAction::Ask(sel.into_draft());
        }
        if up || down {
            self.popup = Popup::SelectPeer(sel.moved(down));
        } else {
            self.popup = Popup::SelectPeer(sel);
        }
        UiAction::Nothing
    }

    fn handle_trust_key(&mut self, key: Key, sel: usize) -> (r: UiAction)
        ensures
            (final(self)@, r@) == old(self)@.trust_key(key, sel as int),
    {
        let n = self.trust.len();
        let up = key == Key::Up || key == Key::Char('k');
        let down = key == Key::Down || key == Key::Char('j');
        if key == Key::Esc || key == Key::Char('t') || key == Key::Char('q') {
            return UiAction::Nothing;
        }
        if n > 0 && (up || down) {
            self.popup = Popup::Trust(step(sel, n, down));
            return UiAction::Nothing;
        }
        if n > 0 && (key == Key::Delete || key == Key::Char('x')) {
            let action = if sel < n {
                let entry = &self.trust[sel];
                UiAction::RemoveTrust {
                    peer_id: text::copy(entry.key.peer_id.as_str()),
                    forward_key: text::copy(entry.key.forward_key.as_str()),
                }
            } else {
                UiAction::Nothing
            };
            self.popup = Popup::Trust(
                if sel > 0 {
                    sel - 1
                } else {
                    sel
                },
            );
            return action;
        }
        self.popup = Popup::Trust(sel);
        UiAction::Nothing
    }

    /// Has the session do what a key asked for.
    pub fn perform(&mut self, session: &mut SessionContext, action: UiAction, now_ms: u128) -> (r:
        UiEffect)
        ensures
            old(self)@.performs(
                old(session)@,
                action@,
                now_ms,
                final(self)@,
                final(session)@,
                r,
            ),
    {
        match action {
            UiAction::Nothing => UiEffect::Nothing,
            UiAction::RemoveForward(key) => match session.remove_forward(key.as_str()) {
                Ok(removed) => {
                    self.message = Some(text::cat2("removed ", key.as_str()));
                    UiEffect::Stop(removed)
                },
                Err(e) => {
                    self.message = Some(e.message());
                    UiEffect::Nothing
                },
            },
            UiAction::ResolveAuth { id, decision } => {
                let number = decimal_u64(id);
                if session.resolve_pending_auth(id, decision, now_ms) {
                    self.message = Some(text::cat2("resolved #", number.as_str()));
                    UiEffect::Settle { id, decision }
                } else {
                    self.message = Some(
                        text::cat3("pending #", number.as_str(), " no longer exists"),
                    );
                    UiEffect::Nothing
                }
            },
            UiAction::ResolveForward { id, allow } => match session.resolve_forward(id, allow) {
                Ok(reply) => UiEffect::Answer(reply),
                Err(e) => {
                    self.message = Some(e.message());
                    UiEffect::Nothing
                },
            },
            UiAction::Ask(draft) => {
                let (req_id, message) = session.send_outgoing_forward(&draft);
                UiEffect::Propose { req_id, target: draft.target, message }
            },
            UiAction::RemoveTrust { peer_id, forward_key } => {
                let removed = session.remove_trust(peer_id.as_str(), forward_key.as_str());
                UiEffect::SaveTrust { removed }
            },
            UiAction::OpenWeb => {
                let url = match &self.web_url {
                    Some(url) => Some(text::copy(url.as_str())),
                    None => None,
                };
                UiEffect::OpenWeb(url)
            },
        }
    }

    /// The answer to a proposal was sent, or it could not be.
    pub fn answer_sent(&mut self, reply: &ForwardReply, sent: Result<(), String>)
        ensures
            final(self)@ == old(self)@.saying(
                answer_words(
                    reply@.accepted,
                    reply@.target,
                    match sent {
                        Ok(_) => None,
                        Err(e) => Some(e@),
                    },
                ),
            ),
    {
        let outcome = finish_resolve(reply, sent);
        self.message = Some(words_of(&outcome));
    }

    /// A proposal was sent, or it could not be: then it is forgotten.
    pub fn proposal_sent(
        &mut self,
        session: &mut SessionContext,
        req_id: &str,
        target: &str,
        sent: Result<(), String>,
    )
        ensures
            final(session)@ == old(session)@.after_sending(req_id@, sent is Ok),
            match sent {
                Ok(_) => final(self)@ == old(self)@.saying("request sent: "@ + target@),
                Err(e) => final(self)@ == old(self)@.saying("send failed: "@ + e@),
            },
    {
        let outcome = session.finish_outgoing(req_id, target, sent);
        self.message = Some(words_of(&outcome));
    }

    /// What is remembered was written out, or it could not be.
    pub fn trust_saved(&mut self, removed: bool, saved: Result<(), String>)
        ensures
            final(self)@ == old(self)@.saying(
                if !removed {
                    "trust entry not found"@
                } else {
                    match saved {
                        Ok(_) => "trust entry removed"@,
                        Err(e) => "remove failed: "@ + e@,
                    }
                },
            ),
    {
        let message = match finish_trust_removal(removed, saved) {
            Ok(true) => text::copy("trust entry removed"),
            Ok(false) => text::copy("trust entry not found"),
            Err(e) => e.message(),
        };
        self.message = Some(message);
    }

    /// The web front end is reached at an address, or it could not be started;
    /// and whether a browser was opened and the address copied.
    pub fn web_opened(&mut self, url: Result<String, String>, opened: bool, copied: bool)
        ensures
            final(self)@ == match url {
                Ok(url) => old(self)@.reached(url@, opened, copied),
                Err(e) => old(self)@.saying("web ui failed to start: "@ + e@),
            },
    {
        match url {
            Ok(url) => {
                let note = if opened && copied {
                    "browser opened, url copied"
                } else if opened {
                    "browser opened"
                } else if copied {
                    "url copied - open it manually"
                } else {
                    "open it manually"
                };
                let mut message = text::cat4("web ui: ", url.as_str(), " (", note);
                message.append(")");
                self.message = Some(message);
                self.web_url = Some(url);
            },
            Err(e) => {
                self.message = Some(text::cat2("web ui failed to start: ", e.as_str()));
            },
        }
    }
}

/// What the user still has to do to reach the web front end.
pub open spec fn web_note(opened: bool, copied: bool) -> Seq<char> {
    if opened && copied {
        "browser opened, url copied"@
    } else if opened {
        "browser opened"@
    } else if copied {
        "url copied - open it manually"@
    } else {
        "open it manually"@
    }
}

impl AppView {
    /// The terminal when it shows a session; the selections stay within the lists.
    pub open spec fn refreshed(
        self,
        session: SessionView,
        trust: Seq<TrustEntryView>,
        message: Option<Seq<char>>,
    ) -> AppView {
        let shown = AppView {
            forwards: statuses(session.controller),
            pending: session.auth.pending.waiting,
            forward_pending: session.negotiator.incoming,
            events: session.auth.audit_log.events,
            trust,
            peers: sorted(session.manager.peers),
            message,
            ..self
        };
        AppView {
            forwards_sel: clamped(self.forwards_sel, shown.forwards.len() as int),
            pending_sel: clamped(self.pending_sel, shown.rows().len() as int),
            ..shown
        }
    }

    /// Something is selected in each list that is not empty.
    pub open spec fn selects(self) -> bool {
        &&& 0 <= self.forwards_sel
        &&& 0 <= self.pending_sel
        &&& self.forwards.len() > 0 ==> self.forwards_sel < self.forwards.len()
        &&& self.rows().len() > 0 ==> self.pending_sel < self.rows().len()
    }
}

/// Whatever the session looks like, after it is shown something is selected in
/// each list that is not empty.
pub proof fn law_refresh_keeps_a_selection(
    v: AppView,
    session: SessionView,
    trust: Seq<TrustEntryView>,
    message: Option<Seq<char>>,
)
    requires
        v.forwards_sel >= 0,
        v.pending_sel >= 0,
    ensures
        v.refreshed(session, trust, message).selects(),
{
}

/// No key takes the selection out of the lists.
pub proof fn law_keys_keep_a_selection(
    v: AppView,
    key: Key,
    ctrl: bool,
    peers: Seq<Seq<char>>,
)
    requires
        v.selects(),
    ensures
        v.key_pressed(key, ctrl, peers).0.selects(),
{
    if v.forwards.len() > 0 {
        law_steps_go_round(v.forwards_sel, v.forwards.len() as int);
    }
    if v.rows().len() > 0 {
        law_steps_go_round(v.pending_sel, v.rows().len() as int);
    }
    let bare = AppView { message: None, popup: PopupView::Closed, ..v };
    assert(bare.rows() == v.rows());
}

/// Where something lies over the panes, no key removes a forward or decides on
/// what waits.
pub proof fn law_popup_shields_the_panes(
    v: AppView,
    key: Key,
    ctrl: bool,
    peers: Seq<Seq<char>>,
)
    requires
        !(v.popup is Closed),
    ensures
        ({
            let action = v.key_pressed(key, ctrl, peers).1;
            action is Nothing || action is Ask || action is RemoveTrust
        }),
{
}

/// A form is sent only where it has no fault: what is proposed then has a local
/// and a remote port, and a peer that is connected or was when the choice came up.
pub proof fn law_only_sound_forms_are_sent(
    v: AppView,
    form: AddFormView,
    peers: Seq<Seq<char>>,
)
    requires
        v.submitted(form, peers).1 is Ask,
    ensures
        ({
            let draft = v.submitted(form, peers).1->Ask_0;
            &&& form.fault() is None
            &&& peers.contains(draft.peer_id)
            &&& port_of(draft.local_addr) == Some(draft.listen_port)
            &&& port_of(draft.remote_addr) is Some
        }),
{
    assert(peers.contains(peers[0]));
}

/// A step down goes to the next place and from the last one to the first, a step up the
/// other way.
pub proof fn law_steps_go_one_further(sel: int, len: int)
    requires
        0 <= sel < len,
    ensures
        sel + 1 < len ==> stepped(sel, len, true) == sel + 1,
        sel + 1 == len ==> stepped(sel, len, true) == 0,
        sel > 0 ==> stepped(sel, len, false) == sel - 1,
        sel == 0 ==> stepped(sel, len, false) == len - 1,
{
    if sel + 1 < len {
        vstd::arithmetic::div_mod::lemma_small_mod((sel + 1) as nat, len as nat);
    } else {
        vstd::arithmetic::div_mod::lemma_mod_self_0(len);
    }
    vstd::arithmetic::div_mod::lemma_mod_add_multiples_vanish(-1, len);
    vstd::arithmetic::div_mod::lemma_small_mod((len - 1) as nat, len as nat);
    if sel >= 1 {
        vstd::arithmetic::div_mod::lemma_small_mod((sel - 1) as nat, len as nat);
    }
}

/// What waits is shown as the proposals first and then the connections, all of them in their
/// order.
pub proof fn law_rows_show_all_that_waits(v: AppView, i: int)
    ensures
        v.rows().len() == v.forward_pending.len() + v.pending.len(),
        0 <= i < v.forward_pending.len() ==> v.rows()[i] == RowView::Forward(v.forward_pending[i]),
        0 <= i < v.pending.len() ==> v.rows()[v.forward_pending.len() + i] == RowView::Conn(
            v.pending[i],
        ),
{
}

/// The keys that decide on what waits act on the selected row: a proposal is approved or
/// refused, a connection let in or not, for this once or from now on. In the other pane they
/// do nothing.
pub proof fn law_keys_decide_on_the_selected_row(v: AppView, peers: Seq<Seq<char>>)
    requires
        v.popup is Closed,
        v.pending_sel >= 0,
    ensures
        ({
            let n = v.forward_pending.len();
            let m = v.pending.len();
            let s = v.pending_sel;
            let y = v.key_pressed(Key::Char('y'), false, peers).1;
            let always = v.key_pressed(Key::Char('Y'), false, peers).1;
            let no = v.key_pressed(Key::Char('n'), false, peers).1;
            let never = v.key_pressed(Key::Char('N'), false, peers).1;
            &&& v.focus is Forwards || s >= n + m ==> y is Nothing && always is Nothing && no
                is Nothing && never is Nothing
            &&& v.focus is Pending && s < n ==> {
                let id = v.forward_pending[s].id;
                &&& y == (ActionView::ResolveForward { id, allow: true })
                &&& always == (ActionView::ResolveForward { id, allow: true })
                &&& no == (ActionView::ResolveForward { id, allow: false })
                &&& never == (ActionView::ResolveForward { id, allow: false })
            }
            &&& v.focus is Pending && n <= s < n + m ==> {
                let id = v.pending[s - n].id;
                &&& y == (ActionView::ResolveAuth { id, decision: AuthDecision::Allow })
                &&& always == (ActionView::ResolveAuth { id, decision: AuthDecision::AllowAlways })
                &&& no == (ActionView::ResolveAuth { id, decision: AuthDecision::Deny })
                &&& never == (ActionView::ResolveAuth { id, decision: AuthDecision::DenyAlways })
            }
        }),
{
    let bare = AppView { message: None, popup: PopupView::Closed, ..v };
    assert(bare.rows() == v.rows());
}

/// The keys of the panes: `d` removes the selected forward, `a` opens the form, `t` the list
/// of what is remembered, `w` the web front end, `q` ends the program, Tab goes to the other
/// pane, Enter and the space show more or less of the forwards, and the arrows and `j` and
/// `k` move the selection of the pane. A message is gone with any of them.
pub proof fn law_keys_of_the_panes(v: AppView, peers: Seq<Seq<char>>)
    requires
        v.popup is Closed,
        v.selects(),
    ensures
        ({
            let bare = AppView { message: None, ..v };
            let on_forwards = v.focus is Forwards;
            &&& v.key_pressed(Key::Char('q'), false, peers).0.should_quit
            &&& v.key_pressed(Key::Char('q'), false, peers).1 is Nothing
            &&& v.key_pressed(Key::Char('d'), false, peers).0 == bare
            &&& v.key_pressed(Key::Char('d'), false, peers).1 == if on_forwards && v.forwards.len()
                > 0 {
                ActionView::RemoveForward(v.forwards[v.forwards_sel].key)
            } else {
                ActionView::Nothing
            }
            &&& v.key_pressed(Key::Char('a'), false, peers) == (
                bare.under(PopupView::Add(empty_form())),
                ActionView::Nothing,
            )
            &&& v.key_pressed(Key::Char('t'), false, peers) == (
                bare.under(PopupView::Trust(0)),
                ActionView::Nothing,
            )
            &&& v.key_pressed(Key::Char('w'), false, peers) == (bare, ActionView::OpenWeb)
            &&& v.key_pressed(Key::Tab, false, peers).0.focus != v.focus
            &&& v.key_pressed(Key::Tab, false, peers).1 is Nothing
            &&& v.key_pressed(Key::Enter, false, peers).0.expanded == (v.expanded != on_forwards)
            &&& on_forwards ==> v.key_pressed(Key::Char(' '), false, peers).0.expanded
                == !v.expanded
            &&& v.key_pressed(Key::Char('j'), false, peers) == v.key_pressed(
                Key::Down,
                false,
                peers,
            )
            &&& v.key_pressed(Key::Char('k'), false, peers) == v.key_pressed(Key::Up, false, peers)
            &&& on_forwards && v.forwards.len() > 0 ==> {
                let down = v.key_pressed(Key::Down, false, peers).0;
                let up = v.key_pressed(Key::Up, false, peers).0;
                &&& down.forwards_sel == stepped(v.forwards_sel, v.forwards.len() as int, true)
                &&& up.forwards_sel == stepped(v.forwards_sel, v.forwards.len() as int, false)
                &&& down.pending_sel == v.pending_sel && up.pending_sel == v.pending_sel
            }
            &&& !on_forwards && v.rows().len() > 0 ==> {
                let down = v.key_pressed(Key::Down, false, peers).0;
                let up = v.key_pressed(Key::Up, false, peers).0;
                &&& down.pending_sel == stepped(v.pending_sel, v.rows().len() as int, true)
                &&& up.pending_sel == stepped(v.pending_sel, v.rows().len() as int, false)
                &&& down.forwards_sel == v.forwards_sel && up.forwards_sel == v.forwards_sel
            }
        }),
{
    let bare = AppView { message: None, popup: PopupView::Closed, ..v };
    assert(bare.rows() == v.rows());
    assert(AppView { message: None, ..v } == bare);
}

/// Whatever lies over the panes, Control-C ends the program; and no key changes what is
/// shown of the session.
pub proof fn law_control_c_ends_the_program(
    v: AppView,
    key: Key,
    ctrl: bool,
    peers: Seq<Seq<char>>,
)
    ensures
        v.key_pressed(Key::Char('c'), true, peers).0.should_quit,
        v.key_pressed(Key::Char('c'), true, peers).1 is Nothing,
        ({
            let next = v.key_pressed(key, ctrl, peers).0;
            &&& next.forwards == v.forwards && next.pending == v.pending && next.forward_pending
                == v.forward_pending && next.events == v.events && next.trust == v.trust
                && next.peers == v.peers && next.web_url == v.web_url
            &&& next.should_quit ==> v.should_quit || (ctrl && key == Key::Char('c')) || (v.popup
                is Closed && key == Key::Char('q'))
        }),
{
}

/// In the form what is typed goes into the field that is selected, and Backspace takes its
/// last character off; the protocol is switched by the space and by the arrows to the sides;
/// Tab and the other arrows change the field.
pub proof fn law_form_is_filled_in(form: AddFormView, c: char)
    ensures
        form.field is Local ==> form.edited(Key::Char(c)) == (AddFormView {
            local: form.local.push(c),
            ..form
        }),
        form.field is Remote ==> form.edited(Key::Char(c)) == (AddFormView {
            remote: form.remote.push(c),
            ..form
        }),
        form.field is Proto ==> form.edited(Key::Char(c)).local == form.local && form.edited(
            Key::Char(c),
        ).remote == form.remote && (form.edited(Key::Char(c)).proto_tcp != form.proto_tcp <==> c
            == ' '),
        !(form.field is Proto) ==> form.edited(Key::Char(c)).edited(Key::Backspace) == form,
        form.field is Proto ==> form.edited(Key::Left).proto_tcp == !form.proto_tcp && form.edited(
            Key::Right,
        ).proto_tcp == !form.proto_tcp && form.edited(Key::Backspace) == form,
        !(form.field is Proto) ==> form.edited(Key::Left) == form && form.edited(Key::Right)
            == form,
        form.edited(Key::Tab).field == form.field.below() && form.edited(Key::Down).field
            == form.field.below() && form.edited(Key::Up).field == form.field.above(),
        form.edited(Key::Tab).local == form.local && form.edited(Key::Tab).remote == form.remote
            && form.edited(Key::Tab).proto_tcp == form.proto_tcp,
        AddField::Proto.below() is Local && AddField::Local.below() is Remote,
        empty_form().proto_tcp && empty_form().local.len() == 0 && empty_form().remote.len() == 0,
        without_last(Seq::<char>::empty()).len() == 0,
{
    assert(form.local.push(c).drop_last() =~= form.local);
    assert(form.remote.push(c).drop_last() =~= form.remote);
}

/// A form proposes what was filled in: the protocol, the two addresses without the white
/// space around them, the port of the local one to listen on, and a target that names the
/// protocol and the remote address. With one peer it is proposed to that one at once; with
/// several one is chosen first; without any, and with a fault, the form stays open.
pub proof fn law_form_proposes_what_was_filled_in(
    v: AppView,
    form: AddFormView,
    peers: Seq<Seq<char>>,
    peer_id: Seq<char>,
)
    ensures
        ({
            let d = form.draft_for(peer_id);
            &&& d.peer_id == peer_id
            &&& d.local_addr == trimmed(form.local) && d.remote_addr == trimmed(form.remote)
            &&& form.proto_tcp ==> d.proto == "tcp"@ && d.target == "tcp"@ + ":"@ + trimmed(
                form.remote,
            )
            &&& !form.proto_tcp ==> d.proto == "udp"@ && d.target == "udp"@ + ":"@ + trimmed(
                form.remote,
            )
            &&& form.fault() is None ==> port_of(trimmed(form.local)) == Some(d.listen_port)
        }),
        form.fault() is None <==> trimmed(form.local).len() > 0 && trimmed(form.remote).len() > 0
            && port_of(trimmed(form.local)) is Some && port_of(trimmed(form.remote)) is Some,
        form.fault() is None && peers.len() == 1 ==> v.submitted(form, peers) == (
            v,
            ActionView::Ask(form.draft_for(peers[0])),
        ),
        form.fault() is None && peers.len() > 1 ==> v.submitted(form, peers).1 is Nothing && (
        v.submitted(form, peers).0.popup matches PopupView::SelectPeer(sel) && sel.peers == peers
            && sel.sel == 0),
        form.fault() is Some || peers.len() == 0 ==> v.submitted(form, peers).1 is Nothing
            && v.submitted(form, peers).0.popup == PopupView::Add(form) && v.submitted(
            form,
            peers,
        ).0.message is Some,
        form.fault() matches Some(fault) ==> v.submitted(form, peers).0.message == Some(fault),
{
}

/// In the choice of a peer Enter proposes the forward to the selected one, Escape gives it
/// up, and the arrows go through the peers.
pub proof fn law_peer_is_chosen(v: AppView, sel: PeerSelectView, peers: Seq<Seq<char>>)
    requires
        v.popup == PopupView::SelectPeer(sel),
        sel.wf(),
    ensures
        ({
            let entered = v.key_pressed(Key::Enter, false, peers);
            let down = v.key_pressed(Key::Down, false, peers).0.popup;
            let up = v.key_pressed(Key::Up, false, peers).0.popup;
            &&& entered.0.popup is Closed
            &&& entered.1 matches ActionView::Ask(d)
            &&& d.peer_id == sel.peers[sel.sel]
            &&& d.proto == sel.draft.proto && d.listen_port == sel.draft.listen_port
                && d.local_addr == sel.draft.local_addr && d.remote_addr == sel.draft.remote_addr
                && d.target == sel.draft.target
            &&& v.key_pressed(Key::Esc, false, peers).0.popup is Closed
            &&& v.key_pressed(Key::Esc, false, peers).1 is Nothing
            &&& down matches PopupView::SelectPeer(next) && next.sel == stepped(
                sel.sel,
                sel.peers.len() as int,
                true,
            ) && next.peers == sel.peers && next.draft == sel.draft
            &&& up matches PopupView::SelectPeer(next) && next.sel == stepped(
                sel.sel,
                sel.peers.len() as int,
                false,
            ) && next.peers == sel.peers && next.draft == sel.draft
        }),
{
}

/// In the list of what is remembered the selected entry is forgotten by `x` or Delete;
/// Escape closes the list, and nothing else there asks for anything.
pub proof fn law_selected_trust_is_forgotten(
    v: AppView,
    sel: int,
    key: Key,
    peers: Seq<Seq<char>>,
)
    requires
        v.popup == PopupView::Trust(sel),
        0 <= sel,
    ensures
        ({
            let action = v.key_pressed(key, false, peers).1;
            let removes = key == Key::Delete || key == Key::Char('x');
            &&& removes && sel < v.trust.len() ==> action == (ActionView::RemoveTrust {
                peer_id: v.trust[sel].key.peer_id,
                forward_key: v.trust[sel].key.forward_key,
            })
            &&& !removes || sel >= v.trust.len() ==> action is Nothing
            &&& v.key_pressed(key, false, peers).0.popup is Closed <==> key == Key::Esc || key
                == Key::Char('t') || key == Key::Char('q')
        }),
{
}

/// What the session does for an action is what the action names, and nothing else: the
/// forward is removed, the waiting connection or proposal decided, the forward proposed, or
/// the peer and target forgotten; what has to follow outside is given.
pub proof fn law_actions_are_performed(
    v: AppView,
    session: SessionView,
    action: ActionView,
    now_ms: u128,
    after: AppView,
    session_after: SessionView,
    effect: UiEffect,
)
    requires
        v.performs(session, action, now_ms, after, session_after, effect),
    ensures
        action is Nothing || action is OpenWeb ==> session_after == session && after == v,
        action matches ActionView::RemoveForward(key) ==> {
            &&& !session_after.controller.contains_key(key)
            &&& effect is Stop <==> session.controller.contains_key(key)
            &&& effect matches UiEffect::Stop(s) ==> s.spec@ == session.controller[key].spec && (
            s.unpublish <==> s.spec@.direction is Serve)
            &&& session_after == session.without_forward(key)
            &&& after.message is Some
        },
        action matches ActionView::ResolveAuth { id, decision } ==> {
            &&& session_after == session.decided(id, decision, now_ms)
            &&& effect is Settle <==> place_of(session.auth.pending.waiting, id)
                < session.auth.pending.waiting.len()
            &&& effect matches UiEffect::Settle { id: i, decision: d } ==> i == id && d == decision
            &&& after.message is Some
        },
        action matches ActionView::ResolveForward { id, allow } ==> {
            &&& session_after == session.resolved_forward(id, allow).0
            &&& effect is Answer <==> session.resolved_forward(id, allow).1 is Ok
            &&& effect matches UiEffect::Answer(r) ==> r@ == session.resolved_forward(
                id,
                allow,
            ).1->Ok_0
            &&& session.resolved_forward(id, allow).1 matches Err(e) ==> after.message == Some(
                e.text(),
            )
        },
        action matches ActionView::Ask(draft) ==> (effect matches UiEffect::Propose {
            req_id,
            target,
            message,
        } && target@ == draft.target && message@ == request_message(req_id@, draft)
            && session_after == session.asked(req_id@, draft)),
        action matches ActionView::RemoveTrust { peer_id, forward_key } ==> {
            let key = TrustKeyView { peer_id, forward_key };
            &&& session_after == session.without_trust(key)
            &&& effect == (UiEffect::SaveTrust { removed: session.auth.store.contains_key(key) })
        },
        after.forwards == v.forwards && after.popup == v.popup && after.focus == v.focus
            && after.should_quit == v.should_quit && after.web_url == v.web_url
            && after.forwards_sel == v.forwards_sel && after.pending_sel == v.pending_sel,
{
}

/// The terminal shows the session as it is: all its forwards, all that waits, the events,
/// what is remembered and the connected peers. What the user was doing is kept, and the
/// selections are where they were, as far as the lists reach.
pub proof fn law_terminal_shows_the_session(
    v: AppView,
    session: SessionView,
    trust: Seq<TrustEntryView>,
    message: Option<Seq<char>>,
)
    ensures
        ({
            let next = v.refreshed(session, trust, message);
            &&& next.forwards == statuses(session.controller)
            &&& next.pending == session.auth.pending.waiting
            &&& next.forward_pending == session.negotiator.incoming
            &&& next.events == session.auth.audit_log.events
            &&& next.trust == trust && next.message == message
            &&& next.peers == sorted(session.manager.peers)
            &&& next.focus == v.focus && next.popup == v.popup && next.expanded == v.expanded
                && next.should_quit == v.should_quit && next.web_url == v.web_url
            &&& v.forwards_sel < next.forwards.len() ==> next.forwards_sel == v.forwards_sel
            &&& v.pending_sel < next.rows().len() ==> next.pending_sel == v.pending_sel
            &&& next.forwards.len() > 0 && v.forwards_sel >= next.forwards.len()
                ==> next.forwards_sel == next.forwards.len() - 1
            &&& next.rows().len() > 0 && v.pending_sel >= next.rows().len() ==> next.pending_sel
                == next.rows().len() - 1
        }),
        blank().forwards.len() == 0 && blank().rows().len() == 0 && blank().popup is Closed
            && !blank().should_quit && blank().message is None && blank().focus is Forwards,
{
}

/// A message is shown without anything else changing, and so is the address of the web front
/// end, which is then kept.
pub proof fn law_messages_change_nothing_else(
    v: AppView,
    message: Seq<char>,
    url: Seq<char>,
    opened: bool,
    copied: bool,
)
    ensures
        v.saying(message).message == Some(message),
        (AppView { message: v.message, ..v.saying(message) }) == v,
        v.reached(url, opened, copied).web_url == Some(url),
        v.reached(url, opened, copied).message == Some(
            "web ui: "@ + url + " ("@ + web_note(opened, copied) + ")"@,
        ),
        (AppView { message: v.message, web_url: v.web_url, ..v.reached(url, opened, copied) }) == v,
        (AppView { popup: v.popup, ..v.under(PopupView::Closed) }) == v,
{
}

/// The words on the web front end say whether a browser was opened and the address copied,
/// and ask the user to open it where no browser was.
pub proof fn law_web_note_tells_what_is_left()
    ensures
        web_note(true, true) == "browser opened, url copied"@,
        web_note(true, false) == "browser opened"@,
        web_note(false, true) == "url copied - open it manually"@,
        web_note(false, false) == "open it manually"@,
        forall|r: Result<String, SessionError>| #[trigger]
            result_words(r) == match r {
                Ok(s) => s@,
                Err(e) => e@.text(),
            },
{
}

} // verus!
