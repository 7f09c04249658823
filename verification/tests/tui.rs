use p2p_tunnel::auth::audit::{AuthAuditLog, AuthEvent, AuthEventSource};
use p2p_tunnel::auth::pending::{PendingAuthorizations, PendingAuthorizer};
use p2p_tunnel::auth::trust::{TrustDecision, TrustStore};
use p2p_tunnel::auth::{AuthDecision, AuthRequest};
use p2p_tunnel::controller::{Direction, ForwardSpec, Proto, Traffic};
use p2p_tunnel::forward_store::ForwardStore;
use p2p_tunnel::rtc::manager::{ForwardRequestEvent, ForwardResponseEvent, RTCManagerHandle};
use p2p_tunnel::session::SessionContext;
use p2p_tunnel::tui::app::{
    AddField, App, Focus, Key, PendingRow, Popup, UiAction, UiEffect,
};
use p2p_tunnel::tui::format::{
    dir_arrow, endpoint, format_event, parse_add_line, proto_name, role_label, short_id,
    trust_name,
};
use p2p_tunnel::tui::ui::{
    event_items, field_line, footer_text, form_items, forward_rows, header_text, peer_items,
    peer_title, pending_items, trust_items, ForwardRow,
};

fn session() -> SessionContext {
    SessionContext::build(
        "room".to_string(),
        RTCManagerHandle::new("self".to_string(), true),
        PendingAuthorizer::with_audit_log(
            TrustStore::new(),
            PendingAuthorizations::new(),
            AuthAuditLog::default(),
        ),
        ForwardStore::from_entries(Vec::new()),
    )
    .0
}

fn serve(target: &str) -> ForwardSpec {
    ForwardSpec {
        direction: Direction::Serve,
        proto: Proto::Tcp,
        addr: "127.0.0.1:80".to_string(),
        listen_port: -1,
        target: target.to_string(),
    }
}

fn press(app: &mut App, ctx: &mut SessionContext, key: Key) -> UiEffect {
    let peers = ctx.manager.connected_peers();
    let action = app.handle_key(key, false, peers);
    app.perform(ctx, action, 7)
}

fn type_in(app: &mut App, ctx: &mut SessionContext, text: &str) {
    for c in text.chars() {
        press(app, ctx, Key::Char(c));
    }
}

fn propose(ctx: &mut SessionContext, peer_id: &str) {
    ctx.on_forward_request(
        peer_id,
        ForwardRequestEvent {
            req_id: "req-1".to_string(),
            proto: "tcp".to_string(),
            remote_addr: "127.0.0.1:80".to_string(),
            target: "tcp:127.0.0.1:80".to_string(),
        },
    );
}

fn ask(ctx: &mut SessionContext, peer_id: &str) {
    ctx.auth.authorize(
        &AuthRequest {
            peer_id: peer_id.to_string(),
            forward_key: "tcp:80".to_string(),
            target_addr: "127.0.0.1:80".to_string(),
            proto: "tcp".to_string(),
        },
        1,
    );
}

#[test]
fn keys_quit() {
    let mut app = App::new();
    app.handle_key(Key::Char('q'), false, Vec::new());
    assert!(app.should_quit);
    let mut app = App::new();
    app.handle_key(Key::Char('c'), false, Vec::new());
    assert!(!app.should_quit);
    app.handle_key(Key::Char('c'), true, Vec::new());
    assert!(app.should_quit);
}

#[test]
fn selection_goes_round_and_stays_in_the_list() {
    let mut ctx = session();
    let mut app = App::new();
    press(&mut app, &mut ctx, Key::Down);
    assert_eq!(app.forwards_sel, 0);
    for target in ["tcp:1", "tcp:2", "tcp:3"] {
        ctx.controller.add_forward(&serve(target)).unwrap();
    }
    app.refresh(&mut ctx, 1);
    press(&mut app, &mut ctx, Key::Up);
    assert_eq!(app.forwards_sel, 2);
    match press(&mut app, &mut ctx, Key::Char('d')) {
        UiEffect::Stop(removed) => assert_eq!(removed.spec.target, "tcp:3"),
        _ => panic!("nothing was stopped"),
    }
    assert_eq!(app.message.as_deref(), Some("removed tcp:3"));
    app.refresh(&mut ctx, 2);
    assert_eq!(app.forwards_sel, 1);
    press(&mut app, &mut ctx, Key::Char('j'));
    assert_eq!(app.forwards_sel, 0);
}

#[test]
fn pending_rows_show_proposals_first() {
    let mut ctx = session();
    ask(&mut ctx, "peer-conn");
    propose(&mut ctx, "peer-fwd-long-name");
    let mut app = App::new();
    app.refresh(&mut ctx, 1);
    let rows = app.pending_rows();
    assert_eq!(rows.len(), 2);
    assert!(matches!(rows[0], PendingRow::Forward(_)));
    assert!(matches!(rows[1], PendingRow::Conn(_)));
    let items = pending_items(&app);
    assert_eq!(
        items[0].text,
        "[FWD] peer-fwd wants TCP 127.0.0.1:80 (you become the server)"
    );
    assert_eq!(items[1].text, "[CONN] peer-con → tcp:80 (127.0.0.1:80)");
    assert!(!items[0].selected);
    press(&mut app, &mut ctx, Key::Tab);
    assert_eq!(app.focus, Focus::Pending);
    assert!(pending_items(&app)[0].selected);
}

#[test]
fn connection_is_decided_by_key() {
    let mut ctx = session();
    ask(&mut ctx, "peer-1");
    let mut app = App::new();
    app.refresh(&mut ctx, 1);
    assert!(matches!(
        press(&mut app, &mut ctx, Key::Char('y')),
        UiEffect::Nothing
    ));
    press(&mut app, &mut ctx, Key::Tab);
    match press(&mut app, &mut ctx, Key::Char('Y')) {
        UiEffect::Settle { id, decision } => {
            assert_eq!(id, 1);
            assert_eq!(decision, AuthDecision::AllowAlways);
        }
        _ => panic!("nothing was decided"),
    }
    assert_eq!(app.message.as_deref(), Some("resolved #1"));
    assert!(matches!(
        press(&mut app, &mut ctx, Key::Char('n')),
        UiEffect::Nothing
    ));
    assert_eq!(app.message.as_deref(), Some("pending #1 no longer exists"));
    assert_eq!(ctx.auth.store.list().len(), 1);
}

#[test]
fn proposal_is_answered_by_key() {
    let mut ctx = session();
    propose(&mut ctx, "peer-1");
    let mut app = App::new();
    app.refresh(&mut ctx, 1);
    press(&mut app, &mut ctx, Key::Tab);
    let reply = match press(&mut app, &mut ctx, Key::Char('y')) {
        UiEffect::Answer(reply) => reply,
        _ => panic!("no answer"),
    };
    assert!(reply.accepted);
    app.answer_sent(&reply, Ok(()));
    assert_eq!(
        app.message.as_deref(),
        Some("accepted forward tcp:127.0.0.1:80")
    );
    app.answer_sent(&reply, Err("gone".to_string()));
    assert_eq!(
        app.message.as_deref(),
        Some("accepted locally, but failed to notify peer: gone")
    );
}

#[test]
fn form_is_filled_and_sent() {
    let mut ctx = session();
    ctx.manager.handle_join("peer-1");
    let mut app = App::new();
    press(&mut app, &mut ctx, Key::Char('a'));
    press(&mut app, &mut ctx, Key::Right);
    press(&mut app, &mut ctx, Key::Tab);
    type_in(&mut app, &mut ctx, "127.0.0.1:80800");
    press(&mut app, &mut ctx, Key::Backspace);
    press(&mut app, &mut ctx, Key::Down);
    type_in(&mut app, &mut ctx, "10.0.0.5:80");
    match press(&mut app, &mut ctx, Key::Enter) {
        UiEffect::Propose {
            req_id,
            target,
            message,
        } => {
            assert_eq!(target, "udp:10.0.0.5:80");
            assert_eq!(message.peer_id, "peer-1");
            assert_eq!(ctx.negotiator.list_outgoing()[0].listen_port, 8080);
            app.proposal_sent(&mut ctx, &req_id, &target, Ok(()));
            assert_eq!(app.message.as_deref(), Some("request sent: udp:10.0.0.5:80"));
            app.proposal_sent(&mut ctx, &req_id, &target, Err("no route".to_string()));
            assert_eq!(app.message.as_deref(), Some("send failed: no route"));
            assert!(ctx.negotiator.list_outgoing().is_empty());
        }
        _ => panic!("nothing was proposed"),
    }
}

#[test]
fn faulty_form_stays_open() {
    let mut ctx = session();
    let mut app = App::new();
    press(&mut app, &mut ctx, Key::Char('a'));
    press(&mut app, &mut ctx, Key::Enter);
    assert_eq!(
        app.message.as_deref(),
        Some("local と remote の ip:port を入力")
    );
    press(&mut app, &mut ctx, Key::Tab);
    type_in(&mut app, &mut ctx, "here");
    press(&mut app, &mut ctx, Key::Tab);
    type_in(&mut app, &mut ctx, "there");
    press(&mut app, &mut ctx, Key::Enter);
    assert_eq!(app.message.as_deref(), Some("local は ip:port 形式"));
    press(&mut app, &mut ctx, Key::Up);
    type_in(&mut app, &mut ctx, ":1");
    press(&mut app, &mut ctx, Key::Enter);
    assert_eq!(app.message.as_deref(), Some("remote は ip:port 形式"));
    press(&mut app, &mut ctx, Key::Down);
    type_in(&mut app, &mut ctx, ":2");
    press(&mut app, &mut ctx, Key::Enter);
    assert_eq!(app.message.as_deref(), Some("接続中のピアがいません"));
    match &app.popup {
        Popup::Add(form) => {
            assert_eq!(form.local, "here:1");
            assert_eq!(form.remote, "there:2");
            assert_eq!(form.field, AddField::Remote);
        }
        _ => panic!("the form is gone"),
    }
    press(&mut app, &mut ctx, Key::Esc);
    assert!(matches!(app.popup, Popup::Closed));
}

#[test]
fn one_of_several_peers_is_chosen() {
    let mut ctx = session();
    ctx.manager.handle_join("peer-a");
    ctx.manager.handle_join("peer-b");
    let mut app = App::new();
    press(&mut app, &mut ctx, Key::Char('a'));
    press(&mut app, &mut ctx, Key::Tab);
    type_in(&mut app, &mut ctx, "h:1");
    press(&mut app, &mut ctx, Key::Tab);
    type_in(&mut app, &mut ctx, "r:2");
    press(&mut app, &mut ctx, Key::Enter);
    match &app.popup {
        Popup::SelectPeer(sel) => {
            assert_eq!(sel.peers(), &vec!["peer-a".to_string(), "peer-b".to_string()]);
            assert_eq!(sel.selected(), 0);
            assert_eq!(
                peer_title(sel),
                " Send 'tcp:r:2' to ([Enter]選択 [Esc]中止) "
            );
            let items = peer_items(sel);
            assert!(items[0].selected && !items[1].selected);
        }
        _ => panic!("no choice of a peer"),
    }
    press(&mut app, &mut ctx, Key::Char('k'));
    match press(&mut app, &mut ctx, Key::Enter) {
        UiEffect::Propose { message, .. } => assert_eq!(message.peer_id, "peer-b"),
        _ => panic!("nothing was proposed"),
    }
}

#[test]
fn trust_is_taken_back_by_key() {
    let mut ctx = session();
    ask(&mut ctx, "peer-1");
    ctx.resolve_pending_auth(1, AuthDecision::DenyAlways, 2);
    let mut app = App::new();
    app.refresh(&mut ctx, 3);
    press(&mut app, &mut ctx, Key::Char('t'));
    assert_eq!(trust_items(&app, 0)[0].text, "deny  peer-1 → tcp:80");
    match press(&mut app, &mut ctx, Key::Char('x')) {
        UiEffect::SaveTrust { removed } => {
            assert!(removed);
            app.trust_saved(removed, Ok(()));
        }
        _ => panic!("nothing was removed"),
    }
    assert_eq!(app.message.as_deref(), Some("trust entry removed"));
    app.trust_saved(true, Err("disk full".to_string()));
    assert_eq!(app.message.as_deref(), Some("remove failed: disk full"));
    app.trust_saved(false, Ok(()));
    assert_eq!(app.message.as_deref(), Some("trust entry not found"));
    app.refresh(&mut ctx, 4);
    assert_eq!(trust_items(&app, 0)[0].text, "(empty)");
    press(&mut app, &mut ctx, Key::Esc);
    assert!(matches!(app.popup, Popup::Closed));
}

#[test]
fn web_front_end_is_opened_once() {
    let mut ctx = session();
    let mut app = App::new();
    assert!(matches!(
        press(&mut app, &mut ctx, Key::Char('w')),
        UiEffect::OpenWeb(None)
    ));
    app.web_opened(Err("port in use".to_string()), false, false);
    assert_eq!(
        app.message.as_deref(),
        Some("web ui failed to start: port in use")
    );
    app.web_opened(Ok("http://127.0.0.1:8787".to_string()), true, false);
    assert_eq!(
        app.message.as_deref(),
        Some("web ui: http://127.0.0.1:8787 (browser opened)")
    );
    match press(&mut app, &mut ctx, Key::Char('w')) {
        UiEffect::OpenWeb(url) => assert_eq!(url.as_deref(), Some("http://127.0.0.1:8787")),
        _ => panic!("the front end was not opened"),
    }
}

#[test]
fn refresh_tells_of_the_latest_outcome() {
    let mut ctx = session();
    let mut app = App::new();
    for (n, accepted) in [("1", true), ("2", false)] {
        let (req_id, _) = ctx.send_outgoing_forward(&p2p_tunnel::negotiation::OutgoingForward {
            peer_id: "peer-1".to_string(),
            proto: "tcp".to_string(),
            listen_port: 1,
            local_addr: "h:1".to_string(),
            remote_addr: "r:2".to_string(),
            target: format!("tcp:{}", n),
        });
        ctx.on_forward_response(&ForwardResponseEvent {
            req_id,
            target: format!("tcp:{}", n),
            accepted,
        });
    }
    let applied = app.refresh(&mut ctx, 9);
    assert_eq!(applied.len(), 2);
    assert_eq!(app.message.as_deref(), Some("peer denied tcp:2"));
    assert_eq!(app.forwards.len(), 1);
    assert!(app.refresh(&mut ctx, 10).is_empty());
    assert_eq!(app.message.as_deref(), Some("peer denied tcp:2"));
}

#[test]
fn table_of_forwards() {
    let mut ctx = session();
    ctx.controller.add_forward(&serve("tcp:1")).unwrap();
    let mut connect = serve("tcp:2");
    connect.direction = Direction::Connect;
    connect.listen_port = 15432;
    ctx.controller.add_forward(&connect).unwrap();
    ctx.controller
        .record_traffic("tcp:1", "peer-1-long", Traffic::BytesIn(5));
    let mut app = App::new();
    app.refresh(&mut ctx, 1);
    assert_eq!(forward_rows(&app).len(), 2);
    press(&mut app, &mut ctx, Key::Enter);
    let rows = forward_rows(&app);
    assert_eq!(rows.len(), 3);
    assert_eq!(
        rows[0],
        ForwardRow::Forward {
            selected: true,
            role: "serve".to_string(),
            key: "tcp:1".to_string(),
            proto: "TCP".to_string(),
            endpoint: "127.0.0.1:80".to_string(),
            state: "listening".to_string(),
            conns: "0".to_string(),
            bytes_in: 5,
            bytes_out: 0,
        }
    );
    assert_eq!(
        rows[1],
        ForwardRow::Peer {
            label: "  └ peer-1-l".to_string(),
            conns: "0".to_string(),
            bytes_in: 5,
            bytes_out: 0,
        }
    );
    match &rows[2] {
        ForwardRow::Forward { endpoint, role, .. } => {
            assert_eq!(endpoint, ":15432→tcp:2");
            assert_eq!(role, "conn");
        }
        other => panic!("unexpected row {:?}", other),
    }
    press(&mut app, &mut ctx, Key::Down);
    assert_eq!(forward_rows(&app)[2], ForwardRow::NoPeers);
}

#[test]
fn header_and_footer() {
    let mut ctx = session();
    let mut app = App::new();
    assert_eq!(
        header_text(&app, "room"),
        " p2p — room: room   peers: 0 (waiting…)   serve: 0 / conn: 0   pending: 0 "
    );
    assert!(footer_text(&app).starts_with(" [a]dd forward"));
    ctx.manager.handle_join("peer-a-long");
    ctx.manager.handle_join("peer-b");
    ctx.controller.add_forward(&serve("tcp:1")).unwrap();
    ask(&mut ctx, "peer-b");
    app.refresh(&mut ctx, 1);
    app.message = Some("hello".to_string());
    assert_eq!(
        header_text(&app, "room"),
        " p2p — room: room   peers: 2 [peer-a-l, peer-b]   serve: 1 / conn: 0   pending: 1 "
    );
    assert_eq!(footer_text(&app), " hello ");
}

fn event(sequence: u64, decision: AuthDecision) -> AuthEvent {
    AuthEvent {
        sequence,
        timestamp_ms: 0,
        peer_id: "peer-1-long".to_string(),
        forward_key: "tcp:80".to_string(),
        target_addr: "127.0.0.1:80".to_string(),
        proto: "tcp".to_string(),
        decision,
        source: AuthEventSource::TrustStore,
    }
}

#[test]
fn events_are_shown_latest_first() {
    let mut app = App::new();
    app.events = vec![
        event(1, AuthDecision::Allow),
        event(2, AuthDecision::AllowAlways),
        event(3, AuthDecision::Deny),
    ];
    assert_eq!(
        event_items(&app, 2),
        vec![
            "#3 deny   trust  peer-1-l → tcp:80 (127.0.0.1:80)",
            "#2 allow* trust  peer-1-l → tcp:80 (127.0.0.1:80)",
        ]
    );
    assert_eq!(event_items(&app, 9).len(), 3);
    let mut asked = event(4, AuthDecision::DenyAlways);
    asked.source = AuthEventSource::Pending;
    assert_eq!(
        format_event(&asked),
        "#4 deny*  prompt peer-1-l → tcp:80 (127.0.0.1:80)"
    );
}

#[test]
fn lines_of_the_form() {
    assert_eq!(field_line("Local ", "h:1", true), "▶ Local : h:1_");
    assert_eq!(field_line("Local ", "h:1", false), "  Local : h:1");
    let mut ctx = session();
    let mut app = App::new();
    press(&mut app, &mut ctx, Key::Char('a'));
    press(&mut app, &mut ctx, Key::Char(' '));
    match &app.popup {
        Popup::Add(form) => {
            let lines = form_items(form);
            assert_eq!(lines[0].text, "▶ Proto:  TCP  ( UDP )_");
            assert!(lines[0].selected);
            assert_eq!(lines[2].text, "  Remote: ");
        }
        _ => panic!("the form is gone"),
    }
}

#[test]
fn words_on_the_screen() {
    assert_eq!(dir_arrow(Direction::Serve), "→");
    assert_eq!(dir_arrow(Direction::Connect), "←");
    assert_eq!(role_label(Direction::Connect), "conn");
    assert_eq!(proto_name(Proto::Udp), "UDP");
    assert_eq!(trust_name(TrustDecision::Deny), "deny ");
    assert_eq!(short_id("äöüäöüäöü"), "äöüäöüäö");
    assert_eq!(endpoint(&serve("tcp:1")), "127.0.0.1:80");
}

#[test]
fn add_line_is_read() {
    let spec = parse_add_line("s udp://127.0.0.1:53").unwrap();
    assert_eq!(spec.target, "udp:53");
    assert_eq!(spec.direction, Direction::Serve);
    let spec = parse_add_line(" connect  15432:5432 ").unwrap();
    assert_eq!(spec.listen_port, 15432);
    assert_eq!(
        parse_add_line("serve").unwrap_err(),
        "`<serve|connect> <forward>` の形式で入力"
    );
    assert_eq!(parse_add_line("x :1").unwrap_err(), "方向は serve / connect");
}

#[test]
fn popup_shields_the_panes() {
    let mut ctx = session();
    ctx.controller.add_forward(&serve("tcp:1")).unwrap();
    let mut app = App::new();
    app.refresh(&mut ctx, 1);
    app.handle_key(Key::Char('a'), false, Vec::new());
    assert!(matches!(
        app.handle_key(Key::Char('d'), false, Vec::new()),
        UiAction::Nothing
    ));
    assert_eq!(ctx.controller.list_forwards().len(), 1);
}
