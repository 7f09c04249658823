use p2p_tunnel::chat::{print_line, redraw_input, Chat};
use p2p_tunnel::tui::app::Key;

fn type_in(chat: &mut Chat, text: &str) {
    for c in text.chars() {
        chat.on_key(Key::Char(c), false);
    }
}

#[test]
fn line_is_sent_without_trailing_space() {
    let mut chat = Chat::new();
    assert_eq!(chat.prompt(), "\r\x1b[K> ");
    type_in(&mut chat, "hi ");
    let step = chat.on_key(Key::Enter, false);
    assert_eq!(step.sent.as_deref(), Some("hi"));
    assert_eq!(step.written.as_deref(), Some("\r\x1b[K> hi\r\n> "));
    assert!(!step.quit);
    let empty = chat.on_key(Key::Enter, false);
    assert_eq!(empty.sent, None);
    assert_eq!(empty.written, Some(redraw_input("")));
}

#[test]
fn ids_are_switched() {
    let mut chat = Chat::new();
    assert_eq!(
        chat.on_message("0123456789", "hello"),
        print_line("[01234567] hello", "")
    );
    assert_eq!(chat.on_message("012", "hello"), print_line("[012] hello", ""));
    type_in(&mut chat, "/id");
    let off = chat.on_key(Key::Enter, false);
    assert_eq!(off.sent, None);
    assert_eq!(
        off.written,
        Some(print_line("(peer ID display: off)", ""))
    );
    type_in(&mut chat, "x");
    assert_eq!(
        chat.on_message("0123456789", "hello"),
        print_line("hello", "x")
    );
    assert!(!chat.shows_ids());
    let on = chat.on_key(Key::Char('t'), true);
    assert!(chat.shows_ids());
    assert_eq!(on.written, Some(print_line("(peer ID display: on)", "x")));
}

#[test]
fn keys_edit_the_line() {
    let mut chat = Chat::new();
    type_in(&mut chat, "ab");
    assert_eq!(
        chat.on_key(Key::Backspace, false).written,
        Some(redraw_input("a"))
    );
    assert_eq!(chat.on_key(Key::Tab, false).written, None);
    assert_eq!(chat.on_key(Key::Char('x'), true).written, None);
    assert!(chat.on_key(Key::Char('c'), true).quit);
    assert_eq!(chat.on_key(Key::Enter, false).sent.as_deref(), Some("a"));
    assert_eq!(
        chat.on_key(Key::Backspace, false).written,
        Some(redraw_input(""))
    );
}

#[test]
fn ids_are_cut_at_a_character() {
    let chat = Chat::new();
    assert_eq!(
        chat.on_message("ääääää", "hello"),
        print_line("[ääää] hello", "")
    );
}
