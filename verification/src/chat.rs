//! The chat in the terminal: a line that is edited below the lines that were said.
use vstd::prelude::*;

use crate::model::opt_view;
use crate::text;
use crate::text::{can_cut, first_bytes, trimmed_end};
use crate::tui::app::{without_last, Key};

verus! {

/// A line above the one that is edited, which is then written again.
pub open spec fn printed(line: Seq<char>, input: Seq<char>) -> Seq<char> {
    "\r\x1b[K"@ + line + "\r\n> "@ + input
}

/// The line that is edited, written again.
pub open spec fn redrawn(input: Seq<char>) -> Seq<char> {
    "\r\x1b[K> "@ + input
}

/// Writes a line above the one that is edited.
pub fn print_line(line: &str, input: &str) -> (r: String)
    ensures
        r@ == printed(line@, input@),
{
    text::cat4("\r\x1b[K", line, "\r\n> ", input)
}

/// Writes the line that is edited again.
pub fn redraw_input(input: &str) -> (r: String)
    ensures
        r@ == redrawn(input@),
{
    text::cat2("\r\x1b[K> ", input)
}

/// The chat.
pub struct Chat {
    show_ids: bool,
    input: String,
}

/// The model of `Chat`.
#[verifier::ext_equal]
pub struct ChatView {
    pub show_ids: bool,
    pub input: Seq<char>,
}

impl View for Chat {
    type V = ChatView;

    closed spec fn view(&self) -> ChatView {
        ChatView { show_ids: self.show_ids, input: self.input@ }
    }
}

/// What a key leads to.
#[derive(Debug, PartialEq, Eq)]
pub struct ChatStep {
    pub quit: bool,
    /// What is written to the terminal.
    pub written: Option<String>,
    /// What is sent to all peers.
    pub sent: Option<String>,
}

/// The model of `ChatStep`.
pub struct StepView {
    pub quit: bool,
    pub written: Option<Seq<char>>,
    pub sent: Option<Seq<char>>,
}

impl View for ChatStep {
    type V = StepView;

    open spec fn view(&self) -> StepView {
        StepView {
            quit: self.quit,
            written: opt_view(self.written),
            sent: opt_view(self.sent),
        }
    }
}

/// Nothing happens.
pub open spec fn no_step() -> StepView {
    StepView { quit: false, written: None, sent: None }
}

/// Something is written and nothing is sent.
pub open spec fn writes(text: Seq<char>) -> StepView {
    StepView { written: Some(text), ..no_step() }
}

impl ChatView {
    /// The chat after the ids were switched on or off, and what is written.
    pub open spec fn toggled(self) -> (ChatView, StepView) {
        (
            ChatView { show_ids: !self.show_ids, ..self },
            writes(
                printed(
                    if self.show_ids {
                        "(peer ID display: off)"@
                    } else {
                        "(peer ID display: on)"@
                    },
                    self.input,
                ),
            ),
        )
    }

    /// The chat after its line was finished, and what comes of it.
    pub open spec fn entered(self) -> (ChatView, StepView) {
        let msg = trimmed_end(self.input);
        let cleared = ChatView { input: Seq::empty(), ..self };
        if msg == "/id"@ {
            cleared.toggled()
        } else if msg.len() > 0 {
            (
                cleared,
                StepView {
                    quit: false,
                    written: Some(printed("> "@ + msg, Seq::empty())),
                    sent: Some(msg),
                },
            )
        } else {
            (cleared, writes(redrawn(Seq::empty())))
        }
    }

    /// The chat after its line was changed, and what is written.
    pub open spec fn edited(self, input: Seq<char>) -> (ChatView, StepView) {
        (ChatView { input, ..self }, writes(redrawn(input)))
    }

    /// The chat after a key, and what comes of it.
    pub open spec fn key_pressed(self, key: Key, ctrl: bool) -> (ChatView, StepView) {
        if ctrl {
            if key == Key::Char('c') {
                (self, StepView { quit: true, ..no_step() })
            } else if key == Key::Char('t') {
                self.toggled()
            } else {
                (self, no_step())
            }
        } else {
            match key {
                Key::Enter => self.entered(),
                Key::Backspace => self.edited(without_last(self.input)),
                Key::Char(c) => self.edited(self.input.push(c)),
                _ => (self, no_step()),
            }
        }
    }

    /// The line for what a peer said.
    pub open spec fn heard(self, peer_id: Seq<char>, msg: Seq<char>) -> Seq<char> {
        if self.show_ids {
            "["@ + first_bytes(peer_id, 8) + "] "@ + msg
        } else {
            msg
        }
    }
}

/// An empty line; the ids of the peers are shown.
pub open spec fn fresh_chat() -> ChatView {
    ChatView { show_ids: true, input: Seq::empty() }
}

fn write_only(written: String) -> (r: ChatStep)
    ensures
        r@ == writes(written@),
{
    ChatStep { quit: false, written: Some(written), sent: None }
}

impl Chat {
    /// An empty line; the ids of the peers are shown.
    pub fn new() -> (r: Self)
        ensures
            r@ == fresh_chat(),
    {
        let r = Chat { show_ids: true, input: String::new() };
        assert(r@.input =~= Seq::empty());
        r
    }

    /// What is written at the beginning.
    pub fn prompt(&self) -> (r: String)
        ensures
            r@ == redrawn(self@.input),
    {
        redraw_input(self.input.as_str())
    }

    /// Whether the ids of the peers are shown.
    pub fn shows_ids(&self) -> (r: bool)
        ensures
            r == self@.show_ids,
    {
        self.show_ids
    }

    /// What is written when a peer says something.
    pub fn on_message(&self, peer_id: &str, msg: &str) -> (r: String)
        requires
            self@.show_ids ==> can_cut(peer_id@, 8),
        ensures
            r@ == printed(self@.heard(peer_id@, msg@), self@.input),
    {
        if self.show_ids {
            let line = text::cat4("[", text::cut(peer_id, 8), "] ", msg);
            print_line(line.as_str(), self.input.as_str())
        } else {
            print_line(msg, self.input.as_str())
        }
    }

    /// Handles a key.
    pub fn on_key(&mut self, key: Key, ctrl: bool) -> (r: ChatStep)
        ensures
            (final(self)@, r@) == old(self)@.key_pressed(key, ctrl),
    {
        let nothing = ChatStep { quit: false, written: None, sent: None };
        if ctrl {
            if key == Key::Char('c') {
                return ChatStep { quit: true, written: None, sent: None };
            }
            if key == Key::Char('t') {
                return self.toggle_ids();
            }
            return nothing;
        }
        match key {
            Key::Enter => self.enter(),
            Key::Backspace => {
                let _ = self.input.pop();
                write_only(redraw_input(self.input.as_str()))
            },
            Key::Char(c) => {
                self.input.push(c);
                write_only(redraw_input(self.input.as_str()))
            },
            _ => nothing,
        }
    }

    fn toggle_ids(&mut self) -> (r: ChatStep)
        ensures
            (final(self)@, r@) == old(self)@.toggled(),
    {
        let line = if self.show_ids {
            "(peer ID display: off)"
        } else {
            "(peer ID display: on)"
        };
        self.show_ids = !self.show_ids;
        write_only(print_line(line, self.input.as_str()))
    }

    fn enter(&mut self) -> (r: ChatStep)
        ensures
            (final(self)@, r@) == old(self)@.entered(),
    {
        let msg = text::copy(text::trim_end(self.input.as_str()));
        self.input = String::new();
        assert(self.input@ =~= Seq::empty());
        if text::same(msg.as_str(), "/id") {
            self.toggle_ids()
        } else if msg.as_str().unicode_len() > 0 {
            let line = text::cat2("> ", msg.as_str());
            let written = print_line(line.as_str(), self.input.as_str());
            ChatStep { quit: false, written: Some(written), sent: Some(msg) }
        } else {
            write_only(redraw_input(self.input.as_str()))
        }
    }
}

/// Only Enter sends anything, what is sent is not empty, and the line is then
/// empty.
pub proof fn law_only_enter_sends(v: ChatView, key: Key, ctrl: bool)
    requires
        v.key_pressed(key, ctrl).1.sent is Some,
    ensures
        key == Key::Enter && !ctrl,
        v.key_pressed(key, ctrl).1.sent->0 == trimmed_end(v.input),
        trimmed_end(v.input).len() > 0,
        v.key_pressed(key, ctrl).0.input.len() == 0,
{
}

/// Switching the ids twice leaves the chat as it was.
pub proof fn law_toggle_twice(v: ChatView)
    ensures
        v.toggled().0.toggled().0 == v,
{
}

/// A character that is typed and taken back leaves the line as it was.
pub proof fn law_backspace_takes_back(v: ChatView, c: char)
    ensures
        v.key_pressed(Key::Char(c), false).0.key_pressed(Key::Backspace, false).0 == v,
{
    assert(v.input.push(c).drop_last() =~= v.input);
}

/// Of an id in ASCII the first eight characters are shown, or all of a shorter
/// one.
pub proof fn law_ascii_ids_are_cut(id: Seq<char>)
    requires
        vstd::utf8::is_ascii_chars(id),
    ensures
        can_cut(id, 8),
        first_bytes(id, 8) == crate::tui::format::short(id),
{
    text::lemma_cut_ascii(id, 8);
}

/// What a key does: a character goes behind the line, Backspace takes the last one off,
/// Enter finishes the line, Control-C ends the chat, Control-T switches the ids, and any
/// other key does nothing.
pub proof fn law_what_chat_keys_do(v: ChatView, c: char, key: Key)
    ensures
        v.key_pressed(Key::Char(c), false).0.input == v.input.push(c),
        v.key_pressed(Key::Char(c), false).0.show_ids == v.show_ids,
        v.key_pressed(Key::Char(c), false).1.written == Some(redrawn(v.input.push(c))),
        v.input.len() > 0 ==> v.key_pressed(Key::Backspace, false).0.input == v.input.drop_last(),
        v.input.len() == 0 ==> v.key_pressed(Key::Backspace, false).0 == v,
        v.key_pressed(key, true).1.quit <==> key == Key::Char('c'),
        !v.key_pressed(key, false).1.quit,
        v.key_pressed(Key::Char('t'), true).0.show_ids == !v.show_ids,
        v.key_pressed(Key::Char('t'), true).0.input == v.input,
        key != Key::Char('t') ==> v.key_pressed(key, true).0 == v && v.key_pressed(
            key,
            true,
        ).1.written is None,
        !(key is Char) && key != Key::Enter && key != Key::Backspace ==> v.key_pressed(key, false)
            == (v, no_step()),
{
    if v.input.len() == 0 {
        assert(without_last(v.input) =~= v.input);
    }
}

/// A line that is finished is sent to the peers without the white space behind it, and shown
/// here; the line is then empty. A blank one is not sent, and `/id` switches the ids.
pub proof fn law_finished_line_is_sent(v: ChatView)
    ensures
        ({
            let msg = trimmed_end(v.input);
            let (next, step) = v.key_pressed(Key::Enter, false);
            &&& next.input.len() == 0
            &&& !step.quit
            &&& msg.len() == 0 ==> step.sent is None && next.show_ids == v.show_ids
            &&& msg == "/id"@ ==> step.sent is None && next.show_ids == !v.show_ids
            &&& msg.len() > 0 && msg != "/id"@ ==> {
                &&& step.sent == Some(msg)
                &&& step.written == Some(printed("> "@ + msg, Seq::empty()))
                &&& next.show_ids == v.show_ids
            }
        }),
        fresh_chat().show_ids && fresh_chat().input.len() == 0,
{
    reveal_strlit("/id");
}

/// What a peer said is shown as it said it, behind the first bytes of its id where ids are
/// shown; what is being typed is kept below it.
pub proof fn law_said_lines_are_shown(v: ChatView, peer_id: Seq<char>, msg: Seq<char>)
    ensures
        !v.show_ids ==> v.heard(peer_id, msg) == msg,
        v.show_ids ==> v.heard(peer_id, msg) == "["@ + first_bytes(peer_id, 8) + "] "@ + msg,
        ({
            let line = v.heard(peer_id, msg);
            let s = printed(line, v.input);
            &&& s.skip(s.len() - v.input.len()) == v.input
            &&& s.subrange(4, (4 + line.len()) as int) == line
            &&& redrawn(v.input).skip(redrawn(v.input).len() - v.input.len()) == v.input
        }),
{
    reveal_strlit("\r\x1b[K");
    reveal_strlit("\r\n> ");
    reveal_strlit("\r\x1b[K> ");
    let line = v.heard(peer_id, msg);
    let s = printed(line, v.input);
    assert(s.skip(s.len() - v.input.len()) =~= v.input);
    assert(s.subrange(4, (4 + line.len()) as int) =~= line);
    let t = redrawn(v.input);
    assert(t.skip(t.len() - v.input.len()) =~= v.input);
}

/// Switching the ids tells how they are now: on where they were off, off where they were on.
/// Nothing is sent, the line stays, and the program goes on.
pub proof fn law_switching_tells_the_new_state(v: ChatView)
    ensures
        v.toggled().0.show_ids == !v.show_ids && v.toggled().0.input == v.input,
        v.toggled().0.show_ids ==> v.toggled().1.written == Some(
            printed("(peer ID display: on)"@, v.input),
        ),
        !v.toggled().0.show_ids ==> v.toggled().1.written == Some(
            printed("(peer ID display: off)"@, v.input),
        ),
        v.toggled().1.sent is None && !v.toggled().1.quit,
{
}

} // verus!
