//! The line-based chat centre. A peer's first line names it: `is_server
//! NAME` for the server, `USER SERVER` for a client. After that, a client's
//! lines go to the servers and the server's lines go to every client, each
//! prefixed with the sender's name.
use crate::action::{actions_view, Action, ActionView, Flow};
use vstd::prelude::*;

verus! {

/// Whether `c` is white space (the Unicode `White_Space` characters).
pub open spec fn is_white(c: char) -> bool {
    let u = c as u32;
    (0x9 <= u <= 0xd) || u == 0x20 || u == 0x85 || u == 0xa0 || u == 0x1680 || (0x2000 <= u
        <= 0x200a) || u == 0x2028 || u == 0x2029 || u == 0x202f || u == 0x205f || u == 0x3000
}

/// Whether `c` is white space (see [`is_white`]).
pub fn white(c: char) -> (res: bool)
    ensures
        res == is_white(c),
{
    let u = c as u32;
    (0x9 <= u && u <= 0xd) || u == 0x20 || u == 0x85 || u == 0xa0 || u == 0x1680 || (0x2000 <= u
        && u <= 0x200a) || u == 0x2028 || u == 0x2029 || u == 0x202f || u == 0x205f || u == 0x3000
}

/// The words of `s`: its longest runs of characters that are not white
/// space, in order.
pub open spec fn words(s: Seq<char>) -> Seq<Seq<char>>
    decreases s.len(),
{
    if s.len() == 0 {
        Seq::empty()
    } else {
        let init = words(s.drop_last());
        let c = s.last();
        if is_white(c) {
            init
        } else if s.len() >= 2 && !is_white(s[s.len() - 2]) {
            init.update(init.len() - 1, init.last().push(c))
        } else {
            init.push(seq![c])
        }
    }
}

/// A word of `s` is not empty and holds no white space.
pub proof fn lemma_words_are_words(s: Seq<char>)
    ensures
        forall|k: int|
            0 <= k < words(s).len() ==> #[trigger] words(s)[k].len() > 0 && forall|m: int|
                0 <= m < words(s)[k].len() ==> !is_white(#[trigger] words(s)[k][m]),
    decreases s.len(),
{
    if s.len() > 0 {
        let p = s.drop_last();
        lemma_words_are_words(p);
        lemma_words_end(p);
        let init = words(p);
        let c = s.last();
        if !is_white(c) && s.len() >= 2 && !is_white(s[s.len() - 2]) {
            assert(p.last() == s[s.len() - 2]);
            let w = init.update(init.len() - 1, init.last().push(c));
            assert forall|k: int| 0 <= k < w.len() implies #[trigger] w[k].len() > 0 && forall|m: int|
                0 <= m < w[k].len() ==> !is_white(#[trigger] w[k][m]) by {
                if k == init.len() - 1 {
                    assert forall|m: int| 0 <= m < w[k].len() implies !is_white(#[trigger] w[k][m]) by {
                        if m < init[k].len() {
                            assert(w[k][m] == init[k][m]);
                        }
                    }
                } else {
                    assert(w[k] == init[k]);
                }
            }
        } else if !is_white(c) {
            let w = init.push(seq![c]);
            assert forall|k: int| 0 <= k < w.len() implies #[trigger] w[k].len() > 0 && forall|m: int|
                0 <= m < w[k].len() ==> !is_white(#[trigger] w[k][m]) by {
                if k < init.len() {
                    assert(w[k] == init[k]);
                }
            }
        }
    }
}

/// After a character that is not white space, `s` has a word, and its last
/// word ends with that character.
proof fn lemma_words_end(s: Seq<char>)
    ensures
        s.len() > 0 && !is_white(s.last()) ==> words(s).len() > 0,
    decreases s.len(),
{
    if s.len() > 0 {
        lemma_words_end(s.drop_last());
    }
}

/// Splits `line` into its words (see [`words`]).
pub fn split_words(line: &str) -> (res: Vec<String>)
    ensures
        res@.map_values(|w: String| w@) == words(line@),
{
    let n = line.unicode_len();
    let ghost s = line@;
    let mut res: Vec<String> = Vec::new();
    let mut start: Option<usize> = None;
    let mut i: usize = 0;
    while i < n
        invariant
            n == s.len(),
            s == line@,
            i <= n,
            match start {
                None => {
                    &&& res@.map_values(|w: String| w@) == words(s.take(i as int))
                    &&& (i == 0 || is_white(s[i - 1]))
                },
                Some(st) => {
                    &&& st < i
                    &&& res@.map_values(|w: String| w@).push(s.subrange(st as int, i as int))
                        == words(s.take(i as int))
                    &&& !is_white(s[i - 1])
                },
            },
        decreases n - i,
    {
        let c = line.get_char(i);
        let ghost before = res@.map_values(|w: String| w@);
        proof {
            assert(s.take(i + 1).drop_last() =~= s.take(i as int));
            assert(s.take(i + 1).last() == c);
            if i > 0 {
                assert(s.take(i + 1)[i - 1] == s[i - 1]);
            }
        }
        if white(c) {
            match start {
                Some(st) => {
                    let w = line.substring_char(st, i);
                    res.push(String::from_str(w));
                    proof {
                        assert(res@.map_values(|w: String| w@) =~= before.push(
                            s.subrange(st as int, i as int),
                        ));
                    }
                },
                None => {},
            }
            start = None;
        } else {
            match start {
                None => {
                    proof {
                        assert(s.subrange(i as int, i + 1) =~= seq![c]);
                    }
                    start = Some(i);
                },
                Some(st) => {
                    proof {
                        assert(s.subrange(st as int, i + 1) =~= s.subrange(st as int, i as int).push(
                            c,
                        ));
                        let w = words(s.take(i as int));
                        assert(w.len() == before.len() + 1);
                        assert(w.update(w.len() - 1, w.last().push(c)) =~= before.push(
                            s.subrange(st as int, i + 1),
                        ));
                    }
                },
            }
        }
        i = i + 1;
    }
    proof {
        assert(s.take(n as int) =~= s);
    }
    match start {
        Some(st) => {
            let w = line.substring_char(st, n);
            res.push(String::from_str(w));
        },
        None => {},
    }
    proof {
        assert(res@.map_values(|w: String| w@) =~= words(s));
    }
    res
}

/// The line that asks a new peer for its name.
pub open spec fn prompt_text() -> Seq<char> {
    "Please enter your username:"@
}

/// The word by which a peer says that it is the server.
pub open spec fn server_marker() -> Seq<char> {
    "is_server"@
}

/// The line that announces a peer that has named itself: a client's join
/// goes to the servers, a server's to the client that shares its id.
pub open spec fn join_notice(is_server: bool, user: Seq<char>, server: Seq<char>) -> Seq<char> {
    if is_server {
        user + " has joined the chat\u{ff0c} is server "@ + server + " "@
    } else {
        user + " has joined the chat, send msg to "@ + server
    }
}

/// A line of `user` as the other side sees it.
pub open spec fn relayed_line(user: Seq<char>, msg: Seq<char>) -> Seq<char> {
    " "@ + user + ": "@ + msg
}

/// The line that asks a new peer for its name.
pub fn prompt() -> (res: String)
    ensures
        res@ == prompt_text(),
{
    String::from_str("Please enter your username:")
}

/// One named connection of the chat centre.
#[derive(Debug, Clone, PartialEq, Eq)]
pub struct ChatSession {
    /// The id of the connection.
    pub id: i64,
    /// Whether the peer named itself as the server.
    pub is_server: bool,
    /// The name under which the peer's lines are relayed.
    pub username: String,
}

/// What can happen to a named connection.
#[derive(Debug, Clone, PartialEq, Eq)]
pub enum ChatEvent {
    /// The peer sent a line.
    Line(String),
    /// Another task handed this connection a line for its peer.
    Received(String),
    /// Writing the last `Write` action's line failed.
    SendFailed,
    /// The peer sent something that is not a line.
    LineError,
    /// The peer's stream has ended.
    End,
}

/// The session that the name words of a peer open, and the line that
/// announces the peer.
pub open spec fn login_spec(id: i64, w: Seq<Seq<char>>) -> (bool, Seq<char>, ActionView<Seq<char>>) {
    let is_server = w[0] == server_marker();
    let user = if is_server {
        w[1]
    } else {
        w[0]
    };
    let notice = join_notice(is_server, user, w[1]);
    (
        is_server,
        user,
        if is_server {
            ActionView::ToClient(id, notice)
        } else {
            ActionView::ToServers(notice)
        },
    )
}

/// Opens the session of the connection `id` whose peer named itself with
/// the words `w` (at least two): `is_server NAME` makes it the server NAME,
/// `USER SERVER` the client USER. Also gives the announcement of the peer.
pub fn login(id: i64, w: &Vec<String>) -> (res: (ChatSession, Action<String>))
    requires
        w@.len() >= 2,
    ensures
        res.0.id == id,
        res.0.is_server == login_spec(id, w@.map_values(|x: String| x@)).0,
        res.0.username@ == login_spec(id, w@.map_values(|x: String| x@)).1,
        res.1@ == login_spec(id, w@.map_values(|x: String| x@)).2,
{
    let ghost ws = w@.map_values(|x: String| x@);
    let marker = String::from_str("is_server");
    let is_server = w[0].eq(&marker);
    let user = if is_server {
        w[1].clone()
    } else {
        w[0].clone()
    };
    let server = &w[1];
    let action = if is_server {
        let notice = user.clone().concat(" has joined the chat\u{ff0c} is server ").concat(
            server.as_str(),
        ).concat(" ");
        Action::ToClient(id, notice)
    } else {
        let notice = user.clone().concat(" has joined the chat, send msg to ").concat(
            server.as_str(),
        );
        Action::ToServers(notice)
    };
    proof {
        assert(ws[0] == w@[0]@);
        assert(ws[1] == w@[1]@);
    }
    (ChatSession { id, is_server, username: user }, action)
}

/// The actions and the flow that follow an event. A finished stream is
/// polled again: the connection never ends on its own.
pub open spec fn chat_step(s: ChatSession, e: ChatEvent) -> (Seq<ActionView<Seq<char>>>, Flow) {
    match e {
        ChatEvent::Line(m) => if s.is_server {
            (seq![ActionView::ToAllClients(relayed_line(s.username@, m@))], Flow::Continue)
        } else {
            (seq![ActionView::ToServers(relayed_line(s.username@, m@))], Flow::Continue)
        },
        ChatEvent::Received(m) => (seq![ActionView::Write(m@)], Flow::Continue),
        ChatEvent::SendFailed => (Seq::empty(), Flow::Fail),
        ChatEvent::LineError => (Seq::empty(), Flow::Continue),
        ChatEvent::End => (Seq::empty(), Flow::Continue),
    }
}

impl ChatSession {
    /// Decides what follows `event`.
    pub fn step(&self, event: ChatEvent) -> (res: (Vec<Action<String>>, Flow))
        ensures
            actions_view(res.0@) == chat_step(*self, event).0,
            res.1 == chat_step(*self, event).1,
    {
        let mut out: Vec<Action<String>> = Vec::new();
        let flow = match event {
            ChatEvent::Line(m) => {
                let line = String::from_str(" ").concat(self.username.as_str()).concat(
                    ": ",
                ).concat(m.as_str());
                if self.is_server {
                    out.push(Action::ToAllClients(line));
                } else {
                    out.push(Action::ToServers(line));
                }
                Flow::Continue
            },
            ChatEvent::Received(m) => {
                out.push(Action::Write(m));
                Flow::Continue
            },
            ChatEvent::SendFailed => Flow::Fail,
            ChatEvent::LineError => Flow::Continue,
            ChatEvent::End => Flow::Continue,
        };
        proof {
            assert(actions_view(out@) =~= chat_step(*self, event).0);
        }
        (out, flow)
    }
}

/// A peer's line is relayed as a space, the peer's name, a colon and a
/// space, then the line: the server's to every client, a client's to the
/// servers. A failed write ends the connection with the error; a bad line
/// or the end of the stream changes nothing.
pub proof fn lemma_lines_and_endings(s: ChatSession, m: String)
    ensures
        s.is_server ==> chat_step(s, ChatEvent::Line(m)) == (
            seq![ActionView::ToAllClients(" "@ + s.username@ + ": "@ + m@)],
            Flow::Continue,
        ),
        !s.is_server ==> chat_step(s, ChatEvent::Line(m)) == (
            seq![ActionView::ToServers(" "@ + s.username@ + ": "@ + m@)],
            Flow::Continue,
        ),
        chat_step(s, ChatEvent::SendFailed) == (Seq::<ActionView<Seq<char>>>::empty(), Flow::Fail),
        chat_step(s, ChatEvent::LineError) == (
            Seq::<ActionView<Seq<char>>>::empty(),
            Flow::Continue,
        ),
        chat_step(s, ChatEvent::End) == (Seq::<ActionView<Seq<char>>>::empty(), Flow::Continue),
{
}

/// A peer that names itself `is_server NAME` becomes the server NAME and
/// is announced to the client that shares its id; one that names itself
/// `USER SERVER` becomes the client USER and is announced to the servers.
pub proof fn lemma_login(id: i64, w: Seq<Seq<char>>)
    requires
        w.len() >= 2,
    ensures
        w[0] == "is_server"@ ==> login_spec(id, w) == (
            true,
            w[1],
            ActionView::ToClient(id, w[1] + " has joined the chat\u{ff0c} is server "@ + w[1] + " "@),
        ),
        w[0] != "is_server"@ ==> login_spec(id, w) == (
            false,
            w[0],
            ActionView::ToServers(w[0] + " has joined the chat, send msg to "@ + w[1]),
        ),
{
}

/// Whatever the session, server or client, a line handed to the
/// connection is written to its peer as it is, and the connection goes on.
pub proof fn lemma_received_line_is_written(s: ChatSession, m: String)
    ensures
        chat_step(s, ChatEvent::Received(m)).0 == seq![ActionView::Write(m@)],
        chat_step(s, ChatEvent::Received(m)).1 == Flow::Continue,
{
}

} // verus!
