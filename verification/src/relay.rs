//! The decisions of one front relay connection, client or server, for each thing
//! that happens to it. The connection task in the program reads the events,
//! performs the actions in order, and stops when the flow says so.
use crate::action::{actions_view, Action, ActionView, Flow};
use crate::codec::{i32_field, i64_field, i64_of_field, lemma_i64_of_field_roundtrip};
use crate::packets::{
    client_data, client_data_packet, client_left, client_left_packet, close_notice,
    is_close_notice, lemma_client_data_layout, server_frame_client, server_frame_payload, split_server_frame,
};
use vstd::prelude::*;

verus! {

/// The two variants of the front relay differ only in what a failed write leads to.
#[derive(Debug, Clone, Copy, PartialEq, Eq)]
pub enum Flavor {
    /// A failed write to a client is reported to the servers as the client
    /// leaving.
    Announcing,
    /// A failed write drops the peer's id from the table without telling
    /// anyone.
    Quiet,
}

/// One connection of the front relay.
#[derive(Debug, Clone, Copy, PartialEq, Eq)]
pub struct RelaySession {
    /// The id of the peer on this connection.
    pub peer_id: i64,
    /// Whether the peer is a game server (otherwise it is a client).
    pub is_server: bool,
    /// Which variant of the front relay this is.
    pub flavor: Flavor,
}

/// What can happen to a front relay connection.
#[derive(Debug, Clone, PartialEq, Eq)]
pub enum RelayEvent {
    /// The peer sent a frame (its length header already taken off).
    Frame(Vec<u8>),
    /// Another task handed this connection a message for its peer.
    Received(Vec<u8>),
    /// Writing the last `Write` action's frame to the peer failed.
    SendFailed,
    /// The peer's stream ended or broke.
    End,
}

/// What is done when the connection is over: a server's clients are sent an
/// empty message (which makes them close) and the server leaves the table; a
/// client's leaving is announced to the servers and the client leaves the
/// table.
pub open spec fn farewell(s: RelaySession) -> Seq<ActionView<Seq<u8>>> {
    if s.is_server {
        seq![ActionView::ToAllClients(Seq::empty()), ActionView::ForgetServer]
    } else {
        seq![ActionView::ToServers(client_left(s.peer_id)), ActionView::ForgetClient(s.peer_id)]
    }
}

/// Whether the connection can take this event: a server's frame must hold
/// the eight-byte id of the client it is for, and a client's frame with
/// its header must fit in memory.
pub open spec fn accepts(s: RelaySession, e: RelayEvent) -> bool {
    match e {
        RelayEvent::Frame(m) => if s.is_server {
            m@.len() >= 8
        } else {
            m@.len() + 2 <= usize::MAX
        },
        _ => true,
    }
}

/// The actions and the flow that follow an event.
pub open spec fn relay_step(s: RelaySession, e: RelayEvent) -> (Seq<ActionView<Seq<u8>>>, Flow) {
    match e {
        RelayEvent::Frame(m) => if s.is_server {
            (
                seq![ActionView::ToClient(server_frame_client(m@), server_frame_payload(m@))],
                Flow::Continue,
            )
        } else {
            (seq![ActionView::ToServers(client_data(s.peer_id, m@))], Flow::Continue)
        },
        RelayEvent::Received(m) => if m@.len() == 0 {
            (seq![ActionView::Shutdown] + farewell(s), Flow::Stop)
        } else if !s.is_server && is_close_notice(m@) {
            (
                seq![ActionView::ForgetClient(s.peer_id), ActionView::Close, ActionView::Shutdown],
                Flow::Stop,
            )
        } else {
            (seq![ActionView::Write(m@)], Flow::Continue)
        },
        RelayEvent::SendFailed => match s.flavor {
            Flavor::Announcing => (
                (if s.is_server {
                    Seq::empty()
                } else {
                    farewell(s)
                }) + seq![ActionView::Close, ActionView::Shutdown],
                Flow::Fail,
            ),
            Flavor::Quiet => (
                seq![ActionView::ForgetClient(s.peer_id), ActionView::Close, ActionView::Shutdown],
                Flow::Fail,
            ),
        },
        RelayEvent::End => (farewell(s), Flow::Stop),
    }
}

/// The actions that end a connection (see [`farewell`]).
fn farewell_actions(s: &RelaySession, out: &mut Vec<Action<Vec<u8>>>)
    ensures
        actions_view(final(out)@) == actions_view(old(out)@) + farewell(*s),
{
    if s.is_server {
        out.push(Action::ToAllClients(Vec::new()));
        out.push(Action::ForgetServer);
    } else {
        out.push(Action::ToServers(client_left_packet(s.peer_id)));
        out.push(Action::ForgetClient(s.peer_id));
    }
    proof {
        assert(actions_view(final(out)@) =~= actions_view(old(out)@) + farewell(*s));
    }
}

impl RelaySession {
    /// Decides what follows `event`.
    pub fn step(&self, event: RelayEvent) -> (res: (Vec<Action<Vec<u8>>>, Flow))
        requires
            accepts(*self, event),
        ensures
            actions_view(res.0@) == relay_step(*self, event).0,
            res.1 == relay_step(*self, event).1,
    {
        let mut out: Vec<Action<Vec<u8>>> = Vec::new();
        let flow = match event {
            RelayEvent::Frame(m) => {
                if self.is_server {
                    let (id, payload) = split_server_frame(m.as_slice());
                    out.push(Action::ToClient(id, payload));
                } else {
                    out.push(Action::ToServers(client_data_packet(self.peer_id, m.as_slice())));
                }
                Flow::Continue
            },
            RelayEvent::Received(m) => {
                if m.len() == 0 {
                    out.push(Action::Shutdown);
                    farewell_actions(self, &mut out);
                    Flow::Stop
                } else if !self.is_server && close_notice(m.as_slice()) {
                    out.push(Action::ForgetClient(self.peer_id));
                    out.push(Action::Close);
                    out.push(Action::Shutdown);
                    Flow::Stop
                } else {
                    out.push(Action::Write(m));
                    Flow::Continue
                }
            },
            RelayEvent::SendFailed => {
                match self.flavor {
                    Flavor::Announcing => {
                        if !self.is_server {
                            farewell_actions(self, &mut out);
                        }
                    },
                    Flavor::Quiet => {
                        out.push(Action::ForgetClient(self.peer_id));
                    },
                }
                out.push(Action::Close);
                out.push(Action::Shutdown);
                Flow::Fail
            },
            RelayEvent::End => {
                farewell_actions(self, &mut out);
                Flow::Stop
            },
        };
        proof {
            assert(actions_view(out@) =~= relay_step(*self, event).0);
        }
        (out, flow)
    }
}

/// A client's frame goes to the servers as a data packet that starts with
/// the client's id; a server's reply that keeps those first eight bytes goes
/// back to that client, carrying the rest of the reply.
pub proof fn lemma_reply_reaches_sender(
    client: RelaySession,
    server: RelaySession,
    msg: Vec<u8>,
    reply: Vec<u8>,
)
    requires
        !client.is_server,
        server.is_server,
        reply@.len() >= 8,
        reply@.subrange(0, 8) == client_data(client.peer_id, msg@).subrange(0, 8),
    ensures
        relay_step(client, RelayEvent::Frame(msg)).0 == seq![
            ActionView::ToServers(client_data(client.peer_id, msg@)),
        ],
        relay_step(server, RelayEvent::Frame(reply)).0 == seq![
            ActionView::ToClient(client.peer_id, reply@.subrange(8, reply@.len() as int)),
        ],
{
    lemma_client_data_layout(client.peer_id, msg@);
}

/// Whatever the variant, when a connection's stream ends its leaving is
/// done: a client's servers get the twelve-byte packet of its id and the
/// disconnected kind and the client leaves the table; a server's clients
/// get an empty message and the server leaves the table.
pub proof fn lemma_end_says_farewell(s: RelaySession)
    ensures
        relay_step(s, RelayEvent::End).1 == Flow::Stop,
        !s.is_server ==> relay_step(s, RelayEvent::End).0 == seq![
            ActionView::ToServers(i64_field(s.peer_id) + i32_field(20002)),
            ActionView::ForgetClient(s.peer_id),
        ],
        s.is_server ==> relay_step(s, RelayEvent::End).0 == seq![
            ActionView::ToAllClients(Seq::<u8>::empty()),
            ActionView::ForgetServer,
        ],
{
}

/// A server's frame goes to the client whose id field is its first eight
/// bytes, carrying the rest of the frame; the connection goes on.
pub proof fn lemma_server_frame_goes_to_named_client(s: RelaySession, m: Vec<u8>)
    requires
        s.is_server,
        m@.len() >= 8,
    ensures
        relay_step(s, RelayEvent::Frame(m)).1 == Flow::Continue,
        exists|id: i64|
            i64_field(id) == m@.subrange(0, 8) && relay_step(s, RelayEvent::Frame(m)).0 == seq![
                ActionView::ToClient(id, m@.subrange(8, m@.len() as int)),
            ],
{
    lemma_i64_of_field_roundtrip(m@.subrange(0, 8));
    let id = i64_of_field(m@.subrange(0, 8));
    assert(i64_field(id) == m@.subrange(0, 8));
}

/// A message handed to a connection: an empty one shuts the connection
/// and says its farewell; a client's message whose fifth byte, unmasked
/// with 0xcf, is 3 or 14 drops the client without telling the servers; any
/// other is written to the peer.
pub proof fn lemma_received(s: RelaySession, m: Vec<u8>)
    ensures
        m@.len() == 0 ==> relay_step(s, RelayEvent::Received(m)) == (
            seq![ActionView::Shutdown] + relay_step(s, RelayEvent::End).0,
            Flow::Stop,
        ),
        m@.len() > 4 && !s.is_server && ((m@[4] ^ 0xcfu8) == 3 || (m@[4] ^ 0xcfu8) == 14)
            ==> relay_step(s, RelayEvent::Received(m)) == (
            seq![
                ActionView::<Seq<u8>>::ForgetClient(s.peer_id),
                ActionView::Close,
                ActionView::Shutdown,
            ],
            Flow::Stop,
        ),
        m@.len() > 0 && !(m@.len() > 4 && !s.is_server && ((m@[4] ^ 0xcfu8) == 3 || (m@[4]
            ^ 0xcfu8) == 14)) ==> relay_step(s, RelayEvent::Received(m)) == (
            seq![ActionView::Write(m@)],
            Flow::Continue,
        ),
{
}

/// A failed write ends the connection with the send error after closing
/// and shutting it: in the announcing variant a client first says its
/// farewell (the servers are told it left and it leaves the table); in the
/// quiet variant the peer's id just leaves the client table.
pub proof fn lemma_send_failed(s: RelaySession)
    ensures
        relay_step(s, RelayEvent::SendFailed).1 == Flow::Fail,
        s.flavor == Flavor::Announcing && !s.is_server ==> relay_step(
            s,
            RelayEvent::SendFailed,
        ).0 == seq![
            ActionView::ToServers(i64_field(s.peer_id) + i32_field(20002)),
            ActionView::ForgetClient(s.peer_id),
            ActionView::Close,
            ActionView::Shutdown,
        ],
        s.flavor == Flavor::Announcing && s.is_server ==> relay_step(s, RelayEvent::SendFailed).0
            == seq![ActionView::<Seq<u8>>::Close, ActionView::Shutdown],
        s.flavor == Flavor::Quiet ==> relay_step(s, RelayEvent::SendFailed).0 == seq![
            ActionView::<Seq<u8>>::ForgetClient(s.peer_id),
            ActionView::Close,
            ActionView::Shutdown,
        ],
{
    assert(Seq::<ActionView<Seq<u8>>>::empty() + seq![ActionView::<Seq<u8>>::Close, ActionView::Shutdown]
        =~= seq![ActionView::<Seq<u8>>::Close, ActionView::Shutdown]);
}

/// Whether the front relay's third argument asks for sockets without Nagle's
/// delay: it ends with `nodelay`.
pub open spec fn asks_no_delay(arg: Seq<char>) -> bool {
    arg.len() >= 7 && arg.subrange(arg.len() - 7, arg.len() as int) == "nodelay"@
}

/// Whether the argument asks for sockets without delay (see
/// [`asks_no_delay`]).
pub fn no_delay_requested(arg: &str) -> (res: bool)
    ensures
        res == asks_no_delay(arg@),
{
    let suffix = "nodelay";
    proof {
        reveal_strlit("nodelay");
    }
    let n = arg.unicode_len();
    if n < 7 {
        return false;
    }
    let mut k: usize = 0;
    while k < 7
        invariant
            n == arg@.len(),
            n >= 7,
            k <= 7,
            suffix@ == "nodelay"@,
            suffix@.len() == 7,
            forall|m: int| 0 <= m < k ==> arg@[n - 7 + m] == suffix@[m],
        decreases 7 - k,
    {
        if arg.get_char(n - 7 + k) != suffix.get_char(k) {
            proof {
                assert(arg@.subrange(n - 7, n as int)[k as int] != suffix@[k as int]);
            }
            return false;
        }
        k = k + 1;
    }
    proof {
        assert(arg@.subrange(n - 7, n as int) =~= suffix@);
    }
    true
}

} // verus!
