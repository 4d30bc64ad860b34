//! The byte-frame centre: the first connection is the server, every later
//! one a client. A client is announced to the server with its id; the
//! server's frames name the client they are for in their first four bytes
//! and reach it whole; a client's frames reach the server as they are.
use crate::action::{actions_view, Action, ActionView, Flow};
use crate::codec::{i32_field, i32_from_field, i32_of_field, lemma_i32_field_roundtrip, u32_of_le};
use crate::net::id_byte;
use vstd::prelude::*;

verus! {

/// The packet that announces client `id` to the server: its four
/// little-endian bytes.
pub open spec fn client_id_packet(id: i32) -> Seq<u8> {
    seq![id_byte(id, 0), id_byte(id, 1), id_byte(id, 2), id_byte(id, 3)]
}

/// The packet that announces client `id` (see [`client_id_packet`]).
pub fn id_packet(id: i32) -> (res: Vec<u8>)
    ensures
        res@ == client_id_packet(id),
{
    let mut buf: Vec<u8> = Vec::new();
    buf.push((id & 0xff) as u8);
    buf.push(((id >> 8) & 0xff) as u8);
    buf.push(((id >> 16) & 0xff) as u8);
    buf.push(((id >> 24) & 0xff) as u8);
    proof {
        assert(buf@ =~= client_id_packet(id));
    }
    buf
}

/// One connection of the byte-frame centre.
#[derive(Debug, Clone, Copy, PartialEq, Eq)]
pub struct CenterSession {
    /// The id of the peer on this connection.
    pub peer_id: i32,
    /// Whether the peer is the server.
    pub is_server: bool,
}

/// What can happen to a connection of the centre.
#[derive(Debug, Clone, PartialEq, Eq)]
pub enum CenterEvent {
    /// The peer sent a frame.
    Frame(Vec<u8>),
    /// Another task handed this connection a message for its peer.
    Received(Vec<u8>),
    /// Writing the last `Write` action's frame failed.
    SendFailed,
    /// The peer's stream ended or broke.
    End,
}

/// Whether the connection can take this event: a server's frame must hold
/// the four-byte id of the client it is for.
pub open spec fn center_accepts(s: CenterSession, e: CenterEvent) -> bool {
    match e {
        CenterEvent::Frame(m) => s.is_server ==> m@.len() >= 4,
        _ => true,
    }
}

/// The actions and the flow that follow an event. The peer table is left
/// as it is when a connection ends.
pub open spec fn center_step(s: CenterSession, e: CenterEvent) -> (
    Seq<ActionView<Seq<u8>>>,
    Flow,
) {
    match e {
        CenterEvent::Frame(m) => if s.is_server {
            (
                seq![ActionView::ToClient(i32_of_field(m@.subrange(0, 4)) as i64, m@)],
                Flow::Continue,
            )
        } else {
            (seq![ActionView::ToServers(m@)], Flow::Continue)
        },
        CenterEvent::Received(m) => (seq![ActionView::Write(m@)], Flow::Continue),
        CenterEvent::SendFailed => (Seq::empty(), Flow::Fail),
        CenterEvent::End => (Seq::empty(), Flow::Stop),
    }
}

impl CenterSession {
    /// The session of the connection that got `peer_id`: the first
    /// connection (id 0) is the server's.
    pub fn new(peer_id: i32) -> (s: Self)
        ensures
            s.peer_id == peer_id,
            s.is_server == (peer_id == 0),
    {
        CenterSession { peer_id, is_server: peer_id == 0 }
    }

    /// Decides what follows `event`.
    pub fn step(&self, event: CenterEvent) -> (res: (Vec<Action<Vec<u8>>>, Flow))
        requires
            center_accepts(*self, event),
        ensures
            actions_view(res.0@) == center_step(*self, event).0,
            res.1 == center_step(*self, event).1,
    {
        let mut out: Vec<Action<Vec<u8>>> = Vec::new();
        let flow = match event {
            CenterEvent::Frame(m) => {
                if self.is_server {
                    let id = i32_from_field(m.as_slice(), 0);
                    out.push(Action::ToClient(id as i64, m));
                } else {
                    out.push(Action::ToServers(m));
                }
                Flow::Continue
            },
            CenterEvent::Received(m) => {
                out.push(Action::Write(m));
                Flow::Continue
            },
            CenterEvent::SendFailed => Flow::Fail,
            CenterEvent::End => Flow::Stop,
        };
        proof {
            assert(actions_view(out@) =~= center_step(*self, event).0);
        }
        (out, flow)
    }
}

/// The announcement of a client is the little-endian field of its id.
pub proof fn lemma_id_packet_is_field(id: i32)
    ensures
        client_id_packet(id) == i32_field(id),
{
    let u = id as u32;
    assert((id & 0xff) as u8 == (u & 0xff) as u8 && ((id >> 8) & 0xff) as u8 == ((u >> 8) & 0xff)
        as u8 && ((id >> 16) & 0xff) as u8 == ((u >> 16) & 0xff) as u8 && ((id >> 24) & 0xff) as u8
        == ((u >> 24) & 0xff) as u8) by (bit_vector)
        requires
            u == id as u32,
    ;
    assert(client_id_packet(id) =~= i32_field(id));
}

/// A server's frame that starts with a client's announcement is routed,
/// whole, to that client.
pub proof fn lemma_announced_client_routes_back(s: CenterSession, id: i32, m: Vec<u8>)
    requires
        s.is_server,
        m@.len() >= 4,
        m@.subrange(0, 4) == client_id_packet(id),
    ensures
        center_step(s, CenterEvent::Frame(m)).0 == seq![ActionView::ToClient(id as i64, m@)],
{
    lemma_id_packet_is_field(id);
    lemma_i32_field_roundtrip(id);
}

/// A server's frame goes whole to the client whose id is its first four
/// bytes read little-endian; a client's frame goes to the servers as it is.
/// A failed write ends the connection with the error, the end of the stream
/// ends it normally, and neither touches the peer table.
pub proof fn lemma_frames_and_endings(s: CenterSession, m: Vec<u8>)
    ensures
        s.is_server && m@.len() >= 4 ==> center_step(s, CenterEvent::Frame(m)) == (
            seq![
                ActionView::ToClient(
                    ((m@[0] as u32) | (m@[1] as u32) << 8 | (m@[2] as u32) << 16 | (m@[3] as u32)
                        << 24) as i32 as i64,
                    m@,
                ),
            ],
            Flow::Continue,
        ),
        !s.is_server ==> center_step(s, CenterEvent::Frame(m)) == (
            seq![ActionView::ToServers(m@)],
            Flow::Continue,
        ),
        center_step(s, CenterEvent::SendFailed) == (Seq::<ActionView<Seq<u8>>>::empty(), Flow::Fail),
        center_step(s, CenterEvent::End) == (Seq::<ActionView<Seq<u8>>>::empty(), Flow::Stop),
{
    if s.is_server && m@.len() >= 4 {
        let h = m@.subrange(0, 4);
        assert(h[0] == m@[0] && h[1] == m@[1] && h[2] == m@[2] && h[3] == m@[3]);
        assert(u32_of_le(h) == ((m@[0] as u32) | (m@[1] as u32) << 8 | (m@[2] as u32) << 16 | (
        m@[3] as u32) << 24));
    }
}

/// Whatever the session, server or client, a message handed to the
/// connection is written to its peer as it is, and the connection goes on.
pub proof fn lemma_received_is_written(s: CenterSession, m: Vec<u8>)
    ensures
        center_step(s, CenterEvent::Received(m)).0 == seq![ActionView::Write(m@)],
        center_step(s, CenterEvent::Received(m)).1 == Flow::Continue,
{
}

} // verus!
