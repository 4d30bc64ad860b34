//! The raw relay: the first connection is the server, every later one a
//! client. A client is announced to the server with a fixed-size packet;
//! afterwards bytes read from any peer are cut into frames (see
//! [`crate::split`]) and routed.
use crate::split::route_id;
use vstd::prelude::*;

verus! {

/// The size of the packet that announces a client.
pub const ANNOUNCE_LEN: usize = 64;

/// Byte `k` (0 to 3) of the little-endian form of `id`.
pub open spec fn id_byte(id: i32, k: int) -> u8 {
    if k == 0 {
        (id & 0xff) as u8
    } else if k == 1 {
        ((id >> 8) & 0xff) as u8
    } else if k == 2 {
        ((id >> 16) & 0xff) as u8
    } else {
        ((id >> 24) & 0xff) as u8
    }
}

/// The packet that announces client `id` to the server: a frame header
/// announcing six bytes, the id in four little-endian bytes, then zeros up
/// to [`ANNOUNCE_LEN`] bytes.
pub open spec fn announce(id: i32) -> Seq<u8> {
    Seq::new(
        ANNOUNCE_LEN as nat,
        |k: int|
            if k == 0 {
                6u8
            } else if 2 <= k < 6 {
                id_byte(id, k - 2)
            } else {
                0u8
            },
    )
}

/// The packet that announces client `id` (see [`announce`]).
pub fn announce_packet(id: i32) -> (res: Vec<u8>)
    ensures
        res@ == announce(id),
{
    let mut buf: Vec<u8> = Vec::new();
    let mut k: usize = 0;
    while k < ANNOUNCE_LEN
        invariant
            k <= ANNOUNCE_LEN,
            buf@.len() == k,
            forall|m: int| 0 <= m < k ==> buf@[m] == 0u8,
        decreases ANNOUNCE_LEN - k,
    {
        buf.push(0u8);
        k = k + 1;
    }
    buf.set(0, 6u8);
    buf.set(1, 0u8);
    buf.set(2, (id & 0xff) as u8);
    buf.set(3, ((id >> 8) & 0xff) as u8);
    buf.set(4, ((id >> 16) & 0xff) as u8);
    buf.set(5, ((id >> 24) & 0xff) as u8);
    proof {
        assert(buf@ =~= announce(id));
    }
    buf
}

/// Whether the connection with this id is the server's.
pub open spec fn is_server_peer(peer_id: i32) -> bool {
    peer_id == 0
}

/// One connection of the raw relay.
#[derive(Debug, Clone, Copy, PartialEq, Eq)]
pub struct NetSession {
    /// The id of the peer on this connection.
    pub peer_id: i32,
    /// Whether the peer is the server.
    pub is_server: bool,
}

impl NetSession {
    /// The session of the connection that got `peer_id`: the first
    /// connection (id 0) is the server's.
    pub fn new(peer_id: i32) -> (s: Self)
        ensures
            s.peer_id == peer_id,
            s.is_server == is_server_peer(peer_id),
    {
        NetSession { peer_id, is_server: peer_id == 0 }
    }

    /// Whether a message of `len` bytes, taken from this connection's
    /// queue, is written to its socket and followed by a read. The server's
    /// connection does so only for a message that is not empty; a client's
    /// always does.
    pub fn exchanges(&self, len: usize) -> (res: bool)
        ensures
            res == (!self.is_server || len > 0),
    {
        !self.is_server || len > 0
    }

    /// Whether the result of a read ends the connection: a failed read
    /// (`None`) or a read of nothing.
    pub fn read_ends(&self, read: Option<usize>) -> (res: bool)
        ensures
            res == (read is None || read == Some(0usize)),
    {
        match read {
            None => true,
            Some(n) => n == 0,
        }
    }
}

/// A server's frame that repeats a client's announcement (bytes two to five
/// holding the client's id) is routed back to that client, as long as the
/// id is below 256: the routing or-s the four id bytes together, which
/// gives the id back only when its upper three bytes are zero.
pub proof fn lemma_announced_id_routes_back(buf: Seq<u8>, j: int, id: i32)
    requires
        0 <= j,
        j + 6 <= buf.len(),
        0 <= id < 256,
        forall|k: int| 0 <= k < 4 ==> #[trigger] buf[j + 2 + k] == id_byte(id, k),
    ensures
        route_id(buf, j) == id,
{
    assert(buf[j + 2 + 0] == id_byte(id, 0));
    assert(buf[j + 2 + 1] == id_byte(id, 1));
    assert(buf[j + 2 + 2] == id_byte(id, 2));
    assert(buf[j + 2 + 3] == id_byte(id, 3));
    let b0 = buf[j + 2];
    let b1 = buf[j + 3];
    let b2 = buf[j + 4];
    let b3 = buf[j + 5];
    assert(0 <= id < 256 && b0 == (id & 0xff) as u8 && b1 == ((id >> 8) & 0xff) as u8 && b2 == (
    (id >> 16) & 0xff) as u8 && b3 == ((id >> 24) & 0xff) as u8 ==> (b0 | b1 | b2 | b3) as i32
        == id) by (bit_vector);
}

} // verus!
