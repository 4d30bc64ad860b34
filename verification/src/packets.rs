//! The packets that the front relay exchanges with the game servers.
//!
//! Every packet to a server starts with the client's id (eight bytes,
//! little-endian) and a message kind (four bytes, little-endian). A data
//! packet then carries the client's frame again with its masked two-byte
//! length header in front, so that the server sees the frame as the client
//! sent it. A packet from a server starts with the id of the client it is
//! for; the rest goes to that client as it is.
use crate::codec::{
    copy_range, encode_head, i32_field, i32_of_field, i32_to_field, i64_field, i64_from_field, i64_of_field,
    i64_to_field, lemma_i32_field_roundtrip, lemma_i64_field_roundtrip,
    lemma_masked_head_involution, mask_byte, masked_head, push_all, u32_of_le,
};
use vstd::prelude::*;

verus! {

/// Kind of the packet that announces a newly connected client.
pub const MSG_CLIENT_CONNECTED: i32 = 20001;

/// Kind of the packet that announces that a client has left.
pub const MSG_CLIENT_DISCONNECTED: i32 = 20002;

/// Kind of the packet that carries a client's frame.
pub const MSG_CLIENT_DATA: i32 = 20003;

/// The first four bytes that a game server sends the front relay, read as a
/// little-endian number; a server that sends anything else is turned away.
pub const SERVER_HELLO: u32 = 0x1357_9753;

/// Inner message kinds by which a server tells a client to go away.
pub const MSG_CLOSE: u8 = 3;

/// See [`MSG_CLOSE`].
pub const MSG_DISCONNECT: u8 = 14;

/// The two-byte little-endian length field for a frame of `n` bytes in all,
/// the field included (only the low sixteen bits of `n` are kept).
pub open spec fn length_field(n: nat) -> Seq<u8> {
    seq![(n % 256) as u8, ((n / 256) % 256) as u8]
}

/// The decimal digits of `n`, most significant first, as ASCII bytes.
pub open spec fn decimal(n: nat) -> Seq<u8>
    decreases n,
{
    if n < 10 {
        seq![(48 + n) as u8]
    } else {
        decimal(n / 10).push((48 + n % 10) as u8)
    }
}

/// The packet that tells the servers that client `id` has connected from
/// the address whose IP text is `ip` and whose port is `port`.
pub open spec fn client_joined(id: i64, ip: Seq<u8>, port: u16) -> Seq<u8> {
    i64_field(id) + i32_field(MSG_CLIENT_CONNECTED) + ip + seq![58u8] + decimal(port as nat)
}

/// The packet that tells the servers that client `id` has left.
pub open spec fn client_left(id: i64) -> Seq<u8> {
    i64_field(id) + i32_field(MSG_CLIENT_DISCONNECTED)
}

/// The packet that hands the frame `msg` of client `id` to the servers: the
/// header, then the masked length field of the frame as the client sent it
/// (two header bytes more than `msg`), then `msg`.
pub open spec fn client_data(id: i64, msg: Seq<u8>) -> Seq<u8> {
    i64_field(id) + i32_field(MSG_CLIENT_DATA) + masked_head(length_field(msg.len() + 2)) + msg
}

/// The client that a frame from a server is for.
pub open spec fn server_frame_client(msg: Seq<u8>) -> i64
    recommends
        msg.len() >= 8,
{
    i64_of_field(msg.subrange(0, 8))
}

/// What a frame from a server carries for its client.
pub open spec fn server_frame_payload(msg: Seq<u8>) -> Seq<u8>
    recommends
        msg.len() >= 8,
{
    msg.subrange(8, msg.len() as int)
}

/// Whether a message from the server to a client tells the client to go
/// away: its fifth byte, unmasked, is [`MSG_CLOSE`] or [`MSG_DISCONNECT`].
pub open spec fn is_close_notice(msg: Seq<u8>) -> bool {
    msg.len() > 4 && (mask_byte(msg[4]) == MSG_CLOSE || mask_byte(msg[4]) == MSG_DISCONNECT)
}

/// Appends the decimal digits of `n` to `v`.
pub fn push_decimal(v: &mut Vec<u8>, n: u16)
    ensures
        final(v)@ == old(v)@ + decimal(n as nat),
    decreases n,
{
    if n >= 10 {
        push_decimal(v, n / 10);
    }
    v.push(48 + (n % 10) as u8);
    proof {
        if n >= 10 {
            assert(old(v)@ + decimal(n as nat) =~= (old(v)@ + decimal((n / 10) as nat)).push(
                (48 + n % 10) as u8,
            ));
        } else {
            assert(old(v)@ + decimal(n as nat) =~= old(v)@.push((48 + n % 10) as u8));
        }
    }
}

/// The packet that announces client `id`, connected from `ip` (the text of
/// its IP address) and `port`.
pub fn client_joined_packet(id: i64, ip: &[u8], port: u16) -> (res: Vec<u8>)
    ensures
        res@ == client_joined(id, ip@, port),
{
    let mut res = i64_to_field(id);
    let kind = i32_to_field(MSG_CLIENT_CONNECTED);
    push_all(&mut res, kind.as_slice());
    push_all(&mut res, ip);
    res.push(58u8);
    push_decimal(&mut res, port);
    proof {
        assert(res@ =~= client_joined(id, ip@, port));
    }
    res
}

/// The packet that announces that client `id` has left.
pub fn client_left_packet(id: i64) -> (res: Vec<u8>)
    ensures
        res@ == client_left(id),
{
    let mut res = i64_to_field(id);
    let kind = i32_to_field(MSG_CLIENT_DISCONNECTED);
    push_all(&mut res, kind.as_slice());
    res
}

/// The packet that hands the frame `msg` of client `id` to the servers.
pub fn client_data_packet(id: i64, msg: &[u8]) -> (res: Vec<u8>)
    requires
        msg@.len() + 2 <= usize::MAX,
    ensures
        res@ == client_data(id, msg@),
{
    let mut res = i64_to_field(id);
    let kind = i32_to_field(MSG_CLIENT_DATA);
    push_all(&mut res, kind.as_slice());
    let len: usize = msg.len() + 2;
    let mut head: Vec<u8> = Vec::new();
    head.push((len & 0xff) as u8);
    head.push(((len >> 8) & 0xff) as u8);
    proof {
        assert(len & 0xff == len % 256) by (bit_vector);
        assert((len >> 8) & 0xff == (len / 256) % 256) by (bit_vector);
        assert(head@ =~= length_field(msg@.len() + 2));
    }
    let masked = encode_head(&mut head);
    push_all(&mut res, masked.as_slice());
    push_all(&mut res, msg);
    res
}

/// Splits a frame from a server into the client it is for and what it
/// carries for that client.
pub fn split_server_frame(msg: &[u8]) -> (res: (i64, Vec<u8>))
    requires
        msg@.len() >= 8,
    ensures
        res.0 == server_frame_client(msg@),
        res.1@ == server_frame_payload(msg@),
{
    let id = i64_from_field(msg, 0);
    let payload = copy_range(msg, 8, msg.len());
    (id, payload)
}

/// Whether a message to a client tells it to go away (see
/// [`is_close_notice`]).
pub fn close_notice(msg: &[u8]) -> (res: bool)
    ensures
        res == is_close_notice(msg@),
{
    if msg.len() > 4 {
        let kind = (msg[4] ^ 0xcf) & 0xff;
        proof {
            let b = msg@[4];
            assert((b ^ 0xcf) & 0xff == b ^ 0xcf) by (bit_vector);
        }
        kind == MSG_CLOSE || kind == MSG_DISCONNECT
    } else {
        false
    }
}

/// Whether the first four bytes from a game server are the expected
/// greeting.
pub fn server_hello_ok(h: &[u8]) -> (res: bool)
    requires
        h@.len() == 4,
    ensures
        res == (u32_of_le(h@) == SERVER_HELLO),
{
    let got: u32 = (h[0] as u32) | (h[1] as u32) << 8 | (h[2] as u32) << 16 | (h[3] as u32) << 24;
    got == SERVER_HELLO
}

/// A data packet is laid out as its header says: the sending client's id,
/// the data kind, the masked length field, which unmasks to the frame's
/// length as the client sent it, and the frame itself.
pub proof fn lemma_client_data_layout(id: i64, msg: Seq<u8>)
    ensures
        client_data(id, msg).len() == msg.len() + 14,
        i64_of_field(client_data(id, msg).subrange(0, 8)) == id,
        i32_of_field(client_data(id, msg).subrange(8, 12)) == MSG_CLIENT_DATA,
        masked_head(client_data(id, msg).subrange(12, 14)) == length_field(msg.len() + 2),
        client_data(id, msg).subrange(14, msg.len() + 14int) == msg,
{
    let p = client_data(id, msg);
    lemma_i64_field_roundtrip(id);
    lemma_i32_field_roundtrip(MSG_CLIENT_DATA);
    lemma_masked_head_involution(length_field(msg.len() + 2));
    assert(p.subrange(0, 8) =~= i64_field(id));
    assert(p.subrange(8, 12) =~= i32_field(MSG_CLIENT_DATA));
    assert(p.subrange(12, 14) =~= masked_head(length_field(msg.len() + 2)));
    assert(p.subrange(14, msg.len() + 14int) =~= msg);
}

/// A frame that a server addresses to a client by putting the client's id
/// in front of the payload is split back into that id and that payload.
pub proof fn lemma_server_frame_roundtrip(id: i64, payload: Seq<u8>)
    ensures
        server_frame_client(i64_field(id) + payload) == id,
        server_frame_payload(i64_field(id) + payload) == payload,
{
    lemma_i64_field_roundtrip(id);
    let m = i64_field(id) + payload;
    assert(m.subrange(0, 8) =~= i64_field(id));
    assert(m.subrange(8, m.len() as int) =~= payload);
}

/// The announcement of a joining client starts with its id and the
/// connected kind, and ends with `ip:port`.
pub proof fn lemma_client_joined_layout(id: i64, ip: Seq<u8>, port: u16)
    ensures
        i64_of_field(client_joined(id, ip, port).subrange(0, 8)) == id,
        i32_of_field(client_joined(id, ip, port).subrange(8, 12)) == MSG_CLIENT_CONNECTED,
        client_joined(id, ip, port).subrange(12, client_joined(id, ip, port).len() as int) == ip
            + seq![58u8] + decimal(port as nat),
{
    let p = client_joined(id, ip, port);
    lemma_i64_field_roundtrip(id);
    lemma_i32_field_roundtrip(MSG_CLIENT_CONNECTED);
    assert(p.subrange(0, 8) =~= i64_field(id));
    assert(p.subrange(8, 12) =~= i32_field(MSG_CLIENT_CONNECTED));
    assert(p.subrange(12, p.len() as int) =~= ip + seq![58u8] + decimal(port as nat));
}

/// The announcement of a leaving client is its id and the disconnected
/// kind, nothing more.
pub proof fn lemma_client_left_layout(id: i64)
    ensures
        client_left(id).len() == 12,
        i64_of_field(client_left(id).subrange(0, 8)) == id,
        i32_of_field(client_left(id).subrange(8, 12)) == MSG_CLIENT_DISCONNECTED,
{
    let p = client_left(id);
    lemma_i64_field_roundtrip(id);
    lemma_i32_field_roundtrip(MSG_CLIENT_DISCONNECTED);
    assert(p.subrange(0, 8) =~= i64_field(id));
    assert(p.subrange(8, 12) =~= i32_field(MSG_CLIENT_DISCONNECTED));
}

/// Unmasking bytes 12 and 13 of a data packet and reading them
/// little-endian gives the length of the client's frame with its two-byte
/// header, modulo 65536.
pub proof fn lemma_client_data_length(id: i64, msg: Seq<u8>)
    ensures
        client_data(id, msg).len() == msg.len() + 14,
        (client_data(id, msg)[12] ^ 0xcfu8) as int + 256 * (client_data(id, msg)[13] ^ 0xcfu8) as int
            == (msg.len() + 2) % 65536,
{
    lemma_client_data_layout(id, msg);
    let p = client_data(id, msg);
    let n: int = msg.len() + 2int;
    let h = p.subrange(12, 14);
    assert(masked_head(h)[0] == p[12] ^ 0xcfu8);
    assert(masked_head(h)[1] == p[13] ^ 0xcfu8);
    let lo: int = n % 256;
    let hi: int = (n / 256) % 256;
    assert(0 <= lo < 256 && 0 <= hi < 256);
    assert((p[12] ^ 0xcfu8) as int == lo);
    assert((p[13] ^ 0xcfu8) as int == hi);
    assert(lo + 256 * hi == n % 65536) by (nonlinear_arith)
        requires
            n >= 0,
            lo == n % 256,
            hi == (n / 256) % 256,
    ;
}

} // verus!
