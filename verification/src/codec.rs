//! Byte-level encodings shared by the servers: the header mask and the
//! little-endian integer fields of the inter-server packets.
use vstd::prelude::*;

verus! {

/// The byte that masks each of the two header bytes of a framed packet.
pub const HEAD_MASK: u8 = 0xcf;

/// One header byte, masked (or unmasked: the mask is its own inverse).
pub open spec fn mask_byte(b: u8) -> u8 {
    b ^ HEAD_MASK
}

/// What masking the two-byte header does to a buffer: its first two bytes
/// are masked, every other byte stays.
pub open spec fn masked_head(s: Seq<u8>) -> Seq<u8>
    recommends
        s.len() >= 2,
{
    s.update(0, mask_byte(s[0])).update(1, mask_byte(s[1]))
}

/// Masks the first two bytes of `src` in place and returns a copy of the
/// whole buffer. The same call unmasks a masked header.
pub fn encode_head(src: &mut Vec<u8>) -> (res: Vec<u8>)
    requires
        old(src)@.len() >= 2,
    ensures
        final(src)@ == masked_head(old(src)@),
        res@ == final(src)@,
{
    let b0 = src[0];
    let b1 = src[1];
    src.set(0, (b0 ^ 0xcf) & 0xff);
    src.set(1, (b1 ^ 0xcf) & 0xff);
    proof {
        assert((b0 ^ 0xcf) & 0xff == b0 ^ 0xcf) by (bit_vector);
        assert((b1 ^ 0xcf) & 0xff == b1 ^ 0xcf) by (bit_vector);
    }
    src.clone()
}

/// Masking a byte twice gives the byte back.
pub proof fn lemma_mask_byte_involution(b: u8)
    ensures
        mask_byte(mask_byte(b)) == b,
{
    assert((b ^ 0xcfu8) ^ 0xcfu8 == b) by (bit_vector);
}

/// Masking a header twice gives the header back: the same routine that
/// unmasks a received header masks it again for sending.
pub proof fn lemma_masked_head_involution(s: Seq<u8>)
    requires
        s.len() >= 2,
    ensures
        masked_head(masked_head(s)) == s,
{
    lemma_mask_byte_involution(s[0]);
    lemma_mask_byte_involution(s[1]);
    assert(masked_head(masked_head(s)) =~= s);
}

/// The masked header differs from the plain one by exactly the byte 0xcf
/// in each of its two bytes; the buffer keeps its length and the rest of
/// its bytes.
pub proof fn lemma_masked_head_bytes(s: Seq<u8>)
    requires
        s.len() >= 2,
    ensures
        masked_head(s).len() == s.len(),
        masked_head(s)[0] ^ 0xcfu8 == s[0],
        masked_head(s)[1] ^ 0xcfu8 == s[1],
        forall|k: int| 2 <= k < s.len() ==> #[trigger] masked_head(s)[k] == s[k],
{
    let b0 = s[0];
    let b1 = s[1];
    assert((b0 ^ 0xcfu8) ^ 0xcfu8 == b0) by (bit_vector);
    assert((b1 ^ 0xcfu8) ^ 0xcfu8 == b1) by (bit_vector);
}


/// Appends the bytes of `s` to `v`.
pub fn push_all(v: &mut Vec<u8>, s: &[u8])
    ensures
        final(v)@ == old(v)@ + s@,
{
    let mut k: usize = 0;
    while k < s.len()
        invariant
            k <= s@.len(),
            v@ == old(v)@ + s@.subrange(0, k as int),
        decreases s@.len() - k,
    {
        v.push(s[k]);
        k = k + 1;
        assert(s@.subrange(0, k as int) == s@.subrange(0, (k - 1) as int).push(s@[k - 1]));
    }
    assert(s@.subrange(0, s@.len() as int) == s@);
}

/// The bytes `s[from..to]` as a new vector.
pub fn copy_range(s: &[u8], from: usize, to: usize) -> (res: Vec<u8>)
    requires
        from <= to <= s@.len(),
    ensures
        res@ == s@.subrange(from as int, to as int),
{
    let mut res: Vec<u8> = Vec::new();
    let mut k: usize = from;
    while k < to
        invariant
            from <= k <= to <= s@.len(),
            res@ == s@.subrange(from as int, k as int),
        decreases to - k,
    {
        res.push(s[k]);
        k = k + 1;
        assert(s@.subrange(from as int, k as int) == s@.subrange(from as int, (k - 1) as int).push(
            s@[k - 1],
        ));
    }
    res
}

/// The eight little-endian bytes of `x`.
pub open spec fn u64_le(x: u64) -> Seq<u8> {
    seq![
        (x & 0xff) as u8,
        ((x >> 8) & 0xff) as u8,
        ((x >> 16) & 0xff) as u8,
        ((x >> 24) & 0xff) as u8,
        ((x >> 32) & 0xff) as u8,
        ((x >> 40) & 0xff) as u8,
        ((x >> 48) & 0xff) as u8,
        ((x >> 56) & 0xff) as u8,
    ]
}

/// The number whose little-endian bytes are the first eight of `s`.
pub open spec fn u64_of_le(s: Seq<u8>) -> u64
    recommends
        s.len() >= 8,
{
    (s[0] as u64) | (s[1] as u64) << 8 | (s[2] as u64) << 16 | (s[3] as u64) << 24 | (s[4] as u64)
        << 32 | (s[5] as u64) << 40 | (s[6] as u64) << 48 | (s[7] as u64) << 56
}

/// The four little-endian bytes of `x`.
pub open spec fn u32_le(x: u32) -> Seq<u8> {
    seq![
        (x & 0xff) as u8,
        ((x >> 8) & 0xff) as u8,
        ((x >> 16) & 0xff) as u8,
        ((x >> 24) & 0xff) as u8,
    ]
}

/// The number whose little-endian bytes are the first four of `s`.
pub open spec fn u32_of_le(s: Seq<u8>) -> u32
    recommends
        s.len() >= 4,
{
    (s[0] as u32) | (s[1] as u32) << 8 | (s[2] as u32) << 16 | (s[3] as u32) << 24
}

/// The little-endian field of a 64-bit signed id (its two's complement bits).
pub open spec fn i64_field(x: i64) -> Seq<u8> {
    u64_le(x as u64)
}

/// The signed id that a little-endian 64-bit field holds.
pub open spec fn i64_of_field(s: Seq<u8>) -> i64 {
    u64_of_le(s) as i64
}

/// The little-endian field of a 32-bit signed integer.
pub open spec fn i32_field(x: i32) -> Seq<u8> {
    u32_le(x as u32)
}

/// The signed integer that a little-endian 32-bit field holds.
pub open spec fn i32_of_field(s: Seq<u8>) -> i32 {
    u32_of_le(s) as i32
}

/// The eight little-endian bytes of `x`.
pub fn i64_to_field(x: i64) -> (res: Vec<u8>)
    ensures
        res@ == i64_field(x),
{
    let u = x as u64;
    let mut res: Vec<u8> = Vec::new();
    res.push((u & 0xff) as u8);
    res.push(((u >> 8) & 0xff) as u8);
    res.push(((u >> 16) & 0xff) as u8);
    res.push(((u >> 24) & 0xff) as u8);
    res.push(((u >> 32) & 0xff) as u8);
    res.push(((u >> 40) & 0xff) as u8);
    res.push(((u >> 48) & 0xff) as u8);
    res.push(((u >> 56) & 0xff) as u8);
    proof {
        assert(res@ =~= i64_field(x));
    }
    res
}

/// The four little-endian bytes of `x`.
pub fn i32_to_field(x: i32) -> (res: Vec<u8>)
    ensures
        res@ == i32_field(x),
{
    let u = x as u32;
    let mut res: Vec<u8> = Vec::new();
    res.push((u & 0xff) as u8);
    res.push(((u >> 8) & 0xff) as u8);
    res.push(((u >> 16) & 0xff) as u8);
    res.push(((u >> 24) & 0xff) as u8);
    proof {
        assert(res@ =~= i32_field(x));
    }
    res
}

/// The id held by the eight bytes of `s` that start at `at`.
pub fn i64_from_field(s: &[u8], at: usize) -> (res: i64)
    requires
        at + 8 <= s@.len(),
    ensures
        res == i64_of_field(s@.subrange(at as int, at + 8)),
{
    let u: u64 = (s[at] as u64) | (s[at + 1] as u64) << 8 | (s[at + 2] as u64) << 16 | (s[at
        + 3] as u64) << 24 | (s[at + 4] as u64) << 32 | (s[at + 5] as u64) << 40 | (s[at
        + 6] as u64) << 48 | (s[at + 7] as u64) << 56;
    u as i64
}

/// The integer held by the four bytes of `s` that start at `at`.
pub fn i32_from_field(s: &[u8], at: usize) -> (res: i32)
    requires
        at + 4 <= s@.len(),
    ensures
        res == i32_of_field(s@.subrange(at as int, at + 4)),
{
    let u: u32 = (s[at] as u32) | (s[at + 1] as u32) << 8 | (s[at + 2] as u32) << 16 | (s[at
        + 3] as u32) << 24;
    u as i32
}

/// A 64-bit field has eight bytes, and reading it back gives the id that
/// was written.
pub proof fn lemma_i64_field_roundtrip(x: i64)
    ensures
        i64_field(x).len() == 8,
        i64_of_field(i64_field(x)) == x,
{
    let u = x as u64;
    assert(((u & 0xff) as u8 as u64) | (((u >> 8) & 0xff) as u8 as u64) << 8 | (((u >> 16) & 0xff)
        as u8 as u64) << 16 | (((u >> 24) & 0xff) as u8 as u64) << 24 | (((u >> 32) & 0xff) as u8
        as u64) << 32 | (((u >> 40) & 0xff) as u8 as u64) << 40 | (((u >> 48) & 0xff) as u8 as u64)
        << 48 | (((u >> 56) & 0xff) as u8 as u64) << 56 == u) by (bit_vector);
    assert(((x as u64) as i64) == x) by (bit_vector);
}

/// Any eight bytes are the field of the id that they hold.
pub proof fn lemma_i64_of_field_roundtrip(s: Seq<u8>)
    requires
        s.len() == 8,
    ensures
        i64_field(i64_of_field(s)) == s,
{
    let (b0, b1, b2, b3, b4, b5, b6, b7) = (s[0], s[1], s[2], s[3], s[4], s[5], s[6], s[7]);
    let u = u64_of_le(s);
    assert(u == (b0 as u64) | (b1 as u64) << 8 | (b2 as u64) << 16 | (b3 as u64) << 24 | (b4
        as u64) << 32 | (b5 as u64) << 40 | (b6 as u64) << 48 | (b7 as u64) << 56);
    assert(u == (b0 as u64) | (b1 as u64) << 8 | (b2 as u64) << 16 | (b3 as u64) << 24 | (b4
        as u64) << 32 | (b5 as u64) << 40 | (b6 as u64) << 48 | (b7 as u64) << 56 ==> (u & 0xff)
        as u8 == b0 && ((u >> 8) & 0xff) as u8 == b1 && ((u >> 16) & 0xff) as u8 == b2 && ((u
        >> 24) & 0xff) as u8 == b3 && ((u >> 32) & 0xff) as u8 == b4 && ((u >> 40) & 0xff) as u8
        == b5 && ((u >> 48) & 0xff) as u8 == b6 && ((u >> 56) & 0xff) as u8 == b7) by (bit_vector);
    assert(((u as i64) as u64) == u) by (bit_vector);
    assert(i64_field(i64_of_field(s)) =~= s);
}

/// A 32-bit field has four bytes, and reading it back gives the integer
/// that was written.
pub proof fn lemma_i32_field_roundtrip(x: i32)
    ensures
        i32_field(x).len() == 4,
        i32_of_field(i32_field(x)) == x,
{
    let u = x as u32;
    assert(((u & 0xff) as u8 as u32) | (((u >> 8) & 0xff) as u8 as u32) << 8 | (((u >> 16) & 0xff)
        as u8 as u32) << 16 | (((u >> 24) & 0xff) as u8 as u32) << 24 == u) by (bit_vector);
    assert(((x as u32) as i32) == x) by (bit_vector);
}

} // verus!
