//! The datagram layout of a voice packet: a sequence id as four
//! little-endian bytes, followed by the encoded codec payload.
use vstd::prelude::*;

verus! {

/// Number of bytes that the sequence id takes at the head of a datagram.
pub const HEADER_LEN: usize = 4;

/// The integer that four little-endian bytes stand for.
pub open spec fn le_u32(b0: u8, b1: u8, b2: u8, b3: u8) -> int {
    b0 as int + 256 * (b1 as int) + 65536 * (b2 as int) + 16777216 * (b3 as int)
}

/// The four little-endian bytes of `id`.
pub open spec fn le_bytes(id: u32) -> Seq<u8> {
    seq![
        (id % 256) as u8,
        ((id / 256) % 256) as u8,
        ((id / 65536) % 256) as u8,
        (id / 16777216) as u8,
    ]
}

/// The datagram that carries `payload` under sequence id `id`.
pub open spec fn framed(id: u32, payload: Seq<u8>) -> Seq<u8> {
    le_bytes(id) + payload
}

proof fn lemma_le_round_trip(id: u32)
    ensures
        le_u32(le_bytes(id)[0], le_bytes(id)[1], le_bytes(id)[2], le_bytes(id)[3]) == id as int,
{
    let b = le_bytes(id);
    assert(b[0] as int == id as int % 256);
    assert(b[1] as int == (id as int / 256) % 256);
    assert(b[2] as int == (id as int / 65536) % 256);
    assert(b[3] as int == id as int / 16777216);
    assert(le_u32(b[0], b[1], b[2], b[3]) == id as int) by (nonlinear_arith)
        requires
            b[0] as int == id as int % 256,
            b[1] as int == (id as int / 256) % 256,
            b[2] as int == (id as int / 65536) % 256,
            b[3] as int == id as int / 16777216,
            0 <= id <= 0xffff_ffff,
    ;
}

/// What a received datagram carries: its sequence id and payload, or
/// nothing when it is too short to hold the id.
pub open spec fn unframed(bytes: Seq<u8>) -> Option<(u32, Seq<u8>)> {
    if bytes.len() < HEADER_LEN {
        None
    } else {
        Some((le_u32(bytes[0], bytes[1], bytes[2], bytes[3]) as u32, bytes.skip(HEADER_LEN as int)))
    }
}

/// Reading back a framed datagram gives the id and payload it was built from.
pub proof fn lemma_unframe_framed(id: u32, payload: Seq<u8>)
    ensures
        unframed(framed(id, payload)) == Some((id, payload)),
{
    lemma_le_round_trip(id);
    let b = framed(id, payload);
    assert(b.skip(HEADER_LEN as int) =~= payload);
}

/// Builds the datagram for one encoded frame.
pub fn frame_packet(id: u32, payload: &Vec<u8>) -> (r: Vec<u8>)
    ensures
        r@ == framed(id, payload@),
{
    let mut r: Vec<u8> = Vec::with_capacity(payload.len() / 2 + 4);
    r.push((id % 256) as u8);
    r.push(((id / 256) % 256) as u8);
    r.push(((id / 65536) % 256) as u8);
    r.push((id / 16777216) as u8);
    let mut i: usize = 0;
    while i < payload.len()
        invariant
            i <= payload.len(),
            r@ == framed(id, payload@.take(i as int)),
        decreases payload.len() - i,
    {
        r.push(payload[i]);
        i += 1;
        assert(payload@.take(i as int) == payload@.take(i - 1) + seq![payload@[i - 1]]);
    }
    assert(payload@.take(payload.len() as int) == payload@);
    r
}

/// Splits a received datagram into its sequence id and payload.
pub fn parse_packet(bytes: &Vec<u8>) -> (r: Option<(u32, Vec<u8>)>)
    ensures
        r matches Some((id, payload)) ==> unframed(bytes@) == Some((id, payload@)),
        r is None <==> unframed(bytes@) is None,
{
    if bytes.len() < HEADER_LEN {
        return None;
    }
    let id: u32 = bytes[0] as u32 + 256 * (bytes[1] as u32) + 65536 * (bytes[2] as u32)
        + 16777216 * (bytes[3] as u32);
    let mut payload: Vec<u8> = Vec::with_capacity(bytes.len() - HEADER_LEN);
    let mut i: usize = HEADER_LEN;
    while i < bytes.len()
        invariant
            HEADER_LEN <= i <= bytes.len(),
            payload@ == bytes@.subrange(HEADER_LEN as int, i as int),
        decreases bytes.len() - i,
    {
        payload.push(bytes[i]);
        i += 1;
    }
    assert(payload@ == bytes@.skip(HEADER_LEN as int));
    Some((id, payload))
}

} // verus!
