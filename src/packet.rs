//! Voice packets as the jitter buffer holds them, and what it means for a
//! list of them to be in playback order.
use vstd::prelude::*;

verus! {

/// One received audio frame: the sender's sequence id and the codec
/// payload, still encoded. Decoding waits until the frame is played, so
/// that the per-peer decoder sees frames in sequence order.
pub struct VoicePacket {
    pub id: u32,
    pub payload: Vec<u8>,
}

impl VoicePacket {
    pub fn new(id: u32, payload: Vec<u8>) -> (r: Self)
        ensures
            r == (VoicePacket { id, payload }),
    {
        VoicePacket { id, payload }
    }
}

/// Whether the packet carries sequence id `k`.
pub open spec fn has_id(k: u32) -> spec_fn(VoicePacket) -> bool {
    |p: VoicePacket| p.id == k
}

/// The packets of `s` with sequence id `k`, in the order of `s`.
pub open spec fn packets_with_id(s: Seq<VoicePacket>, k: u32) -> Seq<VoicePacket> {
    s.filter(has_id(k))
}

/// Sequence ids never decrease along `s`.
pub open spec fn ids_ascending(s: Seq<VoicePacket>) -> bool {
    forall|i: int, j: int| 0 <= i < j < s.len() ==> s[i].id <= s[j].id
}

/// `ordered` is `arrived` sorted by ascending sequence id, where packets
/// with the same id keep the order in which they arrived. For each
/// `arrived` exactly one such `ordered` exists.
pub open spec fn sequenced(arrived: Seq<VoicePacket>, ordered: Seq<VoicePacket>) -> bool {
    &&& ids_ascending(ordered)
    &&& forall|k: u32| #[trigger] packets_with_id(ordered, k) == packets_with_id(arrived, k)
}

} // verus!
