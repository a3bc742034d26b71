//! The voice node: playback channels with their jitter buffers, rooms,
//! and the outbound sequence counter. Audio devices, the codec and the
//! transport stay outside; they hand this node plain values.
use std::collections::HashMap;
use vstd::hash_map::StringHashMap;
use vstd::prelude::*;

use crate::packet::VoicePacket;
use crate::sort::quick_sort;
use crate::state::{
    captures, channel_flushed, disconnected, joined, left_room, lemma_joined, lemma_left_room,
    lemma_without_no_dup, relay_targets_of, drained, drains, flushed, next_id, playback_plan, receive_outcome, received, registered, unregistered, with_playback,
    other_than, without, ChannelView, ReceiveOutcome, VoiceState, CAPTURE_FRAME_SAMPLES,
    DEFAULT_JITTER_BUFFER_DELAY_MS, SERVER_PEER_ID,
};
use crate::wire::{frame_packet, framed};

verus! {

broadcast use vstd::std_specs::hash::group_hash_axioms;

/// One remote peer's playback channel.
struct PeerChannel {
    playback_enabled: bool,
    inbox: Vec<VoicePacket>,
    outbox: Vec<VoicePacket>,
}

impl PeerChannel {
    spec fn view(&self) -> ChannelView {
        ChannelView {
            playback_enabled: self.playback_enabled,
            inbox: self.inbox@,
            outbox: self.outbox@,
        }
    }
}

/// A voice node. Its state is `VoiceState`; every operation keeps it
/// well formed.
pub struct GodotVoice {
    channels: HashMap<i64, PeerChannel>,
    roster: Vec<i64>,
    rooms: StringHashMap<Vec<i64>>,
    peer_room: HashMap<i64, String>,
    muted: bool,
    dedicated_mode: bool,
    allow_direct_message: bool,
    last_voice_id: u32,
    jitter_buffer_delay_ms: u64,
}

impl View for GodotVoice {
    type V = VoiceState;

    closed spec fn view(&self) -> VoiceState {
        VoiceState {
            channels: self.channels@.map_values(|c: PeerChannel| c.view()),
            roster: self.roster@,
            rooms: self.rooms@.map_values(|m: Vec<i64>| m@),
            peer_room: self.peer_room@.map_values(|r: String| r@),
            muted: self.muted,
            dedicated_mode: self.dedicated_mode,
            allow_direct_message: self.allow_direct_message,
            last_voice_id: self.last_voice_id,
            jitter_buffer_delay_ms: self.jitter_buffer_delay_ms,
        }
    }
}

/// Whether `ids` holds `id`.
fn contains_id(ids: &Vec<i64>, id: i64) -> (r: bool)
    ensures
        r == ids@.contains(id),
{
    let mut i: usize = 0;
    while i < ids.len()
        invariant
            i <= ids.len(),
            forall|j: int| 0 <= j < i ==> ids@[j] != id,
        decreases ids.len() - i,
    {
        if ids[i] == id {
            return true;
        }
        i += 1;
    }
    false
}

/// `ids` without `id`, in the same order.
fn copy_without(ids: &Vec<i64>, id: i64) -> (r: Vec<i64>)
    ensures
        r@ == without(ids@, id),
{
    let mut r: Vec<i64> = Vec::new();
    let mut i: usize = 0;
    proof {
        reveal(Seq::filter);
        assert(ids@.take(0) == Seq::<i64>::empty());
    }
    while i < ids.len()
        invariant
            i <= ids.len(),
            r@ == without(ids@.take(i as int), id),
        decreases ids.len() - i,
    {
        proof {
            assert(ids@.take(i + 1) == ids@.take(i as int).push(ids@[i as int]));
            ids@.take(i as int).lemma_filter_push(ids@[i as int], other_than(id));
        }
        if ids[i] != id {
            r.push(ids[i]);
        }
        i += 1;
    }
    assert(ids@.take(ids.len() as int) == ids@);
    r
}

/// A copy of `ids`.
fn copy_ids(ids: &Vec<i64>) -> (r: Vec<i64>)
    ensures
        r@ == ids@,
{
    let mut r: Vec<i64> = Vec::with_capacity(ids.len());
    let mut i: usize = 0;
    while i < ids.len()
        invariant
            i <= ids@.len(),
            r@ == ids@.take(i as int),
        decreases ids@.len() - i,
    {
        r.push(ids[i]);
        i += 1;
        assert(r@ == ids@.take(i as int));
    }
    assert(ids@.take(i as int) == ids@);
    r
}

impl GodotVoice {
    /// A node with no channels and no rooms, not muted, playing voice,
    /// taking voice through the server only.
    pub fn new() -> (r: Self)
        ensures
            r@.well_formed(),
            r@.channels == Map::<i64, ChannelView>::empty(),
            r@.roster == Seq::<i64>::empty(),
            r@.rooms == Map::<Seq<char>, Seq<i64>>::empty(),
            r@.peer_room == Map::<i64, Seq<char>>::empty(),
            !r@.muted,
            !r@.dedicated_mode,
            !r@.allow_direct_message,
            r@.last_voice_id == 0,
            r@.jitter_buffer_delay_ms == DEFAULT_JITTER_BUFFER_DELAY_MS,
    {
        GodotVoice {
            channels: HashMap::new(),
            roster: Vec::new(),
            rooms: StringHashMap::new(),
            peer_room: HashMap::new(),
            muted: false,
            dedicated_mode: false,
            allow_direct_message: false,
            last_voice_id: 0,
            jitter_buffer_delay_ms: DEFAULT_JITTER_BUFFER_DELAY_MS,
        }
    }

    /// Registers a playback channel for `peer_id`, replacing any earlier
    /// one with what it buffered.
    pub fn set_peer_audio_stream_playback(&mut self, peer_id: i64)
        requires
            old(self)@.well_formed(),
        ensures
            final(self)@ == registered(old(self)@, peer_id),
            final(self)@.well_formed(),
    {
        let known = contains_id(&self.roster, peer_id);
        if !known {
            proof {
                assert forall|i: int, j: int|
                    0 <= i < j < self.roster@.push(peer_id).len() implies self.roster@.push(
                    peer_id,
                )[i] != self.roster@.push(peer_id)[j] by {
                    if j == self.roster@.len() {
                        assert(self.roster@.contains(self.roster@[i]));
                    }
                }
            }
            self.roster.push(peer_id);
        }
        let channel = PeerChannel { playback_enabled: true, inbox: Vec::new(), outbox: Vec::new() };
        self.channels.insert(peer_id, channel);
        proof {
            assert(self@.channels == registered(old(self)@, peer_id).channels);
            assert forall|p: i64| #[trigger]
                self@.channels.contains_key(p) <==> self@.roster.contains(p) by {
                assert(old(self)@.channels.contains_key(p) <==> old(self)@.roster.contains(p));
                if !known {
                    assert(self@.roster == old(self)@.roster.push(peer_id));
                    assert(self@.roster[self@.roster.len() - 1] == peer_id);
                    if self@.roster.contains(p) && p != peer_id {
                        let j = choose|j: int| 0 <= j < self@.roster.len() && self@.roster[j] == p;
                        assert(old(self)@.roster[j] == p);
                    }
                    if old(self)@.roster.contains(p) {
                        let j = choose|j: int|
                            0 <= j < old(self)@.roster.len() && old(self)@.roster[j] == p;
                        assert(self@.roster[j] == p);
                    }
                }
            }
        }
    }

    /// Removes the channel of `peer_id` with all that it buffered. Returns
    /// whether there was one; for an unknown peer nothing changes.
    pub fn remove_peer_audio_stream_playback(&mut self, peer_id: i64) -> (r: bool)
        requires
            old(self)@.well_formed(),
        ensures
            r == old(self)@.channels.contains_key(peer_id),
            final(self)@ == unregistered(old(self)@, peer_id),
            final(self)@.well_formed(),
    {
        let removed = self.channels.remove(&peer_id);
        let roster = copy_without(&self.roster, peer_id);
        proof {
            lemma_without_no_dup(self.roster@, peer_id);
        }
        self.roster = roster;
        proof {
            assert(self@.channels == unregistered(old(self)@, peer_id).channels);
        }
        removed.is_some()
    }

    /// Turns playback of `peer_id` on or off, keeping what it buffered.
    /// Returns whether the peer has a channel; if not, nothing changes.
    pub fn set_peer_playback_enabled(&mut self, peer_id: i64, value: bool) -> (r: bool)
        requires
            old(self)@.well_formed(),
        ensures
            r == old(self)@.channels.contains_key(peer_id),
            final(self)@ == with_playback(old(self)@, peer_id, value),
            final(self)@.well_formed(),
    {
        match self.channels.remove(&peer_id) {
            Some(channel) => {
                let PeerChannel { playback_enabled: _, inbox, outbox } = channel;
                self.channels.insert(peer_id, PeerChannel { playback_enabled: value, inbox, outbox });
                proof {
                    assert(self@.channels == with_playback(old(self)@, peer_id, value).channels);
                }
                true
            },
            None => {
                proof {
                    assert(self@.channels == old(self)@.channels);
                }
                false
            },
        }
    }

    /// Takes a packet of `peer_id`'s voice with sequence id
    /// `voice_packet_id`, which arrived from `sender`: buffered in the
    /// peer's inbox, or dropped for the reason returned.
    pub fn receive_voice(
        &mut self,
        sender: i64,
        peer_id: i64,
        voice_packet_id: u32,
        payload: Vec<u8>,
    ) -> (r: ReceiveOutcome)
        requires
            old(self)@.well_formed(),
        ensures
            r == receive_outcome(old(self)@, sender, peer_id),
            final(self)@ == received(
                old(self)@,
                sender,
                peer_id,
                VoicePacket { id: voice_packet_id, payload },
            ),
            final(self)@.well_formed(),
    {
        if self.dedicated_mode {
            return ReceiveOutcome::RelayMode;
        }
        if sender != SERVER_PEER_ID && !self.allow_direct_message {
            return ReceiveOutcome::SenderRejected;
        }
        match self.channels.remove(&peer_id) {
            None => {
                proof {
                    assert(self@.channels == old(self)@.channels);
                }
                ReceiveOutcome::UnknownPeer
            },
            Some(channel) => {
                let PeerChannel { playback_enabled, mut inbox, outbox } = channel;
                if playback_enabled {
                    inbox.push(VoicePacket { id: voice_packet_id, payload });
                }
                self.channels.insert(peer_id, PeerChannel { playback_enabled, inbox, outbox });
                proof {
                    assert(self@.channels == received(
                        old(self)@,
                        sender,
                        peer_id,
                        VoicePacket { id: voice_packet_id, payload },
                    ).channels);
                }
                if playback_enabled {
                    ReceiveOutcome::Buffered
                } else {
                    ReceiveOutcome::PlaybackDisabled
                }
            },
        }
    }

    /// The registered peers, in the order in which they registered.
    pub fn peer_ids(&self) -> (r: Vec<i64>)
        ensures
            r@ == self@.roster,
    {
        copy_ids(&self.roster)
    }

    /// Takes `peer_id` out of its room, if it is in one; the room stays,
    /// possibly empty.
    pub fn remove_peer_from_current_room(&mut self, peer_id: i64)
        requires
            old(self)@.well_formed(),
        ensures
            final(self)@ == left_room(old(self)@, peer_id),
            final(self)@.well_formed(),
    {
        proof {
            lemma_left_room(old(self)@, peer_id);
        }
        let room = match self.peer_room.get(&peer_id) {
            Some(r) => r.clone(),
            None => {
                return;
            },
        };
        let kept = match self.rooms.get(room.as_str()) {
            Some(members) => {
                proof {
                    lemma_without_no_dup(members@, peer_id);
                }
                Some(copy_without(members, peer_id))
            },
            None => None,
        };
        match kept {
            Some(kept) => {
                self.rooms.insert(room, kept);
            },
            None => {},
        }
        self.peer_room.remove(&peer_id);
        proof {
            assert(self@.rooms == left_room(old(self)@, peer_id).rooms);
            assert(self@.peer_room == left_room(old(self)@, peer_id).peer_room);
        }
    }

    /// Moves `peer_id` out of its room, if any, and into `room`, which is
    /// made if it does not exist yet.
    pub fn put_peer_in_room(&mut self, peer_id: i64, room: String)
        requires
            old(self)@.well_formed(),
        ensures
            final(self)@ == joined(old(self)@, peer_id, room@),
            final(self)@.well_formed(),
    {
        proof {
            lemma_joined(old(self)@, peer_id, room@);
        }
        self.remove_peer_from_current_room(peer_id);
        let ghost s = self@;
        let mut members: Vec<i64> = match self.rooms.get(room.as_str()) {
            Some(m) => copy_ids(m),
            None => Vec::new(),
        };
        members.push(peer_id);
        proof {
            if !s.rooms.contains_key(room@) {
                assert(members@ == seq![peer_id]);
            }
        }
        self.rooms.insert(room.clone(), members);
        self.peer_room.insert(peer_id, room);
        proof {
            assert(self@.rooms == joined(old(self)@, peer_id, room@).rooms);
            assert(self@.peer_room == joined(old(self)@, peer_id, room@).peer_room);
        }
    }

    /// The peers that voice from `sender` is forwarded to in relay mode:
    /// the other members of its room, in the order they joined; none when
    /// it is in no room.
    pub fn relay_targets(&self, sender: i64) -> (r: Vec<i64>)
        ensures
            r@ == relay_targets_of(self@, sender),
    {
        match self.peer_room.get(&sender) {
            Some(room) => match self.rooms.get(room.as_str()) {
                Some(members) => copy_without(members, sender),
                None => Vec::new(),
            },
            None => Vec::new(),
        }
    }

    /// A peer disconnected: it leaves its room and its channel is torn
    /// down. Returns whether it had a channel.
    pub fn network_peer_disconnected(&mut self, peer_id: i64) -> (r: bool)
        requires
            old(self)@.well_formed(),
        ensures
            r == old(self)@.channels.contains_key(peer_id),
            final(self)@ == disconnected(old(self)@, peer_id),
            final(self)@.well_formed(),
    {
        self.remove_peer_from_current_room(peer_id);
        self.remove_peer_audio_stream_playback(peer_id)
    }

    /// Flushes every jitter buffer: each peer's non-empty inbox, sorted by
    /// sequence id with ties in arrival order, replaces its outbox and is
    /// emptied. Peers with an empty inbox keep their outbox.
    pub fn loop_sort_voice_packets(&mut self)
        requires
            old(self)@.well_formed(),
        ensures
            flushed(old(self)@, final(self)@),
            final(self)@.well_formed(),
    {
        let ghost st = old(self)@;
        let n = self.roster.len();
        let mut i: usize = 0;
        while i < n
            invariant
                n == st.roster.len(),
                i <= n,
                st.well_formed(),
                self@ == (VoiceState { channels: self@.channels, ..st }),
                self@.channels.dom() == st.channels.dom(),
                forall|j: int|
                    0 <= j < i ==> channel_flushed(
                        st.channels[#[trigger] st.roster[j]],
                        self@.channels[st.roster[j]],
                    ),
                forall|j: int|
                    i <= j < n ==> self@.channels[#[trigger] st.roster[j]]
                        == st.channels[st.roster[j]],
            decreases n - i,
        {
            let id = self.roster[i];
            let ghost before = self@.channels;
            assert(st.roster.contains(id));
            assert(st.channels.contains_key(id));
            assert(self.channels@.contains_key(id));
            match self.channels.remove(&id) {
                Some(channel) => {
                    assert(channel.view() == before[id]);
                    assert(st.roster[i as int] == id);
                    let PeerChannel { playback_enabled, inbox, outbox } = channel;
                    if inbox.len() == 0 {
                        self.channels.insert(id, PeerChannel { playback_enabled, inbox, outbox });
                    } else {
                        let sorted = quick_sort(inbox);
                        self.channels.insert(
                            id,
                            PeerChannel { playback_enabled, inbox: Vec::new(), outbox: sorted },
                        );
                    }
                    proof {
                        assert(self@.channels == before.insert(id, self@.channels[id]));
                        assert(channel_flushed(st.channels[id], self@.channels[id]));
                        assert forall|j: int| 0 <= j < n && j != i implies #[trigger] st.roster[j]
                            != id by {}
                    }
                },
                None => {
                    // every id of the roster has a channel
                    assert(false);
                },
            }
            i += 1;
        }
        proof {
            assert forall|p: i64| #[trigger] st.channels.contains_key(p) implies channel_flushed(
                st.channels[p],
                self@.channels[p],
            ) by {
                assert(st.roster.contains(p));
                let j = choose|j: int| 0 <= j < n && st.roster[j] == p;
            }
        }
    }

    /// Plays one tick: each peer, in roster order, whose playback is on,
    /// whose outbox is not empty and whose sink has room (it is in
    /// `ready`) gives up the head of its outbox. Returns those frames with
    /// their peers, at most one per peer; nothing else changes.
    pub fn drain_playback(&mut self, ready: &Vec<i64>) -> (r: Vec<(i64, VoicePacket)>)
        requires
            old(self)@.well_formed(),
        ensures
            r@ == playback_plan(old(self)@, ready@, old(self)@.roster),
            final(self)@ == drained(old(self)@, ready@),
            final(self)@.well_formed(),
    {
        let ghost st = old(self)@;
        let ghost goal = drained(st, ready@);
        let n = self.roster.len();
        let mut r: Vec<(i64, VoicePacket)> = Vec::new();
        let mut i: usize = 0;
        assert(st.roster.take(0) == Seq::<i64>::empty());
        while i < n
            invariant
                n == st.roster.len(),
                i <= n,
                st.well_formed(),
                goal == drained(st, ready@),
                self@ == (VoiceState { channels: self@.channels, ..st }),
                self@.channels.dom() == st.channels.dom(),
                r@ == playback_plan(st, ready@, st.roster.take(i as int)),
                forall|j: int|
                    0 <= j < i ==> self@.channels[#[trigger] st.roster[j]]
                        == goal.channels[st.roster[j]],
                forall|j: int|
                    i <= j < n ==> self@.channels[#[trigger] st.roster[j]]
                        == st.channels[st.roster[j]],
            decreases n - i,
        {
            let id = self.roster[i];
            let ghost before = self@.channels;
            assert(st.roster.contains(id));
            assert(st.roster.take(i + 1).drop_last() == st.roster.take(i as int));
            let is_ready = contains_id(ready, id);
            assert(st.channels.contains_key(id));
            assert(self.channels@.contains_key(id));
            match self.channels.remove(&id) {
                Some(channel) => {
                    let PeerChannel { playback_enabled, inbox, mut outbox } = channel;
                    if playback_enabled && outbox.len() > 0 && is_ready {
                        let head = outbox.remove(0);
                        r.push((id, head));
                    }
                    proof {
                        assert(outbox@ == goal.channels[id].outbox);
                    }
                    self.channels.insert(id, PeerChannel { playback_enabled, inbox, outbox });
                    proof {
                        assert(self@.channels == before.insert(id, goal.channels[id]));
                        assert forall|j: int| 0 <= j < n && j != i implies #[trigger] st.roster[j]
                            != id by {}
                    }
                },
                None => {
                    // every id of the roster has a channel
                    assert(false);
                },
            }
            i += 1;
        }
        proof {
            assert(st.roster.take(n as int) == st.roster);
            assert forall|p: i64| #[trigger] st.channels.contains_key(p) implies self@.channels[p]
                == goal.channels[p] by {
                assert(st.roster.contains(p));
                let j = choose|j: int| 0 <= j < n && st.roster[j] == p;
            }
            assert(self@.channels == goal.channels);
        }
        r
    }

    /// Whether a frame is captured, encoded and sent on this tick: not in
    /// relay mode, not muted, connected, and a whole frame captured.
    pub fn should_capture(&self, connected: bool, frames_available: u64) -> (r: bool)
        ensures
            r == captures(self@, connected, frames_available),
    {
        !self.dedicated_mode && !self.muted && connected && frames_available
            >= CAPTURE_FRAME_SAMPLES
    }

    /// Frames an encoded outbound frame under the next sequence id, and
    /// advances the id.
    pub fn next_voice_packet(&mut self, encoded: &Vec<u8>) -> (r: Vec<u8>)
        requires
            old(self)@.well_formed(),
        ensures
            r@ == framed(old(self)@.last_voice_id, encoded@),
            final(self)@ == (VoiceState {
                last_voice_id: next_id(old(self)@.last_voice_id),
                ..old(self)@
            }),
            final(self)@.well_formed(),
    {
        let id = self.last_voice_id;
        let r = frame_packet(id, encoded);
        self.last_voice_id = if id == u32::MAX {
            0
        } else {
            id + 1
        };
        r
    }

    pub fn set_muted(&mut self, muted: bool)
        requires
            old(self)@.well_formed(),
        ensures
            final(self)@ == (VoiceState { muted, ..old(self)@ }),
            final(self)@.well_formed(),
    {
        self.muted = muted;
    }

    pub fn get_muted(&self) -> (r: bool)
        ensures
            r == self@.muted,
    {
        self.muted
    }

    pub fn set_dedicated_mode(&mut self, mode: bool)
        requires
            old(self)@.well_formed(),
        ensures
            final(self)@ == (VoiceState { dedicated_mode: mode, ..old(self)@ }),
            final(self)@.well_formed(),
    {
        self.dedicated_mode = mode;
    }

    pub fn get_dedicated_mode(&self) -> (r: bool)
        ensures
            r == self@.dedicated_mode,
    {
        self.dedicated_mode
    }

    pub fn allow_direct_message(&mut self, value: bool)
        requires
            old(self)@.well_formed(),
        ensures
            final(self)@ == (VoiceState { allow_direct_message: value, ..old(self)@ }),
            final(self)@.well_formed(),
    {
        self.allow_direct_message = value;
    }

    pub fn set_jitter_buffer_delay_ms(&mut self, delay_ms: u64)
        requires
            old(self)@.well_formed(),
        ensures
            final(self)@ == (VoiceState { jitter_buffer_delay_ms: delay_ms, ..old(self)@ }),
            final(self)@.well_formed(),
    {
        self.jitter_buffer_delay_ms = delay_ms;
    }

    pub fn get_jitter_buffer_delay_ms(&self) -> (r: u64)
        ensures
            r == self@.jitter_buffer_delay_ms,
    {
        self.jitter_buffer_delay_ms
    }
}

} // verus!
