//! The abstract state of a voice node and the effect of each operation on
//! it. The executable node in `voice` is specified against these.
use vstd::prelude::*;

use crate::packet::{sequenced, VoicePacket};

verus! {

/// Peer id of the server: unless direct messages are allowed, voice is
/// taken only when the server relays it.
pub const SERVER_PEER_ID: i64 = 1;

/// Captured samples, at the host's rate, that resample to one codec frame.
pub const CAPTURE_FRAME_SAMPLES: u64 = 2646;

/// Samples of one decoded frame: a sink must have room for this many
/// before a frame is handed to it.
pub const PLAYBACK_FRAME_SAMPLES: u64 = 960;

/// Default period between two flushes of the jitter buffer.
pub const DEFAULT_JITTER_BUFFER_DELAY_MS: u64 = 420;

/// One remote peer's playback channel.
#[verifier::ext_equal]
pub struct ChannelView {
    /// Whether received voice is taken and played.
    pub playback_enabled: bool,
    /// Packets received since the last flush, in arrival order.
    pub inbox: Seq<VoicePacket>,
    /// Packets waiting for playback, in sequence order, head first.
    pub outbox: Seq<VoicePacket>,
}

/// What a voice node holds.
#[verifier::ext_equal]
pub struct VoiceState {
    /// Playback channels by peer id.
    pub channels: Map<i64, ChannelView>,
    /// The ids of `channels`, in the order in which they registered.
    pub roster: Seq<i64>,
    /// Members of each room, in the order in which they joined.
    pub rooms: Map<Seq<char>, Seq<i64>>,
    /// The room of each peer that is in one.
    pub peer_room: Map<i64, Seq<char>>,
    pub muted: bool,
    /// Relay mode: voice is forwarded between room members, never played.
    pub dedicated_mode: bool,
    /// Whether voice sent straight from another peer, not through the
    /// server, is taken.
    pub allow_direct_message: bool,
    /// Sequence id of the next outbound frame.
    pub last_voice_id: u32,
    pub jitter_buffer_delay_ms: u64,
}

impl ChannelView {
    /// A channel as registration leaves it.
    pub open spec fn fresh() -> ChannelView {
        ChannelView { playback_enabled: true, inbox: Seq::empty(), outbox: Seq::empty() }
    }
}

impl VoiceState {
    /// Registry: `roster` lists the registered peers, each once.
    pub open spec fn roster_matches(self) -> bool {
        &&& self.roster.no_duplicates()
        &&& forall|p: i64| #[trigger] self.channels.contains_key(p) <==> self.roster.contains(p)
    }

    /// Rooms: a peer is a member of a room iff its room is that room, and
    /// it is listed there once.
    pub open spec fn rooms_consistent(self) -> bool {
        &&& forall|p: i64| #[trigger]
            self.peer_room.contains_key(p) ==> self.rooms.contains_key(self.peer_room[p])
                && self.rooms[self.peer_room[p]].contains(p)
        &&& forall|r: Seq<char>, i: int|
            self.rooms.contains_key(r) && 0 <= i < self.rooms[r].len()
                ==> self.peer_room.contains_key(#[trigger] self.rooms[r][i])
                && self.peer_room[self.rooms[r][i]] == r
        &&& forall|r: Seq<char>| #[trigger]
            self.rooms.contains_key(r) ==> self.rooms[r].no_duplicates()
    }

    pub open spec fn well_formed(self) -> bool {
        &&& self.roster_matches()
        &&& self.rooms_consistent()
    }

    /// Whether peer `p` is registered or in a room.
    pub open spec fn knows(self, p: i64) -> bool {
        ||| self.channels.contains_key(p)
        ||| self.roster.contains(p)
        ||| self.peer_room.contains_key(p)
        ||| exists|r: Seq<char>, i: int|
            self.rooms.contains_key(r) && 0 <= i < self.rooms[r].len() && #[trigger] self.rooms[r][i] == p
    }
}

/// Whether a peer id is other than `x`.
pub open spec fn other_than(x: i64) -> spec_fn(i64) -> bool {
    |y: i64| y != x
}

/// `s` without `x`.
pub open spec fn without(s: Seq<i64>, x: i64) -> Seq<i64> {
    s.filter(other_than(x))
}

/// Filtering keeps a list free of repeats.
pub(crate) proof fn lemma_without_no_dup(s: Seq<i64>, x: i64)
    requires
        s.no_duplicates(),
    ensures
        without(s, x).no_duplicates(),
        forall|y: i64| #[trigger] without(s, x).contains(y) <==> s.contains(y) && y != x,
    decreases s.len(),
{
    broadcast use vstd::seq_lib::lemma_seq_contains_after_push;

    let f = other_than(x);
    if s.len() == 0 {
        reveal(Seq::filter);
    } else {
        let t = s.drop_last();
        let l = s.last();
        assert(s == t.push(l));
        assert(t.no_duplicates()) by {
            assert forall|i: int, j: int| 0 <= i < j < t.len() implies t[i] != t[j] by {
                assert(s[i] == t[i] && s[j] == t[j]);
            }
        }
        lemma_without_no_dup(t, x);
        t.lemma_filter_push(l, f);
        assert(!t.contains(l)) by {
            if t.contains(l) {
                let j = choose|j: int| 0 <= j < t.len() && t[j] == l;
                assert(s[j] == s[s.len() - 1]);
            }
        }
        let w = without(t, x);
        if l != x {
            assert(without(s, x) == w.push(l));
            assert forall|i: int, j: int|
                0 <= i < j < w.push(l).len() implies w.push(l)[i] != w.push(l)[j] by {
                if j == w.len() {
                    assert(w.contains(w[i]));
                }
            }
        }
    }
}

/// A peer that has no room is a member of none.
pub(crate) proof fn lemma_roomless(st: VoiceState, p: i64)
    requires
        st.rooms_consistent(),
        !st.peer_room.contains_key(p),
    ensures
        forall|r: Seq<char>, i: int|
            st.rooms.contains_key(r) && 0 <= i < st.rooms[r].len() ==> #[trigger] st.rooms[r][i]
                != p,
{
}

/// Leaving a room keeps the state well formed, and the peer is in no room
/// after it.
pub(crate) proof fn lemma_left_room(st: VoiceState, p: i64)
    requires
        st.well_formed(),
    ensures
        left_room(st, p).well_formed(),
        !left_room(st, p).peer_room.contains_key(p),
        forall|r: Seq<char>, i: int|
            left_room(st, p).rooms.contains_key(r) && 0 <= i < left_room(st, p).rooms[r].len()
                ==> #[trigger] left_room(st, p).rooms[r][i] != p,
{
    let s = left_room(st, p);
    if st.peer_room.contains_key(p) {
        let r0 = st.peer_room[p];
        assert(st.rooms.contains_key(r0));
        lemma_without_no_dup(st.rooms[r0], p);
        assert forall|q: i64| #[trigger] s.peer_room.contains_key(q) implies s.rooms.contains_key(
            s.peer_room[q],
        ) && s.rooms[s.peer_room[q]].contains(q) by {
            assert(st.peer_room.contains_key(q));
        }
        assert forall|r: Seq<char>, i: int|
            s.rooms.contains_key(r) && 0 <= i < s.rooms[r].len() implies s.peer_room.contains_key(
            #[trigger] s.rooms[r][i],
        ) && s.peer_room[s.rooms[r][i]] == r by {
            let x = s.rooms[r][i];
            if r == r0 {
                assert(without(st.rooms[r0], p).contains(x));
                let j = choose|j: int| 0 <= j < st.rooms[r0].len() && st.rooms[r0][j] == x;
                assert(st.peer_room[st.rooms[r0][j]] == r0);
            } else {
                assert(st.rooms[r][i] == x);
            }
        }
        assert forall|r: Seq<char>| #[trigger] s.rooms.contains_key(r) implies s.rooms[r].no_duplicates() by {
            if r != r0 {
                assert(st.rooms.contains_key(r));
            }
        }
    }
    lemma_roomless(s, p);
}

/// Joining a room keeps the state well formed.
pub(crate) proof fn lemma_joined(st: VoiceState, p: i64, room: Seq<char>)
    requires
        st.well_formed(),
    ensures
        joined(st, p, room).well_formed(),
{
    broadcast use vstd::seq_lib::lemma_seq_contains_after_push;

    let s = left_room(st, p);
    lemma_left_room(st, p);
    let j = joined(st, p, room);
    let old_members = if s.rooms.contains_key(room) { s.rooms[room] } else { Seq::<i64>::empty() };
    assert(j.rooms[room] == old_members.push(p));
    assert forall|i: int| 0 <= i < old_members.len() implies #[trigger] old_members[i] != p by {
        assert(s.rooms[room][i] != p);
    }
    assert forall|q: i64| #[trigger] j.peer_room.contains_key(q) implies j.rooms.contains_key(
        j.peer_room[q],
    ) && j.rooms[j.peer_room[q]].contains(q) by {
        if q != p {
            assert(s.peer_room.contains_key(q));
            assert(s.rooms[s.peer_room[q]].contains(q));
        }
    }
    assert forall|r: Seq<char>, i: int|
        j.rooms.contains_key(r) && 0 <= i < j.rooms[r].len() implies j.peer_room.contains_key(
        #[trigger] j.rooms[r][i],
    ) && j.peer_room[j.rooms[r][i]] == r by {
        if r == room {
            if i < old_members.len() {
                assert(s.rooms[room][i] == j.rooms[r][i]);
            }
        } else {
            assert(s.rooms[r][i] == j.rooms[r][i]);
        }
    }
    assert forall|r: Seq<char>| #[trigger] j.rooms.contains_key(r) implies j.rooms[r].no_duplicates() by {
        if r == room {
            assert forall|a: int, b: int|
                0 <= a < b < j.rooms[r].len() implies j.rooms[r][a] != j.rooms[r][b] by {
                if b < old_members.len() {
                    assert(s.rooms[room][a] == j.rooms[r][a]);
                    assert(s.rooms[room][b] == j.rooms[r][b]);
                }
            }
        } else {
            assert(s.rooms.contains_key(r));
        }
    }
}

/// Registering `p`: a fresh channel, replacing any earlier one.
pub open spec fn registered(st: VoiceState, p: i64) -> VoiceState {
    VoiceState {
        channels: st.channels.insert(p, ChannelView::fresh()),
        roster: if st.roster.contains(p) { st.roster } else { st.roster.push(p) },
        ..st
    }
}

/// Unregistering `p`: its channel and all that it buffered are gone.
pub open spec fn unregistered(st: VoiceState, p: i64) -> VoiceState {
    VoiceState { channels: st.channels.remove(p), roster: without(st.roster, p), ..st }
}

/// Turning playback of `p` on or off; buffered packets stay.
pub open spec fn with_playback(st: VoiceState, p: i64, enabled: bool) -> VoiceState {
    if st.channels.contains_key(p) {
        VoiceState {
            channels: st.channels.insert(
                p,
                ChannelView { playback_enabled: enabled, ..st.channels[p] },
            ),
            ..st
        }
    } else {
        st
    }
}

/// What becomes of a packet that arrives.
#[derive(PartialEq, Eq, Structural, Debug, Clone, Copy)]
pub enum ReceiveOutcome {
    /// Appended to the peer's inbox.
    Buffered,
    /// Dropped: a relay node plays nothing.
    RelayMode,
    /// Dropped: it came straight from a peer, and only the server may send.
    SenderRejected,
    /// Dropped: no playback channel is registered for the peer.
    UnknownPeer,
    /// Dropped: playback of the peer is turned off.
    PlaybackDisabled,
}

pub open spec fn receive_outcome(st: VoiceState, sender: i64, p: i64) -> ReceiveOutcome {
    if st.dedicated_mode {
        ReceiveOutcome::RelayMode
    } else if sender != SERVER_PEER_ID && !st.allow_direct_message {
        ReceiveOutcome::SenderRejected
    } else if !st.channels.contains_key(p) {
        ReceiveOutcome::UnknownPeer
    } else if !st.channels[p].playback_enabled {
        ReceiveOutcome::PlaybackDisabled
    } else {
        ReceiveOutcome::Buffered
    }
}

/// The state after `packet`, spoken by `p`, arrived from `sender`.
pub open spec fn received(st: VoiceState, sender: i64, p: i64, packet: VoicePacket) -> VoiceState {
    if receive_outcome(st, sender, p) == ReceiveOutcome::Buffered {
        VoiceState {
            channels: st.channels.insert(
                p,
                ChannelView { inbox: st.channels[p].inbox.push(packet), ..st.channels[p] },
            ),
            ..st
        }
    } else {
        st
    }
}

/// A flush of one channel: a non-empty inbox, put in sequence order,
/// replaces the outbox and is emptied. An empty inbox changes nothing.
pub open spec fn channel_flushed(before: ChannelView, after: ChannelView) -> bool {
    if before.inbox.len() == 0 {
        after == before
    } else {
        &&& after.playback_enabled == before.playback_enabled
        &&& after.inbox == Seq::<VoicePacket>::empty()
        &&& sequenced(before.inbox, after.outbox)
    }
}

/// A flush of every channel; nothing else changes.
pub open spec fn flushed(before: VoiceState, after: VoiceState) -> bool {
    &&& after.channels.dom() == before.channels.dom()
    &&& forall|p: i64| #[trigger]
        before.channels.contains_key(p) ==> channel_flushed(before.channels[p], after.channels[p])
    &&& after == VoiceState { channels: after.channels, ..before }
}

/// Whether peer `p` gets a frame played on a tick where the peers in
/// `ready` have sinks with room for one.
pub open spec fn drains(st: VoiceState, ready: Seq<i64>, p: i64) -> bool {
    &&& st.channels.contains_key(p)
    &&& st.channels[p].playback_enabled
    &&& st.channels[p].outbox.len() > 0
    &&& ready.contains(p)
}

/// The frames played on such a tick, for the peers of `ids` in turn: the
/// head of each draining peer's outbox.
pub open spec fn playback_plan(st: VoiceState, ready: Seq<i64>, ids: Seq<i64>) -> Seq<
    (i64, VoicePacket),
>
    decreases ids.len(),
{
    if ids.len() == 0 {
        Seq::empty()
    } else {
        let rest = playback_plan(st, ready, ids.drop_last());
        let p = ids.last();
        if drains(st, ready, p) {
            rest.push((p, st.channels[p].outbox[0]))
        } else {
            rest
        }
    }
}

/// The state after such a tick: each draining peer's outbox loses its head.
pub open spec fn drained(st: VoiceState, ready: Seq<i64>) -> VoiceState {
    VoiceState {
        channels: Map::new(
            |p: i64| st.channels.contains_key(p),
            |p: i64|
                if drains(st, ready, p) {
                    ChannelView { outbox: st.channels[p].outbox.drop_first(), ..st.channels[p] }
                } else {
                    st.channels[p]
                },
        ),
        ..st
    }
}

/// `p` out of its room, if it is in one.
pub open spec fn left_room(st: VoiceState, p: i64) -> VoiceState {
    if st.peer_room.contains_key(p) {
        let r = st.peer_room[p];
        VoiceState {
            rooms: if st.rooms.contains_key(r) {
                st.rooms.insert(r, without(st.rooms[r], p))
            } else {
                st.rooms
            },
            peer_room: st.peer_room.remove(p),
            ..st
        }
    } else {
        st
    }
}

/// `p` out of its room and into `room`, which is made if it is new.
pub open spec fn joined(st: VoiceState, p: i64, room: Seq<char>) -> VoiceState {
    let s = left_room(st, p);
    VoiceState {
        rooms: s.rooms.insert(
            room,
            if s.rooms.contains_key(room) { s.rooms[room].push(p) } else { seq![p] },
        ),
        peer_room: s.peer_room.insert(p, room),
        ..s
    }
}

/// `p` disconnected: out of its room, and its channel torn down.
pub open spec fn disconnected(st: VoiceState, p: i64) -> VoiceState {
    unregistered(left_room(st, p), p)
}

/// The peers that voice from `sender` is forwarded to: the other members
/// of its room.
pub open spec fn relay_targets_of(st: VoiceState, sender: i64) -> Seq<i64> {
    if st.peer_room.contains_key(sender) && st.rooms.contains_key(st.peer_room[sender]) {
        without(st.rooms[st.peer_room[sender]], sender)
    } else {
        Seq::empty()
    }
}

/// Whether a frame is captured and sent on a tick.
pub open spec fn captures(st: VoiceState, connected: bool, frames_available: u64) -> bool {
    !st.dedicated_mode && !st.muted && connected && frames_available >= CAPTURE_FRAME_SAMPLES
}

/// The sequence id after `id`; it wraps to 0.
pub open spec fn next_id(id: u32) -> u32 {
    if id == u32::MAX {
        0
    } else {
        (id + 1) as u32
    }
}

} // verus!
