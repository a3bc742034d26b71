//! Properties of the voice node that involve more than one operation,
//! stated over the transitions in `state` and proved.
use vstd::prelude::*;

use crate::packet::VoicePacket;
use crate::sort::lemma_sequenced_permutes;
use crate::state::{
    disconnected, drained, drains, flushed, joined, lemma_joined, lemma_left_room,
    lemma_without_no_dup, left_room, other_than, playback_plan, unregistered, without,
    VoiceState,
};

verus! {

/// Filtering out an id that a list does not hold leaves it as it is.
proof fn lemma_without_absent(s: Seq<i64>, x: i64)
    requires
        !s.contains(x),
    ensures
        without(s, x) == s,
    decreases s.len(),
{
    if s.len() == 0 {
        reveal(Seq::filter);
    } else {
        let t = s.drop_last();
        assert(s == t.push(s.last()));
        assert(!t.contains(x)) by {
            if t.contains(x) {
                let j = choose|j: int| 0 <= j < t.len() && t[j] == x;
                assert(s[j] == x);
            }
        }
        assert(s[s.len() - 1] != x);
        lemma_without_absent(t, x);
        t.lemma_filter_push(s.last(), other_than(x));
    }
}

/// Unregistering a peer twice: the second time finds no channel to
/// remove and changes nothing.
pub proof fn lemma_unregister_twice(st: VoiceState, p: i64)
    requires
        st.well_formed(),
    ensures
        !unregistered(st, p).channels.contains_key(p),
        unregistered(unregistered(st, p), p) == unregistered(st, p),
{
    let once = unregistered(st, p);
    lemma_without_no_dup(st.roster, p);
    lemma_without_absent(once.roster, p);
    assert(once.channels.remove(p) == once.channels);
}

/// A flush drops no packet and adds none: a non-empty inbox moves,
/// reordered, into the outbox, duplicate ids included.
pub proof fn lemma_flush_keeps_every_packet(before: VoiceState, after: VoiceState, p: i64)
    requires
        flushed(before, after),
        before.channels.contains_key(p),
        before.channels[p].inbox.len() > 0,
    ensures
        after.channels[p].outbox.to_multiset() == before.channels[p].inbox.to_multiset(),
        after.channels[p].outbox.len() == before.channels[p].inbox.len(),
        after.channels[p].inbox.len() == 0,
{
    lemma_sequenced_permutes(before.channels[p].inbox, after.channels[p].outbox);
}

/// A peer whose sink has no room on a tick gets nothing played: its
/// channel, outbox included, stays as it was, and no frame of it is
/// handed out, whatever the other peers do.
pub proof fn lemma_backpressure(st: VoiceState, ready: Seq<i64>, p: i64, ids: Seq<i64>)
    requires
        !ready.contains(p),
    ensures
        st.channels.contains_key(p) ==> drained(st, ready).channels[p] == st.channels[p],
        forall|i: int|
            0 <= i < playback_plan(st, ready, ids).len() ==> (#[trigger] playback_plan(
                st,
                ready,
                ids,
            )[i]).0 != p,
    decreases ids.len(),
{
    assert(!drains(st, ready, p));
    if ids.len() > 0 {
        let rest = playback_plan(st, ready, ids.drop_last());
        lemma_backpressure(st, ready, p, ids.drop_last());
        let plan = playback_plan(st, ready, ids);
        assert forall|i: int| 0 <= i < plan.len() implies (#[trigger] plan[i]).0 != p by {
            if i < rest.len() {
                assert(plan[i] == rest[i]);
            } else {
                assert(drains(st, ready, ids.last()));
            }
        }
    }
}

/// When no sink has room, a tick plays nothing and changes nothing.
pub proof fn lemma_no_room_no_playback(st: VoiceState, ids: Seq<i64>)
    ensures
        playback_plan(st, Seq::empty(), ids) == Seq::<(i64, VoicePacket)>::empty(),
        drained(st, Seq::empty()) == st,
    decreases ids.len(),
{
    if ids.len() > 0 {
        lemma_no_room_no_playback(st, ids.drop_last());
    }
    assert(drained(st, Seq::empty()).channels == st.channels);
}

/// Joining room `a` and then room `b`: the peer is a member of `b`, its
/// room is `b`, and it is no member of `a`.
pub proof fn lemma_join_moves(st: VoiceState, p: i64, a: Seq<char>, b: Seq<char>)
    requires
        st.well_formed(),
        a != b,
    ensures
        joined(joined(st, p, a), p, b).rooms[b].contains(p),
        joined(joined(st, p, a), p, b).peer_room[p] == b,
        joined(joined(st, p, a), p, b).rooms.contains_key(a),
        !joined(joined(st, p, a), p, b).rooms[a].contains(p),
{
    let s1 = joined(st, p, a);
    lemma_joined(st, p, a);
    let s2 = joined(s1, p, b);
    lemma_joined(s1, p, b);
    lemma_left_room(s1, p);
    assert(s2.rooms[b][s2.rooms[b].len() - 1] == p);
    if s2.rooms[a].contains(p) {
        let i = choose|i: int| 0 <= i < s2.rooms[a].len() && s2.rooms[a][i] == p;
        assert(left_room(s1, p).rooms[a][i] == p);
    }
}

/// A peer that disconnects is gone without a trace: no channel, no place
/// in the roster, no room, in no room's members; and a flush, before or
/// after, does not bring it back.
pub proof fn lemma_disconnect_and_flush(st: VoiceState, p: i64, before: VoiceState, after: VoiceState)
    requires
        st.well_formed(),
        flushed(st, before),
        flushed(disconnected(st, p), after),
    ensures
        !disconnected(st, p).knows(p),
        !after.knows(p),
        !disconnected(before, p).knows(p),
{
    lemma_gone(st, p);
    lemma_flush_keeps_well_formed(st, before);
    lemma_gone(before, p);
    let d = disconnected(st, p);
    assert(after.channels.dom() == d.channels.dom());
    assert(after.roster == d.roster && after.rooms == d.rooms && after.peer_room == d.peer_room);
    assert(!after.channels.contains_key(p));
}

/// A flush touches neither the roster nor the rooms.
proof fn lemma_flush_keeps_well_formed(st: VoiceState, after: VoiceState)
    requires
        st.well_formed(),
        flushed(st, after),
    ensures
        after.well_formed(),
{
    assert(after.roster == st.roster && after.rooms == st.rooms && after.peer_room == st.peer_room);
    assert forall|q: i64| #[trigger] after.channels.contains_key(q) <==> after.roster.contains(q) by {
        assert(st.channels.contains_key(q) <==> st.roster.contains(q));
    }
}

proof fn lemma_gone(st: VoiceState, p: i64)
    requires
        st.well_formed(),
    ensures
        !disconnected(st, p).knows(p),
{
    let l = left_room(st, p);
    lemma_left_room(st, p);
    lemma_without_no_dup(l.roster, p);
    let d = disconnected(st, p);
    assert(!d.roster.contains(p));
    if exists|r: Seq<char>, i: int|
        d.rooms.contains_key(r) && 0 <= i < d.rooms[r].len() && #[trigger] d.rooms[r][i] == p {
        let (r, i) = choose|r: Seq<char>, i: int|
            d.rooms.contains_key(r) && 0 <= i < d.rooms[r].len() && #[trigger] d.rooms[r][i] == p;
        assert(l.rooms[r][i] != p);
    }
}

} // verus!
