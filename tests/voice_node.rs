use godot_voip::state::{
    ReceiveOutcome, CAPTURE_FRAME_SAMPLES, DEFAULT_JITTER_BUFFER_DELAY_MS, SERVER_PEER_ID,
};
use godot_voip::voice::GodotVoice;

const PEER: i64 = 7;

fn node_with_peer() -> GodotVoice {
    let mut node = GodotVoice::new();
    node.set_peer_audio_stream_playback(PEER);
    node
}

fn receive(node: &mut GodotVoice, peer: i64, id: u32, tag: u8) -> ReceiveOutcome {
    node.receive_voice(SERVER_PEER_ID, peer, id, vec![tag])
}

/// Drains `peer` until its outbox is empty; the ids and payload tags played.
fn play_all(node: &mut GodotVoice, peer: i64) -> Vec<(u32, u8)> {
    let mut played = Vec::new();
    loop {
        let frames = node.drain_playback(&vec![peer]);
        if frames.is_empty() {
            return played;
        }
        assert_eq!(frames.len(), 1);
        assert_eq!(frames[0].0, peer);
        played.push((frames[0].1.id, frames[0].1.payload[0]));
    }
}

#[test]
fn flush_orders_three_one_two() {
    let mut node = node_with_peer();
    for id in [3u32, 1, 2] {
        assert_eq!(receive(&mut node, PEER, id, id as u8), ReceiveOutcome::Buffered);
    }
    node.loop_sort_voice_packets();
    assert_eq!(play_all(&mut node, PEER), vec![(1, 1), (2, 2), (3, 3)]);
}

#[test]
fn flush_keeps_duplicate_ids() {
    let mut node = node_with_peer();
    receive(&mut node, PEER, 5, 1);
    receive(&mut node, PEER, 5, 2);
    node.loop_sort_voice_packets();
    assert_eq!(play_all(&mut node, PEER), vec![(5, 1), (5, 2)]);
}

#[test]
fn nothing_plays_before_a_flush() {
    let mut node = node_with_peer();
    receive(&mut node, PEER, 1, 1);
    assert!(node.drain_playback(&vec![PEER]).is_empty());
    node.loop_sort_voice_packets();
    assert_eq!(play_all(&mut node, PEER), vec![(1, 1)]);
}

#[test]
fn flush_with_empty_inbox_keeps_outbox() {
    let mut node = node_with_peer();
    receive(&mut node, PEER, 1, 1);
    receive(&mut node, PEER, 2, 2);
    node.loop_sort_voice_packets();
    assert_eq!(node.drain_playback(&vec![PEER]).len(), 1);
    node.loop_sort_voice_packets();
    assert_eq!(play_all(&mut node, PEER), vec![(2, 2)]);
}

#[test]
fn flush_replaces_unplayed_outbox() {
    let mut node = node_with_peer();
    receive(&mut node, PEER, 1, 1);
    receive(&mut node, PEER, 2, 2);
    node.loop_sort_voice_packets();
    receive(&mut node, PEER, 4, 4);
    receive(&mut node, PEER, 3, 3);
    node.loop_sort_voice_packets();
    assert_eq!(play_all(&mut node, PEER), vec![(3, 3), (4, 4)]);
}

#[test]
fn unregister_twice_is_a_no_op() {
    let mut node = node_with_peer();
    node.set_peer_audio_stream_playback(8);
    assert!(node.remove_peer_audio_stream_playback(PEER));
    assert_eq!(node.peer_ids(), vec![8]);
    assert!(!node.remove_peer_audio_stream_playback(PEER));
    assert_eq!(node.peer_ids(), vec![8]);
    assert_eq!(receive(&mut node, PEER, 1, 1), ReceiveOutcome::UnknownPeer);
}

#[test]
fn backpressure_holds_the_outbox() {
    let mut node = node_with_peer();
    receive(&mut node, PEER, 1, 1);
    receive(&mut node, PEER, 2, 2);
    node.loop_sort_voice_packets();
    for _ in 0..10 {
        assert!(node.drain_playback(&Vec::new()).is_empty());
        assert!(node.drain_playback(&vec![PEER + 1]).is_empty());
    }
    assert_eq!(play_all(&mut node, PEER), vec![(1, 1), (2, 2)]);
}

#[test]
fn one_frame_per_peer_per_tick() {
    let mut node = GodotVoice::new();
    node.set_peer_audio_stream_playback(3);
    node.set_peer_audio_stream_playback(2);
    for id in 0..3u32 {
        receive(&mut node, 3, id, 30 + id as u8);
        receive(&mut node, 2, id, 20 + id as u8);
    }
    node.loop_sort_voice_packets();
    let tick = node.drain_playback(&vec![2, 3]);
    let heads: Vec<(i64, u32)> = tick.iter().map(|(p, f)| (*p, f.id)).collect();
    assert_eq!(heads, vec![(3, 0), (2, 0)]);
    let tick = node.drain_playback(&vec![2]);
    let heads: Vec<(i64, u32)> = tick.iter().map(|(p, f)| (*p, f.id)).collect();
    assert_eq!(heads, vec![(2, 1)]);
}

#[test]
fn disabled_playback_keeps_buffer() {
    let mut node = node_with_peer();
    receive(&mut node, PEER, 1, 1);
    node.loop_sort_voice_packets();
    assert!(node.set_peer_playback_enabled(PEER, false));
    assert!(node.drain_playback(&vec![PEER]).is_empty());
    assert_eq!(receive(&mut node, PEER, 2, 2), ReceiveOutcome::PlaybackDisabled);
    assert!(node.set_peer_playback_enabled(PEER, true));
    assert_eq!(play_all(&mut node, PEER), vec![(1, 1)]);
    assert!(!node.set_peer_playback_enabled(99, true));
}

#[test]
fn reregistering_clears_buffers() {
    let mut node = node_with_peer();
    receive(&mut node, PEER, 1, 1);
    node.loop_sort_voice_packets();
    receive(&mut node, PEER, 2, 2);
    node.set_peer_audio_stream_playback(PEER);
    assert_eq!(node.peer_ids(), vec![PEER]);
    node.loop_sort_voice_packets();
    assert!(play_all(&mut node, PEER).is_empty());
}

#[test]
fn receive_outcomes() {
    let mut node = node_with_peer();
    assert_eq!(node.receive_voice(2, PEER, 1, vec![1]), ReceiveOutcome::SenderRejected);
    node.allow_direct_message(true);
    assert_eq!(node.receive_voice(2, PEER, 1, vec![1]), ReceiveOutcome::Buffered);
    assert_eq!(node.receive_voice(2, 42, 1, vec![1]), ReceiveOutcome::UnknownPeer);
    node.set_dedicated_mode(true);
    assert!(node.get_dedicated_mode());
    assert_eq!(receive(&mut node, PEER, 2, 2), ReceiveOutcome::RelayMode);
    node.set_dedicated_mode(false);
    node.loop_sort_voice_packets();
    assert_eq!(play_all(&mut node, PEER), vec![(1, 1)]);
}

#[test]
fn join_room_moves_peer() {
    let mut node = GodotVoice::new();
    node.put_peer_in_room(10, String::from("A"));
    node.put_peer_in_room(11, String::from("B"));
    node.put_peer_in_room(PEER, String::from("A"));
    assert_eq!(node.relay_targets(10), vec![PEER]);
    node.put_peer_in_room(PEER, String::from("B"));
    assert_eq!(node.relay_targets(10), Vec::<i64>::new());
    assert_eq!(node.relay_targets(11), vec![PEER]);
    assert_eq!(node.relay_targets(PEER), vec![11]);
}

#[test]
fn relay_targets_in_join_order() {
    let mut node = GodotVoice::new();
    for p in [4i64, 2, 9, 3] {
        node.put_peer_in_room(p, String::from("lobby"));
    }
    assert_eq!(node.relay_targets(9), vec![4, 2, 3]);
    assert_eq!(node.relay_targets(5), Vec::<i64>::new());
    node.remove_peer_from_current_room(2);
    node.remove_peer_from_current_room(2);
    assert_eq!(node.relay_targets(9), vec![4, 3]);
    assert_eq!(node.relay_targets(2), Vec::<i64>::new());
}

#[test]
fn disconnect_during_flush_leaves_no_trace() {
    for flush_first in [false, true] {
        let mut node = node_with_peer();
        node.put_peer_in_room(PEER, String::from("A"));
        node.put_peer_in_room(3, String::from("A"));
        receive(&mut node, PEER, 2, 2);
        receive(&mut node, PEER, 1, 1);
        if flush_first {
            node.loop_sort_voice_packets();
            assert!(node.network_peer_disconnected(PEER));
        } else {
            assert!(node.network_peer_disconnected(PEER));
            node.loop_sort_voice_packets();
        }
        assert!(node.peer_ids().is_empty());
        assert_eq!(node.relay_targets(3), Vec::<i64>::new());
        assert_eq!(node.relay_targets(PEER), Vec::<i64>::new());
        assert!(node.drain_playback(&vec![PEER]).is_empty());
        assert_eq!(receive(&mut node, PEER, 3, 3), ReceiveOutcome::UnknownPeer);
        assert!(!node.network_peer_disconnected(PEER));
    }
}

#[test]
fn capture_gate() {
    let mut node = GodotVoice::new();
    assert_eq!(CAPTURE_FRAME_SAMPLES, 2646);
    assert!(node.should_capture(true, 2646));
    assert!(!node.should_capture(true, 2645));
    assert!(!node.should_capture(false, 5000));
    node.set_muted(true);
    assert!(node.get_muted());
    assert!(!node.should_capture(true, 5000));
    node.set_muted(false);
    node.set_dedicated_mode(true);
    assert!(!node.should_capture(true, 5000));
}

#[test]
fn outbound_ids_count_up() {
    let mut node = GodotVoice::new();
    assert_eq!(node.next_voice_packet(&vec![7, 7]), vec![0, 0, 0, 0, 7, 7]);
    assert_eq!(node.next_voice_packet(&vec![8]), vec![1, 0, 0, 0, 8]);
    assert_eq!(node.next_voice_packet(&Vec::new()), vec![2, 0, 0, 0]);
}

#[test]
fn jitter_delay_setting() {
    let mut node = GodotVoice::new();
    assert_eq!(node.get_jitter_buffer_delay_ms(), DEFAULT_JITTER_BUFFER_DELAY_MS);
    assert_eq!(DEFAULT_JITTER_BUFFER_DELAY_MS, 420);
    node.set_jitter_buffer_delay_ms(150);
    assert_eq!(node.get_jitter_buffer_delay_ms(), 150);
}
