use godot_voip::packet::VoicePacket;
use godot_voip::sort::quick_sort;

fn ids(packets: &[VoicePacket]) -> Vec<u32> {
    packets.iter().map(|p| p.id).collect()
}

fn packet(id: u32, tag: u8) -> VoicePacket {
    VoicePacket::new(id, vec![tag])
}

#[test]
fn sort_three_one_two() {
    let sorted = quick_sort(vec![packet(3, 0), packet(1, 0), packet(2, 0)]);
    assert_eq!(ids(&sorted), vec![1, 2, 3]);
}

#[test]
fn sort_empty_and_single() {
    assert!(quick_sort(Vec::new()).is_empty());
    let one = quick_sort(vec![packet(9, 4)]);
    assert_eq!(ids(&one), vec![9]);
    assert_eq!(one[0].payload, vec![4]);
}

#[test]
fn sort_keeps_duplicates_in_arrival_order() {
    let sorted = quick_sort(vec![packet(5, 1), packet(2, 7), packet(5, 2), packet(5, 3)]);
    assert_eq!(ids(&sorted), vec![2, 5, 5, 5]);
    let tags: Vec<u8> = sorted.iter().map(|p| p.payload[0]).collect();
    assert_eq!(tags, vec![7, 1, 2, 3]);
}

#[test]
fn sort_reversed_and_extremes() {
    let input: Vec<VoicePacket> = (0..40u32).rev().map(|i| packet(i, i as u8)).collect();
    let sorted = quick_sort(input);
    assert_eq!(ids(&sorted), (0..40u32).collect::<Vec<u32>>());
    let edges = quick_sort(vec![packet(u32::MAX, 0), packet(0, 0), packet(7, 0), packet(0, 1)]);
    assert_eq!(ids(&edges), vec![0, 0, 7, u32::MAX]);
    assert_eq!(edges[0].payload, vec![0]);
    assert_eq!(edges[1].payload, vec![1]);
}
