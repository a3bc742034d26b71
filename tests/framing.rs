use godot_voip::wire::{frame_packet, parse_packet, HEADER_LEN};

#[test]
fn frame_is_little_endian_id_then_payload() {
    assert_eq!(frame_packet(0x0403_0201, &vec![9, 8]), vec![1, 2, 3, 4, 9, 8]);
    assert_eq!(frame_packet(0, &Vec::new()), vec![0, 0, 0, 0]);
    assert_eq!(frame_packet(u32::MAX, &vec![5]), vec![255, 255, 255, 255, 5]);
    assert_eq!(HEADER_LEN, 4);
}

#[test]
fn parse_splits_id_and_payload() {
    assert_eq!(parse_packet(&vec![1, 2, 3, 4, 9, 8]), Some((0x0403_0201, vec![9, 8])));
    assert_eq!(parse_packet(&vec![0xff, 0, 0, 0]), Some((255, Vec::new())));
}

#[test]
fn parse_rejects_short_datagrams() {
    assert_eq!(parse_packet(&Vec::new()), None);
    assert_eq!(parse_packet(&vec![1, 2, 3]), None);
}

#[test]
fn parse_reads_back_a_frame() {
    let payload = vec![10, 20, 30, 40, 50];
    let framed = frame_packet(123_456_789, &payload);
    assert_eq!(parse_packet(&framed), Some((123_456_789, payload)));
}
