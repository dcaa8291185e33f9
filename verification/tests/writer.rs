use anytls::frame::{Frame, FrameDecoder, CMD_PSH, CMD_WASTE};
use anytls::writer::{pad_records, WriterState, CHECK_MARK};
use bytes::Bytes;

#[test]
fn records_take_their_size_off_the_payload() {
    let writes = pad_records(vec![1, 2, 3, 4, 5], &[2, 2]);
    assert_eq!(writes, vec![vec![1, 2], vec![3, 4], vec![5]]);
}

#[test]
fn last_piece_is_filled_up_by_a_waste_frame() {
    let writes = pad_records(vec![9, 9], &[12]);
    assert_eq!(writes, vec![vec![9, 9, CMD_WASTE, 0, 0, 0, 0, 0, 3, 0, 0, 0]]);
    // No room for a header: nothing is added.
    assert_eq!(pad_records(vec![9, 9], &[9]), vec![vec![9, 9]]);
}

#[test]
fn records_without_payload_are_waste() {
    assert_eq!(pad_records(vec![], &[1]), vec![vec![CMD_WASTE, 0, 0, 0, 0, 0, 1, 0]]);
}

#[test]
fn check_mark_ends_the_packet_once_the_payload_is_sent() {
    assert_eq!(pad_records(vec![1], &[1, CHECK_MARK, 4]), vec![vec![1]]);
    assert_eq!(pad_records(vec![1, 2], &[1, CHECK_MARK, 1]), vec![vec![1], vec![2]]);
}

#[test]
fn negative_sizes_count_as_empty_records() {
    assert_eq!(pad_records(vec![1], &[-5]), vec![Vec::<u8>::new(), vec![1]]);
}

#[test]
fn held_back_frames_go_out_with_the_next_write() {
    let mut writer = WriterState::new(false);
    writer.set_buffering(true);
    let held = writer.write_conn(vec![1, 2], 0, &[]);
    assert_eq!((held.accepted, held.writes.len()), (2, 0));
    writer.set_buffering(false);
    let sent = writer.write_conn(vec![3], 0, &[]);
    assert_eq!(sent.accepted, 3);
    assert_eq!(sent.writes, vec![vec![1, 2, 3]]);
}

#[test]
fn padding_stops_at_the_packet_the_scheme_names() {
    let mut writer = WriterState::new(true);
    assert_eq!(writer.next_padded_packet(2), Some(1));
    assert_eq!(writer.write_conn(vec![1, 2], 2, &[1]).writes, vec![vec![1], vec![2]]);
    assert_eq!(writer.next_padded_packet(2), None);
    assert_eq!(writer.write_conn(vec![1, 2], 2, &[1]).writes, vec![vec![1, 2]]);
    // Once stopped, padding does not start again.
    assert_eq!(writer.next_padded_packet(9), None);
}

#[test]
fn peer_decodes_payload_then_waste() {
    let payload = Frame::with_data(CMD_PSH, 1, Bytes::copy_from_slice(b"data")).to_bytes().to_vec();
    let mut decoder = FrameDecoder::new();
    for write in pad_records(payload, &[5, 40, 3]) {
        decoder.feed(&write);
    }
    let first = decoder.next_frame().expect("payload");
    assert_eq!((first.cmd, first.data.as_ref()), (CMD_PSH, &b"data"[..]));
    let second = decoder.next_frame().expect("filling");
    assert_eq!((second.cmd, second.data.len()), (CMD_WASTE, 40 - 6 - 7));
    let third = decoder.next_frame().expect("waste record");
    assert_eq!((third.cmd, third.data.len()), (CMD_WASTE, 3));
    assert!(decoder.next_frame().is_none());
}
