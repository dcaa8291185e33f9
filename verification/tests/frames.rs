use anytls::frame::{Frame, FrameDecoder, RawHeader, CMD_PSH, CMD_SYN};
use bytes::Bytes;

#[test]
fn frame_without_payload_is_its_header() {
    let b = Frame::new(CMD_SYN, 0x0102_0304).to_bytes();
    assert_eq!(b.as_ref(), &[1, 1, 2, 3, 4, 0, 0]);
}

#[test]
fn frame_round_trip_keeps_trailing_bytes_out() {
    let frame = Frame::with_data(CMD_PSH, 1, Bytes::copy_from_slice(b"hello"));
    let mut bytes = frame.to_bytes().to_vec();
    assert_eq!(&bytes[..7], &[2, 0, 0, 0, 1, 0, 5]);
    bytes.extend_from_slice(b"rest");
    let decoded = Frame::from_bytes(&bytes).expect("complete frame");
    assert_eq!(decoded.cmd, CMD_PSH);
    assert_eq!(decoded.sid, 1);
    assert_eq!(decoded.data.as_ref(), b"hello");
}

#[test]
fn incomplete_frames_are_not_decoded() {
    let bytes = Frame::with_data(CMD_PSH, 1, Bytes::copy_from_slice(b"hello")).to_bytes();
    assert!(Frame::from_bytes(&bytes[..6]).is_none());
    assert!(Frame::from_bytes(&bytes[..11]).is_none());
    assert!(Frame::from_bytes(&bytes).is_some());
}

#[test]
fn payload_length_is_announced_in_sixteen_bits() {
    let frame = Frame::with_data(CMD_PSH, 1, Bytes::from(vec![7u8; 65_537]));
    let bytes = frame.to_bytes();
    assert_eq!(bytes.len(), 65_544);
    assert_eq!(&bytes[5..7], &[0, 1]);
}

#[test]
fn raw_header_is_read_without_payload() {
    let header = RawHeader::from_bytes(&[2, 0, 0, 1, 0, 0x12, 0x34]).expect("header");
    assert_eq!((header.cmd, header.sid, header.length), (2, 256, 0x1234));
    assert!(RawHeader::from_bytes(&[2, 0, 0, 1, 0, 0x12]).is_none());
}

#[test]
fn decoder_does_not_care_how_bytes_are_cut() {
    let mut stream = Frame::with_data(CMD_PSH, 1, Bytes::copy_from_slice(b"one")).to_bytes().to_vec();
    stream.extend_from_slice(&Frame::with_data(CMD_PSH, 1, Bytes::copy_from_slice(b"two")).to_bytes());
    for cut in 0..=stream.len() {
        let mut decoder = FrameDecoder::new();
        let mut payloads = Vec::new();
        for part in [&stream[..cut], &stream[cut..]] {
            decoder.feed(part);
            while let Some(frame) = decoder.next_frame() {
                payloads.push(frame.data.to_vec());
            }
        }
        assert_eq!(payloads, vec![b"one".to_vec(), b"two".to_vec()]);
        assert_eq!(decoder.pending_len(), 0);
    }
}
