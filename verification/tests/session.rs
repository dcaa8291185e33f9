use anytls::error::ErrorKind;
use anytls::frame::{
    Frame, FrameDecoder, CMD_ALERT, CMD_FIN, CMD_PSH, CMD_SETTINGS, CMD_SYN, CMD_SYNACK, CMD_WASTE,
};
use anytls::pipe::ReadStep;
use anytls::session::{
    new_client_session, new_server_session, Session, SessionEffect, DEFAULT_SID,
};
use anytls::state::PaddingFactory;
use anytls::stream::{Stream, StreamTable};
use bytes::Bytes;

fn session(is_client: bool) -> Session {
    let padding = PaddingFactory::from_parts(b"stop=2".to_vec(), "abc".to_string(), 2);
    if is_client {
        new_client_session(7, padding)
    } else {
        new_server_session(7, padding)
    }
}

fn read(session: &mut Session, max: usize) -> Vec<u8> {
    match session.read(max) {
        ReadStep::Data(d) => d,
        other => panic!("unexpected step {other:?}"),
    }
}

fn frame(cmd: u8, sid: u32, data: &[u8]) -> Frame {
    Frame::with_data(cmd, sid, Bytes::copy_from_slice(data))
}

#[test]
fn duplicate_fin_does_not_poison_next_logical_stream() {
    let mut session = session(true);
    let mut effects = Vec::new();

    session.open_stream().expect("first logical stream should open");
    session.mark_local_stream_closed(DEFAULT_SID, &mut effects);
    session.close_logical_stream(DEFAULT_SID, &mut effects);

    assert_eq!(read(&mut session, 16).len(), 0, "first FIN should produce exactly one EOF");

    session.close_logical_stream(DEFAULT_SID, &mut effects);

    session.open_stream().expect("second logical stream should open");
    session.push_data(b"hello").expect("reused logical stream should accept payload");

    let payload = read(&mut session, 16);
    assert_eq!(payload.len(), 5, "duplicate FIN must not leave a stale EOF behind");
    assert_eq!(payload, b"hello");
}

#[test]
fn idle_is_reported_when_both_halves_are_over() {
    for remote_first in [true, false] {
        let mut session = session(true);
        let mut effects = Vec::new();
        session.open_stream().unwrap();
        assert!(session.is_stream_open());
        if remote_first {
            session.close_logical_stream(DEFAULT_SID, &mut effects);
        } else {
            session.mark_local_stream_closed(DEFAULT_SID, &mut effects);
        }
        assert!(effects.is_empty());
        assert!(session.is_stream_open());
        let busy = session.open_stream().unwrap_err();
        assert_eq!((busy.kind, busy.message.as_str()), (ErrorKind::WouldBlock, "Session stream already active"));
        if remote_first {
            session.mark_local_stream_closed(DEFAULT_SID, &mut effects);
        } else {
            session.close_logical_stream(DEFAULT_SID, &mut effects);
        }
        assert!(matches!(effects[..], [SessionEffect::NotifyIdle]));
        assert!(!session.is_stream_open());
    }
}

#[test]
fn frames_for_other_streams_end_the_session() {
    let mut session = session(false);
    let mut effects = Vec::new();
    let error = session.on_frame(&Frame::new(CMD_SYN, 4_294_967_295), &mut effects).unwrap_err();
    assert_eq!((error.kind, error.message.as_str()), (ErrorKind::Other, "unsupported sid 4294967295"));
    match &effects[..] {
        [SessionEffect::SendAlert(f)] => {
            assert_eq!((f.cmd, f.sid, f.data.as_ref()), (CMD_ALERT, 0, &b"unsupported sid 4294967295"[..]));
        }
        other => panic!("unexpected effects {other:?}"),
    }
}

#[test]
fn first_payload_opens_the_stream_and_starts_the_handler_once() {
    let mut session = session(false);
    let mut effects = Vec::new();
    session.on_frame(&frame(CMD_PSH, 1, b"abc"), &mut effects).unwrap();
    assert!(matches!(effects[..], [SessionEffect::StartHandler]));
    assert_eq!(read(&mut session, 9), b"abc");
    session.on_frame(&Frame::new(CMD_FIN, 1), &mut effects).unwrap();
    session.mark_local_stream_closed(1, &mut effects);
    effects.clear();
    session.on_frame(&frame(CMD_PSH, 1, b"def"), &mut effects).unwrap();
    assert!(effects.is_empty(), "the handler is started once");
    assert!(session.is_stream_open());
    assert_eq!(read(&mut session, 9), b"", "the end of the first stream comes first");
    assert_eq!(read(&mut session, 9), b"def");
}

#[test]
fn client_learns_how_its_stream_was_opened() {
    let mut session = session(true);
    let mut effects = Vec::new();
    session.open_stream().unwrap();
    assert!(session.poll_stream_handshake(false).is_none());
    let gone = session.poll_stream_handshake(true).expect("queue closed").unwrap_err();
    assert_eq!(gone.kind, ErrorKind::BrokenPipe);
    session.on_frame(&Frame::new(CMD_SYNACK, 1), &mut effects).unwrap();
    assert!(matches!(session.poll_stream_handshake(false), Some(Ok(()))));
    effects.clear();
    session.on_frame(&frame(CMD_SYNACK, 1, b"no route"), &mut effects).unwrap();
    assert!(matches!(
        effects[..],
        [
            SessionEffect::NotifyHandshake,
            SessionEffect::CancelSynackTimeout { sid: 1 },
            SessionEffect::NotifyIdle
        ]
    ));
    let refused = session.poll_stream_handshake(false).expect("answer").unwrap_err();
    assert_eq!((refused.kind, refused.message.as_str()), (ErrorKind::Other, "no route"));
    assert!(session.is_terminated(false));
    match session.read(1) {
        ReadStep::Failed(e) => assert_eq!(e.message, "remote: no route"),
        other => panic!("unexpected step {other:?}"),
    }
}

#[test]
fn handshake_is_reported_once_and_only_to_peers_that_want_it() {
    let mut old_peer = session(false);
    assert!(old_peer.handshake_success().is_none());

    let mut session = session(false);
    let mut effects = Vec::new();
    session.on_frame(&frame(CMD_SETTINGS, 0, b"v=2\npadding-md5=abc"), &mut effects).unwrap();
    assert_eq!(session.peer_version(), 2);
    let report = session.handshake_success().expect("report");
    assert_eq!((report.cmd, report.sid, report.data.len()), (CMD_SYNACK, 1, 0));
    assert!(session.handshake_failure("late").is_none());
}

#[test]
fn session_ends_once() {
    let mut session = session(true);
    let mut effects = Vec::new();
    assert!(session.check_open().is_ok());
    session.terminate(&mut effects);
    assert!(matches!(effects[..], [SessionEffect::NotifyIdle, SessionEffect::NotifyHandshake]));
    session.terminate(&mut effects);
    assert_eq!(effects.len(), 2);
    let closed = session.check_open().unwrap_err();
    assert_eq!((closed.kind, closed.message.as_str()), (ErrorKind::BrokenPipe, "Session closed"));
    assert_eq!(session.push_data(b"x").unwrap_err().message, "Pipe closed");
    // The end is seen by the reader, and payload is refused from now on.
    assert_eq!(read(&mut session, 4), b"");
    let refused = session.on_frame(&frame(CMD_PSH, 1, b"x"), &mut effects).unwrap_err();
    assert_eq!(refused.kind, ErrorKind::BrokenPipe);
}

#[test]
fn client_starts_with_settings_and_holds_frames_back() {
    let mut session = session(true);
    let hello = session.ensure_started().expect("settings");
    assert_eq!(hello.cmd, CMD_SETTINGS);
    let held = session.encode_frame(&hello, &[]);
    assert!(held.writes.is_empty());
    session.mark_started();
    assert!(session.ensure_started().is_none());
    session.release_write_buffering();
    assert_eq!(session.next_padded_packet(), Some(1));
    let syn = Frame::new(CMD_SYN, 1);
    let sent = session.encode_frame(&syn, &[]);
    let mut expected = hello.to_bytes().to_vec();
    expected.extend_from_slice(&syn.to_bytes());
    assert_eq!(sent.writes, vec![expected]);
    assert_eq!(session.next_padded_packet(), None);
}

#[test]
fn payload_crosses_a_padded_connection() {
    let mut client = session(true);
    let mut server = session(false);
    let mut decoder = FrameDecoder::new();
    let mut effects = Vec::new();
    let push = client.write(b"payload");
    for record in client.encode_frame(&push, &[4, 60, 10]).writes {
        server.receive(&mut decoder, &record, &mut effects).expect("record");
    }
    assert!(matches!(effects[..], [SessionEffect::StartHandler]));
    assert_eq!(read(&mut server, 100), b"payload");
    assert_eq!(decoder.pending_len(), 0);
    let end = server.receive(&mut decoder, &[], &mut effects).unwrap_err();
    assert_eq!((end.kind, end.message.as_str()), (ErrorKind::UnexpectedEof, "Connection closed"));
}

#[test]
fn alerts_and_early_streams_end_the_session() {
    let mut server = session(false);
    let mut effects = Vec::new();
    let early = server.on_frame(&Frame::new(CMD_SYN, 1), &mut effects).unwrap_err();
    assert_eq!(early.message, "client did not send its settings");
    assert!(matches!(effects[..], [SessionEffect::SendAlert(_)]));
    let alert = server.on_frame(&Frame::new(CMD_ALERT, 0), &mut effects).unwrap_err();
    assert_eq!(alert.message, "Alert received");
    server.on_frame(&frame(CMD_WASTE, 0, b"00"), &mut effects).unwrap();
    assert_eq!(effects.len(), 1);
}

#[test]
fn streams_close_once_and_say_so() {
    let mut stream = Stream::new(3);
    assert_eq!(stream.id(), 3);
    let push = stream.write(b"x");
    assert_eq!((push.cmd, push.sid, push.data.as_ref()), (CMD_PSH, 3, &b"x"[..]));
    stream.push_data(b"in").unwrap();
    let fin = stream.close().expect("first close");
    assert_eq!((fin.cmd, fin.sid), (CMD_FIN, 3));
    assert!(stream.close_with_error(None).is_none());
    assert!(matches!(stream.read(9), ReadStep::Data(d) if d == b"in"));
    assert!(matches!(stream.read(9), ReadStep::Failed(e) if e.message == "Stream closed"));
    assert!(stream.handshake_success(2).is_some());
    assert!(stream.handshake_failure(2, "late").is_none());
}

#[test]
fn stream_table_opens_and_closes_streams() {
    let mut table = StreamTable::new();
    let first = table.open_stream(2);
    assert_eq!((first.id, first.arm_timeout, first.frame.cmd), (1, false, CMD_SYN));
    let second = table.open_stream(2);
    assert_eq!((second.id, second.arm_timeout), (2, true));
    assert!(!table.open_stream(1).arm_timeout);
    assert!(!table.handle_syn(2));
    assert!(table.handle_syn(9));
    table.handle_push(9, b"x").unwrap();
    table.handle_push(77, b"dropped").unwrap();
    table.handle_fin(9);
    assert_eq!(table.handle_push(9, b"y").unwrap_err().message, "Pipe closed");
    let fin = table.handle_refusal(1, "no").expect("fin");
    assert_eq!((fin.cmd, fin.sid), (CMD_FIN, 1));
    assert!(table.handle_refusal(1, "no").is_none());
    table.open_failed(2, "broken");
    assert!(table.handle_push(2, b"z").is_err());
}
