use anytls::engine::{Engine, ProtocolAction};
use anytls::error::ErrorKind;
use anytls::frame::{
    Frame, CMD_ALERT, CMD_FIN, CMD_HEART_REQUEST, CMD_HEART_RESPONSE, CMD_PSH, CMD_SERVER_SETTINGS,
    CMD_SETTINGS, CMD_SYN, CMD_SYNACK, CMD_UPDATE_PADDING_SCHEME, CMD_WASTE,
};
use anytls::state::{PaddingFactory, State};
use bytes::Bytes;

fn padding(md5: &str) -> PaddingFactory {
    PaddingFactory::from_parts(b"stop=8".to_vec(), md5.to_string(), 8)
}

#[test]
fn engine_accepts_v2_settings_and_echoes_serversettings() {
    let mut state = State::new(padding("abc"));

    // build a Settings frame with v=2 (minimal payload)
    let data = b"v=2".to_vec();
    let frame = Frame::with_data(CMD_SETTINGS, 0, Bytes::copy_from_slice(&data));

    // server-side handling: is_client = false
    let actions = Engine::on_frame(&mut state, false, &frame).expect("Engine::on_frame failed");

    // peer_version should be recorded as 2
    assert_eq!(state.peer_version(), 2);

    // verify we will send a ServerSettings frame echoing v=2
    let mut found = false;
    for action in actions {
        if let ProtocolAction::SendFrameSync(f) = action {
            if f.cmd == CMD_SERVER_SETTINGS && f.data.as_ref().windows(3).any(|w| w == b"v=2") {
                found = true;
            }
        }
    }

    assert!(found, "Expected ServerSettings with v=2 in actions");
}

#[test]
fn client_and_server_agree_on_version_two() {
    let mut client = State::new(padding("abc"));
    let mut server = State::new(padding("abc"));
    let hello = Engine::settings_frame(&client);
    assert_eq!(hello.data.as_ref(), &b"v=2\nclient=anytls/0.3.0\npadding-md5=abc"[..]);
    let actions = Engine::on_frame(&mut server, false, &hello).expect("settings");
    assert_eq!(actions.len(), 1, "the client has the padding scheme already");
    let answer = match &actions[0] {
        ProtocolAction::SendFrameSync(f) => f.clone(),
        other => panic!("unexpected action {other:?}"),
    };
    assert!(Engine::on_frame(&mut client, true, &answer).expect("server settings").is_empty());
    assert_eq!((client.peer_version(), server.peer_version()), (2, 2));
}

#[test]
fn other_padding_scheme_is_sent_to_the_client() {
    let mut server = State::new(padding("abc"));
    let frame = Frame::with_data(CMD_SETTINGS, 0, Bytes::copy_from_slice(b"v=1\npadding-md5=xyz"));
    let actions = Engine::on_frame(&mut server, false, &frame).expect("settings");
    assert_eq!(server.peer_version(), 0);
    assert!(server.received_settings_from_client());
    assert_eq!(actions.len(), 1);
    match &actions[0] {
        ProtocolAction::SendFrameSync(f) => {
            assert_eq!((f.cmd, f.sid, f.data.as_ref()), (CMD_UPDATE_PADDING_SCHEME, 0, &b"stop=8"[..]));
        }
        other => panic!("unexpected action {other:?}"),
    }
}

#[test]
fn syn_needs_settings_first() {
    let mut server = State::new(padding("abc"));
    let syn = Frame::new(CMD_SYN, 1);
    let actions = Engine::on_frame(&mut server, false, &syn).expect("syn");
    assert!(matches!(&actions[..], [ProtocolAction::AlertAndFail { message }] if message == "client did not send its settings"));
    server.mark_received_settings_from_client();
    let actions = Engine::on_frame(&mut server, false, &syn).expect("syn");
    assert!(matches!(&actions[..], [ProtocolAction::EnsureIncomingStream { sid: 1 }]));
}

#[test]
fn each_command_has_its_action() {
    let mut state = State::new(padding("abc"));
    let mut run = |client: bool, frame: Frame| Engine::on_frame(&mut state, client, &frame);
    let with = |cmd: u8, data: &[u8]| Frame::with_data(cmd, 1, Bytes::copy_from_slice(data));

    assert!(matches!(&run(true, with(CMD_PSH, b"x")).unwrap()[..], [ProtocolAction::PushStreamData { sid: 1, .. }]));
    assert!(run(true, with(CMD_PSH, b"")).unwrap().is_empty());
    assert!(run(true, Frame::new(CMD_SYN, 1)).unwrap().is_empty());
    assert!(matches!(&run(true, Frame::new(CMD_FIN, 1)).unwrap()[..], [ProtocolAction::CloseLocalStream { sid: 1 }]));
    let error = run(true, with(CMD_ALERT, b"oops")).unwrap_err();
    assert_eq!((error.kind, error.message.as_str()), (ErrorKind::Other, "Alert received"));
    assert!(matches!(
        &run(true, with(CMD_UPDATE_PADDING_SCHEME, b"stop=1")).unwrap()[..],
        [ProtocolAction::UpdatePaddingScheme { .. }]
    ));
    match &run(false, Frame::new(CMD_HEART_REQUEST, 5)).unwrap()[..] {
        [ProtocolAction::SendFrame(f)] => assert_eq!((f.cmd, f.sid), (CMD_HEART_RESPONSE, 5)),
        other => panic!("unexpected actions {other:?}"),
    }
    assert!(matches!(&run(true, Frame::new(CMD_SYNACK, 1)).unwrap()[..], [ProtocolAction::CancelSynackTimeout { sid: 1 }]));
    assert!(matches!(
        &run(true, with(CMD_SYNACK, b"refused \xff")).unwrap()[..],
        [ProtocolAction::CancelSynackTimeout { sid: 1 }, ProtocolAction::CloseRemoteStream { sid: 1, message }]
            if message == "refused \u{fffd}"
    ));
    assert!(run(true, with(CMD_WASTE, b"000")).unwrap().is_empty());
    assert!(run(true, with(99, b"?")).unwrap().is_empty());
}

#[test]
fn synack_is_sent_to_peers_that_want_it() {
    let frame = Engine::synack(2, 1, "no route").expect("synack");
    assert_eq!((frame.cmd, frame.sid, frame.data.as_ref()), (CMD_SYNACK, 1, &b"no route"[..]));
    assert!(Engine::synack(1, 1, "no route").is_none());
}
