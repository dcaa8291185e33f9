//! What a session does about each frame it receives.
use crate::assoc::{keys, lookup, lookup_after_put, put, put_keeps_distinct};
use crate::error::{ErrorKind, IoError};
use crate::frame::{
    Frame, FrameView, CMD_ALERT, CMD_FIN, CMD_HEART_REQUEST, CMD_HEART_RESPONSE, CMD_PSH,
    CMD_SERVER_SETTINGS, CMD_SETTINGS, CMD_SYN, CMD_SYNACK, CMD_UPDATE_PADDING_SCHEME, CMD_WASTE,
};
use crate::settings::{
    announced_version, settings_bytes, settings_of, settings_round_trip, writable, Settings,
    StringMap,
};
use crate::state::{State, StateView};
use crate::text::{
    bytes_eq, digits_value, is_digit, position_is, string_from_utf8_lossy, unsigned_value,
    utf8_lossy,
};
use crate::wire;
use bytes::Bytes;
use vstd::prelude::*;
use vstd::utf8::{encode_utf8, encode_utf8_decode_utf8, is_ascii_chars_encode_utf8};

verus! {

/// The protocol version that this library speaks, as it is announced.
pub const PROTOCOL_VERSION: &'static str = "2";

/// From this version on peers acknowledge streams and answer settings.
pub const ACKNOWLEDGING_VERSION: u8 = 2;

/// The name and version by which a client introduces itself.
pub const PROGRAM_VERSION_NAME: &'static str = "anytls/0.3.0";

/// One thing that the host of a session is to do.
#[derive(Debug)]
pub enum ProtocolAction {
    /// Queue a frame for the peer.
    SendFrame(Frame),
    /// Send a frame and wait until it is written.
    SendFrameSync(Frame),
    /// Hand payload to a logical stream.
    PushStreamData { sid: u32, data: Bytes },
    /// Open a logical stream that the peer started, unless it is open.
    EnsureIncomingStream { sid: u32 },
    /// The peer has ended its half of a logical stream.
    CloseLocalStream { sid: u32 },
    /// The peer has refused a logical stream.
    CloseRemoteStream { sid: u32, message: String },
    /// Stop waiting for the acknowledgement of a logical stream.
    CancelSynackTimeout { sid: u32 },
    /// Use the padding scheme that `data` describes, if it describes one.
    UpdatePaddingScheme { data: Bytes },
    /// Let held-back frames go out.
    ReleaseWriteBuffering,
    /// Tell the peer what is wrong, as well as that goes, and give the session up.
    AlertAndFail { message: String },
}

/// The mathematical value of a [`ProtocolAction`].
pub enum ActionView {
    SendFrame(FrameView),
    SendFrameSync(FrameView),
    PushStreamData { sid: u32, data: Seq<u8> },
    EnsureIncomingStream { sid: u32 },
    CloseLocalStream { sid: u32 },
    CloseRemoteStream { sid: u32, message: Seq<char> },
    CancelSynackTimeout { sid: u32 },
    UpdatePaddingScheme { data: Seq<u8> },
    ReleaseWriteBuffering,
    AlertAndFail { message: Seq<char> },
}

impl View for ProtocolAction {
    type V = ActionView;

    open spec fn view(&self) -> ActionView {
        match self {
            ProtocolAction::SendFrame(f) => ActionView::SendFrame(f@),
            ProtocolAction::SendFrameSync(f) => ActionView::SendFrameSync(f@),
            ProtocolAction::PushStreamData { sid, data } => ActionView::PushStreamData {
                sid: *sid,
                data: wire::content(*data),
            },
            ProtocolAction::EnsureIncomingStream { sid } => ActionView::EnsureIncomingStream {
                sid: *sid,
            },
            ProtocolAction::CloseLocalStream { sid } => ActionView::CloseLocalStream { sid: *sid },
            ProtocolAction::CloseRemoteStream { sid, message } => ActionView::CloseRemoteStream {
                sid: *sid,
                message: message@,
            },
            ProtocolAction::CancelSynackTimeout { sid } => ActionView::CancelSynackTimeout {
                sid: *sid,
            },
            ProtocolAction::UpdatePaddingScheme { data } => ActionView::UpdatePaddingScheme {
                data: wire::content(*data),
            },
            ProtocolAction::ReleaseWriteBuffering => ActionView::ReleaseWriteBuffering,
            ProtocolAction::AlertAndFail { message } => ActionView::AlertAndFail {
                message: message@,
            },
        }
    }
}

/// The mathematical values of several actions.
pub open spec fn actions_view(actions: Seq<ProtocolAction>) -> Seq<ActionView> {
    actions.map_values(|a: ProtocolAction| a@)
}

/// What a client tells the server about itself.
pub open spec fn client_settings(s: StateView) -> Settings {
    put(
        put(
            put(Settings::empty(), encode_utf8("v"@), encode_utf8(PROTOCOL_VERSION@)),
            encode_utf8("client"@),
            encode_utf8(PROGRAM_VERSION_NAME@),
        ),
        encode_utf8("padding-md5"@),
        encode_utf8(s.padding.md5),
    )
}

/// The frame with which a client starts a session.
pub open spec fn settings_frame(s: StateView) -> FrameView {
    FrameView { cmd: CMD_SETTINGS, sid: 0, data: settings_bytes(client_settings(s)) }
}

/// The frame with which a server answers the settings of a client.
pub open spec fn server_settings_frame() -> FrameView {
    FrameView {
        cmd: CMD_SERVER_SETTINGS,
        sid: 0,
        data: settings_bytes(
            put(Settings::empty(), encode_utf8("v"@), encode_utf8(PROTOCOL_VERSION@)),
        ),
    }
}

/// The frame that hands the padding scheme of the server to a client.
pub open spec fn update_padding_frame(s: StateView) -> FrameView {
    FrameView { cmd: CMD_UPDATE_PADDING_SCHEME, sid: 0, data: s.padding.raw_scheme }
}

/// What a server does about the settings of a client.
pub open spec fn on_settings(s: StateView, data: Seq<u8>) -> (StateView, Seq<ActionView>) {
    let settings = settings_of(data);
    let update = if lookup(settings, encode_utf8("padding-md5"@)) == Some(
        encode_utf8(s.padding.md5),
    ) {
        Seq::<ActionView>::empty()
    } else {
        seq![ActionView::SendFrameSync(update_padding_frame(s))]
    };
    let marked = StateView { received_settings_from_client: true, ..s };
    match announced_version(settings) {
        Some(version) if version >= ACKNOWLEDGING_VERSION => (
            StateView { peer_version: version, ..marked },
            update + seq![ActionView::SendFrameSync(server_settings_frame())],
        ),
        _ => (marked, update),
    }
}

/// What a client does about the settings of the server.
pub open spec fn on_server_settings(s: StateView, data: Seq<u8>) -> StateView {
    match announced_version(settings_of(data)) {
        Some(version) => StateView { peer_version: version, ..s },
        None => s,
    }
}

/// What one side of a session does about a frame: the state it is in afterwards and the actions
/// to take, or the error that ends the session. Frames that mean nothing to this side, or that
/// lack the payload they need, change nothing.
pub open spec fn on_frame(s: StateView, is_client: bool, f: FrameView) -> Result<
    (StateView, Seq<ActionView>),
    (ErrorKind, Seq<char>),
> {
    let nothing = Seq::<ActionView>::empty();
    if f.cmd == CMD_PSH && f.data.len() > 0 {
        Ok((s, seq![ActionView::PushStreamData { sid: f.sid, data: f.data }]))
    } else if f.cmd == CMD_SYN && !is_client {
        if s.received_settings_from_client {
            Ok((s, seq![ActionView::EnsureIncomingStream { sid: f.sid }]))
        } else {
            Ok((s, seq![ActionView::AlertAndFail { message: "client did not send its settings"@ }]))
        }
    } else if f.cmd == CMD_FIN {
        Ok((s, seq![ActionView::CloseLocalStream { sid: f.sid }]))
    } else if f.cmd == CMD_SETTINGS && !is_client && f.data.len() > 0 {
        Ok(on_settings(s, f.data))
    } else if f.cmd == CMD_ALERT {
        Err((ErrorKind::Other, "Alert received"@))
    } else if f.cmd == CMD_UPDATE_PADDING_SCHEME && is_client && f.data.len() > 0 {
        Ok((s, seq![ActionView::UpdatePaddingScheme { data: f.data }]))
    } else if f.cmd == CMD_HEART_REQUEST {
        Ok((s, seq![ActionView::SendFrame(
            FrameView { cmd: CMD_HEART_RESPONSE, sid: f.sid, data: Seq::empty() },
        )]))
    } else if f.cmd == CMD_SERVER_SETTINGS && is_client && f.data.len() > 0 {
        Ok((on_server_settings(s, f.data), nothing))
    } else if f.cmd == CMD_SYNACK {
        let cancel = ActionView::CancelSynackTimeout { sid: f.sid };
        if f.data.len() > 0 {
            Ok((s, seq![
                cancel,
                ActionView::CloseRemoteStream { sid: f.sid, message: utf8_lossy(f.data) },
            ]))
        } else {
            Ok((s, seq![cancel]))
        }
    } else {
        Ok((s, nothing))
    }
}

/// The frame that acknowledges a logical stream, or refuses it with a reason.
pub open spec fn synack_frame(sid: u32, error: Seq<char>) -> FrameView {
    FrameView { cmd: CMD_SYNACK, sid, data: encode_utf8(error) }
}

/// The protocol engine.
#[derive(Debug)]
pub struct Engine;

impl Engine {
    /// The frame with which a client starts a session.
    pub fn settings_frame(state: &State) -> (f: Frame)
        ensures
            f@ == settings_frame(state@),
    {
        let mut settings = StringMap::new();
        settings.insert("v", PROTOCOL_VERSION);
        settings.insert("client", PROGRAM_VERSION_NAME);
        settings.insert("padding-md5", state.padding().md5());
        Frame::with_data(CMD_SETTINGS, 0, wire::bytes_from_vec(settings.to_bytes()))
    }

    fn on_settings(state: &mut State, data: &[u8]) -> (actions: Vec<ProtocolAction>)
        ensures
            (final(state)@, actions_view(actions@)) == on_settings(old(state)@, data@),
    {
        let settings = StringMap::from_bytes(data);
        let mut actions: Vec<ProtocolAction> = Vec::new();
        let same_padding = match settings.get("padding-md5") {
            Some(md5) => bytes_eq(md5, state.padding().md5().as_bytes()),
            None => false,
        };
        if !same_padding {
            let scheme = wire::bytes_copy_from_slice(state.padding().raw_scheme());
            actions.push(
                ProtocolAction::SendFrameSync(
                    Frame::with_data(CMD_UPDATE_PADDING_SCHEME, 0, scheme),
                ),
            );
        }
        let ghost update = actions_view(actions@);
        assert(update =~= if same_padding {
            Seq::<ActionView>::empty()
        } else {
            seq![ActionView::SendFrameSync(update_padding_frame(old(state)@))]
        });
        state.mark_received_settings_from_client();
        if let Some(version) = settings.version() {
            if version >= ACKNOWLEDGING_VERSION {
                state.set_peer_version(version);
                let mut reply = StringMap::new();
                reply.insert("v", PROTOCOL_VERSION);
                let frame = Frame::with_data(
                    CMD_SERVER_SETTINGS,
                    0,
                    wire::bytes_from_vec(reply.to_bytes()),
                );
                actions.push(ProtocolAction::SendFrameSync(frame));
                assert(actions_view(actions@) =~= update + seq![
                    ActionView::SendFrameSync(server_settings_frame()),
                ]);
            }
        }
        actions
    }

    /// What one side of a session does about a frame.
    pub fn on_frame(state: &mut State, is_client: bool, frame: &Frame) -> (r: Result<
        Vec<ProtocolAction>,
        IoError,
    >)
        ensures
            match r {
                Ok(actions) => on_frame(old(state)@, is_client, frame@) == Ok::<
                    (StateView, Seq<ActionView>),
                    (ErrorKind, Seq<char>),
                >((final(state)@, actions_view(actions@))),
                Err(e) => on_frame(old(state)@, is_client, frame@) == Err::<
                    (StateView, Seq<ActionView>),
                    (ErrorKind, Seq<char>),
                >(e@) && final(state)@ == old(state)@,
            },
    {
        let payload = wire::bytes_as_slice(&frame.data);
        let has_payload = payload.len() > 0;
        let mut actions: Vec<ProtocolAction> = Vec::new();
        let ghost none = Seq::<ActionView>::empty();
        if frame.cmd == CMD_PSH && has_payload {
            let data = wire::bytes_clone(&frame.data);
            actions.push(ProtocolAction::PushStreamData { sid: frame.sid, data });
            assert(actions_view(actions@) =~= seq![
                ActionView::PushStreamData { sid: frame.sid, data: frame@.data },
            ]);
        } else if frame.cmd == CMD_SYN && !is_client {
            if state.received_settings_from_client() {
                actions.push(ProtocolAction::EnsureIncomingStream { sid: frame.sid });
                assert(actions_view(actions@) =~= seq![
                    ActionView::EnsureIncomingStream { sid: frame.sid },
                ]);
            } else {
                let message = "client did not send its settings".to_owned();
                actions.push(ProtocolAction::AlertAndFail { message });
                assert(actions_view(actions@) =~= seq![
                    ActionView::AlertAndFail { message: "client did not send its settings"@ },
                ]);
            }
        } else if frame.cmd == CMD_FIN {
            actions.push(ProtocolAction::CloseLocalStream { sid: frame.sid });
            assert(actions_view(actions@) =~= seq![
                ActionView::CloseLocalStream { sid: frame.sid },
            ]);
        } else if frame.cmd == CMD_SETTINGS && !is_client && has_payload {
            actions = Self::on_settings(state, payload);
        } else if frame.cmd == CMD_ALERT {
            return Err(IoError::other("Alert received"));
        } else if frame.cmd == CMD_UPDATE_PADDING_SCHEME && is_client && has_payload {
            let data = wire::bytes_clone(&frame.data);
            actions.push(ProtocolAction::UpdatePaddingScheme { data });
            assert(actions_view(actions@) =~= seq![
                ActionView::UpdatePaddingScheme { data: frame@.data },
            ]);
        } else if frame.cmd == CMD_HEART_REQUEST {
            let response = Frame::new(CMD_HEART_RESPONSE, frame.sid);
            actions.push(ProtocolAction::SendFrame(response));
            assert(actions_view(actions@) =~= seq![ActionView::SendFrame(response@)]);
        } else if frame.cmd == CMD_SERVER_SETTINGS && is_client && has_payload {
            if let Some(version) = StringMap::from_bytes(payload).version() {
                state.set_peer_version(version);
            }
            assert(actions_view(actions@) =~= none);
        } else if frame.cmd == CMD_SYNACK {
            actions.push(ProtocolAction::CancelSynackTimeout { sid: frame.sid });
            let ghost cancel = ActionView::CancelSynackTimeout { sid: frame.sid };
            if has_payload {
                let message = string_from_utf8_lossy(payload);
                actions.push(ProtocolAction::CloseRemoteStream { sid: frame.sid, message });
                assert(actions_view(actions@) =~= seq![
                    cancel,
                    ActionView::CloseRemoteStream {
                        sid: frame.sid,
                        message: utf8_lossy(frame@.data),
                    },
                ]);
            } else {
                assert(actions_view(actions@) =~= seq![cancel]);
            }
        } else {
            assert(actions_view(actions@) =~= none);
        }
        Ok(actions)
    }

    /// The frame that reports how a logical stream was opened, if the peer wants to know:
    /// `error` says what went wrong, and is empty if nothing did.
    pub fn synack(peer_version: u8, sid: u32, error: &str) -> (f: Option<Frame>)
        ensures
            match f {
                Some(f) => peer_version >= ACKNOWLEDGING_VERSION && f@ == synack_frame(
                    sid,
                    error@,
                ),
                None => peer_version < ACKNOWLEDGING_VERSION,
            },
    {
        if peer_version >= ACKNOWLEDGING_VERSION {
            let data = wire::bytes_copy_from_slice(error.as_bytes());
            Some(Frame::with_data(CMD_SYNACK, sid, data))
        } else {
            None
        }
    }
}

/// Padding means nothing to the peer: a waste frame changes no state and causes no action.
pub proof fn waste_is_ignored(s: StateView, is_client: bool, f: FrameView)
    requires
        f.cmd == CMD_WASTE,
    ensures
        on_frame(s, is_client, f) == Ok::<(StateView, Seq<ActionView>), (ErrorKind, Seq<char>)>(
            (s, Seq::empty()),
        ),
{
}

/// A server opens no stream for a client that has not sent its settings.
pub proof fn no_stream_before_settings(s: StateView, f: FrameView)
    requires
        !s.received_settings_from_client,
        f.cmd == CMD_SYN,
    ensures
        on_frame(s, false, f) == Ok::<(StateView, Seq<ActionView>), (ErrorKind, Seq<char>)>(
            (s, seq![ActionView::AlertAndFail { message: "client did not send its settings"@ }]),
        ),
{
}

/// Once the client has sent its settings, no frame makes the server forget that.
pub proof fn settings_are_remembered(s: StateView, is_client: bool, f: FrameView)
    requires
        s.received_settings_from_client,
        on_frame(s, is_client, f) is Ok,
    ensures
        on_frame(s, is_client, f)->Ok_0.0.received_settings_from_client,
{
}

/// No frame that the engine handles changes the padding scheme; only the host does.
pub proof fn frames_keep_the_padding_scheme(s: StateView, is_client: bool, f: FrameView)
    requires
        on_frame(s, is_client, f) is Ok,
    ensures
        on_frame(s, is_client, f)->Ok_0.0.padding == s.padding,
{
}

/// The keys and values that settings are made of, as bytes.
proof fn setting_words()
    ensures
        encode_utf8("v"@) == seq![118u8],
        encode_utf8("client"@) == seq![99u8, 108, 105, 101, 110, 116],
        encode_utf8("padding-md5"@) == seq![112u8, 97, 100, 100, 105, 110, 103, 45, 109, 100, 53],
        encode_utf8(PROTOCOL_VERSION@) == seq![50u8],
        !encode_utf8(PROGRAM_VERSION_NAME@).contains(10u8),
{
    reveal_strlit("v");
    reveal_strlit("client");
    reveal_strlit("padding-md5");
    reveal_strlit("2");
    reveal_strlit("anytls/0.3.0");
    is_ascii_chars_encode_utf8("v"@);
    is_ascii_chars_encode_utf8("client"@);
    is_ascii_chars_encode_utf8("padding-md5"@);
    is_ascii_chars_encode_utf8(PROTOCOL_VERSION@);
    is_ascii_chars_encode_utf8(PROGRAM_VERSION_NAME@);
    assert(encode_utf8("v"@) =~= seq![118u8]);
    assert(encode_utf8("client"@) =~= seq![99u8, 108, 105, 101, 110, 116]);
    assert(encode_utf8("padding-md5"@) =~= seq![
        112u8,
        97,
        100,
        100,
        105,
        110,
        103,
        45,
        109,
        100,
        53,
    ]);
    assert(encode_utf8(PROTOCOL_VERSION@) =~= seq![50u8]);
}

proof fn version_two_is_announced(m: Settings)
    requires
        lookup(m, encode_utf8("v"@)) == Some(encode_utf8(PROTOCOL_VERSION@)),
    ensures
        announced_version(m) == Some(2u8),
{
    setting_words();
    let text = seq![50u8].map_values(|b: u8| b as char);
    assert(text =~= seq!['2']);
    assert(text.drop_last() =~= Seq::<char>::empty());
    assert(digits_value(text) == 2) by {
        reveal_with_fuel(digits_value, 2);
    }
    assert(unsigned_value(text, 255) == Some(2nat)) by {
        assert(is_digit(text[0]));
    }
}

proof fn client_settings_read_back(c: StateView)
    requires
        !encode_utf8(c.padding.md5).contains(10u8),
    ensures
        ({
            let m = settings_of(settings_bytes(client_settings(c)));
            &&& lookup(m, encode_utf8("v"@)) == Some(encode_utf8(PROTOCOL_VERSION@))
            &&& lookup(m, encode_utf8("padding-md5"@)) == Some(encode_utf8(c.padding.md5))
        }),
{
    setting_words();
    let v = encode_utf8("v"@);
    let client = encode_utf8("client"@);
    let md5 = encode_utf8("padding-md5"@);
    let none = Settings::empty();
    let one = put(none, v, encode_utf8(PROTOCOL_VERSION@));
    let two = put(one, client, encode_utf8(PROGRAM_VERSION_NAME@));
    let three = put(two, md5, encode_utf8(c.padding.md5));
    assert(v.len() == 1 && client.len() == 6 && md5.len() == 11);
    assert(keys(none) =~= Seq::<Seq<u8>>::empty());
    put_keeps_distinct(none, v, encode_utf8(PROTOCOL_VERSION@));
    put_keeps_distinct(one, client, encode_utf8(PROGRAM_VERSION_NAME@));
    put_keeps_distinct(two, md5, encode_utf8(c.padding.md5));
    lookup_after_put(none, v, encode_utf8(PROTOCOL_VERSION@), v);
    lookup_after_put(one, client, encode_utf8(PROGRAM_VERSION_NAME@), v);
    lookup_after_put(two, md5, encode_utf8(c.padding.md5), v);
    assert(one =~= seq![(v, encode_utf8(PROTOCOL_VERSION@))]);
    assert(keys(one) =~= seq![v]);
    position_is(keys(one), client, 1);
    assert(two =~= one.push((client, encode_utf8(PROGRAM_VERSION_NAME@))));
    assert(keys(two) =~= seq![v, client]);
    position_is(keys(two), md5, 2);
    assert(three =~= two.push((md5, encode_utf8(c.padding.md5))));
    assert(writable(three));
    settings_round_trip(three);
}

/// Client and server agree on the protocol version: the settings with which a client starts a
/// session make the server know its version and answer with its own, and the answer makes the
/// client know the version of the server. The server sends its padding scheme along exactly if
/// the client does not have it yet. The digest of a padding scheme has no line feed in it.
pub proof fn peers_agree_on_the_version(client: StateView, server: StateView)
    requires
        !encode_utf8(client.padding.md5).contains(10u8),
    ensures
        on_frame(server, false, settings_frame(client)) == Ok::<
            (StateView, Seq<ActionView>),
            (ErrorKind, Seq<char>),
        >(
            (
                StateView { peer_version: 2, received_settings_from_client: true, ..server },
                (if client.padding.md5 == server.padding.md5 {
                    Seq::<ActionView>::empty()
                } else {
                    seq![ActionView::SendFrameSync(update_padding_frame(server))]
                }) + seq![ActionView::SendFrameSync(server_settings_frame())],
            ),
        ),
        on_frame(client, true, server_settings_frame()) == Ok::<
            (StateView, Seq<ActionView>),
            (ErrorKind, Seq<char>),
        >((StateView { peer_version: 2, ..client }, Seq::empty())),
{
    setting_words();
    client_settings_read_back(client);
    let m = settings_of(settings_bytes(client_settings(client)));
    version_two_is_announced(m);
    encode_utf8_decode_utf8(client.padding.md5);
    encode_utf8_decode_utf8(server.padding.md5);
    assert(settings_bytes(client_settings(client)).len() > 0) by {
        if settings_bytes(client_settings(client)).len() == 0 {
            let empty = Seq::<u8>::empty();
            assert(settings_bytes(client_settings(client)) =~= empty);
            assert(settings_of(empty) =~= Settings::empty());
        }
    }
    let answer = put(Settings::empty(), encode_utf8("v"@), encode_utf8(PROTOCOL_VERSION@));
    let v = encode_utf8("v"@);
    assert(keys(Settings::empty()) =~= Seq::<Seq<u8>>::empty());
    assert(answer =~= seq![(v, encode_utf8(PROTOCOL_VERSION@))]);
    assert(keys(answer) =~= seq![v]);
    assert(writable(answer));
    settings_round_trip(answer);
    lookup_after_put(Settings::empty(), v, encode_utf8(PROTOCOL_VERSION@), v);
    version_two_is_announced(answer);
}

} // verus!
