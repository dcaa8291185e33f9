//! A session: one connection that carries one logical stream at a time.
//!
//! A session survives its logical streams. A stream is over when both peers have ended their
//! half of it; the session is then idle and can carry the next stream.
use crate::engine;
use crate::engine::{
    actions_view, settings_frame, synack_frame, ActionView, Engine, ProtocolAction,
    ACKNOWLEDGING_VERSION,
};
use crate::error::{ErrorKind, IoError};
use crate::frame::{
    all_fit, complete_frame_is_stable, frame_bytes, frames_bytes, frames_of, front_frame,
    remainder, Frame, FrameDecoder, FrameView, CMD_ALERT, CMD_PSH, CMD_SYNACK, CMD_WASTE,
    HEADER_OVERHEAD_SIZE,
};
use crate::pipe;
use crate::pipe::{PipeInner, PipeView, ReadStep};
use crate::state::{new_state, PaddingFactory, State, StateView};
use crate::stream::{push_frame, StreamProtocolHooks};
use crate::text::{decimal, push_decimal, string_from_utf8_lossy, utf8_lossy};
use crate::wire;
use crate::writer::{
    added_waste, added_waste_is_waste, all_waste, contents, padded_records,
    peer_sees_payload_then_waste, write_step, written, WriteOutcome, WriterState, WriterView,
};
use bytes::Bytes;
use vstd::prelude::*;
use vstd::slice::slice_to_vec;
use vstd::utf8::encode_utf8;

verus! {

/// The id of the one logical stream of a session.
pub const DEFAULT_SID: u32 = 1;

/// One thing that the runtime around a session is to do.
#[derive(Debug)]
pub enum SessionEffect {
    /// Queue a frame for the peer.
    SendFrame(Frame),
    /// Send a frame and wait until it is written; a failure ends the session.
    SendFrameSync(Frame),
    /// Send a frame and wait until it is written, as well as that goes.
    SendAlert(Frame),
    /// Start the handler for logical streams.
    StartHandler,
    /// Wake whoever waits for the session to be idle.
    NotifyIdle,
    /// Wake whoever waits for the acknowledgement of a stream.
    NotifyHandshake,
    /// Stop the timer that waits for the acknowledgement of a stream.
    CancelSynackTimeout { sid: u32 },
    /// Use the padding scheme that `data` describes, if it describes one.
    UpdatePaddingScheme { data: Bytes },
}

/// The mathematical value of a [`SessionEffect`].
pub enum EffectView {
    SendFrame(FrameView),
    SendFrameSync(FrameView),
    SendAlert(FrameView),
    StartHandler,
    NotifyIdle,
    NotifyHandshake,
    CancelSynackTimeout { sid: u32 },
    UpdatePaddingScheme { data: Seq<u8> },
}

impl View for SessionEffect {
    type V = EffectView;

    open spec fn view(&self) -> EffectView {
        match self {
            SessionEffect::SendFrame(f) => EffectView::SendFrame(f@),
            SessionEffect::SendFrameSync(f) => EffectView::SendFrameSync(f@),
            SessionEffect::SendAlert(f) => EffectView::SendAlert(f@),
            SessionEffect::StartHandler => EffectView::StartHandler,
            SessionEffect::NotifyIdle => EffectView::NotifyIdle,
            SessionEffect::NotifyHandshake => EffectView::NotifyHandshake,
            SessionEffect::CancelSynackTimeout { sid } => EffectView::CancelSynackTimeout {
                sid: *sid,
            },
            SessionEffect::UpdatePaddingScheme { data } => EffectView::UpdatePaddingScheme {
                data: wire::content(*data),
            },
        }
    }
}

/// The mathematical values of several effects.
pub open spec fn effects_view(effects: Seq<SessionEffect>) -> Seq<EffectView> {
    effects.map_values(|e: SessionEffect| e@)
}

/// The mathematical value of a [`Session`].
#[verifier::ext_equal]
pub struct SessionView {
    pub id: u64,
    pub is_client: bool,
    pub has_handler: bool,
    pub local_open: bool,
    pub remote_open: bool,
    pub closed: bool,
    pub started: bool,
    pub handler_started: bool,
    pub handshake: Option<Result<(), Seq<char>>>,
    pub reported: bool,
    pub state: StateView,
    pub writer: WriterView,
    pub pipe: PipeView,
}

/// A session on which nothing has happened.
pub open spec fn new_session(
    id: u64,
    is_client: bool,
    has_handler: bool,
    state: StateView,
) -> SessionView {
    SessionView {
        id,
        is_client,
        has_handler,
        local_open: false,
        remote_open: false,
        closed: false,
        started: false,
        handler_started: false,
        handshake: None,
        reported: false,
        state,
        writer: WriterView {
            send_padding: is_client,
            buffering: false,
            pending: Seq::empty(),
            pkt_counter: 0,
        },
        pipe: pipe::new_pipe(),
    }
}

/// Whether a logical stream is open in at least one direction.
pub open spec fn is_active(s: SessionView) -> bool {
    s.local_open || s.remote_open
}

/// What one step of a session comes to.
#[verifier::ext_equal]
pub struct Step {
    pub session: SessionView,
    pub effects: Seq<EffectView>,
    pub error: Option<(ErrorKind, Seq<char>)>,
}

/// A step with these effects that does not fail.
pub open spec fn done(session: SessionView, effects: Seq<EffectView>) -> Step {
    Step { session, effects, error: None }
}

/// The peer starts a logical stream: unless one is open, both halves are open from now on, and
/// the first stream of the session starts the handler.
pub open spec fn ensure_incoming_stream(s: SessionView, sid: u32) -> Step {
    if sid != DEFAULT_SID || is_active(s) {
        done(s, Seq::empty())
    } else {
        done(
            SessionView { local_open: true, remote_open: true, handler_started: true, ..s },
            if !s.handler_started && s.has_handler {
                seq![EffectView::StartHandler]
            } else {
                Seq::empty()
            },
        )
    }
}

/// The peer ends its half of the logical stream: the reader sees one end of the stream, and the
/// session is idle if the local half is over too. A second end changes nothing.
pub open spec fn close_logical_stream(s: SessionView, sid: u32) -> Step {
    if sid != DEFAULT_SID || !s.remote_open {
        done(s, Seq::empty())
    } else {
        done(
            SessionView { remote_open: false, pipe: pipe::finish_stream(s.pipe, None), ..s },
            if s.local_open {
                Seq::empty()
            } else {
                seq![EffectView::NotifyIdle]
            },
        )
    }
}

/// This side ends its half of the logical stream; the session is idle if the other half is
/// over too.
pub open spec fn mark_local_stream_closed(s: SessionView, sid: u32) -> Step {
    if sid != DEFAULT_SID || !s.local_open {
        done(s, Seq::empty())
    } else {
        done(
            SessionView { local_open: false, ..s },
            if s.remote_open {
                Seq::empty()
            } else {
                seq![EffectView::NotifyIdle]
            },
        )
    }
}

/// The peer ends the session, with a reason for the reader or without one.
pub open spec fn terminate_session(s: SessionView, sid: u32, message: Option<Seq<char>>) -> Step {
    if sid != DEFAULT_SID {
        done(s, Seq::empty())
    } else {
        let error = match message {
            Some(m) => Some((ErrorKind::Other, "remote: "@ + m)),
            None => None,
        };
        done(
            SessionView {
                local_open: false,
                remote_open: false,
                closed: true,
                pipe: pipe::close(s.pipe, error),
                ..s
            },
            seq![EffectView::NotifyIdle],
        )
    }
}

/// This side ends the session. A session ends once.
pub open spec fn terminate(s: SessionView) -> Step {
    if s.closed {
        done(s, Seq::empty())
    } else {
        done(
            SessionView { closed: true, pipe: pipe::close(s.pipe, None), ..s },
            seq![EffectView::NotifyIdle, EffectView::NotifyHandshake],
        )
    }
}

/// Payload arrives for a logical stream.
pub open spec fn push_stream_data(s: SessionView, sid: u32, data: Seq<u8>) -> Step {
    if sid != DEFAULT_SID {
        done(s, Seq::empty())
    } else if s.pipe.closed {
        Step {
            session: s,
            effects: Seq::empty(),
            error: Some((ErrorKind::BrokenPipe, "Pipe closed"@)),
        }
    } else {
        done(SessionView { pipe: pipe::write(s.pipe, data), ..s }, Seq::empty())
    }
}

/// The frame that tells the peer what is wrong.
pub open spec fn alert_frame(message: Seq<char>) -> FrameView {
    FrameView { cmd: CMD_ALERT, sid: 0, data: encode_utf8(message) }
}

/// The session gives up and says why.
pub open spec fn fail(s: SessionView, message: Seq<char>) -> Step {
    Step {
        session: s,
        effects: seq![EffectView::SendAlert(alert_frame(message))],
        error: Some((ErrorKind::Other, message)),
    }
}

/// One action of the protocol engine, carried out on the session.
pub open spec fn apply(s: SessionView, a: ActionView) -> Step {
    match a {
        ActionView::SendFrame(f) => done(s, seq![EffectView::SendFrame(f)]),
        ActionView::SendFrameSync(f) => done(s, seq![EffectView::SendFrameSync(f)]),
        ActionView::PushStreamData { sid, data } => push_stream_data(s, sid, data),
        ActionView::EnsureIncomingStream { sid } => ensure_incoming_stream(s, sid),
        ActionView::CloseLocalStream { sid } => close_logical_stream(s, sid),
        ActionView::CloseRemoteStream { sid, message } => terminate_session(s, sid, Some(message)),
        ActionView::CancelSynackTimeout { sid } => done(
            s,
            seq![EffectView::CancelSynackTimeout { sid }],
        ),
        ActionView::UpdatePaddingScheme { data } => done(
            s,
            seq![EffectView::UpdatePaddingScheme { data }],
        ),
        ActionView::ReleaseWriteBuffering => done(
            SessionView { writer: WriterView { buffering: false, ..s.writer }, ..s },
            Seq::empty(),
        ),
        ActionView::AlertAndFail { message } => fail(s, message),
    }
}

/// `first`, then `next` on the session that it leaves.
pub open spec fn and_then(first: Step, next: Step) -> Step {
    Step { effects: first.effects + next.effects, ..next }
}

/// Several actions, one after the other, up to the first that fails.
pub open spec fn apply_all(s: SessionView, actions: Seq<ActionView>) -> Step
    decreases actions.len(),
{
    if actions.len() == 0 {
        done(s, Seq::empty())
    } else {
        let first = apply(s, actions[0]);
        if first.error is Some {
            first
        } else {
            and_then(first, apply_all(first.session, actions.skip(1)))
        }
    }
}

/// Payload that arrives before its stream was opened opens it.
pub open spec fn implicit_open(s: SessionView, f: FrameView) -> Step {
    if f.cmd == CMD_PSH && f.sid == DEFAULT_SID {
        ensure_incoming_stream(s, DEFAULT_SID)
    } else {
        done(s, Seq::empty())
    }
}

/// A client learns how the server opened its stream.
pub open spec fn note_handshake(s: SessionView, f: FrameView) -> Step {
    if s.is_client && f.cmd == CMD_SYNACK && f.sid == DEFAULT_SID {
        done(
            SessionView {
                handshake: Some(
                    if f.data.len() == 0 {
                        Ok(())
                    } else {
                        Err(utf8_lossy(f.data))
                    },
                ),
                ..s
            },
            seq![EffectView::NotifyHandshake],
        )
    } else {
        done(s, Seq::empty())
    }
}

/// What the protocol engine makes of a frame.
pub open spec fn handle_frame(s: SessionView, f: FrameView) -> Step {
    match engine::on_frame(s.state, s.is_client, f) {
        Ok((state, actions)) => apply_all(SessionView { state, ..s }, actions),
        Err(e) => Step { session: s, effects: Seq::empty(), error: Some(e) },
    }
}

/// What a session says about a frame for a stream that it does not carry.
pub open spec fn unsupported_sid(sid: u32) -> Seq<char> {
    "unsupported sid "@ + decimal(sid as nat)
}

/// What a session does about one received frame.
pub open spec fn on_frame(s: SessionView, f: FrameView) -> Step {
    if f.sid != 0 && f.sid != DEFAULT_SID {
        fail(s, unsupported_sid(f.sid))
    } else {
        let opened = implicit_open(s, f);
        let noted = note_handshake(opened.session, f);
        and_then(opened, and_then(noted, handle_frame(noted.session, f)))
    }
}

/// What a session does about the complete frames at the front of `data`, up to the first that
/// ends it, and the bytes that are left over.
pub open spec fn drain(s: SessionView, data: Seq<u8>) -> (Step, Seq<u8>)
    decreases data.len(),
{
    match front_frame(data) {
        None => (done(s, Seq::empty()), data),
        Some(f) => {
            let first = on_frame(s, f);
            let rest = data.skip(HEADER_OVERHEAD_SIZE + f.data.len());
            if first.error is Some {
                (first, rest)
            } else {
                let (later, left) = drain(first.session, rest);
                (and_then(first, later), left)
            }
        },
    }
}

/// What a session does about bytes that it reads behind `pending` ones; no bytes mean that the
/// connection is closed.
pub open spec fn receive(s: SessionView, pending: Seq<u8>, chunk: Seq<u8>) -> (Step, Seq<u8>) {
    if chunk.len() == 0 {
        (
            Step {
                session: s,
                effects: Seq::empty(),
                error: Some((ErrorKind::UnexpectedEof, "Connection closed"@)),
            },
            pending,
        )
    } else {
        drain(s, pending + chunk)
    }
}

/// A session on which this side opens a logical stream, or `None` if one is open.
pub open spec fn opened_here(s: SessionView) -> Option<SessionView> {
    if is_active(s) {
        None
    } else {
        Some(SessionView { local_open: true, remote_open: true, handshake: None, ..s })
    }
}

/// How the opening of a stream came out, or `None` while it is not known.
pub open spec fn handshake_outcome(s: SessionView, queue_closed: bool) -> Option<
    Result<(), (ErrorKind, Seq<char>)>,
> {
    match s.handshake {
        Some(Ok(_)) => Some(Ok(())),
        Some(Err(m)) => Some(Err((ErrorKind::Other, m))),
        None => if s.closed || queue_closed {
            Some(
                Err((ErrorKind::BrokenPipe, "Session terminated before handshake completed"@)),
            )
        } else {
            None
        },
    }
}

/// The session after it was reported how a stream was opened, and the frame that reports it, if
/// one is due. An empty `error` stands for success.
pub open spec fn reported(s: SessionView, error: Seq<char>) -> (SessionView, Option<FrameView>) {
    (
        SessionView { reported: true, ..s },
        if s.reported || s.state.peer_version < ACKNOWLEDGING_VERSION {
            None
        } else {
            Some(synack_frame(DEFAULT_SID, error))
        },
    )
}

/// Whether `r` reports the outcome of `step`.
pub open spec fn reports(r: Result<(), IoError>, step: Step) -> bool {
    match r {
        Ok(_) => step.error is None,
        Err(e) => step.error == Some(e@),
    }
}

/// Whether `after` holds the effects of `step` behind what `before` held.
pub open spec fn adds(before: Seq<SessionEffect>, after: Seq<SessionEffect>, step: Step) -> bool {
    effects_view(after) == effects_view(before) + step.effects
}

/// One connection between a client and a server.
#[derive(Debug)]
pub struct Session {
    id: u64,
    is_client: bool,
    has_handler: bool,
    local_open: bool,
    remote_open: bool,
    closed: bool,
    started: bool,
    handler_started: bool,
    handshake: Option<Result<(), String>>,
    hooks: StreamProtocolHooks,
    state: State,
    writer: WriterState,
    pipe: PipeInner,
}

impl View for Session {
    type V = SessionView;

    closed spec fn view(&self) -> SessionView {
        SessionView {
            id: self.id,
            is_client: self.is_client,
            has_handler: self.has_handler,
            local_open: self.local_open,
            remote_open: self.remote_open,
            closed: self.closed,
            started: self.started,
            handler_started: self.handler_started,
            handshake: match self.handshake {
                Some(Ok(_)) => Some(Ok(())),
                Some(Err(m)) => Some(Err(m@)),
                None => None,
            },
            reported: self.hooks.reported,
            state: self.state@,
            writer: self.writer@,
            pipe: self.pipe@,
        }
    }
}

proof fn pushed_effect(before: Seq<SessionEffect>, e: SessionEffect)
    ensures
        effects_view(before.push(e)) == effects_view(before) + seq![e@],
{
    assert(effects_view(before.push(e)) =~= effects_view(before) + seq![e@]);
}

proof fn no_effect(before: Seq<SessionEffect>)
    ensures
        effects_view(before) == effects_view(before) + Seq::<EffectView>::empty(),
{
    assert(effects_view(before) =~= effects_view(before) + Seq::<EffectView>::empty());
}

/// A session on the client's side. It has no handler: the server opens no streams.
pub fn new_client_session(id: u64, padding: PaddingFactory) -> (s: Session)
    ensures
        s.wf(),
        s@ == new_session(id, true, false, new_state(padding@)),
{
    Session::new(id, true, false, padding)
}

/// A session on the server's side, with a handler for the streams that the client opens.
pub fn new_server_session(id: u64, padding: PaddingFactory) -> (s: Session)
    ensures
        s.wf(),
        s@ == new_session(id, false, true, new_state(padding@)),
{
    Session::new(id, false, true, padding)
}

impl Session {
    /// The writer of the session can count its packets.
    pub closed spec fn wf(&self) -> bool {
        self.writer.wf()
    }

    /// A session on which nothing has happened. `has_handler` says whether there is a handler
    /// for the logical streams that the peer opens.
    pub fn new(id: u64, is_client: bool, has_handler: bool, padding: PaddingFactory) -> (s: Session)
        ensures
            s.wf(),
            s@ == new_session(id, is_client, has_handler, new_state(padding@)),
    {
        Session {
            id,
            is_client,
            has_handler,
            local_open: false,
            remote_open: false,
            closed: false,
            started: false,
            handler_started: false,
            handshake: None,
            hooks: StreamProtocolHooks::new(),
            state: State::new(padding),
            writer: WriterState::new(is_client),
            pipe: PipeInner::new(),
        }
    }

    /// The number of this session.
    pub fn id(&self) -> (id: u64)
        ensures
            id == self@.id,
    {
        self.id
    }

    /// Whether this is the client side.
    pub fn is_client(&self) -> (b: bool)
        ensures
            b == self@.is_client,
    {
        self.is_client
    }

    /// What has been negotiated with the peer.
    pub fn protocol_state(&self) -> (s: &State)
        ensures
            s@ == self@.state,
    {
        &self.state
    }

    /// The protocol version of the peer.
    pub fn peer_version(&self) -> (v: u8)
        ensures
            v == self@.state.peer_version,
    {
        self.state.peer_version()
    }

    /// Whether a logical stream is open in at least one direction.
    pub fn is_stream_open(&self) -> (b: bool)
        ensures
            b == is_active(self@),
            b == (self@.local_open || self@.remote_open),
    {
        self.local_open || self.remote_open
    }

    /// Whether the session is over, given whether its frame queue is closed.
    pub fn is_terminated(&self, queue_closed: bool) -> (b: bool)
        ensures
            b == (self@.closed || queue_closed),
    {
        self.closed || queue_closed
    }

    /// Uses another padding scheme from now on.
    pub fn set_padding(&mut self, padding: PaddingFactory)
        requires
            old(self).wf(),
        ensures
            final(self).wf(),
            final(self)@ == (SessionView {
                state: StateView { padding: padding@, ..old(self)@.state },
                ..old(self)@
            }),
    {
        self.state.set_padding(padding);
    }

    /// The frame that has to be sent to start the session, if it is not started: a client
    /// introduces itself, and holds its frames back until its first stream is opened.
    pub fn ensure_started(&mut self) -> (f: Option<Frame>)
        requires
            old(self).wf(),
        ensures
            final(self).wf(),
            match f {
                Some(f) => !old(self)@.started && old(self)@.is_client && f@ == settings_frame(
                    old(self)@.state,
                ) && final(self)@ == (SessionView {
                    writer: WriterView { buffering: true, ..old(self)@.writer },
                    ..old(self)@
                }),
                None => (old(self)@.started || !old(self)@.is_client) && final(self)@ == old(
                    self,
                )@,
            },
    {
        if self.started || !self.is_client {
            return None;
        }
        self.writer.set_buffering(true);
        Some(Engine::settings_frame(&self.state))
    }

    /// Remembers that the session is started.
    pub fn mark_started(&mut self)
        requires
            old(self).wf(),
        ensures
            final(self).wf(),
            final(self)@ == (SessionView { started: true, ..old(self)@ }),
    {
        self.started = true;
    }

    /// Lets held-back frames go out.
    pub fn release_write_buffering(&mut self)
        requires
            old(self).wf(),
        ensures
            final(self).wf(),
            final(self)@ == (SessionView {
                writer: WriterView { buffering: false, ..old(self)@.writer },
                ..old(self)@
            }),
    {
        self.writer.set_buffering(false);
    }

    /// The number of the packet as which the next frame is padded, if it is.
    pub fn next_padded_packet(&self) -> (pkt: Option<u32>)
        requires
            self.wf(),
        ensures
            pkt == if !self@.writer.buffering && self@.writer.send_padding
                && self@.writer.pkt_counter + 1 < self@.state.padding.stop {
                Some((self@.writer.pkt_counter + 1) as u32)
            } else {
                None
            },
    {
        self.writer.next_padded_packet(self.state.padding().stop())
    }

    /// What goes to the connection for `frame`, where `sizes` are the record sizes that the
    /// padding scheme drew for this packet.
    pub fn encode_frame(&mut self, frame: &Frame, sizes: &[i32]) -> (r: WriteOutcome)
        requires
            old(self).wf(),
        ensures
            final(self).wf(),
            ({
                let (writer, accepted, writes) = write_step(
                    old(self)@.writer,
                    frame_bytes(frame@),
                    old(self)@.state.padding.stop,
                    sizes@,
                );
                &&& final(self)@ == (SessionView { writer, ..old(self)@ })
                &&& r.accepted == accepted
                &&& contents(r.writes@) == writes
            }),
    {
        let encoded = frame.to_bytes();
        let bytes = slice_to_vec(wire::bytes_as_slice(&encoded));
        assert(bytes@ =~= frame_bytes(frame@));
        self.writer.write_conn(bytes, self.state.padding().stop(), sizes)
    }

    /// Reads at most `max` bytes of the logical stream.
    pub fn read(&mut self, max: usize) -> (r: ReadStep)
        requires
            old(self).wf(),
        ensures
            final(self).wf(),
            r@ == pipe::read(old(self)@.pipe, max as nat).0,
            final(self)@ == (SessionView {
                pipe: pipe::read(old(self)@.pipe, max as nat).1,
                ..old(self)@
            }),
    {
        self.pipe.read(max)
    }

    /// Goes on with a read that is waiting.
    pub fn resume_read(&mut self, max: usize) -> (r: ReadStep)
        requires
            old(self).wf(),
            old(self)@.pipe.reading,
        ensures
            final(self).wf(),
            r@ == pipe::receive(old(self)@.pipe, max as nat).0,
            final(self)@ == (SessionView {
                pipe: pipe::receive(old(self)@.pipe, max as nat).1,
                ..old(self)@
            }),
    {
        self.pipe.resume_read(max)
    }

    /// The frame that sends `data` on the logical stream.
    pub fn write(&self, data: &[u8]) -> (f: Frame)
        ensures
            f@ == push_frame(DEFAULT_SID, data@),
    {
        Frame::with_data(CMD_PSH, DEFAULT_SID, wire::bytes_copy_from_slice(data))
    }

    /// Hands received bytes to the reader of the logical stream.
    pub fn push_data(&mut self, data: &[u8]) -> (r: Result<usize, IoError>)
        requires
            old(self).wf(),
        ensures
            final(self).wf(),
            match r {
                Ok(n) => !old(self)@.pipe.closed && n == data@.len() && final(self)@ == (
                SessionView { pipe: pipe::write(old(self)@.pipe, data@), ..old(self)@ }),
                Err(e) => old(self)@.pipe.closed && e@ == (ErrorKind::BrokenPipe, "Pipe closed"@)
                    && final(self)@ == old(self)@,
            },
    {
        self.pipe.write(data)
    }

    /// The frame that reports that a logical stream could not be opened, if one is due.
    pub fn handshake_failure(&mut self, error: &str) -> (f: Option<Frame>)
        requires
            old(self).wf(),
        ensures
            final(self).wf(),
            final(self)@ == (SessionView { reported: true, ..old(self)@ }),
            match f {
                Some(f) => !old(self)@.reported && old(self)@.state.peer_version
                    >= ACKNOWLEDGING_VERSION && f@ == synack_frame(DEFAULT_SID, error@),
                None => old(self)@.reported || old(self)@.state.peer_version
                    < ACKNOWLEDGING_VERSION,
            },
            final(self)@ == reported(old(self)@, error@).0,
            match f {
                Some(f) => reported(old(self)@, error@).1 == Some(f@),
                None => reported(old(self)@, error@).1 is None,
            },
    {
        self.hooks.handshake_failure(self.state.peer_version(), DEFAULT_SID, error)
    }

    /// The frame that reports that a logical stream is open, if one is due.
    pub fn handshake_success(&mut self) -> (f: Option<Frame>)
        requires
            old(self).wf(),
        ensures
            final(self).wf(),
            final(self)@ == (SessionView { reported: true, ..old(self)@ }),
            match f {
                Some(f) => !old(self)@.reported && old(self)@.state.peer_version
                    >= ACKNOWLEDGING_VERSION && f@ == synack_frame(DEFAULT_SID, Seq::empty()),
                None => old(self)@.reported || old(self)@.state.peer_version
                    < ACKNOWLEDGING_VERSION,
            },
            final(self)@ == reported(old(self)@, Seq::empty()).0,
            match f {
                Some(f) => reported(old(self)@, Seq::empty()).1 == Some(f@),
                None => reported(old(self)@, Seq::empty()).1 is None,
            },
    {
        self.hooks.handshake_success(self.state.peer_version(), DEFAULT_SID)
    }

    /// Opens a logical stream from this side, unless one is open.
    pub fn open_stream(&mut self) -> (r: Result<(), IoError>)
        requires
            old(self).wf(),
        ensures
            final(self).wf(),
            match r {
                Ok(_) => !old(self)@.local_open && !old(self)@.remote_open && final(self)@ == (
                SessionView {
                    local_open: true,
                    remote_open: true,
                    handshake: None,
                    ..old(self)@
                }),
                Err(e) => (old(self)@.local_open || old(self)@.remote_open) && e@ == (
                    ErrorKind::WouldBlock,
                    "Session stream already active"@,
                ) && final(self)@ == old(self)@,
            },
            match opened_here(old(self)@) {
                Some(s) => r is Ok && final(self)@ == s,
                None => r is Err,
            },
    {
        if self.local_open || self.remote_open {
            return Err(IoError::new(ErrorKind::WouldBlock, "Session stream already active"));
        }
        self.local_open = true;
        self.remote_open = true;
        self.handshake = None;
        Ok(())
    }

    /// How the opening of a stream came out: `None` while the peer has not answered.
    /// `queue_closed` says whether the frame queue of the session is closed.
    pub fn poll_stream_handshake(&self, queue_closed: bool) -> (r: Option<Result<(), IoError>>)
        ensures
            match self@.handshake {
                Some(Ok(_)) => r matches Some(Ok(_)),
                Some(Err(m)) => r matches Some(Err(e)) && e@ == (ErrorKind::Other, m),
                None => if self@.closed || queue_closed {
                    r matches Some(Err(e)) && e@ == (
                        ErrorKind::BrokenPipe,
                        "Session terminated before handshake completed"@,
                    )
                } else {
                    r is None
                },
            },
            match handshake_outcome(self@, queue_closed) {
                Some(Ok(_)) => r matches Some(Ok(_)),
                Some(Err(e)) => r matches Some(Err(error)) && error@ == e,
                None => r is None,
            },
    {
        match &self.handshake {
            Some(Ok(_)) => Some(Ok(())),
            Some(Err(m)) => Some(Err(IoError { kind: ErrorKind::Other, message: m.clone() })),
            None => {
                if self.is_terminated(queue_closed) {
                    Some(
                        Err(
                            IoError::new(
                                ErrorKind::BrokenPipe,
                                "Session terminated before handshake completed",
                            ),
                        ),
                    )
                } else {
                    None
                }
            },
        }
    }

    /// Ends this side's half of the logical stream.
    pub fn mark_local_stream_closed(&mut self, sid: u32, effects: &mut Vec<SessionEffect>)
        requires
            old(self).wf(),
        ensures
            final(self).wf(),
            final(self)@ == mark_local_stream_closed(old(self)@, sid).session,
            adds(old(effects)@, final(effects)@, mark_local_stream_closed(old(self)@, sid)),
    {
        proof {
            no_effect(effects@);
        }
        if sid != DEFAULT_SID || !self.local_open {
            return;
        }
        self.local_open = false;
        if !self.remote_open {
            proof {
                pushed_effect(effects@, SessionEffect::NotifyIdle);
            }
            effects.push(SessionEffect::NotifyIdle);
        }
    }

    /// Ends the session.
    pub fn terminate(&mut self, effects: &mut Vec<SessionEffect>)
        requires
            old(self).wf(),
        ensures
            final(self).wf(),
            final(self)@ == terminate(old(self)@).session,
            adds(old(effects)@, final(effects)@, terminate(old(self)@)),
    {
        proof {
            no_effect(effects@);
        }
        if self.closed {
            return;
        }
        self.closed = true;
        self.pipe.close_with_error(None);
        effects.push(SessionEffect::NotifyIdle);
        effects.push(SessionEffect::NotifyHandshake);
        assert(effects_view(effects@) =~= effects_view(old(effects)@) + seq![
            EffectView::NotifyIdle,
            EffectView::NotifyHandshake,
        ]);
    }

    /// The peer starts a logical stream.
    pub fn ensure_incoming_stream(&mut self, sid: u32, effects: &mut Vec<SessionEffect>)
        requires
            old(self).wf(),
        ensures
            final(self).wf(),
            final(self)@ == ensure_incoming_stream(old(self)@, sid).session,
            adds(old(effects)@, final(effects)@, ensure_incoming_stream(old(self)@, sid)),
    {
        proof {
            no_effect(effects@);
            pushed_effect(effects@, SessionEffect::StartHandler);
        }
        if sid != DEFAULT_SID || self.local_open || self.remote_open {
            return;
        }
        self.local_open = true;
        self.remote_open = true;
        let first = !self.handler_started;
        self.handler_started = true;
        if first && self.has_handler {
            effects.push(SessionEffect::StartHandler);
        }
    }

    /// The peer ends its half of the logical stream.
    pub fn close_logical_stream(&mut self, sid: u32, effects: &mut Vec<SessionEffect>)
        requires
            old(self).wf(),
        ensures
            final(self).wf(),
            final(self)@ == close_logical_stream(old(self)@, sid).session,
            adds(old(effects)@, final(effects)@, close_logical_stream(old(self)@, sid)),
    {
        proof {
            no_effect(effects@);
            pushed_effect(effects@, SessionEffect::NotifyIdle);
        }
        if sid != DEFAULT_SID || !self.remote_open {
            return;
        }
        self.remote_open = false;
        self.pipe.finish_stream(None);
        if !self.local_open {
            effects.push(SessionEffect::NotifyIdle);
        }
    }

    /// The peer ends the session, with a reason for the reader or without one.
    pub fn terminate_session(
        &mut self,
        sid: u32,
        message: Option<String>,
        effects: &mut Vec<SessionEffect>,
    )
        requires
            old(self).wf(),
        ensures
            final(self).wf(),
            ({
                let m = match message {
                    Some(m) => Some(m@),
                    None => None,
                };
                let step = terminate_session(old(self)@, sid, m);
                final(self)@ == step.session && adds(old(effects)@, final(effects)@, step)
            }),
    {
        proof {
            no_effect(effects@);
            pushed_effect(effects@, SessionEffect::NotifyIdle);
        }
        if sid != DEFAULT_SID {
            return;
        }
        match message {
            Some(m) => {
                let mut text = "remote: ".to_owned();
                text.append(m.as_str());
                self.pipe.close_with_error(Some(IoError { kind: ErrorKind::Other, message: text }));
            },
            None => {
                self.pipe.close_with_error(None);
            },
        }
        self.local_open = false;
        self.remote_open = false;
        self.closed = true;
        effects.push(SessionEffect::NotifyIdle);
    }

    fn push_stream_data(&mut self, sid: u32, data: &[u8]) -> (r: Result<(), IoError>)
        requires
            old(self).wf(),
        ensures
            final(self).wf(),
            final(self)@ == push_stream_data(old(self)@, sid, data@).session,
            reports(r, push_stream_data(old(self)@, sid, data@)),
    {
        if sid != DEFAULT_SID {
            return Ok(());
        }
        match self.pipe.write(data) {
            Ok(_) => Ok(()),
            Err(e) => Err(e),
        }
    }

    fn fail(message: &str, effects: &mut Vec<SessionEffect>) -> (e: IoError)
        ensures
            e@ == (ErrorKind::Other, message@),
            effects_view(final(effects)@) == effects_view(old(effects)@) + seq![
                EffectView::SendAlert(alert_frame(message@)),
            ],
    {
        let data = wire::bytes_copy_from_slice(message.as_bytes());
        let alert = Frame::with_data(CMD_ALERT, 0, data);
        proof {
            pushed_effect(effects@, SessionEffect::SendAlert(alert));
        }
        effects.push(SessionEffect::SendAlert(alert));
        IoError::other(message)
    }

    fn apply(&mut self, action: ProtocolAction, effects: &mut Vec<SessionEffect>) -> (r: Result<
        (),
        IoError,
    >)
        requires
            old(self).wf(),
        ensures
            final(self).wf(),
            final(self)@ == apply(old(self)@, action@).session,
            adds(old(effects)@, final(effects)@, apply(old(self)@, action@)),
            reports(r, apply(old(self)@, action@)),
    {
        proof {
            no_effect(effects@);
        }
        match action {
            ProtocolAction::SendFrame(f) => {
                proof {
                    pushed_effect(effects@, SessionEffect::SendFrame(f));
                }
                effects.push(SessionEffect::SendFrame(f));
            },
            ProtocolAction::SendFrameSync(f) => {
                proof {
                    pushed_effect(effects@, SessionEffect::SendFrameSync(f));
                }
                effects.push(SessionEffect::SendFrameSync(f));
            },
            ProtocolAction::PushStreamData { sid, data } => {
                return self.push_stream_data(sid, wire::bytes_as_slice(&data));
            },
            ProtocolAction::EnsureIncomingStream { sid } => {
                self.ensure_incoming_stream(sid, effects);
            },
            ProtocolAction::CloseLocalStream { sid } => {
                self.close_logical_stream(sid, effects);
            },
            ProtocolAction::CloseRemoteStream { sid, message } => {
                self.terminate_session(sid, Some(message), effects);
            },
            ProtocolAction::CancelSynackTimeout { sid } => {
                proof {
                    pushed_effect(effects@, SessionEffect::CancelSynackTimeout { sid });
                }
                effects.push(SessionEffect::CancelSynackTimeout { sid });
            },
            ProtocolAction::UpdatePaddingScheme { data } => {
                proof {
                    pushed_effect(effects@, SessionEffect::UpdatePaddingScheme { data });
                }
                effects.push(SessionEffect::UpdatePaddingScheme { data });
            },
            ProtocolAction::ReleaseWriteBuffering => {
                self.release_write_buffering();
            },
            ProtocolAction::AlertAndFail { message } => {
                return Err(Self::fail(message.as_str(), effects));
            },
        }
        Ok(())
    }

    fn apply_all(
        &mut self,
        actions: Vec<ProtocolAction>,
        effects: &mut Vec<SessionEffect>,
    ) -> (r: Result<(), IoError>)
        requires
            old(self).wf(),
        ensures
            final(self).wf(),
            ({
                let step = apply_all(old(self)@, actions_view(actions@));
                &&& final(self)@ == step.session
                &&& adds(old(effects)@, final(effects)@, step)
                &&& reports(r, step)
            }),
        decreases actions@.len(),
    {
        let mut rest = actions;
        let ghost views = actions_view(actions@);
        if rest.len() == 0 {
            proof {
                no_effect(effects@);
            }
            return Ok(());
        }
        let first = rest.remove(0);
        assert(actions_view(rest@) =~= views.skip(1));
        match self.apply(first, effects) {
            Ok(_) => {
                let ghost done_first = effects_view(effects@);
                let r = self.apply_all(rest, effects);
                assert(effects_view(effects@) =~= effects_view(old(effects)@) + apply_all(
                    old(self)@,
                    views,
                ).effects);
                r
            },
            Err(e) => Err(e),
        }
    }

    fn note_handshake(&mut self, frame: &Frame, effects: &mut Vec<SessionEffect>)
        requires
            old(self).wf(),
        ensures
            final(self).wf(),
            final(self)@ == note_handshake(old(self)@, frame@).session,
            adds(old(effects)@, final(effects)@, note_handshake(old(self)@, frame@)),
    {
        proof {
            no_effect(effects@);
            pushed_effect(effects@, SessionEffect::NotifyHandshake);
        }
        if self.is_client && frame.cmd == CMD_SYNACK && frame.sid == DEFAULT_SID {
            let payload = wire::bytes_as_slice(&frame.data);
            let result = if payload.len() == 0 {
                Ok(())
            } else {
                Err(string_from_utf8_lossy(payload))
            };
            self.handshake = Some(result);
            effects.push(SessionEffect::NotifyHandshake);
        }
    }

    fn handle_frame(&mut self, frame: &Frame, effects: &mut Vec<SessionEffect>) -> (r: Result<
        (),
        IoError,
    >)
        requires
            old(self).wf(),
        ensures
            final(self).wf(),
            final(self)@ == handle_frame(old(self)@, frame@).session,
            adds(old(effects)@, final(effects)@, handle_frame(old(self)@, frame@)),
            reports(r, handle_frame(old(self)@, frame@)),
    {
        proof {
            no_effect(effects@);
        }
        let is_client = self.is_client;
        match Engine::on_frame(&mut self.state, is_client, frame) {
            Ok(actions) => self.apply_all(actions, effects),
            Err(e) => Err(e),
        }
    }

    /// Does what one received frame asks for.
    pub fn on_frame(&mut self, frame: &Frame, effects: &mut Vec<SessionEffect>) -> (r: Result<
        (),
        IoError,
    >)
        requires
            old(self).wf(),
        ensures
            final(self).wf(),
            final(self)@ == on_frame(old(self)@, frame@).session,
            adds(old(effects)@, final(effects)@, on_frame(old(self)@, frame@)),
            reports(r, on_frame(old(self)@, frame@)),
    {
        let sid: u32 = frame.sid;
        if sid != 0 && sid != DEFAULT_SID {
            let mut message = "unsupported sid ".to_owned();
            push_decimal(&mut message, sid as u64);
            return Err(Self::fail(message.as_str(), effects));
        }
        let ghost before = effects_view(effects@);
        let ghost opened = implicit_open(self@, frame@);
        proof {
            no_effect(effects@);
        }
        if frame.cmd == CMD_PSH && sid == DEFAULT_SID {
            self.ensure_incoming_stream(sid, effects);
        }
        let ghost noted = note_handshake(self@, frame@);
        self.note_handshake(frame, effects);
        let ghost handled = handle_frame(self@, frame@);
        let r = self.handle_frame(frame, effects);
        assert(before + opened.effects + noted.effects + handled.effects =~= before + (
        opened.effects + (noted.effects + handled.effects)));
        r
    }

    /// Whether the session may still read from its connection.
    pub fn check_open(&self) -> (r: Result<(), IoError>)
        ensures
            match r {
                Ok(_) => !self@.closed,
                Err(e) => self@.closed && e@ == (ErrorKind::BrokenPipe, "Session closed"@),
            },
    {
        if self.closed {
            Err(IoError::new(ErrorKind::BrokenPipe, "Session closed"))
        } else {
            Ok(())
        }
    }

    /// Takes in the bytes of one read and does what the frames that they complete ask for, up
    /// to the first that ends the session. A read of no bytes means that the connection is
    /// closed.
    pub fn receive(
        &mut self,
        decoder: &mut FrameDecoder,
        chunk: &[u8],
        effects: &mut Vec<SessionEffect>,
    ) -> (r: Result<(), IoError>)
        requires
            old(self).wf(),
        ensures
            final(self).wf(),
            ({
                let (step, left) = receive(old(self)@, old(decoder)@, chunk@);
                &&& final(self)@ == step.session
                &&& final(decoder)@ == left
                &&& adds(old(effects)@, final(effects)@, step)
                &&& reports(r, step)
            }),
    {
        if chunk.len() == 0 {
            proof {
                no_effect(effects@);
            }
            return Err(IoError::new(ErrorKind::UnexpectedEof, "Connection closed"));
        }
        decoder.feed(chunk);
        let ghost all = drain(self@, decoder@);
        let ghost before = effects_view(effects@);
        proof {
            no_effect(effects@);
        }
        let ghost mut so_far = Seq::<EffectView>::empty();
        assert(and_then(done(self@, so_far), all.0) =~= all.0);
        loop
            invariant
                self.wf(),
                effects_view(effects@) == before + so_far,
                all.0 == and_then(done(self@, so_far), drain(self@, decoder@).0),
                all.1 == drain(self@, decoder@).1,
                all == receive(old(self)@, old(decoder)@, chunk@),
                before == effects_view(old(effects)@),
            decreases decoder@.len(),
        {
            let ghost data = decoder@;
            let ghost s = self@;
            match decoder.next_frame() {
                Some(frame) => {
                    let ghost step = on_frame(s, frame@);
                    let r = self.on_frame(&frame, effects);
                    assert(effects_view(effects@) =~= before + (so_far + step.effects));
                    if r.is_err() {
                        return r;
                    }
                    proof {
                        let later = drain(step.session, decoder@).0;
                        assert(so_far + (step.effects + later.effects) =~= so_far + step.effects
                            + later.effects);
                        so_far = so_far + step.effects;
                    }
                },
                None => {
                    assert(so_far + Seq::<EffectView>::empty() =~= so_far);
                    return Ok(());
                },
            }
        }
    }
}

/// A second end of the same stream changes nothing: it leaves no stale end of file behind for
/// the next stream.
pub proof fn duplicate_fin_is_ignored(s: SessionView)
    ensures
        ({
            let once = close_logical_stream(s, DEFAULT_SID).session;
            close_logical_stream(once, DEFAULT_SID) == done(once, Seq::empty())
        }),
{
}

/// An open stream is over when both halves are, in whichever order they end. Whoever waits for
/// the session to be idle is woken at the second end and not before.
pub proof fn session_is_idle_after_both_ends(s: SessionView)
    requires
        s.local_open,
        s.remote_open,
    ensures
        ({
            let remote_first = close_logical_stream(s, DEFAULT_SID);
            let then_local = mark_local_stream_closed(remote_first.session, DEFAULT_SID);
            &&& remote_first.effects == Seq::<EffectView>::empty()
            &&& is_active(remote_first.session)
            &&& then_local.effects == seq![EffectView::NotifyIdle]
            &&& !is_active(then_local.session)
        }),
        ({
            let local_first = mark_local_stream_closed(s, DEFAULT_SID);
            let then_remote = close_logical_stream(local_first.session, DEFAULT_SID);
            &&& local_first.effects == Seq::<EffectView>::empty()
            &&& is_active(local_first.session)
            &&& then_remote.effects == seq![EffectView::NotifyIdle]
            &&& !is_active(then_remote.session)
        }),
        mark_local_stream_closed(
            close_logical_stream(s, DEFAULT_SID).session,
            DEFAULT_SID,
        ).session == close_logical_stream(
            mark_local_stream_closed(s, DEFAULT_SID).session,
            DEFAULT_SID,
        ).session,
{
}

proof fn payload_arrives(s: SessionView, data: Seq<u8>)
    requires
        !s.pipe.closed,
    ensures
        ({
            let step = on_frame(s, push_frame(DEFAULT_SID, data));
            &&& step.error is None
            &&& !step.session.pipe.closed
            &&& pipe::unread(step.session.pipe) == pipe::unread(s.pipe) + data
        }),
{
    let f = push_frame(DEFAULT_SID, data);
    let opened = implicit_open(s, f).session;
    assert(SessionView { state: opened.state, ..opened } == opened);
    if data.len() > 0 {
        let action = ActionView::PushStreamData { sid: DEFAULT_SID, data };
        pipe::writes_queue_up(s.pipe, data);
        assert(seq![action].skip(1) =~= Seq::<ActionView>::empty());
        assert(apply_all(opened, seq![action]).session == apply(opened, action).session) by {
            reveal_with_fuel(apply_all, 2);
        }
    } else {
        assert(pipe::unread(s.pipe) + data =~= pipe::unread(s.pipe));
    }
}

/// The frames that carry `chunks` on the logical stream.
pub open spec fn push_frames(chunks: Seq<Seq<u8>>) -> Seq<FrameView> {
    chunks.map_values(|c: Seq<u8>| push_frame(DEFAULT_SID, c))
}

/// Payload on the logical stream is read in the order in which it arrived, and none of it is
/// lost.
pub proof fn payload_arrives_in_order(s: SessionView, chunks: Seq<Seq<u8>>)
    requires
        !s.pipe.closed,
    ensures
        process(s, push_frames(chunks)).error is None,
        pipe::unread(process(s, push_frames(chunks)).session.pipe) == pipe::unread(s.pipe)
            + written(chunks),
    decreases chunks.len(),
{
    let fs = push_frames(chunks);
    if chunks.len() == 0 {
        assert(pipe::unread(s.pipe) + written(chunks) =~= pipe::unread(s.pipe));
    } else {
        payload_arrives(s, chunks[0]);
        let next = on_frame(s, fs[0]).session;
        assert(fs.skip(1) =~= push_frames(chunks.skip(1)));
        payload_arrives_in_order(next, chunks.skip(1));
        assert(pipe::unread(s.pipe) + chunks[0] + written(chunks.skip(1)) =~= pipe::unread(s.pipe)
            + written(chunks));
    }
}

/// A waste frame changes nothing and causes nothing.
pub proof fn waste_changes_nothing(s: SessionView, f: FrameView)
    requires
        f.cmd == CMD_WASTE,
        f.sid == 0,
    ensures
        on_frame(s, f) == done(s, Seq::empty()),
{
    assert(SessionView { state: s.state, ..s } == s);
    assert(on_frame(s, f).effects =~= Seq::<EffectView>::empty());
}

/// What a session does about several frames, up to the first that ends it.
pub open spec fn process(s: SessionView, fs: Seq<FrameView>) -> Step
    decreases fs.len(),
{
    if fs.len() == 0 {
        done(s, Seq::empty())
    } else {
        let first = on_frame(s, fs[0]);
        if first.error is Some {
            first
        } else {
            and_then(first, process(first.session, fs.skip(1)))
        }
    }
}

/// What a session does about received bytes depends on the frames they hold, and without an
/// error it leaves over just the incomplete frame at the end.
pub proof fn draining_processes_the_frames(s: SessionView, data: Seq<u8>)
    ensures
        drain(s, data).0 == process(s, frames_of(data)),
        drain(s, data).0.error is None ==> drain(s, data).1 == remainder(data),
    decreases data.len(),
{
    match front_frame(data) {
        None => {},
        Some(f) => {
            let rest = data.skip(HEADER_OVERHEAD_SIZE + f.data.len());
            let first = on_frame(s, f);
            assert(frames_of(data).skip(1) =~= frames_of(rest));
            if first.error is None {
                draining_processes_the_frames(first.session, rest);
            }
        },
    }
}

/// Three steps come to the same however they are grouped.
pub proof fn steps_can_be_regrouped(first: Step, middle: Step, last: Step)
    ensures
        and_then(first, and_then(middle, last)) == and_then(and_then(first, middle), last),
{
    assert(first.effects + (middle.effects + last.effects) =~= (first.effects + middle.effects)
        + last.effects);
}

/// A step that does nothing can be left out in front of another.
pub proof fn idle_steps_can_be_left_out(s: SessionView, step: Step)
    ensures
        and_then(done(s, Seq::empty()), step) == step,
{
    assert(Seq::<EffectView>::empty() + step.effects =~= step.effects);
}

proof fn draining_starts_with_the_front_frame(s: SessionView, data: Seq<u8>)
    requires
        front_frame(data) is Some,
        on_frame(s, front_frame(data)->0).error is None,
    ensures
        ({
            let f = front_frame(data)->0;
            let first = on_frame(s, f);
            let (later, left) = drain(
                first.session,
                data.skip(HEADER_OVERHEAD_SIZE + f.data.len()),
            );
            drain(s, data) == (and_then(first, later), left)
        }),
{
}

/// How the received bytes are cut into reads does not matter: as long as the first part ends
/// nothing, receiving `a` and then `b` comes to the same as receiving both at once.
pub proof fn cutting_the_stream_does_not_matter(s: SessionView, a: Seq<u8>, b: Seq<u8>)
    requires
        drain(s, a).0.error is None,
    ensures
        ({
            let (first, left) = drain(s, a);
            let (second, rest) = drain(first.session, left + b);
            drain(s, a + b) == (and_then(first, second), rest)
        }),
    decreases a.len(),
{
    match front_frame(a) {
        None => {
            idle_steps_can_be_left_out(s, drain(s, a + b).0);
        },
        Some(f) => {
            let n = HEADER_OVERHEAD_SIZE + f.data.len();
            let first = on_frame(s, f);
            complete_frame_is_stable(a, b);
            assert((a + b).skip(n) =~= a.skip(n) + b);
            draining_starts_with_the_front_frame(s, a);
            draining_starts_with_the_front_frame(s, a + b);
            cutting_the_stream_does_not_matter(first.session, a.skip(n), b);
            let (middle, left) = drain(first.session, a.skip(n));
            let (last, rest) = drain(middle.session, left + b);
            steps_can_be_regrouped(first, middle, last);
        },
    }
}

proof fn processing_ignores_trailing_waste(s: SessionView, fs: Seq<FrameView>, waste: Seq<FrameView>)
    requires
        all_waste(waste),
    ensures
        process(s, fs + waste) == process(s, fs),
    decreases fs.len() + waste.len(),
{
    if fs.len() > 0 {
        assert((fs + waste).skip(1) =~= fs.skip(1) + waste);
        processing_ignores_trailing_waste(on_frame(s, fs[0]).session, fs.skip(1), waste);
    } else {
        assert(fs + waste =~= waste);
        if waste.len() > 0 {
            let rest = waste.skip(1);
            assert(waste[0].cmd == CMD_WASTE && waste[0].sid == 0);
            waste_changes_nothing(s, waste[0]);
            assert(all_waste(rest)) by {
                assert forall|i: int| 0 <= i < rest.len() implies (#[trigger] rest[i]).cmd
                    == CMD_WASTE && rest[i].sid == 0 by {
                    assert(rest[i] == waste[i + 1]);
                }
            }
            processing_ignores_trailing_waste(s, fs, rest);
            assert(fs + rest =~= rest);
            idle_steps_can_be_left_out(s, process(s, rest));
        }
    }
}

/// Padding is invisible: a session that receives frames in padded records does just what it
/// does about the frames alone.
pub proof fn padding_is_invisible(s: SessionView, fs: Seq<FrameView>, sizes: Seq<i32>)
    requires
        all_fit(fs),
        forall|i: int| 0 <= i < sizes.len() ==> #[trigger] sizes[i] <= u16::MAX,
    ensures
        drain(s, written(padded_records(frames_bytes(fs), sizes))).0 == process(s, fs),
{
    let wire_bytes = written(padded_records(frames_bytes(fs), sizes));
    let len = frames_bytes(fs).len();
    let waste = added_waste(len, sizes);
    let nothing = Seq::<u8>::empty();
    peer_sees_payload_then_waste(fs, sizes, nothing);
    assert(wire_bytes + nothing =~= wire_bytes);
    assert(frames_of(nothing) =~= Seq::<FrameView>::empty());
    assert(fs + waste + frames_of(nothing) =~= fs + waste);
    draining_processes_the_frames(s, wire_bytes);
    added_waste_is_waste(len, sizes);
    processing_ignores_trailing_waste(s, fs, waste);
}

/// What one side writes to the logical stream, the other side reads: the chunks that are sent in
/// padded records are what the reader of the receiving session finds behind what it has not
/// read yet. Each chunk has to fit a frame.
pub proof fn written_data_arrives(s: SessionView, chunks: Seq<Seq<u8>>, sizes: Seq<i32>)
    requires
        !s.pipe.closed,
        forall|i: int| 0 <= i < chunks.len() ==> (#[trigger] chunks[i]).len() <= u16::MAX,
        forall|i: int| 0 <= i < sizes.len() ==> #[trigger] sizes[i] <= u16::MAX,
    ensures
        ({
            let fs = push_frames(chunks);
            let received = drain(s, written(padded_records(frames_bytes(fs), sizes))).0;
            &&& received.error is None
            &&& pipe::unread(received.session.pipe) == pipe::unread(s.pipe) + written(chunks)
        }),
{
    let fs = push_frames(chunks);
    assert(all_fit(fs)) by {
        assert forall|i: int| 0 <= i < fs.len() implies (#[trigger] fs[i]).data.len()
            <= u16::MAX by {
            assert(chunks[i].len() <= u16::MAX);
        }
    }
    padding_is_invisible(s, fs, sizes);
    payload_arrives_in_order(s, chunks);
}

/// Nothing that a session receives makes a terminated session live again.
pub proof fn terminated_sessions_stay_terminated(s: SessionView, fs: Seq<FrameView>)
    requires
        s.closed,
    ensures
        process(s, fs).session.closed,
    decreases fs.len(),
{
    if fs.len() > 0 {
        frame_keeps_flags(s, fs[0]);
        if on_frame(s, fs[0]).error is None {
            terminated_sessions_stay_terminated(on_frame(s, fs[0]).session, fs.skip(1));
        }
    }
}

/// A session starts its handler at most once: once it has, nothing it receives starts it again.
pub proof fn handler_starts_at_most_once(s: SessionView, fs: Seq<FrameView>)
    requires
        s.handler_started,
    ensures
        process(s, fs).session.handler_started,
        !process(s, fs).effects.contains(EffectView::StartHandler),
    decreases fs.len(),
{
    if fs.len() > 0 {
        frame_keeps_flags(s, fs[0]);
        let first = on_frame(s, fs[0]);
        if first.error is None {
            handler_starts_at_most_once(first.session, fs.skip(1));
            no_handler_in_both(first.effects, process(first.session, fs.skip(1)).effects);
        }
    }
}

/// Starting the handler is remembered, whatever else the frame causes.
pub proof fn starting_the_handler_is_remembered(s: SessionView, f: FrameView)
    requires
        on_frame(s, f).effects.contains(EffectView::StartHandler),
    ensures
        !s.handler_started,
        on_frame(s, f).session.handler_started,
{
    if s.handler_started {
        frame_keeps_flags(s, f);
    }
    if f.sid != 0 && f.sid != DEFAULT_SID {
        let e = EffectView::SendAlert(alert_frame(unsupported_sid(f.sid)));
        assert(on_frame(s, f).effects =~= seq![e]);
    } else {
        let opened = implicit_open(s, f);
        let noted = note_handshake(opened.session, f);
        if let Ok((state, actions)) = engine::on_frame(s.state, s.is_client, f) {
            actions_remember_the_handler(SessionView { state, ..noted.session }, actions);
        }
    }
}

proof fn no_handler_in_both(a: Seq<EffectView>, b: Seq<EffectView>)
    requires
        !a.contains(EffectView::StartHandler),
        !b.contains(EffectView::StartHandler),
    ensures
        !(a + b).contains(EffectView::StartHandler),
{
    assert forall|i: int| 0 <= i < (a + b).len() implies (a + b)[i] != EffectView::StartHandler by {
        if i < a.len() {
            assert(a.contains(a[i]));
        } else {
            assert(b.contains(b[i - a.len()]));
        }
    }
}

proof fn actions_keep_flags(s: SessionView, actions: Seq<ActionView>)
    ensures
        s.closed ==> apply_all(s, actions).session.closed,
        s.handler_started ==> apply_all(s, actions).session.handler_started && !apply_all(
            s,
            actions,
        ).effects.contains(EffectView::StartHandler),
    decreases actions.len(),
{
    if actions.len() > 0 {
        let first = apply(s, actions[0]);
        if first.error is None {
            actions_keep_flags(first.session, actions.skip(1));
            if s.handler_started {
                no_handler_in_both(
                    first.effects,
                    apply_all(first.session, actions.skip(1)).effects,
                );
            }
        }
    }
}

proof fn actions_remember_the_handler(s: SessionView, actions: Seq<ActionView>)
    ensures
        s.handler_started || apply_all(s, actions).effects.contains(EffectView::StartHandler)
            ==> apply_all(s, actions).session.handler_started,
    decreases actions.len(),
{
    actions_keep_flags(s, actions);
    if actions.len() > 0 {
        let first = apply(s, actions[0]);
        if first.error is None {
            let rest = apply_all(first.session, actions.skip(1));
            actions_keep_flags(first.session, actions.skip(1));
            actions_remember_the_handler(first.session, actions.skip(1));
            if !first.effects.contains(EffectView::StartHandler) && !rest.effects.contains(
                EffectView::StartHandler,
            ) {
                no_handler_in_both(first.effects, rest.effects);
            }
        }
    }
}

proof fn frame_keeps_flags(s: SessionView, f: FrameView)
    ensures
        s.closed ==> on_frame(s, f).session.closed,
        s.handler_started ==> on_frame(s, f).session.handler_started && !on_frame(
            s,
            f,
        ).effects.contains(EffectView::StartHandler),
{
    if f.sid == 0 || f.sid == DEFAULT_SID {
        let opened = implicit_open(s, f);
        let noted = note_handshake(opened.session, f);
        if let Ok((state, actions)) = engine::on_frame(s.state, s.is_client, f) {
            actions_keep_flags(SessionView { state, ..noted.session }, actions);
        }
        if s.handler_started {
            let handled = handle_frame(noted.session, f);
            no_handler_in_both(noted.effects, handled.effects);
            no_handler_in_both(opened.effects, noted.effects + handled.effects);
        }
    }
}

} // verus!
