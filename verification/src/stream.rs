//! Logical streams and the table in which a session keeps them.
use crate::engine::{synack_frame, Engine, ACKNOWLEDGING_VERSION};
use crate::error::{ErrorKind, IoError};
use crate::frame::{Frame, FrameView, CMD_FIN, CMD_PSH, CMD_SYN};
use crate::pipe;
use crate::pipe::{error_view, PipeInner, PipeView, ReadStep};
use crate::wire;
use std::collections::HashMap;
use vstd::prelude::*;

verus! {

/// How long the opener of a stream waits for its acknowledgement.
pub const SYNACK_TIMEOUT_SECS: u64 = 3;

/// Reports once how a logical stream was opened.
#[derive(Debug)]
pub struct StreamProtocolHooks {
    pub reported: bool,
}

impl StreamProtocolHooks {
    /// Nothing has been reported.
    pub fn new() -> (h: StreamProtocolHooks)
        ensures
            !h.reported,
    {
        StreamProtocolHooks { reported: false }
    }

    /// The frame that tells a peer of version `peer_version` why stream `sid` failed, unless
    /// something was reported before or the peer does not expect reports.
    pub fn handshake_failure(&mut self, peer_version: u8, sid: u32, error: &str) -> (f: Option<
        Frame,
    >)
        ensures
            final(self).reported,
            match f {
                Some(f) => !old(self).reported && peer_version >= ACKNOWLEDGING_VERSION && f@
                    == synack_frame(sid, error@),
                None => old(self).reported || peer_version < ACKNOWLEDGING_VERSION,
            },
    {
        if self.reported {
            return None;
        }
        self.reported = true;
        Engine::synack(peer_version, sid, error)
    }

    /// The frame that tells a peer of version `peer_version` that stream `sid` is open, unless
    /// something was reported before or the peer does not expect reports.
    pub fn handshake_success(&mut self, peer_version: u8, sid: u32) -> (f: Option<Frame>)
        ensures
            final(self).reported,
            match f {
                Some(f) => !old(self).reported && peer_version >= ACKNOWLEDGING_VERSION && f@
                    == synack_frame(sid, Seq::empty()),
                None => old(self).reported || peer_version < ACKNOWLEDGING_VERSION,
            },
    {
        if self.reported {
            return None;
        }
        self.reported = true;
        proof {
            reveal_strlit("");
            assert(""@ =~= Seq::<char>::empty());
        }
        Engine::synack(peer_version, sid, "")
    }
}

/// The frame that carries `data` on stream `sid`.
pub open spec fn push_frame(sid: u32, data: Seq<u8>) -> FrameView {
    FrameView { cmd: CMD_PSH, sid, data }
}

/// The frame that ends one half of stream `sid`.
pub open spec fn fin_frame(sid: u32) -> FrameView {
    FrameView { cmd: CMD_FIN, sid, data: Seq::empty() }
}

/// The frame that opens stream `sid`.
pub open spec fn syn_frame(sid: u32) -> FrameView {
    FrameView { cmd: CMD_SYN, sid, data: Seq::empty() }
}

/// One logical stream of a session.
#[derive(Debug)]
pub struct Stream {
    id: u32,
    pipe: PipeInner,
    closed: bool,
    hooks: StreamProtocolHooks,
}

/// The mathematical value of a [`Stream`].
pub struct StreamView {
    pub id: u32,
    pub pipe: PipeView,
    pub closed: bool,
    pub reported: bool,
}

impl View for Stream {
    type V = StreamView;

    closed spec fn view(&self) -> StreamView {
        StreamView {
            id: self.id,
            pipe: self.pipe@,
            closed: self.closed,
            reported: self.hooks.reported,
        }
    }
}

/// A stream that has just been opened.
pub open spec fn new_stream(id: u32) -> StreamView {
    StreamView { id, pipe: pipe::new_pipe(), closed: false, reported: false }
}

/// What closing a stream with `error` leaves: a stream closes once.
pub open spec fn closed_stream(
    s: StreamView,
    error: Option<(ErrorKind, Seq<char>)>,
) -> StreamView {
    if s.closed {
        s
    } else {
        StreamView { closed: true, pipe: pipe::close(s.pipe, error), ..s }
    }
}

impl Stream {
    /// A stream that has just been opened.
    pub fn new(id: u32) -> (s: Stream)
        ensures
            s@ == new_stream(id),
    {
        Stream { id, pipe: PipeInner::new(), closed: false, hooks: StreamProtocolHooks::new() }
    }

    /// The id of this stream.
    pub fn id(&self) -> (id: u32)
        ensures
            id == self@.id,
    {
        self.id
    }

    /// Reads at most `max` bytes that the peer sent.
    pub fn read(&mut self, max: usize) -> (r: ReadStep)
        ensures
            r@ == pipe::read(old(self)@.pipe, max as nat).0,
            final(self)@ == (StreamView {
                pipe: pipe::read(old(self)@.pipe, max as nat).1,
                ..old(self)@
            }),
    {
        self.pipe.read(max)
    }

    /// Goes on with a read that is waiting.
    pub fn resume_read(&mut self, max: usize) -> (r: ReadStep)
        requires
            old(self)@.pipe.reading,
        ensures
            r@ == pipe::receive(old(self)@.pipe, max as nat).0,
            final(self)@ == (StreamView {
                pipe: pipe::receive(old(self)@.pipe, max as nat).1,
                ..old(self)@
            }),
    {
        self.pipe.resume_read(max)
    }

    /// The frame that sends `data` to the peer.
    pub fn write(&self, data: &[u8]) -> (f: Frame)
        ensures
            f@ == push_frame(self@.id, data@),
    {
        Frame::with_data(CMD_PSH, self.id, wire::bytes_copy_from_slice(data))
    }

    /// Hands received bytes to the reader of this stream.
    pub fn push_data(&mut self, data: &[u8]) -> (r: Result<usize, IoError>)
        ensures
            match r {
                Ok(n) => !old(self)@.pipe.closed && n == data@.len() && final(self)@ == (
                StreamView { pipe: pipe::write(old(self)@.pipe, data@), ..old(self)@ }),
                Err(e) => old(self)@.pipe.closed && e@ == (ErrorKind::BrokenPipe, "Pipe closed"@)
                    && final(self)@ == old(self)@,
            },
    {
        self.pipe.write(data)
    }

    /// Closes this stream: the reader sees that it was closed here, and the returned frame
    /// tells the peer. A stream that is closed already stays as it is.
    pub fn close(&mut self) -> (f: Option<Frame>)
        ensures
            final(self)@ == closed_stream(
                old(self)@,
                Some((ErrorKind::BrokenPipe, "Stream closed"@)),
            ),
            match f {
                Some(f) => !old(self)@.closed && f@ == fin_frame(old(self)@.id),
                None => old(self)@.closed,
            },
    {
        self.close_with_error(Some(IoError::new(ErrorKind::BrokenPipe, "Stream closed")))
    }

    /// Closes this stream with `error` for the reader; the returned frame tells the peer.
    /// A stream that is closed already stays as it is.
    pub fn close_with_error(&mut self, error: Option<IoError>) -> (f: Option<Frame>)
        ensures
            final(self)@ == closed_stream(old(self)@, error_view(error)),
            match f {
                Some(f) => !old(self)@.closed && f@ == fin_frame(old(self)@.id),
                None => old(self)@.closed,
            },
    {
        if self.closed {
            return None;
        }
        self.closed = true;
        self.pipe.close_with_error(error);
        Some(Frame::new(CMD_FIN, self.id))
    }

    /// Closes this stream with `error` for the reader without telling the peer.
    pub fn close_local_with_error(&mut self, error: Option<IoError>)
        ensures
            final(self)@ == closed_stream(old(self)@, error_view(error)),
    {
        if !self.closed {
            self.closed = true;
            self.pipe.close_with_error(error);
        }
    }

    /// The frame that reports that this stream could not be opened, if one is due.
    pub fn handshake_failure(&mut self, peer_version: u8, error: &str) -> (f: Option<Frame>)
        ensures
            final(self)@ == (StreamView { reported: true, ..old(self)@ }),
            match f {
                Some(f) => !old(self)@.reported && peer_version >= ACKNOWLEDGING_VERSION && f@
                    == synack_frame(old(self)@.id, error@),
                None => old(self)@.reported || peer_version < ACKNOWLEDGING_VERSION,
            },
    {
        self.hooks.handshake_failure(peer_version, self.id, error)
    }

    /// The frame that reports that this stream is open, if one is due.
    pub fn handshake_success(&mut self, peer_version: u8) -> (f: Option<Frame>)
        ensures
            final(self)@ == (StreamView { reported: true, ..old(self)@ }),
            match f {
                Some(f) => !old(self)@.reported && peer_version >= ACKNOWLEDGING_VERSION && f@
                    == synack_frame(old(self)@.id, Seq::empty()),
                None => old(self)@.reported || peer_version < ACKNOWLEDGING_VERSION,
            },
    {
        self.hooks.handshake_success(peer_version, self.id)
    }
}

/// How a new stream is opened towards the peer.
#[derive(Debug)]
pub struct OpenPlan {
    /// The id of the stream.
    pub id: u32,
    /// Whether to give the session up if the peer does not acknowledge the stream in time.
    pub arm_timeout: bool,
    /// The frame that opens the stream.
    pub frame: Frame,
}

/// The streams of a session that carries several.
#[derive(Debug)]
pub struct StreamTable {
    stream_id: u32,
    streams: HashMap<u32, Stream>,
}

/// The mathematical value of a [`StreamTable`].
pub struct StreamTableView {
    pub stream_id: u32,
    pub streams: Map<u32, StreamView>,
}

/// One thing that happens to the streams of a session.
pub enum TableCall {
    /// This side opens the next stream.
    Open,
    /// The peer opens a stream.
    Syn(u32),
    /// Bytes arrive for a stream.
    Push(u32, Seq<u8>),
    /// The peer has finished a stream.
    Fin(u32),
    /// The peer has refused a stream with a message.
    Refuse(u32, Seq<char>),
    /// A stream is given up because its opening frame could not be sent.
    GiveUp(u32, Seq<char>),
}

/// The streams `t` where the one with the id `sid`, if there is one, has become `s`.
pub open spec fn with_stream(t: StreamTableView, sid: u32, s: StreamView) -> StreamTableView {
    if t.streams.contains_key(sid) {
        StreamTableView { streams: t.streams.insert(sid, s), ..t }
    } else {
        t
    }
}

/// The streams of a session after `call`.
pub open spec fn after_table_call(t: StreamTableView, call: TableCall) -> StreamTableView {
    match call {
        TableCall::Open => {
            let id = (t.stream_id + 1) as u32;
            StreamTableView { stream_id: id, streams: t.streams.insert(id, new_stream(id)) }
        },
        TableCall::Syn(sid) => if t.streams.contains_key(sid) {
            t
        } else {
            StreamTableView { streams: t.streams.insert(sid, new_stream(sid)), ..t }
        },
        TableCall::Push(sid, data) => if t.streams[sid].pipe.closed {
            t
        } else {
            let s = t.streams[sid];
            with_stream(t, sid, StreamView { pipe: pipe::write(s.pipe, data), ..s })
        },
        TableCall::Fin(sid) => with_stream(t, sid, closed_stream(t.streams[sid], None)),
        TableCall::Refuse(sid, message) => with_stream(
            t,
            sid,
            closed_stream(t.streams[sid], Some((ErrorKind::Other, "remote: "@ + message))),
        ),
        TableCall::GiveUp(sid, error) => with_stream(
            t,
            sid,
            closed_stream(t.streams[sid], Some((ErrorKind::Other, error))),
        ),
    }
}

impl View for StreamTable {
    type V = StreamTableView;

    closed spec fn view(&self) -> StreamTableView {
        StreamTableView {
            stream_id: self.stream_id,
            streams: self.streams@.map_values(|s: Stream| s@),
        }
    }
}

impl StreamTable {
    /// A table without streams.
    pub fn new() -> (t: StreamTable)
        ensures
            t@ == (StreamTableView { stream_id: 0, streams: Map::empty() }),
    {
        let t = StreamTable { stream_id: 0, streams: HashMap::new() };
        assert(t@.streams =~= Map::<u32, StreamView>::empty());
        t
    }

    fn put(&mut self, sid: u32, stream: Stream)
        ensures
            final(self)@ == (StreamTableView {
                streams: old(self)@.streams.insert(sid, stream@),
                ..old(self)@
            }),
    {
        broadcast use vstd::std_specs::hash::group_hash_axioms;

        self.streams.insert(sid, stream);
        assert(self@.streams =~= old(self)@.streams.insert(sid, stream@));
    }

    fn take(&mut self, sid: u32) -> (r: Option<Stream>)
        ensures
            final(self)@ == (StreamTableView {
                streams: old(self)@.streams.remove(sid),
                ..old(self)@
            }),
            match r {
                Some(s) => old(self)@.streams.contains_key(sid) && s@ == old(self)@.streams[sid],
                None => !old(self)@.streams.contains_key(sid),
            },
    {
        broadcast use vstd::std_specs::hash::group_hash_axioms;

        let r = self.streams.remove(&sid);
        assert(self@.streams =~= old(self)@.streams.remove(sid));
        r
    }

    /// Opens the next stream towards a peer of version `peer_version`. From the second stream
    /// on, a peer that acknowledges streams has to do so in time.
    pub fn open_stream(&mut self, peer_version: u8) -> (p: OpenPlan)
        requires
            old(self)@.stream_id < u32::MAX,
        ensures
            p.id == old(self)@.stream_id + 1,
            p.arm_timeout == (p.id >= 2 && peer_version >= ACKNOWLEDGING_VERSION),
            p.frame@ == syn_frame(p.id),
            final(self)@ == (StreamTableView {
                stream_id: p.id,
                streams: old(self)@.streams.insert(p.id, new_stream(p.id)),
            }),
            final(self)@ == after_table_call(old(self)@, TableCall::Open),
    {
        self.stream_id = self.stream_id + 1;
        let id: u32 = self.stream_id;
        self.put(id, Stream::new(id));
        OpenPlan {
            id,
            arm_timeout: id >= 2 && peer_version >= ACKNOWLEDGING_VERSION,
            frame: Frame::new(CMD_SYN, id),
        }
    }

    /// Makes a stream that the peer opened, unless there is one with this id, and tells whether
    /// it made one.
    pub fn handle_syn(&mut self, sid: u32) -> (created: bool)
        ensures
            created == !old(self)@.streams.contains_key(sid),
            final(self)@ == if created {
                StreamTableView {
                    streams: old(self)@.streams.insert(sid, new_stream(sid)),
                    ..old(self)@
                }
            } else {
                old(self)@
            },
            final(self)@ == after_table_call(old(self)@, TableCall::Syn(sid)),
    {
        match self.take(sid) {
            Some(stream) => {
                self.put(sid, stream);
                assert(self@.streams =~= old(self)@.streams);
                false
            },
            None => {
                self.put(sid, Stream::new(sid));
                assert(self@.streams =~= old(self)@.streams.insert(sid, new_stream(sid)));
                true
            },
        }
    }

    /// Hands received bytes to a stream; bytes for a stream that is not there are dropped.
    pub fn handle_push(&mut self, sid: u32, data: &[u8]) -> (r: Result<(), IoError>)
        ensures
            match r {
                Ok(_) => final(self)@ == if old(self)@.streams.contains_key(sid) {
                    let s = old(self)@.streams[sid];
                    StreamTableView {
                        streams: old(self)@.streams.insert(
                            sid,
                            StreamView { pipe: pipe::write(s.pipe, data@), ..s },
                        ),
                        ..old(self)@
                    }
                } else {
                    old(self)@
                },
                Err(e) => e@ == (ErrorKind::BrokenPipe, "Pipe closed"@) && final(self)@ == old(
                    self,
                )@,
            },
            r is Err <==> old(self)@.streams.contains_key(sid)
                && old(self)@.streams[sid].pipe.closed,
            final(self)@ == after_table_call(old(self)@, TableCall::Push(sid, data@)),
    {
        match self.take(sid) {
            Some(mut stream) => {
                let r = stream.push_data(data);
                self.put(sid, stream);
                match r {
                    Ok(_) => {
                        assert(self@.streams =~= old(self)@.streams.insert(sid, stream@));
                        Ok(())
                    },
                    Err(e) => {
                        assert(self@.streams =~= old(self)@.streams);
                        Err(e)
                    },
                }
            },
            None => {
                assert(self@.streams =~= old(self)@.streams);
                Ok(())
            },
        }
    }

    /// Ends a stream that the peer has finished, without an error for its reader.
    pub fn handle_fin(&mut self, sid: u32)
        ensures
            final(self)@ == if old(self)@.streams.contains_key(sid) {
                StreamTableView {
                    streams: old(self)@.streams.insert(
                        sid,
                        closed_stream(old(self)@.streams[sid], None),
                    ),
                    ..old(self)@
                }
            } else {
                old(self)@
            },
            final(self)@ == after_table_call(old(self)@, TableCall::Fin(sid)),
    {
        match self.take(sid) {
            Some(mut stream) => {
                stream.close_local_with_error(None);
                self.put(sid, stream);
                assert(self@.streams =~= old(self)@.streams.insert(sid, stream@));
            },
            None => {
                assert(self@.streams =~= old(self)@.streams);
            },
        }
    }

    /// Closes a stream that the peer has refused with `message`; the returned frame tells the
    /// peer.
    pub fn handle_refusal(&mut self, sid: u32, message: &str) -> (f: Option<Frame>)
        ensures
            match f {
                Some(f) => old(self)@.streams.contains_key(sid)
                    && !old(self)@.streams[sid].closed && f@ == fin_frame(
                    old(self)@.streams[sid].id,
                ),
                None => !old(self)@.streams.contains_key(sid) || old(self)@.streams[sid].closed,
            },
            final(self)@ == if old(self)@.streams.contains_key(sid) {
                StreamTableView {
                    streams: old(self)@.streams.insert(
                        sid,
                        closed_stream(
                            old(self)@.streams[sid],
                            Some((ErrorKind::Other, "remote: "@ + message@)),
                        ),
                    ),
                    ..old(self)@
                }
            } else {
                old(self)@
            },
            final(self)@ == after_table_call(old(self)@, TableCall::Refuse(sid, message@)),
    {
        match self.take(sid) {
            Some(mut stream) => {
                let mut text = "remote: ".to_owned();
                text.append(message);
                let f = stream.close_with_error(
                    Some(IoError { kind: ErrorKind::Other, message: text }),
                );
                self.put(sid, stream);
                assert(self@.streams =~= old(self)@.streams.insert(sid, stream@));
                f
            },
            None => {
                assert(self@.streams =~= old(self)@.streams);
                None
            },
        }
    }

    /// Gives up a stream whose opening frame could not be sent.
    pub fn open_failed(&mut self, sid: u32, error: &str)
        ensures
            final(self)@ == if old(self)@.streams.contains_key(sid) {
                StreamTableView {
                    streams: old(self)@.streams.insert(
                        sid,
                        closed_stream(
                            old(self)@.streams[sid],
                            Some((ErrorKind::Other, error@)),
                        ),
                    ),
                    ..old(self)@
                }
            } else {
                old(self)@
            },
            final(self)@ == after_table_call(old(self)@, TableCall::GiveUp(sid, error@)),
    {
        match self.take(sid) {
            Some(mut stream) => {
                stream.close_local_with_error(Some(IoError::other(error)));
                self.put(sid, stream);
                assert(self@.streams =~= old(self)@.streams.insert(sid, stream@));
            },
            None => {
                assert(self@.streams =~= old(self)@.streams);
            },
        }
    }
}

/// Closing a stream again, with whatever error, changes nothing.
pub proof fn streams_close_once(
    s: StreamView,
    first: Option<(ErrorKind, Seq<char>)>,
    second: Option<(ErrorKind, Seq<char>)>,
)
    ensures
        closed_stream(closed_stream(s, first), second) == closed_stream(s, first),
{
}

} // verus!
