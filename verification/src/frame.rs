//! Frames, the units that travel over a session.
//!
//! A frame is a command byte, a four-byte stream id, a two-byte payload length and the
//! payload, with both numbers big-endian.
use crate::wire;
use bytes::Bytes;
use vstd::prelude::*;
use vstd::slice::slice_subrange;

verus! {

pub const CMD_WASTE: u8 = 0;

pub const CMD_SYN: u8 = 1;

pub const CMD_PSH: u8 = 2;

pub const CMD_FIN: u8 = 3;

pub const CMD_SETTINGS: u8 = 4;

pub const CMD_ALERT: u8 = 5;

pub const CMD_UPDATE_PADDING_SCHEME: u8 = 6;

pub const CMD_SYNACK: u8 = 7;

pub const CMD_HEART_REQUEST: u8 = 8;

pub const CMD_HEART_RESPONSE: u8 = 9;

pub const CMD_SERVER_SETTINGS: u8 = 10;

/// Bytes that precede the payload: command, stream id and payload length.
pub const HEADER_OVERHEAD_SIZE: usize = 7;

/// One unit of the session protocol.
#[derive(Debug)]
pub struct Frame {
    pub cmd: u8,
    pub sid: u32,
    pub data: Bytes,
}

/// The mathematical value of a [`Frame`].
#[verifier::ext_equal]
pub struct FrameView {
    pub cmd: u8,
    pub sid: u32,
    pub data: Seq<u8>,
}

impl View for Frame {
    type V = FrameView;

    open spec fn view(&self) -> FrameView {
        FrameView { cmd: self.cmd, sid: self.sid, data: wire::content(self.data) }
    }
}

impl Clone for Frame {
    fn clone(&self) -> (f: Frame)
        ensures
            f@ == self@,
    {
        Frame { cmd: self.cmd, sid: self.sid, data: wire::bytes_clone(&self.data) }
    }
}

/// The payload length that a header announces for a payload of `len` bytes: the field has
/// sixteen bits, and a longer payload is announced modulo its range.
pub open spec fn announced_len(len: nat) -> u16 {
    (len % 0x1_0000) as u16
}

/// The seven header bytes.
pub open spec fn header_bytes(cmd: u8, sid: u32, length: u16) -> Seq<u8> {
    seq![cmd] + wire::u32_be(sid) + wire::u16_be(length)
}

/// The bytes of a frame on the wire.
pub open spec fn frame_bytes(f: FrameView) -> Seq<u8> {
    header_bytes(f.cmd, f.sid, announced_len(f.data.len())) + f.data
}

/// The header at the front of `s`.
pub open spec fn header_at_front(s: Seq<u8>) -> (u8, u32, u16) {
    (s[0], wire::be_u32(s.skip(1)) as u32, wire::be_u16(s.skip(5)) as u16)
}

/// The frame at the front of `s`, or `None` while it is incomplete.
pub open spec fn front_frame(s: Seq<u8>) -> Option<FrameView> {
    if s.len() < HEADER_OVERHEAD_SIZE {
        None
    } else {
        let (cmd, sid, length) = header_at_front(s);
        if s.len() < HEADER_OVERHEAD_SIZE + length {
            None
        } else {
            Some(
                FrameView {
                    cmd,
                    sid,
                    data: s.subrange(
                        HEADER_OVERHEAD_SIZE as int,
                        HEADER_OVERHEAD_SIZE + length,
                    ),
                },
            )
        }
    }
}

impl Frame {
    /// A frame without payload.
    pub fn new(cmd: u8, sid: u32) -> (f: Frame)
        ensures
            f@ == (FrameView { cmd, sid, data: Seq::empty() }),
    {
        Frame { cmd, sid, data: wire::bytes_new() }
    }

    /// A frame that carries `data`.
    pub fn with_data(cmd: u8, sid: u32, data: Bytes) -> (f: Frame)
        ensures
            f@ == (FrameView { cmd, sid, data: wire::content(data) }),
            f.data == data,
    {
        Frame { cmd, sid, data }
    }

    /// The bytes of this frame on the wire.
    pub fn to_bytes(&self) -> (b: Bytes)
        ensures
            wire::content(b) == frame_bytes(self@),
    {
        let payload = wire::bytes_as_slice(&self.data);
        let capacity: usize = payload.len().saturating_add(HEADER_OVERHEAD_SIZE);
        let mut buf = wire::buffer_with_capacity(capacity);
        wire::put_u8(&mut buf, self.cmd);
        wire::put_u32(&mut buf, self.sid);
        let length: u16 = (payload.len() % 0x1_0000) as u16;
        wire::put_u16(&mut buf, length);
        wire::put_slice(&mut buf, payload);
        assert(wire::buffered(buf) =~= frame_bytes(self@));
        wire::freeze(buf)
    }

    /// The frame at the front of `data`, or `None` while `data` does not hold all of it.
    pub fn from_bytes(data: &[u8]) -> (r: Option<Frame>)
        ensures
            match r {
                Some(f) => front_frame(data@) == Some(f@),
                None => front_frame(data@) is None,
            },
    {
        if data.len() < HEADER_OVERHEAD_SIZE {
            return None;
        }
        let mut rest = data;
        let cmd: u8 = wire::get_u8(&mut rest);
        let sid: u32 = wire::get_u32(&mut rest);
        proof {
            assert(data@.skip(1).skip(4) =~= data@.skip(5));
        }
        let length: usize = wire::get_u16(&mut rest) as usize;
        proof {
            assert(data@.skip(5).skip(2) =~= data@.skip(7));
        }
        if rest.len() < length {
            return None;
        }
        let payload = slice_subrange(rest, 0, length);
        proof {
            assert(payload@ =~= data@.subrange(7, 7 + length));
        }
        Some(Frame { cmd, sid, data: wire::bytes_copy_from_slice(payload) })
    }
}

/// The header of a frame, read without its payload.
#[derive(Debug, Clone, Copy)]
pub struct RawHeader {
    pub cmd: u8,
    pub sid: u32,
    pub length: u16,
}

impl RawHeader {
    /// The header at the front of `data`, or `None` while `data` is shorter than a header.
    pub fn from_bytes(data: &[u8]) -> (r: Option<RawHeader>)
        ensures
            match r {
                Some(h) => data@.len() >= HEADER_OVERHEAD_SIZE && (h.cmd, h.sid, h.length)
                    == header_at_front(data@),
                None => data@.len() < HEADER_OVERHEAD_SIZE,
            },
    {
        if data.len() < HEADER_OVERHEAD_SIZE {
            return None;
        }
        let mut buf = data;
        let cmd: u8 = wire::get_u8(&mut buf);
        let sid: u32 = wire::get_u32(&mut buf);
        proof {
            assert(data@.skip(1).skip(4) =~= data@.skip(5));
        }
        let length: u16 = wire::get_u16(&mut buf);
        Some(RawHeader { cmd, sid, length })
    }
}

/// All complete frames at the front of `s`, in order.
pub open spec fn frames_of(s: Seq<u8>) -> Seq<FrameView>
    decreases s.len(),
{
    match front_frame(s) {
        None => Seq::empty(),
        Some(f) => seq![f] + frames_of(s.skip(HEADER_OVERHEAD_SIZE + f.data.len())),
    }
}

/// What is left of `s` behind its complete frames.
pub open spec fn remainder(s: Seq<u8>) -> Seq<u8>
    decreases s.len(),
{
    match front_frame(s) {
        None => s,
        Some(f) => remainder(s.skip(HEADER_OVERHEAD_SIZE + f.data.len())),
    }
}

/// The bytes of several frames, one behind the other.
pub open spec fn frames_bytes(fs: Seq<FrameView>) -> Seq<u8>
    decreases fs.len(),
{
    if fs.len() == 0 {
        Seq::empty()
    } else {
        frame_bytes(fs[0]) + frames_bytes(fs.skip(1))
    }
}

/// Whether the sixteen-bit length field can announce every payload of `fs`.
pub open spec fn all_fit(fs: Seq<FrameView>) -> bool {
    forall|i: int| 0 <= i < fs.len() ==> (#[trigger] fs[i]).data.len() <= u16::MAX
}

/// Collects received bytes and hands out the frames they complete.
#[derive(Debug)]
pub struct FrameDecoder {
    buffer: Vec<u8>,
}

impl View for FrameDecoder {
    type V = Seq<u8>;

    closed spec fn view(&self) -> Seq<u8> {
        self.buffer@
    }
}

impl FrameDecoder {
    /// A decoder that has received nothing.
    pub fn new() -> (d: FrameDecoder)
        ensures
            d@ == Seq::<u8>::empty(),
    {
        FrameDecoder { buffer: Vec::new() }
    }

    /// Takes in received bytes.
    pub fn feed(&mut self, chunk: &[u8])
        ensures
            final(self)@ == old(self)@ + chunk@,
    {
        self.buffer.extend_from_slice(chunk);
        assert(self@ =~= old(self)@ + chunk@);
    }

    /// Takes the next complete frame off the front, or returns `None` and changes nothing
    /// while there is none.
    pub fn next_frame(&mut self) -> (r: Option<Frame>)
        ensures
            match r {
                Some(f) => front_frame(old(self)@) == Some(f@) && final(self)@ == old(self)@.skip(
                    HEADER_OVERHEAD_SIZE + f@.data.len(),
                ),
                None => front_frame(old(self)@) is None && final(self)@ == old(self)@,
            },
    {
        match Frame::from_bytes(self.buffer.as_slice()) {
            Some(frame) => {
                let consumed: usize = HEADER_OVERHEAD_SIZE + wire::bytes_as_slice(&frame.data).len();
                let rest = self.buffer.split_off(consumed);
                self.buffer = rest;
                assert(self@ =~= old(self)@.skip(HEADER_OVERHEAD_SIZE + frame@.data.len()));
                Some(frame)
            },
            None => None,
        }
    }

    /// How many received bytes no frame has used yet.
    pub fn pending_len(&self) -> (n: usize)
        ensures
            n == self@.len(),
    {
        self.buffer.len()
    }
}

/// Decoding an encoded frame gives the frame back, whatever bytes follow it, as long as the
/// length field can announce its payload.
pub proof fn frame_round_trip(f: FrameView, rest: Seq<u8>)
    requires
        f.data.len() <= u16::MAX,
    ensures
        front_frame(frame_bytes(f) + rest) == Some(f),
        (frame_bytes(f) + rest).skip(HEADER_OVERHEAD_SIZE + f.data.len()) == rest,
{
    let s = frame_bytes(f) + rest;
    let tail = f.data + rest;
    let length = announced_len(f.data.len());
    assert(s.skip(1) =~= wire::u32_be(f.sid) + (wire::u16_be(length) + tail));
    assert(s.skip(5) =~= wire::u16_be(length) + tail);
    wire::u32_round_trip(f.sid, wire::u16_be(length) + tail);
    wire::u16_round_trip(length, tail);
    assert(s.subrange(7, 7 + length) =~= f.data);
    assert(s.skip(HEADER_OVERHEAD_SIZE + f.data.len()) =~= rest);
}

/// Encoding a decoded frame gives back the bytes it was read from.
pub proof fn decoded_frame_encodes_to_its_bytes(s: Seq<u8>)
    requires
        front_frame(s) is Some,
    ensures
        frame_bytes(front_frame(s)->0) == s.take(
            HEADER_OVERHEAD_SIZE + front_frame(s)->0.data.len(),
        ),
{
    let f = front_frame(s)->0;
    let (cmd, sid, length) = header_at_front(s);
    wire::u32_bytes_round_trip(sid, s.skip(1));
    wire::u16_bytes_round_trip(length, s.skip(5));
    assert(s.skip(1).take(4) =~= s.subrange(1, 5));
    assert(s.skip(5).take(2) =~= s.subrange(5, 7));
    assert(frame_bytes(f) =~= s.take(HEADER_OVERHEAD_SIZE + f.data.len()));
}

/// More bytes behind a complete frame do not change it.
pub proof fn complete_frame_is_stable(s: Seq<u8>, more: Seq<u8>)
    requires
        front_frame(s) is Some,
    ensures
        front_frame(s + more) == front_frame(s),
{
    let f = front_frame(s)->0;
    decoded_frame_encodes_to_its_bytes(s);
    assert(s =~= frame_bytes(f) + s.skip(HEADER_OVERHEAD_SIZE + f.data.len()));
    assert(s + more =~= frame_bytes(f) + (s.skip(HEADER_OVERHEAD_SIZE + f.data.len()) + more));
    frame_round_trip(f, s.skip(HEADER_OVERHEAD_SIZE + f.data.len()) + more);
}

/// How a byte stream is cut into chunks does not matter: decoding `a`, then decoding what is
/// left of it together with `b`, gives the frames of `a + b` in the same order and leaves the
/// same bytes over.
pub proof fn chunking_does_not_matter(a: Seq<u8>, b: Seq<u8>)
    ensures
        frames_of(a + b) == frames_of(a) + frames_of(remainder(a) + b),
        remainder(a + b) == remainder(remainder(a) + b),
    decreases a.len(),
{
    match front_frame(a) {
        None => {
            assert(frames_of(a) + frames_of(a + b) =~= frames_of(a + b));
        },
        Some(f) => {
            let n = HEADER_OVERHEAD_SIZE + f.data.len();
            complete_frame_is_stable(a, b);
            assert((a + b).skip(n) =~= a.skip(n) + b);
            chunking_does_not_matter(a.skip(n), b);
            assert(frames_of(a + b) =~= frames_of(a) + frames_of(remainder(a) + b));
        },
    }
}

/// Decoding the encodings of several frames gives exactly those frames, followed by whatever
/// the rest of the stream holds.
pub proof fn encoded_frames_decode_in_order(fs: Seq<FrameView>, rest: Seq<u8>)
    requires
        all_fit(fs),
    ensures
        frames_of(frames_bytes(fs) + rest) == fs + frames_of(rest),
        remainder(frames_bytes(fs) + rest) == remainder(rest),
    decreases fs.len(),
{
    if fs.len() == 0 {
        assert(frames_bytes(fs) + rest =~= rest);
        assert(fs + frames_of(rest) =~= frames_of(rest));
    } else {
        let tail = frames_bytes(fs.skip(1)) + rest;
        assert(frames_bytes(fs) + rest =~= frame_bytes(fs[0]) + tail);
        frame_round_trip(fs[0], tail);
        encoded_frames_decode_in_order(fs.skip(1), rest);
        assert(fs + frames_of(rest) =~= seq![fs[0]] + (fs.skip(1) + frames_of(rest)));
    }
}

/// A header read on its own agrees with the header of the frame it belongs to.
pub proof fn header_agrees_with_frame(s: Seq<u8>)
    requires
        front_frame(s) is Some,
    ensures
        header_at_front(s) == (
            front_frame(s)->0.cmd,
            front_frame(s)->0.sid,
            front_frame(s)->0.data.len() as u16,
        ),
{
}

} // verus!
