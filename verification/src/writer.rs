//! How outgoing frames are cut into records and padded.
//!
//! A session holds frames back while it is buffering. The first packets of a session are cut
//! into records whose sizes the padding scheme draws, and waste frames fill up the records
//! that the payload does not fill.
use crate::frame::{
    all_fit, encoded_frames_decode_in_order, frame_bytes, frames_bytes, frames_of,
    remainder, FrameView, CMD_WASTE, HEADER_OVERHEAD_SIZE,
};
use vstd::prelude::*;

verus! {

/// A record size that ends the padding of a packet when nothing is left to send.
pub const CHECK_MARK: i32 = -1;

/// The waste frame with `n` bytes of padding.
pub open spec fn waste_frame(n: nat) -> FrameView {
    FrameView { cmd: CMD_WASTE, sid: 0, data: Seq::new(n, |i: int| 0u8) }
}

/// How many bytes the record size `size` stands for.
pub open spec fn record_len(size: i32) -> nat {
    if size < 0 {
        0
    } else {
        size as nat
    }
}

/// The padding that a last piece of `len` payload bytes gets in a record of `record` bytes.
pub open spec fn tail_padding(record: nat, len: nat) -> nat {
    if record > len + HEADER_OVERHEAD_SIZE {
        (record - len - HEADER_OVERHEAD_SIZE) as nat
    } else {
        0
    }
}

/// The writes that send `payload` under the record sizes `sizes`: a record that the payload
/// overfills takes its size off the front, the one that takes the rest is filled up by a waste
/// frame, later ones hold waste alone, and a check mark ends the packet once the payload is
/// sent. What no record took is sent last.
pub open spec fn padded_records(payload: Seq<u8>, sizes: Seq<i32>) -> Seq<Seq<u8>>
    decreases sizes.len(),
{
    if sizes.len() == 0 {
        if payload.len() == 0 {
            Seq::empty()
        } else {
            seq![payload]
        }
    } else {
        let rest = sizes.skip(1);
        let record = record_len(sizes[0]);
        if sizes[0] == CHECK_MARK {
            if payload.len() == 0 {
                Seq::empty()
            } else {
                padded_records(payload, rest)
            }
        } else if payload.len() > record {
            seq![payload.take(record as int)] + padded_records(payload.skip(record as int), rest)
        } else if payload.len() > 0 {
            let padding = tail_padding(record, payload.len());
            let tail = if padding > 0 {
                frame_bytes(waste_frame(padding))
            } else {
                Seq::empty()
            };
            seq![payload + tail] + padded_records(Seq::empty(), rest)
        } else {
            seq![frame_bytes(waste_frame(record))] + padded_records(Seq::empty(), rest)
        }
    }
}

/// The contents of each write.
pub open spec fn contents(writes: Seq<Vec<u8>>) -> Seq<Seq<u8>> {
    writes.map_values(|w: Vec<u8>| w@)
}

/// The bytes of a waste frame with `n` bytes of padding.
fn waste_bytes(n: usize) -> (v: Vec<u8>)
    ensures
        v@ == frame_bytes(waste_frame(n as nat)),
{
    let length: u16 = (n % 0x1_0000) as u16;
    let mut v: Vec<u8> = Vec::new();
    v.push(CMD_WASTE);
    v.push(0);
    v.push(0);
    v.push(0);
    v.push(0);
    v.push((length / 0x100) as u8);
    v.push((length % 0x100) as u8);
    let mut zeros: Vec<u8> = vec![0u8; n];
    v.append(&mut zeros);
    assert(v@ =~= frame_bytes(waste_frame(n as nat)));
    v
}

/// Cuts `payload` into the writes that the record sizes `sizes` ask for.
pub fn pad_records(payload: Vec<u8>, sizes: &[i32]) -> (writes: Vec<Vec<u8>>)
    ensures
        contents(writes@) == padded_records(payload@, sizes@),
{
    let ghost all = padded_records(payload@, sizes@);
    let mut bytes = payload;
    let mut writes: Vec<Vec<u8>> = Vec::new();
    let mut i: usize = 0;
    assert(sizes@.skip(0) =~= sizes@);
    assert(contents(writes@) + all =~= all);
    while i < sizes.len()
        invariant
            i <= sizes@.len(),
            all == padded_records(payload@, sizes@),
            all == contents(writes@) + padded_records(bytes@, sizes@.skip(i as int)),
        decreases sizes@.len() - i,
    {
        let size: i32 = sizes[i];
        let ghost done = contents(writes@);
        let ghost before = bytes@;
        let ghost left = sizes@.skip(i as int);
        assert(left.skip(1) =~= sizes@.skip(i + 1));
        i += 1;
        if size == CHECK_MARK {
            if bytes.len() == 0 {
                assert(contents(writes@) =~= all);
                return writes;
            }
            continue;
        }
        let record: usize = if size < 0 {
            0
        } else {
            size as usize
        };
        if bytes.len() > record {
            let rest = bytes.split_off(record);
            assert(bytes@ =~= before.take(record as int));
            assert(rest@ =~= before.skip(record as int));
            writes.push(bytes);
            bytes = rest;
        } else if bytes.len() > 0 {
            let padding: usize = record.saturating_sub(bytes.len()).saturating_sub(
                HEADER_OVERHEAD_SIZE,
            );
            if padding > 0 {
                let mut waste = waste_bytes(padding);
                bytes.append(&mut waste);
            }
            assert(bytes@ =~= before + if padding > 0 {
                frame_bytes(waste_frame(padding as nat))
            } else {
                Seq::empty()
            });
            writes.push(bytes);
            bytes = Vec::new();
        } else {
            assert(bytes@ =~= Seq::<u8>::empty());
            writes.push(waste_bytes(record));
        }
        assert(contents(writes@) =~= done.push(writes@.last()@));
        assert(contents(writes@) + padded_records(bytes@, left.skip(1)) =~= done + (seq![
            writes@.last()@,
        ] + padded_records(bytes@, left.skip(1))));
    }
    if bytes.len() > 0 {
        let ghost done = contents(writes@);
        let ghost last = bytes@;
        writes.push(bytes);
        assert(contents(writes@) =~= done + seq![last]);
    } else {
        assert(contents(writes@) =~= all);
    }
    writes
}

/// What the writer of a session remembers between frames.
#[derive(Debug)]
pub struct WriterState {
    send_padding: bool,
    buffering: bool,
    pending: Vec<u8>,
    pkt_counter: u32,
}

/// The mathematical value of a [`WriterState`].
#[verifier::ext_equal]
pub struct WriterView {
    pub send_padding: bool,
    pub buffering: bool,
    pub pending: Seq<u8>,
    pub pkt_counter: u32,
}

impl View for WriterState {
    type V = WriterView;

    closed spec fn view(&self) -> WriterView {
        WriterView {
            send_padding: self.send_padding,
            buffering: self.buffering,
            pending: self.pending@,
            pkt_counter: self.pkt_counter,
        }
    }
}

/// What a write comes to: the writer that it leaves, how many bytes it took in or sent, and what
/// goes to the connection. `stop` is the packet at which the padding scheme stops, and `sizes`
/// are the record sizes that it drew for this packet.
///
/// While frames are held back, the bytes wait behind those that wait already. Otherwise all of
/// them go out, cut into records as long as packets are padded.
pub open spec fn write_step(w: WriterView, bytes: Seq<u8>, stop: u32, sizes: Seq<i32>) -> (
    WriterView,
    nat,
    Seq<Seq<u8>>,
) {
    let payload = w.pending + bytes;
    let pkt = w.pkt_counter + 1;
    let padded = w.send_padding && pkt < stop;
    if w.buffering {
        (WriterView { pending: payload, ..w }, bytes.len(), Seq::empty())
    } else {
        (
            WriterView {
                send_padding: padded,
                buffering: false,
                pending: Seq::empty(),
                pkt_counter: if w.send_padding {
                    pkt as u32
                } else {
                    w.pkt_counter
                },
            },
            payload.len(),
            if padded {
                padded_records(payload, sizes)
            } else {
                seq![payload]
            },
        )
    }
}

/// What becomes of one outgoing frame.
#[derive(Debug)]
pub struct WriteOutcome {
    /// How many bytes were taken in or sent.
    pub accepted: usize,
    /// What is to be written to the connection, in order.
    pub writes: Vec<Vec<u8>>,
}

impl WriterState {
    /// Packets are counted only while they are padded, so the counter has room for the next.
    pub closed spec fn wf(&self) -> bool {
        self.send_padding ==> self.pkt_counter < u32::MAX
    }

    /// A writer that pads the first packets of a client session and holds nothing back.
    pub fn new(is_client: bool) -> (w: WriterState)
        ensures
            w.wf(),
            w@ == (WriterView {
                send_padding: is_client,
                buffering: false,
                pending: Seq::empty(),
                pkt_counter: 0,
            }),
    {
        let w = WriterState {
            send_padding: is_client,
            buffering: false,
            pending: Vec::new(),
            pkt_counter: 0,
        };
        assert(w.pending@ =~= Seq::<u8>::empty());
        w
    }

    /// Starts or stops holding frames back.
    pub fn set_buffering(&mut self, buffering: bool)
        requires
            old(self).wf(),
        ensures
            final(self).wf(),
            final(self)@ == (WriterView { buffering, ..old(self)@ }),
    {
        self.buffering = buffering;
    }

    /// Whether frames are being held back.
    pub fn is_buffering(&self) -> (b: bool)
        ensures
            b == self@.buffering,
    {
        self.buffering
    }

    /// The number of the packet that the next write would be padded as, or `None` if it would
    /// not be padded under a scheme that stops at packet `stop`.
    pub fn next_padded_packet(&self, stop: u32) -> (pkt: Option<u32>)
        requires
            self.wf(),
        ensures
            pkt == if !self@.buffering && self@.send_padding && self@.pkt_counter + 1 < stop {
                Some((self@.pkt_counter + 1) as u32)
            } else {
                None
            },
    {
        if !self.buffering && self.send_padding && self.pkt_counter + 1 < stop {
            Some(self.pkt_counter + 1)
        } else {
            None
        }
    }

    /// Sends the encoded frame `bytes` together with everything held back.
    ///
    /// `stop` is the packet at which the padding scheme stops, and `sizes` are the record sizes
    /// that it drew for the packet that this write is.
    pub fn write_conn(&mut self, bytes: Vec<u8>, stop: u32, sizes: &[i32]) -> (r: WriteOutcome)
        requires
            old(self).wf(),
        ensures
            final(self).wf(),
            (final(self)@, r.accepted as nat, contents(r.writes@)) == write_step(
                old(self)@,
                bytes@,
                stop,
                sizes@,
            ),
    {
        let mut bytes = bytes;
        if self.buffering {
            let accepted: usize = bytes.len();
            self.pending.append(&mut bytes);
            let writes: Vec<Vec<u8>> = Vec::new();
            assert(contents(writes@) =~= Seq::<Seq<u8>>::empty());
            return WriteOutcome { accepted, writes };
        }
        let ghost payload = self@.pending + bytes@;
        if self.pending.len() > 0 {
            let mut combined: Vec<u8> = Vec::new();
            combined.append(&mut self.pending);
            combined.append(&mut bytes);
            bytes = combined;
        }
        assert(bytes@ =~= payload);
        assert(self.pending@ =~= Seq::<u8>::empty());
        let accepted: usize = bytes.len();
        if self.send_padding {
            self.pkt_counter = self.pkt_counter + 1;
            if self.pkt_counter < stop {
                return WriteOutcome { accepted, writes: pad_records(bytes, sizes) };
            }
            self.send_padding = false;
        }
        let mut writes: Vec<Vec<u8>> = Vec::new();
        writes.push(bytes);
        assert(contents(writes@) =~= seq![payload]);
        WriteOutcome { accepted, writes }
    }
}

/// All bytes of the writes, in order.
pub open spec fn written(records: Seq<Seq<u8>>) -> Seq<u8>
    decreases records.len(),
{
    if records.len() == 0 {
        Seq::empty()
    } else {
        records[0] + written(records.skip(1))
    }
}

/// The waste frames that padding a payload of `len` bytes adds behind it.
pub open spec fn added_waste(len: nat, sizes: Seq<i32>) -> Seq<FrameView>
    decreases sizes.len(),
{
    if sizes.len() == 0 {
        Seq::empty()
    } else {
        let rest = sizes.skip(1);
        let record = record_len(sizes[0]);
        if sizes[0] == CHECK_MARK {
            if len == 0 {
                Seq::empty()
            } else {
                added_waste(len, rest)
            }
        } else if len > record {
            added_waste((len - record) as nat, rest)
        } else if len > 0 {
            let padding = tail_padding(record, len);
            if padding > 0 {
                seq![waste_frame(padding)] + added_waste(0, rest)
            } else {
                added_waste(0, rest)
            }
        } else {
            seq![waste_frame(record)] + added_waste(0, rest)
        }
    }
}

proof fn written_cons(first: Seq<u8>, rest: Seq<Seq<u8>>)
    ensures
        written(seq![first] + rest) == first + written(rest),
{
    assert((seq![first] + rest).skip(1) =~= rest);
}

/// Whether all of `fs` are waste frames that belong to no stream.
pub open spec fn all_waste(fs: Seq<FrameView>) -> bool {
    forall|i: int|
        0 <= i < fs.len() ==> (#[trigger] fs[i]).cmd == CMD_WASTE && fs[i].sid == 0
}

/// What padding adds is waste that belongs to no stream.
pub proof fn added_waste_is_waste(len: nat, sizes: Seq<i32>)
    ensures
        all_waste(added_waste(len, sizes)),
    decreases sizes.len(),
{
    if sizes.len() > 0 {
        let rest = sizes.skip(1);
        let record = record_len(sizes[0]);
        added_waste_is_waste(len, rest);
        added_waste_is_waste(0, rest);
        if len > record {
            added_waste_is_waste((len - record) as nat, rest);
        }
    }
}

/// Padding loses and reorders nothing: the bytes on the wire are the payload, followed by waste
/// frames alone.
pub proof fn padding_keeps_the_payload(payload: Seq<u8>, sizes: Seq<i32>)
    ensures
        written(padded_records(payload, sizes)) == payload + frames_bytes(
            added_waste(payload.len(), sizes),
        ),
    decreases sizes.len(),
{
    let waste = added_waste(payload.len(), sizes);
    if sizes.len() == 0 {
        if payload.len() == 0 {
            assert(payload + frames_bytes(waste) =~= Seq::<u8>::empty());
        } else {
            written_cons(payload, Seq::empty());
            assert(seq![payload] + Seq::<Seq<u8>>::empty() =~= seq![payload]);
            assert(payload + frames_bytes(waste) =~= payload);
        }
    } else {
        let rest = sizes.skip(1);
        let record = record_len(sizes[0]);
        if sizes[0] == CHECK_MARK {
            if payload.len() == 0 {
                assert(payload + frames_bytes(waste) =~= Seq::<u8>::empty());
            } else {
                padding_keeps_the_payload(payload, rest);
            }
        } else if payload.len() > record {
            let first = payload.take(record as int);
            let left = payload.skip(record as int);
            padding_keeps_the_payload(left, rest);
            written_cons(first, padded_records(left, rest));
            assert(payload + frames_bytes(waste) =~= first + (left + frames_bytes(waste)));
        } else {
            let none = Seq::<u8>::empty();
            let later = added_waste(0, rest);
            padding_keeps_the_payload(none, rest);
            assert(none + frames_bytes(later) =~= frames_bytes(later));
            if payload.len() > 0 {
                let padding = tail_padding(record, payload.len());
                if padding > 0 {
                    let extra = frame_bytes(waste_frame(padding));
                    written_cons(payload + extra, padded_records(none, rest));
                    assert(waste.skip(1) =~= later);
                    assert(payload + frames_bytes(waste) =~= payload + extra + frames_bytes(later));
                } else {
                    assert(payload + none =~= payload);
                    written_cons(payload, padded_records(none, rest));
                }
            } else {
                let extra = frame_bytes(waste_frame(record));
                written_cons(extra, padded_records(none, rest));
                assert(waste.skip(1) =~= later);
                assert(payload + frames_bytes(waste) =~= extra + frames_bytes(later));
            }
        }
    }
}

/// A writer that holds back several encoded frames, one after the other.
pub open spec fn held_back(w: WriterView, frames: Seq<Seq<u8>>, stop: u32) -> WriterView
    decreases frames.len(),
{
    if frames.len() == 0 {
        w
    } else {
        let earlier = held_back(w, frames.drop_last(), stop);
        write_step(earlier, frames.last(), stop, Seq::empty()).0
    }
}

/// Frames that are held back are not lost: they wait in the order in which they were written,
/// and the first write after the writer is released sends them ahead of its own bytes, followed
/// by nothing but waste.
pub proof fn held_back_frames_go_out_first(
    w: WriterView,
    frames: Seq<Seq<u8>>,
    last: Seq<u8>,
    stop: u32,
    sizes: Seq<i32>,
)
    requires
        w.buffering,
    ensures
        ({
            let held = held_back(w, frames, stop);
            let released = WriterView { buffering: false, ..held };
            let payload = w.pending + written(frames) + last;
            let (after, accepted, writes) = write_step(released, last, stop, sizes);
            &&& held == (WriterView { pending: w.pending + written(frames), ..w })
            &&& accepted == payload.len()
            &&& after.pending.len() == 0
            &&& payload.is_prefix_of(written(writes))
            &&& w.send_padding && w.pkt_counter + 1 < stop ==> written(writes) == payload
                + frames_bytes(added_waste(payload.len(), sizes))
            &&& !(w.send_padding && w.pkt_counter + 1 < stop) ==> written(writes) == payload
        }),
{
    holding_back_keeps_order(w, frames, stop);
    let held = held_back(w, frames, stop);
    let payload = w.pending + written(frames) + last;
    if w.send_padding && w.pkt_counter + 1 < stop {
        padding_keeps_the_payload(payload, sizes);
        let waste = frames_bytes(added_waste(payload.len(), sizes));
        assert((payload + waste).subrange(0, payload.len() as int) =~= payload);
    } else {
        let none = Seq::<Seq<u8>>::empty();
        written_cons(payload, none);
        assert(seq![payload] + none =~= seq![payload]);
        assert(payload + written(none) =~= payload);
        assert(payload.subrange(0, payload.len() as int) =~= payload);
    }
}

proof fn holding_back_keeps_order(w: WriterView, frames: Seq<Seq<u8>>, stop: u32)
    requires
        w.buffering,
    ensures
        held_back(w, frames, stop) == (WriterView { pending: w.pending + written(frames), ..w }),
    decreases frames.len(),
{
    if frames.len() == 0 {
        assert(w.pending + written(frames) =~= w.pending);
    } else {
        holding_back_keeps_order(w, frames.drop_last(), stop);
        written_snoc(frames.drop_last(), frames.last());
        assert(frames =~= frames.drop_last().push(frames.last()));
        assert(w.pending + written(frames.drop_last()) + frames.last() =~= w.pending + written(
            frames,
        ));
    }
}

proof fn written_snoc(records: Seq<Seq<u8>>, last: Seq<u8>)
    ensures
        written(records.push(last)) == written(records) + last,
    decreases records.len(),
{
    let longer = records.push(last);
    if records.len() == 0 {
        assert(longer.skip(1) =~= records);
        assert(last + written(records) =~= written(records) + last);
    } else {
        assert(longer.skip(1) =~= records.skip(1).push(last));
        written_snoc(records.skip(1), last);
        assert(written(longer) =~= written(records) + last);
    }
}

proof fn added_waste_fits(len: nat, sizes: Seq<i32>)
    requires
        forall|i: int| 0 <= i < sizes.len() ==> #[trigger] sizes[i] <= u16::MAX,
    ensures
        all_fit(added_waste(len, sizes)),
    decreases sizes.len(),
{
    if sizes.len() > 0 {
        let rest = sizes.skip(1);
        assert forall|i: int| 0 <= i < rest.len() implies #[trigger] rest[i] <= u16::MAX by {
            assert(rest[i] == sizes[i + 1]);
        }
        let record = record_len(sizes[0]);
        assert(sizes[0] <= u16::MAX);
        added_waste_fits(len, rest);
        added_waste_fits(0, rest);
        if len > record {
            added_waste_fits((len - record) as nat, rest);
        }
    }
}

/// A peer that decodes the padded bytes sees the frames of the payload, then waste frames
/// alone, then whatever is sent next, as long as every record size fits the length field.
pub proof fn peer_sees_payload_then_waste(fs: Seq<FrameView>, sizes: Seq<i32>, next: Seq<u8>)
    requires
        all_fit(fs),
        forall|i: int| 0 <= i < sizes.len() ==> #[trigger] sizes[i] <= u16::MAX,
    ensures
        frames_of(written(padded_records(frames_bytes(fs), sizes)) + next) == fs + added_waste(
            frames_bytes(fs).len(),
            sizes,
        ) + frames_of(next),
        remainder(written(padded_records(frames_bytes(fs), sizes)) + next) == remainder(next),
{
    let payload = frames_bytes(fs);
    let waste = added_waste(payload.len(), sizes);
    padding_keeps_the_payload(payload, sizes);
    added_waste_fits(payload.len(), sizes);
    encoded_frames_decode_in_order(waste, next);
    encoded_frames_decode_in_order(fs, frames_bytes(waste) + next);
    assert(payload + frames_bytes(waste) + next =~= payload + (frames_bytes(waste) + next));
    assert(fs + waste + frames_of(next) =~= fs + (waste + frames_of(next)));
}

} // verus!
