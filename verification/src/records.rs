//! What a connection sees of the padding: which records are written, how long they are and what
//! they hold, and which packets are padded at all.
use crate::frame::frame_bytes;
use crate::writer::{padded_records, waste_frame, write_step, WriterView};
use vstd::prelude::*;

verus! {

/// How many bytes the first `n` record sizes have room for.
pub open spec fn room(sizes: Seq<i32>, n: nat) -> nat
    decreases n,
{
    if n == 0 {
        0
    } else {
        room(sizes, (n - 1) as nat) + if sizes[n - 1] > 0 {
            sizes[n - 1] as nat
        } else {
            0
        }
    }
}

/// Whether `bytes` are a frame that means nothing and has `n` bytes of padding: seven bytes of
/// header, all zero but for the length of the padding, and zeros.
pub open spec fn is_waste(bytes: Seq<u8>, n: nat) -> bool {
    &&& bytes.len() == n + 7
    &&& forall|i: int| 0 <= i < bytes.len() && i != 5 && i != 6 ==> #[trigger] bytes[i] == 0
    &&& bytes[5] as nat * 256 + bytes[6] as nat == n % 65536
}

/// Whether `bytes` are `front` and then a frame that means nothing, `size` bytes in all. Where
/// there is no room for a byte of padding behind its header, they are `front` alone.
pub open spec fn is_filled_up(bytes: Seq<u8>, front: Seq<u8>, size: nat) -> bool {
    if size > front.len() + 7 {
        &&& bytes.len() == size
        &&& bytes.take(front.len() as int) == front
        &&& is_waste(bytes.skip(front.len() as int), (size - front.len() - 7) as nat)
    } else {
        bytes == front
    }
}

proof fn room_of_the_rest(sizes: Seq<i32>, n: nat)
    requires
        n < sizes.len(),
    ensures
        room(sizes, n + 1) == room(sizes, 1) + room(sizes.skip(1), n),
    decreases n,
{
    reveal_with_fuel(room, 2);
    if n > 0 {
        room_of_the_rest(sizes, (n - 1) as nat);
        assert(sizes.skip(1)[n - 1] == sizes[n as int]);
    }
}

proof fn room_grows(sizes: Seq<i32>, m: nat, n: nat)
    requires
        m <= n,
    ensures
        room(sizes, m) <= room(sizes, n),
    decreases n - m,
{
    if m < n {
        room_grows(sizes, m, (n - 1) as nat);
    }
}

proof fn waste_is_waste(n: nat)
    ensures
        is_waste(frame_bytes(waste_frame(n)), n),
{
    let bytes = frame_bytes(waste_frame(n));
    assert(bytes.len() == n + 7);
    assert(forall|i: int| 0 <= i < 5 ==> #[trigger] bytes[i] == 0);
    assert(forall|i: int| 7 <= i < bytes.len() ==> #[trigger] bytes[i] == 0);
}

/// The packet that sends `payload` under record sizes without a check mark has one write for
/// each size, and one more if the payload has more bytes than there is room for.
///
/// A record that ends before the payload does holds as many bytes of the payload as its size
/// says, from where the record before it ended. The one in which the payload ends is filled up
/// to its size. Those behind it hold padding alone, as much as their size says. What there is no
/// room for comes last.
pub proof fn records_have_the_drawn_sizes(payload: Seq<u8>, sizes: Seq<i32>)
    requires
        forall|i: int| 0 <= i < sizes.len() ==> #[trigger] sizes[i] >= 0,
    ensures
        ({
            let writes = padded_records(payload, sizes);
            let n = sizes.len();
            let all = room(sizes, n);
            &&& writes.len() == if payload.len() > all {
                n + 1
            } else {
                n
            }
            &&& payload.len() > all ==> writes[n as int] == payload.skip(all as int)
            &&& forall|i: int|
                0 <= i < n ==> {
                    let start = room(sizes, i as nat) as int;
                    let end = room(sizes, (i + 1) as nat) as int;
                    if payload.len() > end {
                        #[trigger] writes[i] == payload.subrange(start, end)
                    } else if payload.len() > start {
                        is_filled_up(writes[i], payload.skip(start), sizes[i] as nat)
                    } else {
                        is_waste(writes[i], sizes[i] as nat)
                    }
                }
        }),
    decreases sizes.len(),
{
    let writes = padded_records(payload, sizes);
    let n = sizes.len();
    if n > 0 {
        reveal_with_fuel(room, 2);
        let rest = sizes.skip(1);
        let size = sizes[0] as nat;
        assert(room(sizes, 1) == size);
        assert forall|i: int| 0 <= i < rest.len() implies #[trigger] rest[i] >= 0 by {
            assert(rest[i] == sizes[i + 1]);
        }
        let left = if payload.len() > size {
            payload.skip(size as int)
        } else {
            Seq::empty()
        };
        records_have_the_drawn_sizes(left, rest);
        let later = padded_records(left, rest);
        room_of_the_rest(sizes, (n - 1) as nat);
        assert(writes.skip(1) =~= later);
        assert(writes.len() == later.len() + 1);
        if payload.len() > room(sizes, n) {
            room_grows(sizes, 1, n);
            assert(writes[n as int] == later[n - 1]);
            assert(later[n - 1] =~= payload.skip(room(sizes, n) as int));
        }
        if payload.len() <= size {
            if payload.len() > 0 {
                if size > payload.len() + 7 {
                    let padding = (size - payload.len() - 7) as nat;
                    waste_is_waste(padding);
                    let waste = frame_bytes(waste_frame(padding));
                    assert(writes[0] =~= payload + waste);
                    assert(writes[0].take(payload.len() as int) =~= payload);
                    assert(writes[0].skip(payload.len() as int) =~= waste);
                } else {
                    assert(writes[0] =~= payload);
                }
                assert(payload.skip(0) =~= payload);
            } else {
                waste_is_waste(size);
            }
        } else {
            assert(writes[0] =~= payload.subrange(0, size as int));
        }
        assert forall|i: int| 0 <= i < n implies {
            let start = room(sizes, i as nat) as int;
            let end = room(sizes, (i + 1) as nat) as int;
            if payload.len() > end {
                #[trigger] writes[i] == payload.subrange(start, end)
            } else if payload.len() > start {
                is_filled_up(writes[i], payload.skip(start), sizes[i] as nat)
            } else {
                is_waste(writes[i], sizes[i] as nat)
            }
        } by {
            if i > 0 {
                let j = i - 1;
                room_of_the_rest(sizes, i as nat);
                room_of_the_rest(sizes, j as nat);
                room_grows(sizes, 1, i as nat);
                assert(writes[i] == later[j]);
                assert(rest[j] == sizes[i]);
                let start = room(rest, j as nat) as int;
                let end = room(rest, i as nat) as int;
                assert(room(sizes, i as nat) == size + start);
                assert(room(sizes, (i + 1) as nat) == size + end);
                room_grows(rest, j as nat, i as nat);
                if payload.len() > size {
                    assert(left.len() == payload.len() - size);
                    if left.len() > end {
                        assert(left.subrange(start, end) =~= payload.subrange(
                            size + start,
                            size + end,
                        ));
                    } else if left.len() > start {
                        assert(left.skip(start) =~= payload.skip(size + start));
                    }
                }
            }
        }
    }
}

/// A check mark ends the packet if what stands before it has room for all of the payload;
/// otherwise it changes nothing.
pub proof fn check_marks_end_sent_packets(
    payload: Seq<u8>,
    before: Seq<i32>,
    behind: Seq<i32>,
)
    ensures
        padded_records(payload, before + seq![-1i32] + behind) == if payload.len() <= room(
            before,
            before.len(),
        ) {
            padded_records(payload, before)
        } else {
            padded_records(payload, before + behind)
        },
    decreases before.len(),
{
    let all = before + seq![-1i32] + behind;
    let none = before + behind;
    if before.len() == 0 {
        assert(all.skip(1) =~= behind);
        assert(none =~= behind);
    } else {
        reveal_with_fuel(room, 2);
        let rest = before.skip(1);
        room_of_the_rest(before, (before.len() - 1) as nat);
        assert(all.skip(1) =~= rest + seq![-1i32] + behind);
        assert(none.skip(1) =~= rest + behind);
        let size = room(before, 1);
        let left = if before[0] == -1 {
            payload
        } else if payload.len() > size {
            payload.skip(size as int)
        } else {
            Seq::empty()
        };
        check_marks_end_sent_packets(left, rest, behind);
        room_grows(before, 1, before.len());
    }
}

/// A writer after several writes, each with its bytes and the record sizes drawn for it.
pub open spec fn after_writes(
    w: WriterView,
    writes: Seq<(Seq<u8>, Seq<i32>)>,
    stop: u32,
) -> WriterView
    decreases writes.len(),
{
    if writes.len() == 0 {
        w
    } else {
        let earlier = after_writes(w, writes.drop_last(), stop);
        write_step(earlier, writes.last().0, stop, writes.last().1).0
    }
}

proof fn packets_are_counted(w: WriterView, writes: Seq<(Seq<u8>, Seq<i32>)>, stop: u32)
    requires
        !w.buffering,
        w.pkt_counter == 0,
        w.pending.len() == 0,
    ensures
        ({
            let after = after_writes(w, writes, stop);
            let n = writes.len();
            &&& !after.buffering
            &&& after.pending.len() == 0
            &&& after.send_padding == (w.send_padding && (n == 0 || n < stop))
            &&& after.send_padding ==> after.pkt_counter == n
        }),
    decreases writes.len(),
{
    if writes.len() > 0 {
        packets_are_counted(w, writes.drop_last(), stop);
    }
}

/// The packets of a client that come before the one at which the padding scheme stops are
/// padded, the first one being number one. Later ones go out as they are, and so does every
/// packet of a server. Either way all the bytes are taken, and none waits.
pub proof fn the_first_packets_are_padded(
    w: WriterView,
    writes: Seq<(Seq<u8>, Seq<i32>)>,
    stop: u32,
    bytes: Seq<u8>,
    sizes: Seq<i32>,
)
    requires
        !w.buffering,
        w.pkt_counter == 0,
        w.pending.len() == 0,
    ensures
        ({
            let before = after_writes(w, writes, stop);
            let (after, accepted, out) = write_step(before, bytes, stop, sizes);
            let number = writes.len() + 1;
            &&& out == if w.send_padding && number < stop {
                padded_records(bytes, sizes)
            } else {
                seq![bytes]
            }
            &&& accepted == bytes.len()
            &&& after.pending.len() == 0
            &&& !after.buffering
        }),
{
    packets_are_counted(w, writes, stop);
    let before = after_writes(w, writes, stop);
    assert(before.pending + bytes =~= bytes);
}

/// Frames that are held back are not packets: nothing goes out, and the next packet has the
/// number that it would have had.
pub proof fn held_back_frames_are_no_packets(
    w: WriterView,
    bytes: Seq<u8>,
    stop: u32,
    sizes: Seq<i32>,
)
    requires
        w.buffering,
    ensures
        ({
            let (after, accepted, out) = write_step(w, bytes, stop, sizes);
            &&& out.len() == 0
            &&& accepted == bytes.len()
            &&& after.pending == w.pending + bytes
            &&& after.buffering
            &&& after.pkt_counter == w.pkt_counter
            &&& after.send_padding == w.send_padding
        }),
{
}

} // verus!
