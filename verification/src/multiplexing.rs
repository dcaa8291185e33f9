//! The streams of one session, side by side: each has its own id, its own bytes and its own end,
//! whatever happens to the others.
use crate::error::ErrorKind;
use crate::pipe::{unread, writes_queue_up};
use crate::stream::{after_table_call, StreamTableView, TableCall};
use vstd::prelude::*;

verus! {

/// Whether `call` is about the stream `sid` of `t`.
pub open spec fn is_about(t: StreamTableView, call: TableCall, sid: u32) -> bool {
    match call {
        TableCall::Open => sid == t.stream_id + 1,
        TableCall::Syn(other) => sid == other,
        TableCall::Push(other, _) => sid == other,
        TableCall::Fin(other) => sid == other,
        TableCall::Refuse(other, _) => sid == other,
        TableCall::GiveUp(other, _) => sid == other,
    }
}

/// The streams after several calls.
pub open spec fn after_table_calls(t: StreamTableView, calls: Seq<TableCall>) -> StreamTableView
    decreases calls.len(),
{
    if calls.len() == 0 {
        t
    } else {
        after_table_call(after_table_calls(t, calls.drop_last()), calls.last())
    }
}

/// How many streams this side opens.
pub open spec fn openings(calls: Seq<TableCall>) -> nat
    decreases calls.len(),
{
    if calls.len() == 0 {
        0
    } else {
        openings(calls.drop_last()) + if calls.last() is Open {
            1nat
        } else {
            0
        }
    }
}

/// The bytes that arrive for the stream `sid`, joined.
pub open spec fn arrived(calls: Seq<TableCall>, sid: u32) -> Seq<u8>
    decreases calls.len(),
{
    if calls.len() == 0 {
        Seq::empty()
    } else {
        arrived(calls.drop_last(), sid) + match calls.last() {
            TableCall::Push(other, data) => if other == sid {
                data
            } else {
                Seq::empty()
            },
            _ => Seq::empty(),
        }
    }
}

/// Whether nothing ends the stream `sid`.
pub open spec fn leaves_running(calls: Seq<TableCall>, sid: u32) -> bool {
    forall|i: int|
        0 <= i < calls.len() ==> {
            let call = #[trigger] calls[i];
            &&& call != TableCall::Fin(sid)
            &&& !(call matches TableCall::Refuse(other, _) && other == sid)
            &&& !(call matches TableCall::GiveUp(other, _) && other == sid)
        }
}

/// What happens to one stream happens to no other: the others are there or not as before, and as
/// they were.
pub proof fn streams_are_kept_apart(t: StreamTableView, call: TableCall, sid: u32)
    requires
        t.stream_id < u32::MAX,
        !is_about(t, call, sid),
    ensures
        ({
            let after = after_table_call(t, call);
            &&& after.streams.contains_key(sid) == t.streams.contains_key(sid)
            &&& after.streams.contains_key(sid) ==> after.streams[sid] == t.streams[sid]
            &&& after.stream_id == if call is Open {
                (t.stream_id + 1) as u32
            } else {
                t.stream_id
            }
        }),
{
}

/// The streams that this side opens have the ids that follow the last one, one after the other,
/// and each is new when it is opened.
pub proof fn streams_are_numbered(t: StreamTableView, calls: Seq<TableCall>)
    requires
        t.stream_id + openings(calls) < u32::MAX,
    ensures
        ({
            let after = after_table_calls(t, calls);
            let id = (t.stream_id + openings(calls) + 1) as u32;
            let opened = after_table_call(after, TableCall::Open);
            &&& after.stream_id == t.stream_id + openings(calls)
            &&& opened.stream_id == id
            &&& opened.streams.contains_key(id)
            &&& opened.streams[id].id == id
            &&& !opened.streams[id].closed
            &&& !opened.streams[id].pipe.closed
            &&& unread(opened.streams[id].pipe).len() == 0
        }),
    decreases calls.len(),
{
    if calls.len() > 0 {
        streams_are_numbered(t, calls.drop_last());
    }
}

/// A stream that the peer opens is new, unless it is there already: then it stays as it is.
pub proof fn peers_open_streams_once(t: StreamTableView, sid: u32)
    ensures
        ({
            let after = after_table_call(t, TableCall::Syn(sid));
            &&& after.streams.contains_key(sid)
            &&& t.streams.contains_key(sid) ==> after == t
            &&& !t.streams.contains_key(sid) ==> after.streams[sid].id == sid
                && !after.streams[sid].closed && !after.streams[sid].pipe.closed && unread(
                after.streams[sid].pipe,
            ).len() == 0
        }),
{
}

/// Whatever happens to the streams of a session, a stream that nothing ends gives its reader the
/// bytes that arrived for it, all of them and in order, and no others.
pub proof fn streams_deliver_their_bytes(t: StreamTableView, calls: Seq<TableCall>, sid: u32)
    requires
        t.streams.contains_key(sid),
        !t.streams[sid].pipe.closed,
        sid <= t.stream_id,
        t.stream_id + openings(calls) <= u32::MAX,
        leaves_running(calls, sid),
    ensures
        ({
            let after = after_table_calls(t, calls);
            &&& after.streams.contains_key(sid)
            &&& !after.streams[sid].pipe.closed
            &&& after.streams[sid].id == t.streams[sid].id
            &&& after.stream_id == t.stream_id + openings(calls)
            &&& unread(after.streams[sid].pipe) == unread(t.streams[sid].pipe) + arrived(calls, sid)
        }),
    decreases calls.len(),
{
    let none = Seq::<u8>::empty();
    if calls.len() == 0 {
        assert(unread(t.streams[sid].pipe) + none =~= unread(t.streams[sid].pipe));
    } else {
        let earlier = calls.drop_last();
        let call = calls.last();
        assert(leaves_running(earlier, sid)) by {
            assert forall|i: int| 0 <= i < earlier.len() implies {
                let call = #[trigger] earlier[i];
                &&& call != TableCall::Fin(sid)
                &&& !(call matches TableCall::Refuse(other, _) && other == sid)
                &&& !(call matches TableCall::GiveUp(other, _) && other == sid)
            } by {
                assert(earlier[i] == calls[i]);
            }
        }
        assert(calls[calls.len() - 1] == call);
        streams_deliver_their_bytes(t, earlier, sid);
        let before = after_table_calls(t, earlier);
        let start = unread(t.streams[sid].pipe);
        let so_far = arrived(earlier, sid);
        if let TableCall::Push(other, data) = call {
            if other == sid {
                writes_queue_up(before.streams[sid].pipe, data);
                assert(start + so_far + data =~= start + (so_far + data));
            } else {
                assert(so_far + none =~= so_far);
            }
        } else {
            assert(so_far + none =~= so_far);
        }
    }
}

/// A stream that the peer has finished, has refused or that was given up is closed: the reader is
/// told why behind what it has not read yet, plainly in the first case. It takes no bytes any
/// more, and nothing else that happens to it changes it.
pub proof fn ended_streams_stay_ended(
    t: StreamTableView,
    sid: u32,
    message: Seq<char>,
    data: Seq<u8>,
)
    requires
        t.streams.contains_key(sid),
        !t.streams[sid].closed,
    ensures
        ({
            let s = t.streams[sid];
            let finished = after_table_call(t, TableCall::Fin(sid));
            let refused = after_table_call(t, TableCall::Refuse(sid, message));
            let given_up = after_table_call(t, TableCall::GiveUp(sid, message));
            &&& finished.streams[sid].pipe.read_error is None
            &&& refused.streams[sid].pipe.read_error == Some(
                (ErrorKind::Other, "remote: "@ + message),
            )
            &&& given_up.streams[sid].pipe.read_error == Some((ErrorKind::Other, message))
            &&& forall|ended: StreamTableView|
                #![trigger ended.streams[sid]]
                ended == finished || ended == refused || ended == given_up ==> {
                    &&& ended.streams.contains_key(sid)
                    &&& ended.streams[sid].closed
                    &&& ended.streams[sid].pipe.closed
                    &&& ended.streams[sid].id == s.id
                    &&& unread(ended.streams[sid].pipe) == unread(s.pipe)
                }
        }),
{
}

/// A closed stream takes no bytes, and nothing that the peer says about it changes it.
pub proof fn closed_streams_are_left_alone(t: StreamTableView, sid: u32, call: TableCall)
    requires
        t.streams.contains_key(sid),
        t.streams[sid].closed,
        t.streams[sid].pipe.closed,
        sid <= t.stream_id || !(call is Open),
        t.stream_id < u32::MAX,
    ensures
        after_table_call(t, call).streams.contains_key(sid),
        after_table_call(t, call).streams[sid] == t.streams[sid],
{
}

/// What is said about a stream that is not there says nothing, unless it opens the stream.
pub proof fn missing_streams_are_not_made(t: StreamTableView, sid: u32, call: TableCall)
    requires
        !t.streams.contains_key(sid),
        is_about(t, call, sid),
        !(call is Open),
        !(call is Syn),
    ensures
        after_table_call(t, call) == t,
{
}

} // verus!
