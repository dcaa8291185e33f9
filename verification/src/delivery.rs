//! What the reader of a logical stream gets: write after write, each end where it was put, and
//! then how the stream was closed.
use crate::error::ErrorKind;
use crate::pipe;
use crate::pipe::{close, finish_stream, new_pipe, next_read, PipeItemView, PipeView, ReadView};
use crate::stream::{closed_stream, new_stream, StreamView};
use vstd::prelude::*;

verus! {

/// What a reader is told at an end.
pub open spec fn told(error: Option<(ErrorKind, Seq<char>)>) -> ReadView {
    match error {
        Some(e) => ReadView::Failed(e),
        None => ReadView::Data(Seq::empty()),
    }
}

/// Whether nothing waits in a pipe.
pub open spec fn is_read_up(p: PipeView) -> bool {
    p.buffer.len() == 0 && p.queue.len() == 0
}

/// A new pipe is open, nothing waits in it, and nobody waits on it. The same holds of a new
/// stream.
pub proof fn new_pipes_are_open(id: u32)
    ensures
        is_read_up(new_pipe()),
        !new_pipe().closed,
        !new_pipe().reading,
        new_pipe().read_error is None,
        new_pipe().write_error is None,
        new_stream(id).id == id,
        new_stream(id).pipe == new_pipe(),
        !new_stream(id).closed,
        !new_stream(id).reported,
{
}

/// A read gives as much of the oldest write as it has room for: all of it, or as many bytes as
/// fit. It does not go on to the next write.
pub proof fn reads_give_one_write(p: PipeView, data: Seq<u8>, later: Seq<PipeItemView>, max: nat)
    requires
        p.buffer.len() == 0,
        p.queue == seq![PipeItemView::Data(data)] + later,
    ensures
        ({
            let (r, after) = next_read(p, max);
            &&& data.len() <= max ==> r == ReadView::Data(data) && after.buffer.len() == 0
            &&& data.len() > max ==> r == ReadView::Data(data.take(max as int)) && after.buffer
                == data.skip(max as int)
            &&& after.queue == later
            &&& !after.reading
            &&& after.closed == p.closed
            &&& after.read_error == p.read_error
            &&& after.write_error == p.write_error
        }),
{
    let after = next_read(p, max).1;
    assert(p.queue.skip(1) =~= later);
    assert(data.take(data.len() as int) =~= data);
    assert(data.skip(data.len() as int) =~= Seq::<u8>::empty());
    assert(p.buffer + data.skip(max as int) =~= data.skip(max as int));
}

/// What a read left of a write is what the next read gives, before anything else.
pub proof fn leftovers_are_read_first(p: PipeView, max: nat)
    requires
        p.buffer.len() > 0,
    ensures
        ({
            let (r, after) = pipe::read(p, max);
            &&& p.buffer.len() <= max ==> r == ReadView::Data(p.buffer) && after.buffer.len() == 0
            &&& p.buffer.len() > max ==> r == ReadView::Data(p.buffer.take(max as int))
                && after.buffer == p.buffer.skip(max as int)
            &&& after.queue == p.queue
            &&& after.reading == p.reading
            &&& after.closed == p.closed
            &&& after.read_error == p.read_error
            &&& after.write_error == p.write_error
        }),
{
    assert(p.buffer.take(p.buffer.len() as int) =~= p.buffer);
}

/// The end of a logical stream waits behind everything that was written before it, and does not
/// close the pipe.
pub proof fn ends_wait_their_turn(p: PipeView, error: Option<(ErrorKind, Seq<char>)>)
    ensures
        ({
            let after = finish_stream(p, error);
            &&& after.queue == p.queue + seq![PipeItemView::End(error)]
            &&& after.buffer == p.buffer
            &&& after.closed == p.closed
            &&& after.reading == p.reading
            &&& after.read_error == p.read_error
            &&& after.write_error == p.write_error
        }),
{
    assert(finish_stream(p, error).queue =~= p.queue + seq![PipeItemView::End(error)]);
}

/// The end of a logical stream is told once: the read that comes to it gets the error or the end
/// of the stream, and the next one goes on behind it.
pub proof fn ends_are_told_once(
    p: PipeView,
    error: Option<(ErrorKind, Seq<char>)>,
    later: Seq<PipeItemView>,
    max: nat,
)
    requires
        p.buffer.len() == 0,
        p.queue == seq![PipeItemView::End(error)] + later,
    ensures
        next_read(p, max) == (told(error), (PipeView { queue: later, reading: false, ..p })),
{
    assert(p.queue.skip(1) =~= later);
}

/// A read from an open pipe in which nothing waits has to wait itself, and keeps others from
/// reading meanwhile. What is written next is for it, and so is the next end.
pub proof fn reads_wait_for_writes(
    p: PipeView,
    data: Seq<u8>,
    error: Option<(ErrorKind, Seq<char>)>,
    max: nat,
    other: nat,
)
    requires
        is_read_up(p),
        !p.closed,
        !p.reading,
        data.len() <= max,
    ensures
        ({
            let (r, waiting) = pipe::read(p, max);
            &&& r is Pending
            &&& waiting == (PipeView { reading: true, ..p })
            &&& pipe::read(waiting, other) == (
                ReadView::Failed((ErrorKind::BrokenPipe, "Pipe reader already in use"@)),
                waiting,
            )
            &&& pipe::receive(pipe::write(waiting, data), max) == (ReadView::Data(data), p)
            &&& pipe::receive(finish_stream(waiting, error), max) == (told(error), p)
            &&& pipe::receive(close(waiting, error), max) == (told(error), close(p, error))
            &&& pipe::receive(waiting, max) == (ReadView::Pending, waiting)
        }),
{
    let waiting = pipe::read(p, max).1;
    assert(data.take(data.len() as int) =~= data);
    let written = pipe::receive(pipe::write(waiting, data), max);
    assert(pipe::write(waiting, data).queue.skip(1) =~= p.queue);
    assert(waiting.buffer + data.skip(data.len() as int) =~= p.buffer);
    assert(written.1 =~= p);
    let ended = pipe::receive(finish_stream(waiting, error), max);
    assert(finish_stream(waiting, error).queue.skip(1) =~= p.queue);
    assert(ended.1 =~= p);
}

/// Closing a pipe changes nothing but that it is closed and what its reader is told at the end.
pub proof fn closing_says_why(p: PipeView, error: Option<(ErrorKind, Seq<char>)>, max: nat)
    requires
        !p.reading,
    ensures
        close(p, error) == (PipeView { closed: true, read_error: error, ..p }),
        is_read_up(p) ==> pipe::read(close(p, error), max) == (told(error), close(p, error)),
{
}

/// A stream that is closed for the first time keeps its id and everything that arrived on it. Its
/// reader is told why it was closed once all of that is read, however often it asks, and nothing
/// more arrives.
pub proof fn closed_streams_tell_why(
    s: StreamView,
    error: Option<(ErrorKind, Seq<char>)>,
    max: nat,
)
    requires
        !s.closed,
        !s.pipe.reading,
    ensures
        ({
            let after = closed_stream(s, error);
            &&& after.closed
            &&& after.id == s.id
            &&& after.reported == s.reported
            &&& after.pipe.closed
            &&& after.pipe.buffer == s.pipe.buffer
            &&& after.pipe.queue == s.pipe.queue
            &&& is_read_up(s.pipe) ==> pipe::read(after.pipe, max) == (told(error), after.pipe)
        }),
{
}

} // verus!
