//! The in-memory pipe between a session and the handler of its logical stream.
use crate::error::{ErrorKind, IoError};
use std::collections::VecDeque;
use vstd::prelude::*;
use vstd::slice::slice_to_vec;

verus! {

/// What waits in a pipe to be read.
#[derive(Debug)]
pub enum PipeItem {
    /// Bytes of one write.
    Data(Vec<u8>),
    /// The end of one logical stream, as an error or as a plain end of file.
    End(Option<IoError>),
}

/// The mathematical value of a [`PipeItem`].
pub enum PipeItemView {
    Data(Seq<u8>),
    End(Option<(ErrorKind, Seq<char>)>),
}

/// The mathematical value of an optional error.
pub open spec fn error_view(e: Option<IoError>) -> Option<(ErrorKind, Seq<char>)> {
    match e {
        Some(e) => Some(e@),
        None => None,
    }
}

impl View for PipeItem {
    type V = PipeItemView;

    open spec fn view(&self) -> PipeItemView {
        match self {
            PipeItem::Data(d) => PipeItemView::Data(d@),
            PipeItem::End(e) => PipeItemView::End(error_view(*e)),
        }
    }
}

/// A queue of writes with a buffer for the part of a write that a read left over.
#[derive(Debug)]
pub struct PipeInner {
    buffer: Vec<u8>,
    queue: VecDeque<PipeItem>,
    closed: bool,
    read_error: Option<IoError>,
    write_error: Option<IoError>,
    reading: bool,
}

/// The mathematical value of a [`PipeInner`].
#[verifier::ext_equal]
pub struct PipeView {
    pub buffer: Seq<u8>,
    pub queue: Seq<PipeItemView>,
    pub closed: bool,
    pub read_error: Option<(ErrorKind, Seq<char>)>,
    pub write_error: Option<(ErrorKind, Seq<char>)>,
    pub reading: bool,
}

impl View for PipeInner {
    type V = PipeView;

    closed spec fn view(&self) -> PipeView {
        PipeView {
            buffer: self.buffer@,
            queue: self.queue@.map_values(|i: PipeItem| i@),
            closed: self.closed,
            read_error: error_view(self.read_error),
            write_error: error_view(self.write_error),
            reading: self.reading,
        }
    }
}

/// A pipe through which nothing has passed.
pub open spec fn new_pipe() -> PipeView {
    PipeView {
        buffer: Seq::empty(),
        queue: Seq::empty(),
        closed: false,
        read_error: None,
        write_error: None,
        reading: false,
    }
}

/// What a read comes to.
#[derive(Debug)]
pub enum ReadStep {
    /// The bytes that were read; none at the end of the stream.
    Data(Vec<u8>),
    /// Nothing has arrived yet: the read waits and is to be resumed.
    Pending,
    /// The read failed.
    Failed(IoError),
}

/// The mathematical value of a [`ReadStep`].
pub enum ReadView {
    Data(Seq<u8>),
    Pending,
    Failed((ErrorKind, Seq<char>)),
}

impl View for ReadStep {
    type V = ReadView;

    open spec fn view(&self) -> ReadView {
        match self {
            ReadStep::Data(d) => ReadView::Data(d@),
            ReadStep::Pending => ReadView::Pending,
            ReadStep::Failed(e) => ReadView::Failed(e@),
        }
    }
}

/// How many of `len` bytes a read of at most `max` bytes takes.
pub open spec fn taken(len: nat, max: nat) -> int {
    if len < max {
        len as int
    } else {
        max as int
    }
}

/// What a read of at most `max` bytes gets from the queue, and the pipe it leaves.
pub open spec fn receive(p: PipeView, max: nat) -> (ReadView, PipeView) {
    if p.queue.len() > 0 {
        let rest = PipeView { queue: p.queue.skip(1), reading: false, ..p };
        match p.queue[0] {
            PipeItemView::Data(d) => {
                let n = taken(d.len(), max);
                (ReadView::Data(d.take(n)), PipeView { buffer: p.buffer + d.skip(n), ..rest })
            },
            PipeItemView::End(Some(e)) => (ReadView::Failed(e), rest),
            PipeItemView::End(None) => (ReadView::Data(Seq::empty()), rest),
        }
    } else if p.closed {
        let rest = PipeView { reading: false, ..p };
        match p.read_error {
            Some(e) => (ReadView::Failed(e), rest),
            None => (ReadView::Data(Seq::empty()), rest),
        }
    } else {
        (ReadView::Pending, PipeView { reading: true, ..p })
    }
}

/// What a read of at most `max` bytes gives, and the pipe it leaves: buffered bytes first, then
/// the queue. Only one read can wait on the queue.
pub open spec fn read(p: PipeView, max: nat) -> (ReadView, PipeView) {
    if p.buffer.len() > 0 {
        let n = taken(p.buffer.len(), max);
        (ReadView::Data(p.buffer.take(n)), PipeView { buffer: p.buffer.skip(n), ..p })
    } else if p.reading {
        (ReadView::Failed((ErrorKind::BrokenPipe, "Pipe reader already in use"@)), p)
    } else {
        receive(p, max)
    }
}

/// The pipe after a write of `data` that it accepts.
pub open spec fn write(p: PipeView, data: Seq<u8>) -> PipeView {
    PipeView { queue: p.queue.push(PipeItemView::Data(data)), ..p }
}

/// The pipe after the end of one logical stream.
pub open spec fn finish_stream(p: PipeView, error: Option<(ErrorKind, Seq<char>)>) -> PipeView {
    PipeView { queue: p.queue.push(PipeItemView::End(error)), ..p }
}

/// The pipe after it is closed from the reading side.
pub open spec fn close(p: PipeView, error: Option<(ErrorKind, Seq<char>)>) -> PipeView {
    PipeView { closed: true, read_error: error, ..p }
}

/// The first `max` bytes of `data`, and the rest.
fn split(data: Vec<u8>, max: usize) -> (r: (Vec<u8>, Vec<u8>))
    ensures
        r.0@ == data@.take(taken(data@.len(), max as nat)),
        r.1@ == data@.skip(taken(data@.len(), max as nat)),
{
    let mut head = data;
    let n: usize = if head.len() < max {
        head.len()
    } else {
        max
    };
    let rest = head.split_off(n);
    assert(rest@ =~= data@.skip(n as int));
    assert(head@ =~= data@.take(n as int));
    (head, rest)
}

impl PipeInner {
    /// A pipe through which nothing has passed.
    pub fn new() -> (p: PipeInner)
        ensures
            p@ == new_pipe(),
    {
        let p = PipeInner {
            buffer: Vec::new(),
            queue: VecDeque::new(),
            closed: false,
            read_error: None,
            write_error: None,
            reading: false,
        };
        assert(p@ =~= new_pipe());
        p
    }

    fn receive(&mut self, max: usize) -> (r: ReadStep)
        ensures
            (r@, final(self)@) == receive(old(self)@, max as nat),
    {
        let ghost before = self@;
        match self.queue.pop_front() {
            Some(item) => {
                self.reading = false;
                assert(self@.queue =~= before.queue.skip(1));
                match item {
                    PipeItem::Data(data) => {
                        let (head, mut rest) = split(data, max);
                        self.buffer.append(&mut rest);
                        ReadStep::Data(head)
                    },
                    PipeItem::End(Some(e)) => ReadStep::Failed(e),
                    PipeItem::End(None) => ReadStep::Data(Vec::new()),
                }
            },
            None => {
                if self.closed {
                    self.reading = false;
                    match &self.read_error {
                        Some(e) => ReadStep::Failed(e.clone()),
                        None => ReadStep::Data(Vec::new()),
                    }
                } else {
                    self.reading = true;
                    ReadStep::Pending
                }
            },
        }
    }

    /// Reads at most `max` bytes.
    pub fn read(&mut self, max: usize) -> (r: ReadStep)
        ensures
            (r@, final(self)@) == read(old(self)@, max as nat),
    {
        if self.buffer.len() > 0 {
            let mut buffer: Vec<u8> = Vec::new();
            buffer.append(&mut self.buffer);
            assert(buffer@ =~= old(self)@.buffer);
            let (head, rest) = split(buffer, max);
            self.buffer = rest;
            ReadStep::Data(head)
        } else if self.reading {
            ReadStep::Failed(IoError::new(ErrorKind::BrokenPipe, "Pipe reader already in use"))
        } else {
            self.receive(max)
        }
    }

    /// Goes on with a read of at most `max` bytes that is waiting.
    pub fn resume_read(&mut self, max: usize) -> (r: ReadStep)
        requires
            old(self)@.reading,
        ensures
            (r@, final(self)@) == receive(old(self)@, max as nat),
    {
        self.receive(max)
    }

    /// Queues `data` for the reader, all of it, unless the pipe is closed.
    pub fn write(&mut self, data: &[u8]) -> (r: Result<usize, IoError>)
        ensures
            match r {
                Ok(n) => !old(self)@.closed && n == data@.len() && final(self)@ == write(
                    old(self)@,
                    data@,
                ),
                Err(e) => old(self)@.closed && e@ == (ErrorKind::BrokenPipe, "Pipe closed"@)
                    && final(self)@ == old(self)@,
            },
    {
        if self.closed {
            return Err(IoError::new(ErrorKind::BrokenPipe, "Pipe closed"));
        }
        let copy = slice_to_vec(data);
        assert(copy@ =~= data@);
        self.queue.push_back(PipeItem::Data(copy));
        assert(self@.queue =~= write(old(self)@, data@).queue);
        Ok(data.len())
    }

    /// Ends the current logical stream: the reader sees one end, behind everything written so
    /// far, and the pipe can be used again.
    pub fn finish_stream(&mut self, error: Option<IoError>)
        ensures
            final(self)@ == finish_stream(old(self)@, error_view(error)),
    {
        let ghost e = error_view(error);
        self.queue.push_back(PipeItem::End(error));
        assert(self@.queue =~= finish_stream(old(self)@, e).queue);
    }

    /// Closes the pipe for good. What was written before can still be read; behind it the
    /// reader sees `error`, or the end of the stream if there is none.
    pub fn close_with_error(&mut self, error: Option<IoError>)
        ensures
            final(self)@ == close(old(self)@, error_view(error)),
    {
        self.read_error = error;
        self.closed = true;
    }

    /// Closes the pipe for good from the writing side. The reader sees a plain end of the
    /// stream unless it was told an error.
    pub fn close_write_with_error(&mut self, error: Option<IoError>)
        ensures
            final(self)@ == (PipeView {
                closed: true,
                write_error: error_view(error),
                ..old(self)@
            }),
    {
        self.write_error = error;
        self.closed = true;
    }
}

/// The bytes that one waiting item holds.
pub open spec fn item_bytes(item: PipeItemView) -> Seq<u8> {
    match item {
        PipeItemView::Data(d) => d,
        PipeItemView::End(_) => Seq::empty(),
    }
}

/// The bytes of the writes in `queue`, in order.
pub open spec fn queued(queue: Seq<PipeItemView>) -> Seq<u8>
    decreases queue.len(),
{
    if queue.len() == 0 {
        Seq::empty()
    } else {
        item_bytes(queue[0]) + queued(queue.skip(1))
    }
}

/// Everything that was written and not yet read.
pub open spec fn unread(p: PipeView) -> Seq<u8> {
    p.buffer + queued(p.queue)
}

proof fn queued_push(queue: Seq<PipeItemView>, item: PipeItemView)
    ensures
        queued(queue.push(item)) == queued(queue) + item_bytes(item),
    decreases queue.len(),
{
    let longer = queue.push(item);
    if queue.len() == 0 {
        assert(longer.skip(1) =~= queue);
        assert(item_bytes(item) + queued(queue) =~= queued(queue) + item_bytes(item));
    } else {
        assert(longer.skip(1) =~= queue.skip(1).push(item));
        queued_push(queue.skip(1), item);
        assert(queued(longer) =~= queued(queue) + item_bytes(item));
    }
}

/// A write puts its bytes behind everything that is still unread.
pub proof fn writes_queue_up(p: PipeView, data: Seq<u8>)
    ensures
        unread(write(p, data)) == unread(p) + data,
{
    queued_push(p.queue, PipeItemView::Data(data));
    assert(unread(write(p, data)) =~= unread(p) + data);
}

/// Ending a logical stream keeps every byte that was written before.
pub proof fn finishing_keeps_unread_bytes(
    p: PipeView,
    error: Option<(ErrorKind, Seq<char>)>,
)
    ensures
        unread(finish_stream(p, error)) == unread(p),
{
    queued_push(p.queue, PipeItemView::End(error));
    assert(unread(finish_stream(p, error)) =~= unread(p));
}

/// A read takes its bytes off the front of what is unread and loses nothing. A read that
/// fails or waits takes nothing.
pub proof fn reads_are_first_in_first_out(p: PipeView, max: nat)
    ensures
        match read(p, max).0 {
            ReadView::Data(d) => unread(p) == d + unread(read(p, max).1) && d.len() <= max,
            _ => unread(read(p, max).1) == unread(p),
        },
{
    let (r, after) = read(p, max);
    if p.buffer.len() > 0 {
        let n = taken(p.buffer.len(), max);
        assert(p.buffer =~= p.buffer.take(n) + p.buffer.skip(n));
        assert(unread(p) =~= p.buffer.take(n) + unread(after));
    } else if !p.reading && p.queue.len() > 0 {
        match p.queue[0] {
            PipeItemView::Data(d) => {
                let n = taken(d.len(), max);
                assert(unread(p) =~= d + queued(p.queue.skip(1)));
                assert(d =~= d.take(n) + d.skip(n));
                assert(unread(p) =~= d.take(n) + unread(after));
            },
            PipeItemView::End(_) => {
                assert(unread(p) =~= unread(after));
                assert(unread(p) =~= Seq::<u8>::empty() + unread(after));
            },
        }
    } else {
        assert(unread(p) =~= Seq::<u8>::empty() + unread(p));
    }
}

/// Closing a pipe cuts nothing off: what was written before is still read as if the pipe were
/// open. Once it is read empty, every read reports the error that the pipe was closed with, or
/// the end of the stream.
pub proof fn closing_cuts_nothing_off(
    p: PipeView,
    error: Option<(ErrorKind, Seq<char>)>,
    max: nat,
)
    requires
        !p.reading,
    ensures
        unread(close(p, error)) == unread(p),
        p.buffer.len() > 0 || p.queue.len() > 0 ==> read(close(p, error), max).0 == read(
            p,
            max,
        ).0,
        p.buffer.len() == 0 && p.queue.len() == 0 ==> read(close(p, error), max) == (
            match error {
                Some(e) => ReadView::Failed(e),
                None => ReadView::Data(Seq::empty()),
            },
            close(p, error),
        ),
{
}

/// One use of a pipe.
pub enum PipeCall {
    /// Bytes are written.
    Write(Seq<u8>),
    /// At most so many bytes are read. A read that was left waiting is taken up again.
    Read(nat),
    /// The pipe is closed from the reading side.
    Close(Option<(ErrorKind, Seq<char>)>),
}

/// What the next read of at most `max` bytes gives, and the pipe it leaves.
pub open spec fn next_read(p: PipeView, max: nat) -> (ReadView, PipeView) {
    if p.reading {
        receive(p, max)
    } else {
        read(p, max)
    }
}

/// The pipe after one call. A closed pipe accepts no writes.
pub open spec fn after_call(p: PipeView, call: PipeCall) -> PipeView {
    match call {
        PipeCall::Write(data) => if p.closed {
            p
        } else {
            write(p, data)
        },
        PipeCall::Read(max) => next_read(p, max).1,
        PipeCall::Close(error) => close(p, error),
    }
}

/// The pipe after several calls.
pub open spec fn after_calls(p: PipeView, calls: Seq<PipeCall>) -> PipeView
    decreases calls.len(),
{
    if calls.len() == 0 {
        p
    } else {
        after_call(after_calls(p, calls.drop_last()), calls.last())
    }
}

/// The bytes of the writes that were accepted, joined.
pub open spec fn all_written(p: PipeView, calls: Seq<PipeCall>) -> Seq<u8>
    decreases calls.len(),
{
    if calls.len() == 0 {
        Seq::empty()
    } else {
        all_written(p, calls.drop_last()) + match calls.last() {
            PipeCall::Write(data) => if after_calls(p, calls.drop_last()).closed {
                Seq::empty()
            } else {
                data
            },
            _ => Seq::empty(),
        }
    }
}

/// The bytes that were read, joined.
pub open spec fn all_read(p: PipeView, calls: Seq<PipeCall>) -> Seq<u8>
    decreases calls.len(),
{
    if calls.len() == 0 {
        Seq::empty()
    } else {
        all_read(p, calls.drop_last()) + match calls.last() {
            PipeCall::Read(max) => match next_read(after_calls(p, calls.drop_last()), max).0 {
                ReadView::Data(data) => data,
                _ => Seq::empty(),
            },
            _ => Seq::empty(),
        }
    }
}

/// Whether no write is empty.
pub open spec fn writes_say_something(calls: Seq<PipeCall>) -> bool {
    forall|i: int|
        0 <= i < calls.len() ==> ((#[trigger] calls[i]) matches PipeCall::Write(data)
            ==> data.len() > 0)
}

/// Whether the pipe is not closed.
pub open spec fn leaves_open(calls: Seq<PipeCall>) -> bool {
    forall|i: int| 0 <= i < calls.len() ==> !((#[trigger] calls[i]) is Close)
}

/// Whether only writes that say something wait in the queue, and nothing else if a read waits.
spec fn holds_writes(p: PipeView) -> bool {
    &&& p.reading ==> p.buffer.len() == 0
    &&& forall|i: int|
        0 <= i < p.queue.len() ==> ((#[trigger] p.queue[i]) matches PipeItemView::Data(d)
            && d.len() > 0)
}

proof fn next_read_takes_the_front(p: PipeView, max: nat)
    requires
        p.reading ==> p.buffer.len() == 0,
    ensures
        ({
            let (r, after) = next_read(p, max);
            &&& match r {
                ReadView::Data(d) => unread(p) == d + unread(after) && d.len() <= max,
                _ => unread(after) == unread(p),
            }
            &&& after.reading ==> after.buffer.len() == 0
            &&& after.closed == p.closed
            &&& after.read_error == p.read_error
        }),
{
    reads_are_first_in_first_out(PipeView { reading: false, ..p }, max);
    if !p.reading {
        assert((PipeView { reading: false, ..p }) == p);
    }
}

proof fn next_read_makes_progress(p: PipeView, max: nat)
    requires
        holds_writes(p),
        max > 0,
    ensures
        holds_writes(next_read(p, max).1),
        match next_read(p, max).0 {
            ReadView::Data(d) => if unread(p).len() > 0 {
                d.len() > 0
            } else {
                d.len() == 0 && p.closed && p.read_error is None
            },
            ReadView::Pending => unread(p).len() == 0 && !p.closed,
            ReadView::Failed(e) => unread(p).len() == 0 && p.closed && p.read_error == Some(e),
        },
{
    if p.queue.len() > 0 {
        assert(p.queue[0] is Data);
    }
}

proof fn calls_keep_the_order(calls: Seq<PipeCall>)
    ensures
        ({
            let p = after_calls(new_pipe(), calls);
            &&& all_read(new_pipe(), calls) + unread(p) == all_written(new_pipe(), calls)
            &&& p.reading ==> p.buffer.len() == 0
        }),
    decreases calls.len(),
{
    let none = Seq::<u8>::empty();
    if calls.len() == 0 {
        assert(none + unread(new_pipe()) =~= none);
    } else {
        let earlier = calls.drop_last();
        let p = after_calls(new_pipe(), earlier);
        let r = all_read(new_pipe(), earlier);
        let w = all_written(new_pipe(), earlier);
        calls_keep_the_order(earlier);
        assert(r + none =~= r && w + none =~= w);
        match calls.last() {
            PipeCall::Write(data) => {
                if !p.closed {
                    writes_queue_up(p, data);
                    assert(r + (unread(p) + data) =~= w + data);
                }
            },
            PipeCall::Read(max) => {
                next_read_takes_the_front(p, max);
                let (got, after) = next_read(p, max);
                if let ReadView::Data(d) = got {
                    assert((r + d) + unread(after) =~= r + (d + unread(after)));
                }
            },
            PipeCall::Close(_) => {},
        }
    }
}

/// Whatever is done with a pipe, what was read from it and what can still be read is what was
/// written to it, in order: nothing is lost, nothing comes twice.
pub proof fn pipes_are_first_in_first_out(calls: Seq<PipeCall>)
    ensures
        all_read(new_pipe(), calls) + unread(after_calls(new_pipe(), calls)) == all_written(
            new_pipe(),
            calls,
        ),
{
    calls_keep_the_order(calls);
}

/// Whether every read has room for a byte.
pub open spec fn reads_have_room(calls: Seq<PipeCall>) -> bool {
    forall|i: int|
        0 <= i < calls.len() ==> ((#[trigger] calls[i]) matches PipeCall::Read(max) ==> max > 0)
}

proof fn queue_holds_writes(calls: Seq<PipeCall>)
    requires
        writes_say_something(calls),
        reads_have_room(calls),
    ensures
        holds_writes(after_calls(new_pipe(), calls)),
    decreases calls.len(),
{
    if calls.len() > 0 {
        let earlier = calls.drop_last();
        assert forall|i: int| 0 <= i < earlier.len() implies earlier[i] == #[trigger] calls[i] by {}
        assert(calls[calls.len() - 1] == calls.last());
        assert(writes_say_something(earlier)) by {
            assert forall|i: int| 0 <= i < earlier.len() implies ((
            #[trigger] earlier[i]) matches PipeCall::Write(data) ==> data.len() > 0) by {
                assert(earlier[i] == calls[i]);
            }
        }
        assert(reads_have_room(earlier)) by {
            assert forall|i: int| 0 <= i < earlier.len() implies ((
            #[trigger] earlier[i]) matches PipeCall::Read(max) ==> max > 0) by {
                assert(earlier[i] == calls[i]);
            }
        }
        queue_holds_writes(earlier);
        if let PipeCall::Read(max) = calls.last() {
            next_read_makes_progress(after_calls(new_pipe(), earlier), max);
        }
    }
}

proof fn closing_is_for_good(p: PipeView, rest: Seq<PipeCall>)
    requires
        p.closed,
        p.reading ==> p.buffer.len() == 0,
        leaves_open(rest),
    ensures
        after_calls(p, rest).closed,
        after_calls(p, rest).read_error == p.read_error,
        after_calls(p, rest).reading ==> after_calls(p, rest).buffer.len() == 0,
        all_written(p, rest) == Seq::<u8>::empty(),
    decreases rest.len(),
{
    if rest.len() > 0 {
        let earlier = rest.drop_last();
        assert(rest[rest.len() - 1] == rest.last());
        assert(leaves_open(earlier)) by {
            assert forall|i: int| 0 <= i < earlier.len() implies !((
            #[trigger] earlier[i]) is Close) by {
                assert(earlier[i] == rest[i]);
            }
        }
        closing_is_for_good(p, earlier);
        assert(Seq::<u8>::empty() + Seq::<u8>::empty() =~= Seq::<u8>::empty());
        if let PipeCall::Read(max) = rest.last() {
            next_read_takes_the_front(after_calls(p, earlier), max);
        }
    }
}

proof fn calls_can_be_split(p: PipeView, a: Seq<PipeCall>, b: Seq<PipeCall>)
    ensures
        after_calls(p, a + b) == after_calls(after_calls(p, a), b),
        all_written(p, a + b) == all_written(p, a) + all_written(after_calls(p, a), b),
    decreases b.len(),
{
    if b.len() == 0 {
        assert(a + b =~= a);
        assert(all_written(p, a) + Seq::<u8>::empty() =~= all_written(p, a));
    } else {
        calls_can_be_split(p, a, b.drop_last());
        assert((a + b).drop_last() =~= a + b.drop_last());
        assert((a + b).last() == b.last());
        assert(all_written(p, a + b) =~= all_written(p, a) + all_written(after_calls(p, a), b));
    }
}

/// A pipe that is used, then closed with `error`, and then used further gives all that was
/// written before it was closed, in order, and then the error, or the end of the stream if there
/// is none. As long as bytes are left, a read with room for `max` bytes gives at least one and
/// at most `max`; behind them every read tells how the pipe was closed.
pub proof fn closed_pipes_are_read_to_the_end(
    before: Seq<PipeCall>,
    error: Option<(ErrorKind, Seq<char>)>,
    rest: Seq<PipeCall>,
    max: nat,
)
    requires
        writes_say_something(before + seq![PipeCall::Close(error)] + rest),
        reads_have_room(before + seq![PipeCall::Close(error)] + rest),
        leaves_open(rest),
        max > 0,
    ensures
        ({
            let calls = before + seq![PipeCall::Close(error)] + rest;
            let p = after_calls(new_pipe(), calls);
            &&& all_read(new_pipe(), calls) + unread(p) == all_written(new_pipe(), before)
            &&& match next_read(p, max).0 {
                ReadView::Data(d) => if unread(p).len() > 0 {
                    1 <= d.len() <= max
                } else {
                    d.len() == 0 && error is None
                },
                ReadView::Failed(e) => unread(p).len() == 0 && error == Some(e),
                ReadView::Pending => false,
            }
        }),
{
    let closing = seq![PipeCall::Close(error)];
    let calls = before + closing + rest;
    let p = after_calls(new_pipe(), calls);
    let used = after_calls(new_pipe(), before);
    let closed = after_calls(new_pipe(), before + closing);
    calls_keep_the_order(before);
    calls_keep_the_order(calls);
    assert((before + closing).drop_last() =~= before);
    assert(closed == close(used, error));
    assert(all_written(new_pipe(), before + closing) =~= all_written(new_pipe(), before));
    calls_can_be_split(new_pipe(), before + closing, rest);
    closing_is_for_good(closed, rest);
    assert(all_written(new_pipe(), before) + Seq::<u8>::empty() =~= all_written(
        new_pipe(),
        before,
    ));
    queue_holds_writes(calls);
    next_read_makes_progress(p, max);
    next_read_takes_the_front(p, max);
}

proof fn reads_empty_the_pipe(p: PipeView, rest: Seq<PipeCall>)
    requires
        holds_writes(p),
        reads_have_room(rest),
        forall|i: int| 0 <= i < rest.len() ==> (#[trigger] rest[i]) is Read,
    ensures
        holds_writes(after_calls(p, rest)),
        rest.len() >= unread(p).len() ==> unread(after_calls(p, rest)).len() == 0,
        rest.len() < unread(p).len() ==> unread(after_calls(p, rest)).len() <= unread(p).len()
            - rest.len(),
    decreases rest.len(),
{
    if rest.len() > 0 {
        let earlier = rest.drop_last();
        assert(rest[rest.len() - 1] == rest.last());
        assert(reads_have_room(earlier)) by {
            assert forall|i: int| 0 <= i < earlier.len() implies ((
            #[trigger] earlier[i]) matches PipeCall::Read(max) ==> max > 0) by {
                assert(earlier[i] == rest[i]);
            }
        }
        assert forall|i: int| 0 <= i < earlier.len() implies (#[trigger] earlier[i]) is Read by {
            assert(earlier[i] == rest[i]);
        }
        reads_empty_the_pipe(p, earlier);
        let q = after_calls(p, earlier);
        if let PipeCall::Read(max) = rest.last() {
            next_read_makes_progress(q, max);
            next_read_takes_the_front(q, max);
        }
    }
}

/// One read for each byte that was written is enough to read everything, whatever the sizes of
/// the buffers, also after the pipe was closed.
pub proof fn enough_reads_read_everything(before: Seq<PipeCall>, rest: Seq<PipeCall>)
    requires
        writes_say_something(before),
        reads_have_room(before),
        reads_have_room(rest),
        forall|i: int| 0 <= i < rest.len() ==> (#[trigger] rest[i]) is Read,
        rest.len() >= all_written(new_pipe(), before).len(),
    ensures
        all_read(new_pipe(), before + rest) == all_written(new_pipe(), before),
{
    let p = after_calls(new_pipe(), before);
    calls_keep_the_order(before);
    calls_keep_the_order(before + rest);
    queue_holds_writes(before);
    reads_empty_the_pipe(p, rest);
    calls_can_be_split(new_pipe(), before, rest);
    reads_write_nothing(p, rest);
    let all = all_read(new_pipe(), before + rest);
    assert(all + unread(after_calls(p, rest)) =~= all);
    assert(all_written(new_pipe(), before) + Seq::<u8>::empty() =~= all_written(
        new_pipe(),
        before,
    ));
}

proof fn reads_write_nothing(p: PipeView, rest: Seq<PipeCall>)
    requires
        forall|i: int| 0 <= i < rest.len() ==> (#[trigger] rest[i]) is Read,
    ensures
        all_written(p, rest) == Seq::<u8>::empty(),
    decreases rest.len(),
{
    if rest.len() > 0 {
        let earlier = rest.drop_last();
        assert(rest[rest.len() - 1] == rest.last());
        assert forall|i: int| 0 <= i < earlier.len() implies (#[trigger] earlier[i]) is Read by {
            assert(earlier[i] == rest[i]);
        }
        reads_write_nothing(p, earlier);
        assert(Seq::<u8>::empty() + Seq::<u8>::empty() =~= Seq::<u8>::empty());
    }
}

} // verus!
