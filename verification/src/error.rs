//! Errors that carry a kind and a message.
use vstd::prelude::*;

verus! {

/// What went wrong, in the terms that callers act on.
#[derive(Debug, Clone, Copy, PartialEq, Eq, Structural)]
pub enum ErrorKind {
    BrokenPipe,
    UnexpectedEof,
    WouldBlock,
    InvalidInput,
    InvalidData,
    Other,
}

/// An error of a session, a pipe or a packet codec.
#[derive(Debug)]
pub struct IoError {
    pub kind: ErrorKind,
    pub message: String,
}

impl View for IoError {
    type V = (ErrorKind, Seq<char>);

    open spec fn view(&self) -> (ErrorKind, Seq<char>) {
        (self.kind, self.message@)
    }
}

impl Clone for IoError {
    fn clone(&self) -> (e: IoError)
        ensures
            e@ == self@,
    {
        IoError { kind: self.kind, message: self.message.clone() }
    }
}

impl IoError {
    /// An error of kind `kind` that says `message`.
    pub fn new(kind: ErrorKind, message: &str) -> (e: IoError)
        ensures
            e@ == (kind, message@),
    {
        IoError { kind, message: message.to_owned() }
    }

    /// An error of no particular kind that says `message`.
    pub fn other(message: &str) -> (e: IoError)
        ensures
            e@ == (ErrorKind::Other, message@),
    {
        IoError { kind: ErrorKind::Other, message: message.to_owned() }
    }
}

/// Whether `err` only says that the peer ended the logical stream.
pub fn is_logical_stream_end(err: &IoError) -> (b: bool)
    ensures
        b <==> err.kind is UnexpectedEof || err.kind is BrokenPipe,
{
    match err.kind {
        ErrorKind::UnexpectedEof | ErrorKind::BrokenPipe => true,
        _ => false,
    }
}

} // verus!
