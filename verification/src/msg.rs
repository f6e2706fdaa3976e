//! The stream identifiers, error kinds and progress messages that the
//! communication protocol consumes.
//!
//! Whichever backend produces the events — a readiness-polling loop or one
//! worker thread per stream — it reports progress as [`Message`] values: a
//! chunk of bytes read from a stream, an end-of-stream marker, or a terminal
//! I/O failure.

use vstd::prelude::*;

verus! {

/// Which of the three child-process streams a message speaks of.
#[derive(Clone, Copy, Debug, PartialEq, Eq, Structural)]
pub enum StreamIdent {
    /// The write end of the child's standard input.
    Stdin,
    /// The read end of the child's standard output.
    Stdout,
    /// The read end of the child's standard error.
    Stderr,
}

/// The kind of an underlying I/O failure, mirroring the operating-system
/// error classes the runtime can observe on a pipe.
#[derive(Clone, Copy, Debug, PartialEq, Eq, Structural)]
pub enum IoKind {
    /// The time budget of a single `read` call elapsed; recoverable by
    /// calling `read` again.
    TimedOut,
    /// The other end of the pipe was closed.
    BrokenPipe,
    /// The operation was interrupted before completing.
    Interrupted,
    /// Any other operating-system failure.
    Other,
}

/// What a stream reported: bytes, a clean end, or a failure.
pub enum Payload {
    /// A chunk of bytes read from the stream; never empty.
    Data(Vec<u8>),
    /// The stream ended: a zero-length read, or the whole input was written.
    Eof,
    /// A terminal I/O failure on the stream.
    Failed(IoKind),
}

/// One unit of progress on one stream.
pub struct Message {
    /// The stream the payload belongs to.
    pub ident: StreamIdent,
    /// What that stream reported.
    pub payload: Payload,
}

} // verus!
