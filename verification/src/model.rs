//! The mathematical model of a communication session.
//!
//! [`CommModel`] is the view of the executable [`crate::comm::Communicator`]:
//! which streams were requested, which are still active, the unwritten input
//! with its cursor, the fragment held back by a quota, the bytes captured by
//! the current call, and the configured limits.  The spec functions here give
//! the protocol's semantics — what one message does to the state ([`step`]),
//! how a call starts ([`begin`]) and how a whole call unfolds over a sequence
//! of messages ([`run`]) — and the executable code is specified against them.

use crate::msg::{IoKind, Message, Payload, StreamIdent};
use vstd::prelude::*;

verus! {

/// The state of a communication session, as contracts speak of it.
pub struct CommModel {
    /// Standard input was requested at construction.
    pub req_in: bool,
    /// Standard output was requested at construction.
    pub req_out: bool,
    /// Standard error was requested at construction.
    pub req_err: bool,
    /// Input is still being written.
    pub act_in: bool,
    /// Standard output has not yet reached end-of-stream or failed.
    pub act_out: bool,
    /// Standard error has not yet reached end-of-stream or failed.
    pub act_err: bool,
    /// The input payload.
    pub input: Seq<u8>,
    /// How many input bytes have been written so far.
    pub pos: int,
    /// A fragment received but not admitted by an earlier call's quota,
    /// replayed at the start of the next call.
    pub leftover: Option<(StreamIdent, Seq<u8>)>,
    /// Standard-output bytes captured by the current call.
    pub out: Seq<u8>,
    /// Standard-error bytes captured by the current call.
    pub err: Seq<u8>,
    /// The byte quota of a single call, if one was configured.
    pub size_limit: Option<usize>,
    /// The time budget of a single call in milliseconds, if one was
    /// configured; enforced by the runtime, not by the protocol itself.
    pub time_limit: Option<u64>,
}

/// A session as construction leaves it: every piped stream is active, the
/// cursor is at the start of the input, nothing is captured or held back,
/// and no limit is configured.
pub open spec fn fresh(stdin: bool, stdout: bool, stderr: bool, input: Seq<u8>) -> CommModel {
    CommModel {
        req_in: stdin,
        req_out: stdout,
        req_err: stderr,
        act_in: stdin,
        act_out: stdout,
        act_err: stderr,
        input,
        pos: 0,
        leftover: None,
        out: Seq::empty(),
        err: Seq::empty(),
        size_limit: None,
        time_limit: None,
    }
}

/// Whether `id` was requested at construction.
pub open spec fn requested(m: CommModel, id: StreamIdent) -> bool {
    match id {
        StreamIdent::Stdin => m.req_in,
        StreamIdent::Stdout => m.req_out,
        StreamIdent::Stderr => m.req_err,
    }
}

/// Whether any stream still has work to do.
pub open spec fn active_any(m: CommModel) -> bool {
    m.act_in || m.act_out || m.act_err
}

/// The combined number of bytes the current call has captured.
pub open spec fn total_captured(m: CommModel) -> int {
    m.out.len() + m.err.len() as int
}

/// Whether the current call's combined capture has reached the quota.
pub open spec fn quota_hit(m: CommModel) -> bool {
    m.size_limit matches Some(l) && total_captured(m) >= l
}

/// The session invariant: the cursor stays inside the input, activity and
/// captures only belong to requested streams, and a held-back fragment is a
/// nonempty piece of a requested output stream.
pub open spec fn wf(m: CommModel) -> bool {
    &&& 0 <= m.pos <= m.input.len()
    &&& (m.act_in ==> m.req_in)
    &&& (m.act_out ==> m.req_out)
    &&& (m.act_err ==> m.req_err)
    &&& (!m.req_in ==> m.input.len() == 0)
    &&& (!m.req_out ==> m.out.len() == 0)
    &&& (!m.req_err ==> m.err.len() == 0)
    &&& (m.leftover matches Some((id, d)) ==> {
        &&& requested(m, id)
        &&& id !is Stdin
        &&& d.len() > 0
    })
}

/// A message the protocol accepts: it speaks of a requested stream, and a
/// data chunk is nonempty and never comes from standard input.
pub open spec fn msg_wf(m: CommModel, msg: Message) -> bool {
    &&& requested(m, msg.ident)
    &&& (msg.payload matches Payload::Data(d) ==> msg.ident !is Stdin && d@.len() > 0)
}

/// Every message of the sequence is acceptable.
pub open spec fn msgs_wf(m: CommModel, msgs: Seq<Message>) -> bool {
    forall|i: int| 0 <= i < msgs.len() ==> #[trigger] msg_wf(m, msgs[i])
}

/// Absorb a chunk of `id` against the quota: the prefix that still fits is
/// appended to that stream's capture, and a remainder, if any, is held back
/// as the leftover fragment.
pub open spec fn absorb(m: CommModel, id: StreamIdent, data: Seq<u8>) -> CommModel {
    let take = match m.size_limit {
        Some(l) => if total_captured(m) >= l {
            0
        } else if data.len() <= l - total_captured(m) {
            data.len() as int
        } else {
            l - total_captured(m)
        },
        None => data.len() as int,
    };
    let grown = if id is Stdout {
        CommModel { out: m.out + data.take(take), ..m }
    } else {
        CommModel { err: m.err + data.take(take), ..m }
    };
    if take < data.len() {
        CommModel { leftover: Some((id, data.skip(take))), ..grown }
    } else {
        grown
    }
}

/// Mark `id` terminal: end-of-stream was reached, the input was fully
/// written, or the stream failed.
pub open spec fn clear_active(m: CommModel, id: StreamIdent) -> CommModel {
    match id {
        StreamIdent::Stdin => CommModel { act_in: false, ..m },
        StreamIdent::Stdout => CommModel { act_out: false, ..m },
        StreamIdent::Stderr => CommModel { act_err: false, ..m },
    }
}

/// What one message does to the state: data is admitted against the quota;
/// end-of-stream and failure both end the stream's activity.
pub open spec fn step(m: CommModel, msg: Message) -> CommModel {
    match msg.payload {
        Payload::Data(d) => absorb(m, msg.ident, d@),
        Payload::Eof => clear_active(m, msg.ident),
        Payload::Failed(_) => clear_active(m, msg.ident),
    }
}

/// How a call starts: the capture buffers are emptied, and the fragment a
/// previous call held back is replayed first.
pub open spec fn begin(m: CommModel) -> CommModel {
    let fresh = CommModel { out: Seq::empty(), err: Seq::empty(), ..m };
    match m.leftover {
        Some((id, d)) => absorb(CommModel { leftover: None, ..fresh }, id, d),
        None => fresh,
    }
}

/// What no `read` call ever changes: which streams were requested and the
/// configured limits.
pub open spec fn same_session(a: CommModel, b: CommModel) -> bool {
    &&& a.req_in == b.req_in
    &&& a.req_out == b.req_out
    &&& a.req_err == b.req_err
    &&& a.size_limit == b.size_limit
    &&& a.time_limit == b.time_limit
}

/// Why a call stopped consuming messages.
#[derive(Clone, Copy, Debug, PartialEq, Eq, Structural)]
pub enum RunStop {
    /// Every requested stream reached a terminal state.
    Done,
    /// The byte quota was reached, or a fragment is already held back; the
    /// call returns what it captured and keeps the rest for the next call.
    Cut,
    /// Streams are still active but no message is left: the call's time
    /// budget elapsed while waiting.
    Starved,
    /// A stream reported a terminal I/O failure of this kind.
    Failed(IoKind),
}

/// How a whole call unfolds over the messages the backend delivers, after
/// [`begin`]: the state it stops in, how many messages it consumed, and why
/// it stopped.
pub open spec fn run(m: CommModel, msgs: Seq<Message>) -> (CommModel, int, RunStop)
    decreases msgs.len(),
{
    if !active_any(m) {
        (m, 0, RunStop::Done)
    } else if quota_hit(m) || m.leftover is Some {
        (m, 0, RunStop::Cut)
    } else if msgs.len() == 0 {
        (m, 0, RunStop::Starved)
    } else {
        match msgs[0].payload {
            Payload::Failed(k) => (clear_active(m, msgs[0].ident), 1, RunStop::Failed(k)),
            _ => {
                let rest = run(step(m, msgs[0]), msgs.skip(1));
                (rest.0, 1 + rest.1, rest.2)
            },
        }
    }
}

/// The current call's capture of output stream `id`.
pub open spec fn captured(m: CommModel, id: StreamIdent) -> Seq<u8> {
    if id is Stdout {
        m.out
    } else {
        m.err
    }
}

/// The bytes held back for `id`, if the leftover fragment belongs to it.
pub open spec fn held(m: CommModel, id: StreamIdent) -> Seq<u8> {
    match m.leftover {
        Some((j, d)) => if j == id {
            d
        } else {
            Seq::empty()
        },
        None => Seq::empty(),
    }
}

/// All bytes the backend delivered for `id` in `msgs`, in order.
pub open spec fn delivered(msgs: Seq<Message>, id: StreamIdent) -> Seq<u8>
    decreases msgs.len(),
{
    if msgs.len() == 0 {
        Seq::empty()
    } else {
        let head = match msgs[0].payload {
            Payload::Data(d) => if msgs[0].ident == id {
                d@
            } else {
                Seq::<u8>::empty()
            },
            _ => Seq::<u8>::empty(),
        };
        head + delivered(msgs.skip(1), id)
    }
}

/// How many input bytes the next bounded write may carry: at most one
/// pipe-buffer-safe chunk, and never past the end of the input.
pub open spec fn write_chunk_len(m: CommModel) -> int {
    let rem = m.input.len() - m.pos;
    if rem <= crate::readiness::CHUNK_SIZE {
        rem
    } else {
        crate::readiness::CHUNK_SIZE as int
    }
}

/// The cursor after a bounded write accepted `n` bytes: once the whole
/// input is written, standard input turns terminal and the payload is
/// released, so the child observes end-of-input.
pub open spec fn input_written(m: CommModel, n: int) -> CommModel {
    if m.pos + n == m.input.len() {
        CommModel { act_in: false, input: Seq::empty(), pos: 0, ..m }
    } else {
        CommModel { pos: m.pos + n, ..m }
    }
}

/// How many bytes the next bounded read may ask for: at most one chunk, and
/// no more than the quota still admits — so a readiness backend never reads
/// bytes it would have to hold back.
pub open spec fn read_budget(m: CommModel) -> int {
    let room = match m.size_limit {
        Some(l) => if total_captured(m) >= l {
            0
        } else {
            l - total_captured(m)
        },
        None => crate::readiness::CHUNK_SIZE as int,
    };
    if room <= crate::readiness::CHUNK_SIZE {
        room
    } else {
        crate::readiness::CHUNK_SIZE as int
    }
}

/// The view of an executable capture pair.
pub open spec fn capture_view(c: (Option<Vec<u8>>, Option<Vec<u8>>)) -> (
    Option<Seq<u8>>,
    Option<Seq<u8>>,
) {
    (
        match c.0 {
            Some(v) => Some(v@),
            None => None,
        },
        match c.1 {
            Some(v) => Some(v@),
            None => None,
        },
    )
}

/// What the caller gets back: a capture is present exactly for the streams
/// requested at construction.
pub open spec fn capture_of(m: CommModel) -> (Option<Seq<u8>>, Option<Seq<u8>>) {
    (
        if m.req_out {
            Some(m.out)
        } else {
            None
        },
        if m.req_err {
            Some(m.err)
        } else {
            None
        },
    )
}

} // verus!
