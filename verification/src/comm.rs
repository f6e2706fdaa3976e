//! The communicator: one session of deadlock-free, resumable communication
//! with a child process.
//!
//! The session owns no file handles; the runtime that does performs the
//! polls, reads, writes and waits, and reports each piece of progress as a
//! [`Message`].  The communicator makes every decision: which streams still
//! need service, how large the next input chunk may be, how much of a
//! delivered chunk the byte quota admits, what is held back for the next
//! call, and what the caller gets.  Every function is specified against the
//! model in [`crate::model`].

use crate::model;
use crate::model::{CommModel, RunStop};
use crate::msg::{IoKind, Message, Payload, StreamIdent};
use vstd::prelude::*;

verus! {

/// A session of communication with a child process: which streams were
/// requested, how far the input has been written, what the current call has
/// captured, and what an earlier call held back.
pub struct Communicator {
    req_in: bool,
    req_out: bool,
    req_err: bool,
    act_in: bool,
    act_out: bool,
    act_err: bool,
    input_data: Vec<u8>,
    input_pos: usize,
    leftover: Option<(StreamIdent, Vec<u8>)>,
    outvec: Vec<u8>,
    errvec: Vec<u8>,
    size_limit: Option<usize>,
    time_limit: Option<u64>,
}

impl View for Communicator {
    type V = CommModel;

    closed spec fn view(&self) -> CommModel {
        CommModel {
            req_in: self.req_in,
            req_out: self.req_out,
            req_err: self.req_err,
            act_in: self.act_in,
            act_out: self.act_out,
            act_err: self.act_err,
            input: self.input_data@,
            pos: self.input_pos as int,
            leftover: match self.leftover {
                Some((id, d)) => Some((id, d@)),
                None => None,
            },
            out: self.outvec@,
            err: self.errvec@,
            size_limit: self.size_limit,
            time_limit: self.time_limit,
        }
    }
}

impl Communicator {
    /// Open a session.  Each flag says whether the corresponding stream of
    /// the child is piped to this session; an input payload comes if and
    /// only if standard input does.
    pub fn new(
        stdin: bool,
        stdout: bool,
        stderr: bool,
        input_data: Option<Vec<u8>>,
    ) -> (c: Communicator)
        requires
            stdin <==> input_data is Some,
        ensures
            c@ == model::fresh(
                stdin,
                stdout,
                stderr,
                match input_data {
                    Some(d) => d@,
                    None => Seq::<u8>::empty(),
                },
            ),
            model::wf(c@),
    {
        let input_data = match input_data {
            Some(d) => d,
            None => Vec::new(),
        };
        Communicator {
            req_in: stdin,
            req_out: stdout,
            req_err: stderr,
            act_in: stdin,
            act_out: stdout,
            act_err: stderr,
            input_data,
            input_pos: 0,
            leftover: None,
            outvec: Vec::new(),
            errvec: Vec::new(),
            size_limit: None,
            time_limit: None,
        }
    }

    /// Bound the combined number of bytes the next `read` calls may capture.
    pub fn limit_size(self, size: usize) -> (c: Communicator)
        ensures
            c@ == (CommModel { size_limit: Some(size), ..self@ }),
    {
        Communicator { size_limit: Some(size), ..self }
    }

    /// Bound the wall-clock time, in milliseconds, the runtime may spend in
    /// one `read` call.  The protocol itself records the budget; the runtime
    /// turns it into a deadline and stops waiting when it passes.
    pub fn limit_time(self, time_ms: u64) -> (c: Communicator)
        ensures
            c@ == (CommModel { time_limit: Some(time_ms), ..self@ }),
    {
        Communicator { time_limit: Some(time_ms), ..self }
    }

    /// The configured time budget in milliseconds, for the runtime to turn
    /// into a deadline.
    pub fn time_limit_ms(&self) -> (r: Option<u64>)
        ensures
            r == self@.time_limit,
    {
        self.time_limit
    }
}

/// Open a session with a child whose streams the runtime has redirected.
/// An input payload must come if and only if standard input is piped.
pub fn communicate(
    stdin: bool,
    stdout: bool,
    stderr: bool,
    input_data: Option<Vec<u8>>,
) -> (c: Communicator)
    requires
        stdin <==> input_data is Some,
    ensures
        c@ == model::fresh(
            stdin,
            stdout,
            stderr,
            match input_data {
                Some(d) => d@,
                None => Seq::<u8>::empty(),
            },
        ),
        model::wf(c@),
{
    Communicator::new(stdin, stdout, stderr, input_data)
}

/// Append `src[from..to]` to `dest`.
fn push_range(dest: &mut Vec<u8>, src: &Vec<u8>, from: usize, to: usize)
    requires
        from <= to <= src@.len(),
    ensures
        final(dest)@ == old(dest)@ + src@.subrange(from as int, to as int),
{
    let mut i: usize = from;
    proof {
        assert(dest@ =~= dest@ + src@.subrange(from as int, from as int));
    }
    while i < to
        invariant
            from <= i <= to <= src@.len(),
            dest@ == old(dest)@ + src@.subrange(from as int, i as int),
        decreases to - i,
    {
        dest.push(src[i]);
        proof {
            assert(src@.subrange(from as int, (i + 1) as int) =~= src@.subrange(
                from as int,
                i as int,
            ).push(src@[i as int]));
        }
        i += 1;
    }
}

impl Communicator {
    /// Whether any requested stream still has work to do: until this turns
    /// false, `read` calls have something left to wait for.
    pub fn is_active(&self) -> (r: bool)
        ensures
            r == model::active_any(self@),
    {
        self.act_in || self.act_out || self.act_err
    }

    /// Whether the current call's combined capture has reached the
    /// configured byte quota.
    pub fn quota_hit(&self) -> (r: bool)
        ensures
            r == model::quota_hit(self@),
    {
        match self.size_limit {
            None => false,
            Some(l) => match self.outvec.len().checked_add(self.errvec.len()) {
                None => true,
                Some(total) => total >= l,
            },
        }
    }

    /// Whether an earlier call held back a fragment that the next call will
    /// replay before waiting for new data.
    pub fn has_leftover(&self) -> (r: bool)
        ensures
            r == (self@.leftover is Some),
    {
        self.leftover.is_some()
    }

    /// Mark a stream terminal.
    fn clear_stream(&mut self, id: StreamIdent)
        ensures
            final(self)@ == model::clear_active(old(self)@, id),
    {
        match id {
            StreamIdent::Stdin => self.act_in = false,
            StreamIdent::Stdout => self.act_out = false,
            StreamIdent::Stderr => self.act_err = false,
        }
    }

    /// Absorb a delivered chunk against the quota: append the prefix that
    /// still fits to the stream's capture and hold the remainder back.
    fn absorb_chunk(&mut self, id: StreamIdent, data: &Vec<u8>)
        requires
            model::wf(old(self)@),
            id !is Stdin,
            model::requested(old(self)@, id),
            data@.len() > 0,
        ensures
            final(self)@ == model::absorb(old(self)@, id, data@),
            model::wf(final(self)@),
    {
        let take: usize = match self.size_limit {
            None => data.len(),
            Some(l) => match self.outvec.len().checked_add(self.errvec.len()) {
                None => 0,
                Some(total) => if total >= l {
                    0
                } else if data.len() <= l - total {
                    data.len()
                } else {
                    l - total
                },
            },
        };
        proof {
            assert(data@.take(take as int) =~= data@.subrange(0, take as int));
        }
        match id {
            StreamIdent::Stdout => push_range(&mut self.outvec, data, 0, take),
            StreamIdent::Stderr => push_range(&mut self.errvec, data, 0, take),
            StreamIdent::Stdin => proof {
                assert(false);
            },
        }
        if take < data.len() {
            let mut rest: Vec<u8> = Vec::new();
            push_range(&mut rest, data, take, data.len());
            proof {
                assert(rest@ =~= data@.skip(take as int));
            }
            self.leftover = Some((id, rest));
        }
    }

    /// Start a `read` call: empty the capture buffers and replay the
    /// fragment a previous call held back.  The result says whether the call
    /// may go on to consume messages: it is false when the replay already
    /// filled the quota.
    pub fn begin_read(&mut self) -> (more: bool)
        requires
            model::wf(old(self)@),
        ensures
            final(self)@ == model::begin(old(self)@),
            model::wf(final(self)@),
            more == (final(self)@.leftover is None && !model::quota_hit(final(self)@)),
    {
        self.outvec = Vec::new();
        self.errvec = Vec::new();
        let lo = self.leftover.take();
        match lo {
            Some((id, d)) => self.absorb_chunk(id, &d),
            None => {},
        }
        !self.has_leftover() && !self.quota_hit()
    }
}

/// What one message did to the call, as the runtime's receive loop sees it.
#[derive(Clone, Copy, Debug, PartialEq, Eq, Structural)]
pub enum Step {
    /// The call goes on: wait for the next message.
    Continue,
    /// The quota was reached; the call returns what it captured and holds
    /// the rest for the next call.
    Reached,
    /// A stream failed with this kind; the call returns the failure together
    /// with its partial capture.
    Broken(IoKind),
}

impl Communicator {
    /// Consume one message from a backend: admit data against the quota,
    /// mark a finished or failed stream terminal, and say how the call goes
    /// on.
    pub fn handle_msg(&mut self, msg: &Message) -> (st: Step)
        requires
            model::wf(old(self)@),
            model::msg_wf(old(self)@, *msg),
            old(self)@.leftover is None,
            !model::quota_hit(old(self)@),
        ensures
            final(self)@ == model::step(old(self)@, *msg),
            model::wf(final(self)@),
            msg.payload matches Payload::Failed(k) ==> st == Step::Broken(k),
            msg.payload !is Failed ==> st == (if model::quota_hit(final(self)@)
                || final(self)@.leftover is Some {
                Step::Reached
            } else {
                Step::Continue
            }),
    {
        match &msg.payload {
            Payload::Data(d) => {
                self.absorb_chunk(msg.ident, d);
                if self.quota_hit() || self.has_leftover() {
                    Step::Reached
                } else {
                    Step::Continue
                }
            },
            Payload::Eof => {
                self.clear_stream(msg.ident);
                Step::Continue
            },
            Payload::Failed(k) => {
                self.clear_stream(msg.ident);
                Step::Broken(*k)
            },
        }
    }
}

impl Communicator {
    /// Drive one `read` call over the messages a backend delivered, in
    /// order: replay the held-back fragment, then consume messages until
    /// every stream is terminal, the quota is reached, a stream fails, or
    /// the messages run out (the budgeted wait elapsed).  The outcome and
    /// the state left behind are exactly those of [`model::run`] after
    /// [`model::begin`].
    pub fn read_into(&mut self, msgs: &Vec<Message>) -> (st: RunStop)
        requires
            model::wf(old(self)@),
            model::msgs_wf(old(self)@, msgs@),
        ensures
            ({
                let r = model::run(model::begin(old(self)@), msgs@);
                &&& final(self)@ == r.0
                &&& st == r.2
                &&& model::wf(final(self)@)
            }),
    {
        let ghost orig = self@;
        self.begin_read();
        let mut i: usize = 0;
        proof {
            assert(msgs@.skip(0) =~= msgs@);
        }
        loop
            invariant
                orig == old(self)@,
                model::wf(self@),
                model::msgs_wf(orig, msgs@),
                model::same_session(orig, self@),
                i <= msgs@.len(),
                model::run(model::begin(orig), msgs@) == ({
                    let r = model::run(self@, msgs@.skip(i as int));
                    (r.0, i + r.1, r.2)
                }),
            decreases msgs@.len() - i,
        {
            if !self.is_active() {
                return RunStop::Done;
            }
            if self.quota_hit() || self.has_leftover() {
                return RunStop::Cut;
            }
            if i == msgs.len() {
                return RunStop::Starved;
            }
            let msg = &msgs[i];
            proof {
                assert(model::msg_wf(orig, msgs@[i as int]));
                assert(model::msg_wf(self@, msgs@[i as int]));
                assert(msgs@.skip(i as int)[0] == msgs@[i as int]);
                assert(msgs@.skip(i as int).skip(1) =~= msgs@.skip(i + 1));
            }
            match self.handle_msg(msg) {
                Step::Broken(k) => {
                    return RunStop::Failed(k);
                },
                _ => {},
            }
            i += 1;
        }
    }
}

impl Communicator {
    /// End a `read` call: hand the call's capture out, present exactly for
    /// the streams requested at construction — a stream never requested
    /// yields `None`, never an empty buffer.
    pub fn finish_read(&mut self) -> (r: (Option<Vec<u8>>, Option<Vec<u8>>))
        requires
            model::wf(old(self)@),
        ensures
            final(self)@ == (CommModel {
                out: Seq::<u8>::empty(),
                err: Seq::<u8>::empty(),
                ..old(self)@
            }),
            model::wf(final(self)@),
            model::capture_view(r) == model::capture_of(old(self)@),
    {
        let mut o: Vec<u8> = Vec::new();
        let mut e: Vec<u8> = Vec::new();
        std::mem::swap(&mut o, &mut self.outvec);
        std::mem::swap(&mut e, &mut self.errvec);
        let r0 = if self.req_out {
            Some(o)
        } else {
            None
        };
        let r1 = if self.req_err {
            Some(e)
        } else {
            None
        };
        (r0, r1)
    }

    /// One resumable `read` call over the messages a backend delivered, in
    /// order.
    ///
    /// The call captures new output until every requested stream is
    /// terminal, the configured byte quota is reached, a stream fails, or
    /// the messages run out because the time budget elapsed.  On success the
    /// capture pair holds a buffer exactly for each stream requested at
    /// construction; on timeout or failure the error carries the same pair,
    /// with everything captured before the stop.  Whatever a quota held
    /// back, a later call replays first; no byte is lost or duplicated
    /// across calls.
    pub fn read(&mut self, msgs: &Vec<Message>) -> (r: Result<
        (Option<Vec<u8>>, Option<Vec<u8>>),
        CommunicateError,
    >)
        requires
            model::wf(old(self)@),
            model::msgs_wf(old(self)@, msgs@),
        ensures
            ({
                let runres = model::run(model::begin(old(self)@), msgs@);
                let m2 = runres.0;
                &&& final(self)@ == (CommModel {
                    out: Seq::<u8>::empty(),
                    err: Seq::<u8>::empty(),
                    ..m2
                })
                &&& model::wf(final(self)@)
                &&& match runres.2 {
                    RunStop::Done | RunStop::Cut => r matches Ok(c) && model::capture_view(c)
                        == model::capture_of(m2),
                    RunStop::Starved => r matches Err(e) && e.error == IoKind::TimedOut
                        && model::capture_view(e.capture) == model::capture_of(m2),
                    RunStop::Failed(k) => r matches Err(e) && e.error == k && model::capture_view(
                        e.capture,
                    ) == model::capture_of(m2),
                }
            }),
    {
        let st = self.read_into(msgs);
        let capture = self.finish_read();
        match st {
            RunStop::Done | RunStop::Cut => Ok(capture),
            RunStop::Starved => Err(
                CommunicateError { error: IoKind::TimedOut, capture },
            ),
            RunStop::Failed(k) => Err(CommunicateError { error: k, capture }),
        }
    }
}

impl Communicator {
    /// The interest set for one readiness poll: standard input while input
    /// remains to write, each output stream while it is not terminal.  A
    /// terminal handle is never polled, read or written again.
    pub fn interest(&self) -> (r: (bool, bool, bool))
        ensures
            r.0 == self@.act_in,
            r.1 == self@.act_out,
            r.2 == self@.act_err,
    {
        (self.act_in, self.act_out, self.act_err)
    }

    /// The next input chunk for a write-ready standard input: the bytes at
    /// the cursor, never more than one pipe-buffer-safe chunk — a larger
    /// write could block despite reported readiness and deadlock the
    /// session.
    pub fn write_chunk(&self) -> (r: Vec<u8>)
        requires
            model::wf(self@),
        ensures
            r@ == self@.input.subrange(self@.pos, self@.pos + model::write_chunk_len(self@)),
            r@.len() <= crate::readiness::CHUNK_SIZE,
    {
        let rem = self.input_data.len() - self.input_pos;
        let n = if rem <= crate::readiness::CHUNK_SIZE {
            rem
        } else {
            crate::readiness::CHUNK_SIZE
        };
        let mut chunk: Vec<u8> = Vec::new();
        push_range(&mut chunk, &self.input_data, self.input_pos, self.input_pos + n);
        chunk
    }

    /// Record that a bounded write accepted `n` bytes of input: the cursor
    /// advances, and once everything is written standard input turns
    /// terminal.
    pub fn note_written(&mut self, n: usize)
        requires
            model::wf(old(self)@),
            old(self)@.act_in,
            old(self)@.pos + n <= old(self)@.input.len(),
        ensures
            final(self)@ == model::input_written(old(self)@, n as int),
            model::wf(final(self)@),
    {
        let len = self.input_data.len();
        self.input_pos = self.input_pos + n;
        if self.input_pos == len {
            self.act_in = false;
            self.input_data = Vec::new();
            self.input_pos = 0;
        }
    }

    /// How many bytes a read-ready output stream may be asked for right
    /// now: one chunk, capped by what the quota still admits, so nothing
    /// read must be held back.  Zero means the quota is exhausted and the
    /// call should stop instead of reading.
    pub fn read_budget(&self) -> (r: usize)
        ensures
            r == model::read_budget(self@),
    {
        let room = match self.size_limit {
            None => crate::readiness::CHUNK_SIZE,
            Some(l) => match self.outvec.len().checked_add(self.errvec.len()) {
                None => 0,
                Some(total) => if total >= l {
                    0
                } else {
                    l - total
                },
            },
        };
        if room <= crate::readiness::CHUNK_SIZE {
            room
        } else {
            crate::readiness::CHUNK_SIZE
        }
    }

    /// Surrender the unwritten input to a backend that writes it itself —
    /// a worker thread performing one blocking write of the whole payload.
    /// Standard input stays active until that backend reports its end.
    pub fn take_input(&mut self) -> (r: Vec<u8>)
        requires
            model::wf(old(self)@),
        ensures
            r@ == old(self)@.input.skip(old(self)@.pos),
            final(self)@ == (CommModel { input: Seq::<u8>::empty(), pos: 0, ..old(self)@ }),
            model::wf(final(self)@),
    {
        let mut r: Vec<u8> = Vec::new();
        push_range(&mut r, &self.input_data, self.input_pos, self.input_data.len());
        proof {
            assert(r@ =~= old(self)@.input.skip(old(self)@.pos));
        }
        self.input_data = Vec::new();
        self.input_pos = 0;
        r
    }
}

/// A failed `read`: the underlying error kind, together with everything the
/// call captured before the failure.
#[derive(Debug)]
pub struct CommunicateError {
    /// The kind of the underlying I/O failure.
    pub error: IoKind,
    /// The data captured before the error was encountered.
    pub capture: (Option<Vec<u8>>, Option<Vec<u8>>),
}

impl CommunicateError {
    /// The kind of the underlying I/O failure.
    pub fn kind(&self) -> (k: IoKind)
        ensures
            k == self.error,
    {
        self.error
    }
}

} // verus!
