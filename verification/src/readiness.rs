//! Decisions for a readiness-polling backend.
//!
//! On systems whose readiness-polling call accepts pipe handles, a
//! single-threaded loop drives the session: it polls the open handles, writes
//! one bounded input chunk when standard input is writable, and reads one
//! bounded chunk when an output stream is readable.  The poll call and the
//! reads and writes are the runtime's; the decisions — how long to wait and
//! how large a chunk may be — are verified here.

use vstd::prelude::*;

verus! {

/// The largest chunk written to or read from a pipe in one operation.
///
/// A write must stay strictly below the kernel pipe-buffer size: a larger
/// write can block even after the descriptor reported itself writable, which
/// would reintroduce the deadlock the protocol exists to avoid.
pub const CHUNK_SIZE: usize = 4096;

/// How many milliseconds remain until the deadline, for a poll call: zero
/// when the deadline has already passed, and capped at the largest wait the
/// poll interface accepts.
pub fn millisecs_until(deadline_ms: u64, now_ms: u64) -> (r: u32)
    ensures
        deadline_ms <= now_ms ==> r == 0,
        deadline_ms > now_ms ==> r == if deadline_ms - now_ms <= u32::MAX {
            (deadline_ms - now_ms) as u32
        } else {
            u32::MAX
        },
{
    if deadline_ms <= now_ms {
        return 0;
    }
    let diff: u64 = deadline_ms - now_ms;
    if diff <= u32::MAX as u64 {
        diff as u32
    } else {
        u32::MAX
    }
}

} // verus!
