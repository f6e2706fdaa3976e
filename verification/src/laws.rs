//! The protocol's laws: what holds of every `read` call and every sequence
//! of calls, proved once over the model in [`crate::model`].
//!
//! The heart is conservation: a call's capture, plus what it holds back, is
//! exactly what was held back before plus what the streams delivered — no
//! byte is lost or duplicated, however quotas and timeouts cut the calls.

use crate::model;
use crate::model::CommModel;
use crate::msg::{Message, Payload, StreamIdent};
use vstd::prelude::*;

verus! {

/// No message of the sequence reports an I/O failure.
pub open spec fn no_failures(msgs: Seq<Message>) -> bool {
    forall|i: int| 0 <= i < msgs.len() ==> !(#[trigger] msgs[i].payload is Failed)
}

/// The sequence contains an end-of-stream marker for `id`.
pub open spec fn closes(msgs: Seq<Message>, id: StreamIdent) -> bool {
    exists|i: int| 0 <= i < msgs.len() && (#[trigger] msgs[i]).ident == id && msgs[i].payload is Eof
}

/// Every stream still active in `m` reaches its end somewhere in `msgs`.
pub open spec fn closes_all(m: CommModel, msgs: Seq<Message>) -> bool {
    &&& m.act_in ==> closes(msgs, StreamIdent::Stdin)
    &&& m.act_out ==> closes(msgs, StreamIdent::Stdout)
    &&& m.act_err ==> closes(msgs, StreamIdent::Stderr)
}

/// One step preserves the session invariant and touches neither the
/// requested set, the limits, nor the input.
proof fn lemma_step_wf(m: CommModel, msg: Message)
    requires
        model::wf(m),
        model::msg_wf(m, msg),
    ensures
        model::wf(model::step(m, msg)),
        model::same_session(m, model::step(m, msg)),
        model::step(m, msg).input == m.input,
        model::step(m, msg).pos == m.pos,
{
}

/// Messages acceptable to one state are acceptable to any state with the
/// same requested set.
proof fn lemma_msgs_wf_same_session(a: CommModel, b: CommModel, msgs: Seq<Message>)
    requires
        model::msgs_wf(a, msgs),
        model::same_session(a, b),
    ensures
        model::msgs_wf(b, msgs),
{
    assert forall|i: int| 0 <= i < msgs.len() implies #[trigger] model::msg_wf(b, msgs[i]) by {
        assert(model::msg_wf(a, msgs[i]));
    }
}

/// Acceptability carries to the tail of the sequence.
proof fn lemma_msgs_wf_skip(m: CommModel, msgs: Seq<Message>)
    requires
        model::msgs_wf(m, msgs),
        msgs.len() > 0,
    ensures
        model::msgs_wf(m, msgs.skip(1)),
{
    assert forall|i: int| 0 <= i < msgs.skip(1).len() implies #[trigger] model::msg_wf(
        m,
        msgs.skip(1)[i],
    ) by {
        assert(msgs.skip(1)[i] == msgs[i + 1]);
        assert(model::msg_wf(m, msgs[i + 1]));
    }
}

/// A whole call preserves the session invariant, the requested set, the
/// limits and the input, and consumes no more messages than it was given.
pub proof fn lemma_run_frame(m: CommModel, msgs: Seq<Message>)
    requires
        model::wf(m),
        model::msgs_wf(m, msgs),
    ensures
        ({
            let (m2, n, st) = model::run(m, msgs);
            &&& model::wf(m2)
            &&& model::same_session(m, m2)
            &&& m2.input == m.input
            &&& m2.pos == m.pos
            &&& 0 <= n <= msgs.len()
        }),
    decreases msgs.len(),
{
    if !model::active_any(m) || model::quota_hit(m) || m.leftover is Some || msgs.len() == 0 {
    } else {
        match msgs[0].payload {
            Payload::Failed(_) => {},
            _ => {
                let m1 = model::step(m, msgs[0]);
                assert(model::msg_wf(m, msgs[0]));
                lemma_step_wf(m, msgs[0]);
                lemma_msgs_wf_skip(m, msgs);
                lemma_msgs_wf_same_session(m, m1, msgs.skip(1));
                lemma_run_frame(m1, msgs.skip(1));
            },
        }
    }
}

/// Conservation, the heart of resumability: one call's capture of a stream,
/// plus the fragment it holds back, is exactly what was captured and held
/// before plus every byte the stream delivered in the consumed messages —
/// no byte is lost or duplicated, wherever a quota or a timeout cuts the
/// call.
#[verifier::rlimit(30)]
pub proof fn lemma_run_conserves(m: CommModel, msgs: Seq<Message>, id: StreamIdent)
    requires
        model::wf(m),
        model::msgs_wf(m, msgs),
        id !is Stdin,
    ensures
        ({
            let (m2, n, st) = model::run(m, msgs);
            model::captured(m2, id) + model::held(m2, id) == model::captured(m, id) + model::held(
                m,
                id,
            ) + model::delivered(msgs.take(n), id)
        }),
    decreases msgs.len(),
{
    let (m2, n, st) = model::run(m, msgs);
    if !model::active_any(m) || model::quota_hit(m) || m.leftover is Some || msgs.len() == 0 {
        assert(msgs.take(0) =~= Seq::<Message>::empty());
        assert(model::delivered(Seq::<Message>::empty(), id) == Seq::<u8>::empty());
        assert(model::captured(m, id) + model::held(m, id) + Seq::<u8>::empty() =~= model::captured(
            m,
            id,
        ) + model::held(m, id));
    } else {
        match msgs[0].payload {
            Payload::Failed(_) => {
                assert(msgs.take(1) =~= seq![msgs[0]]);
                assert(seq![msgs[0]].skip(1) =~= Seq::<Message>::empty());
                assert(model::delivered(Seq::<Message>::empty(), id) == Seq::<u8>::empty());
                assert(model::delivered(seq![msgs[0]], id) =~= Seq::<u8>::empty());
                assert(model::captured(m2, id) + model::held(m2, id) =~= model::captured(m, id)
                    + model::held(m, id) + Seq::<u8>::empty());
            },
            _ => {
                let m1 = model::step(m, msgs[0]);
                assert(model::msg_wf(m, msgs[0]));
                lemma_step_wf(m, msgs[0]);
                lemma_msgs_wf_skip(m, msgs);
                lemma_msgs_wf_same_session(m, m1, msgs.skip(1));
                lemma_run_conserves(m1, msgs.skip(1), id);
                lemma_run_frame(m1, msgs.skip(1));
                let (m2b, n1, st1) = model::run(m1, msgs.skip(1));
                let head: Seq<u8> = match msgs[0].payload {
                    Payload::Data(d) => if msgs[0].ident == id {
                        d@
                    } else {
                        Seq::<u8>::empty()
                    },
                    _ => Seq::<u8>::empty(),
                };
                match msgs[0].payload {
                    Payload::Data(d) => {
                        let t: int = match m.size_limit {
                            Some(l) => if model::total_captured(m) >= l {
                                0
                            } else if d@.len() <= l - model::total_captured(m) {
                                d@.len() as int
                            } else {
                                l - model::total_captured(m)
                            },
                            None => d@.len() as int,
                        };
                        assert(0 <= t <= d@.len());
                        assert(d@.take(t) + d@.skip(t) =~= d@);
                        if msgs[0].ident == id {
                            assert(model::captured(m1, id) == model::captured(m, id) + d@.take(t));
                            if t < d@.len() {
                                assert(model::held(m1, id) == d@.skip(t));
                                assert((model::captured(m, id) + d@.take(t)) + d@.skip(t)
                                    =~= model::captured(m, id) + d@);
                            } else {
                                assert(d@.take(t) =~= d@);
                                assert(model::held(m1, id) == Seq::<u8>::empty());
                                assert((model::captured(m, id) + d@) + Seq::<u8>::empty()
                                    =~= model::captured(m, id) + d@);
                            }
                            assert(model::held(m, id) == Seq::<u8>::empty());
                            assert(model::captured(m, id) + Seq::<u8>::empty() =~= model::captured(
                                m,
                                id,
                            ));
                            assert(model::captured(m1, id) + model::held(m1, id) == model::captured(
                                m,
                                id,
                            ) + model::held(m, id) + head);
                        } else {
                            assert(model::captured(m1, id) == model::captured(m, id));
                            assert(model::held(m1, id) == Seq::<u8>::empty());
                            assert(model::held(m, id) == Seq::<u8>::empty());
                            assert(model::captured(m, id) + Seq::<u8>::empty() + Seq::<u8>::empty()
                                =~= model::captured(m, id) + Seq::<u8>::empty());
                            assert(model::captured(m1, id) + model::held(m1, id) == model::captured(
                                m,
                                id,
                            ) + model::held(m, id) + head);
                        }
                    },
                    Payload::Eof => {
                        assert(model::captured(m1, id) + model::held(m1, id) + Seq::<u8>::empty()
                            =~= model::captured(m1, id) + model::held(m1, id));
                        assert(model::captured(m1, id) + model::held(m1, id) == model::captured(
                            m,
                            id,
                        ) + model::held(m, id) + head);
                    },
                    Payload::Failed(_) => {
                        assert(false);
                    },
                }
                // Decompose the consumed prefix around its first message.
                assert(msgs.take(n) =~= seq![msgs[0]] + msgs.skip(1).take(n1));
                let rest = msgs.skip(1).take(n1);
                assert((seq![msgs[0]] + rest).skip(1) =~= rest);
                assert((seq![msgs[0]] + rest)[0] == msgs[0]);
                assert(model::delivered(msgs.take(n), id) == head + model::delivered(rest, id));
                assert((model::captured(m, id) + model::held(m, id) + head) + model::delivered(
                    rest,
                    id,
                ) =~= model::captured(m, id) + model::held(m, id) + (head + model::delivered(
                    rest,
                    id,
                )));
            },
        }
    }
}

/// Starting a call preserves the session invariant and everything a call
/// never changes, and keeps every stream's activity as it was.
pub proof fn lemma_begin_frame(m: CommModel)
    requires
        model::wf(m),
    ensures
        model::wf(model::begin(m)),
        model::same_session(m, model::begin(m)),
        model::begin(m).input == m.input,
        model::begin(m).pos == m.pos,
        model::begin(m).act_in == m.act_in,
        model::begin(m).act_out == m.act_out,
        model::begin(m).act_err == m.act_err,
{
}

/// Replaying the held-back fragment loses and invents nothing: what a call
/// starts out having captured or held for a stream is exactly what the
/// previous call held for it.
pub proof fn lemma_begin_conserves(m: CommModel, id: StreamIdent)
    requires
        model::wf(m),
        id !is Stdin,
    ensures
        model::captured(model::begin(m), id) + model::held(model::begin(m), id) == model::held(
            m,
            id,
        ),
{
    let b = model::begin(m);
    match m.leftover {
        Some((j, d)) => {
            let fresh = CommModel {
                out: Seq::<u8>::empty(),
                err: Seq::<u8>::empty(),
                leftover: None,
                ..m
            };
            let t: int = match m.size_limit {
                Some(l) => if d.len() <= l {
                    d.len() as int
                } else {
                    l as int
                },
                None => d.len() as int,
            };
            assert(0 <= t <= d.len());
            assert(d.take(t) + d.skip(t) =~= d);
            if j == id {
                assert(model::captured(b, id) == Seq::<u8>::empty() + d.take(t));
                assert(Seq::<u8>::empty() + d.take(t) =~= d.take(t));
                if t < d.len() {
                    assert(model::held(b, id) == d.skip(t));
                } else {
                    assert(d.take(t) =~= d);
                    assert(model::held(b, id) == Seq::<u8>::empty());
                    assert(d + Seq::<u8>::empty() =~= d);
                }
            } else {
                assert(model::captured(b, id) == Seq::<u8>::empty());
                assert(model::held(b, id) == Seq::<u8>::empty());
                assert(Seq::<u8>::empty() + Seq::<u8>::empty() =~= Seq::<u8>::empty());
            }
        },
        None => {
            assert(model::captured(b, id) == Seq::<u8>::empty());
            assert(model::held(b, id) == Seq::<u8>::empty());
            assert(Seq::<u8>::empty() + Seq::<u8>::empty() =~= Seq::<u8>::empty());
        },
    }
}

/// A call stops starved only when it has consumed every delivered message,
/// streams are still active, and neither a quota nor a fragment is in the
/// way — so the very same call, given more messages, would have gone on:
/// after a timeout the session is intact and `read` is safe to call again.
pub proof fn lemma_starved_means_drained(m: CommModel, msgs: Seq<Message>)
    requires
        model::wf(m),
        model::msgs_wf(m, msgs),
    ensures
        ({
            let (m2, n, st) = model::run(m, msgs);
            st is Starved ==> {
                &&& n == msgs.len()
                &&& model::active_any(m2)
                &&& m2.leftover is None
                &&& !model::quota_hit(m2)
            }
        }),
    decreases msgs.len(),
{
    if !model::active_any(m) || model::quota_hit(m) || m.leftover is Some || msgs.len() == 0 {
    } else {
        match msgs[0].payload {
            Payload::Failed(_) => {},
            _ => {
                let m1 = model::step(m, msgs[0]);
                assert(model::msg_wf(m, msgs[0]));
                lemma_step_wf(m, msgs[0]);
                lemma_msgs_wf_skip(m, msgs);
                lemma_msgs_wf_same_session(m, m1, msgs.skip(1));
                lemma_starved_means_drained(m1, msgs.skip(1));
            },
        }
    }
}

/// Delivery distributes over concatenation of message sequences.
pub proof fn lemma_delivered_concat(a: Seq<Message>, b: Seq<Message>, id: StreamIdent)
    ensures
        model::delivered(a + b, id) == model::delivered(a, id) + model::delivered(b, id),
    decreases a.len(),
{
    if a.len() == 0 {
        assert(a + b =~= b);
        assert(model::delivered(a, id) == Seq::<u8>::empty());
        assert(Seq::<u8>::empty() + model::delivered(b, id) =~= model::delivered(b, id));
    } else {
        assert((a + b)[0] == a[0]);
        assert((a + b).skip(1) =~= a.skip(1) + b);
        lemma_delivered_concat(a.skip(1), b, id);
        let head: Seq<u8> = match a[0].payload {
            Payload::Data(d) => if a[0].ident == id {
                d@
            } else {
                Seq::<u8>::empty()
            },
            _ => Seq::<u8>::empty(),
        };
        assert(head + (model::delivered(a.skip(1), id) + model::delivered(b, id)) =~= (head
            + model::delivered(a.skip(1), id)) + model::delivered(b, id));
    }
}

/// A stream no message speaks of delivers nothing.
pub proof fn lemma_delivered_absent(msgs: Seq<Message>, id: StreamIdent)
    requires
        forall|i: int| 0 <= i < msgs.len() ==> (#[trigger] msgs[i]).ident != id,
    ensures
        model::delivered(msgs, id) == Seq::<u8>::empty(),
    decreases msgs.len(),
{
    if msgs.len() == 0 {
    } else {
        assert(msgs[0].ident != id);
        assert forall|i: int| 0 <= i < msgs.skip(1).len() implies (#[trigger] msgs.skip(1)[i]).ident
            != id by {
            assert(msgs.skip(1)[i] == msgs[i + 1]);
        }
        lemma_delivered_absent(msgs.skip(1), id);
        assert(Seq::<u8>::empty() + Seq::<u8>::empty() =~= Seq::<u8>::empty());
    }
}

/// Acceptability carries to any tail of the sequence.
proof fn lemma_msgs_wf_skipn(m: CommModel, msgs: Seq<Message>, n: int)
    requires
        model::msgs_wf(m, msgs),
        0 <= n <= msgs.len(),
    ensures
        model::msgs_wf(m, msgs.skip(n)),
{
    assert forall|i: int| 0 <= i < msgs.skip(n).len() implies #[trigger] model::msg_wf(
        m,
        msgs.skip(n)[i],
    ) by {
        assert(msgs.skip(n)[i] == msgs[i + n]);
        assert(model::msg_wf(m, msgs[i + n]));
    }
}

/// `k` successive `read` calls against one underlying delivery: each call
/// starts where the one before stopped and consumes the messages the
/// earlier calls left.  Yields the final state, the total number of
/// messages consumed, and the two concatenated captures.
pub open spec fn resume_calls(m: CommModel, msgs: Seq<Message>, k: nat) -> (
    CommModel,
    int,
    Seq<u8>,
    Seq<u8>,
)
    decreases k,
{
    if k == 0 {
        (m, 0, Seq::<u8>::empty(), Seq::<u8>::empty())
    } else {
        let (m1, n1, st) = model::run(model::begin(m), msgs);
        let rest = resume_calls(m1, msgs.skip(n1), (k - 1) as nat);
        (rest.0, n1 + rest.1, m1.out + rest.2, m1.err + rest.3)
    }
}

/// Quota and timeout resumability: across any number of `read` calls,
/// however quotas and elapsed budgets cut them, the concatenated captures
/// of a stream plus the fragment still held equal the fragment held at the
/// start plus every byte the stream delivered in the consumed messages —
/// no duplication, no loss.
#[verifier::rlimit(100)]
pub proof fn lemma_resumed_reads_conserve(
    m: CommModel,
    msgs: Seq<Message>,
    k: nat,
    id: StreamIdent,
)
    requires
        model::wf(m),
        model::msgs_wf(m, msgs),
        id !is Stdin,
    ensures
        ({
            let (mk, nk, outs, errs) = resume_calls(m, msgs, k);
            &&& model::wf(mk)
            &&& model::same_session(m, mk)
            &&& 0 <= nk <= msgs.len()
            &&& (if id is Stdout {
                outs
            } else {
                errs
            }) + model::held(mk, id) == model::held(m, id) + model::delivered(msgs.take(nk), id)
        }),
    decreases k,
{
    let (mk, nk, outs, errs) = resume_calls(m, msgs, k);
    let caps: Seq<u8> = if id is Stdout {
        outs
    } else {
        errs
    };
    if k == 0 {
        assert(msgs.take(0) =~= Seq::<Message>::empty());
        assert(model::delivered(Seq::<Message>::empty(), id) == Seq::<u8>::empty());
        assert(Seq::<u8>::empty() + model::held(m, id) =~= model::held(m, id));
        assert(model::held(m, id) + Seq::<u8>::empty() =~= model::held(m, id));
    } else {
        let b = model::begin(m);
        lemma_begin_frame(m);
        lemma_msgs_wf_same_session(m, b, msgs);
        lemma_run_frame(b, msgs);
        let (m1, n1, st) = model::run(b, msgs);
        lemma_msgs_wf_skipn(m, msgs, n1);
        lemma_msgs_wf_same_session(m, m1, msgs.skip(n1));
        lemma_resumed_reads_conserve(m1, msgs.skip(n1), (k - 1) as nat, id);
        let rest = resume_calls(m1, msgs.skip(n1), (k - 1) as nat);
        let caps_rest: Seq<u8> = if id is Stdout {
            rest.2
        } else {
            rest.3
        };
        let del_first = model::delivered(msgs.take(n1), id);
        let del_rest = model::delivered(msgs.skip(n1).take(rest.1), id);
        // The first call's capture and fragment account for its consumed
        // prefix.
        assert(model::captured(m1, id) + model::held(m1, id) == model::held(m, id)
            + del_first) by {
            lemma_run_conserves(b, msgs, id);
            lemma_begin_conserves(m, id);
        }
        // Stitch the two consumed prefixes back together.
        assert(model::delivered(msgs.take(nk), id) == del_first + del_rest) by {
            assert(msgs.take(nk) =~= msgs.take(n1) + msgs.skip(n1).take(rest.1));
            lemma_delivered_concat(msgs.take(n1), msgs.skip(n1).take(rest.1), id);
        }
        assert(caps == model::captured(m1, id) + caps_rest);
        lemma_concat_rebracket(
            model::captured(m1, id),
            model::held(m1, id),
            del_first,
            caps_rest,
            model::held(mk, id),
            del_rest,
            model::held(m, id),
        );
    }
}

/// Two accounting equations stitch into one when their middle terms agree.
proof fn lemma_concat_rebracket(
    cap1: Seq<u8>,
    held1: Seq<u8>,
    del_first: Seq<u8>,
    caps_rest: Seq<u8>,
    held_last: Seq<u8>,
    del_rest: Seq<u8>,
    held0: Seq<u8>,
)
    requires
        cap1 + held1 == held0 + del_first,
        caps_rest + held_last == held1 + del_rest,
    ensures
        (cap1 + caps_rest) + held_last == held0 + (del_first + del_rest),
{
    assert((cap1 + caps_rest) + held_last =~= cap1 + (caps_rest + held_last));
    assert(cap1 + (held1 + del_rest) =~= (cap1 + held1) + del_rest);
    assert((held0 + del_first) + del_rest =~= held0 + (del_first + del_rest));
}

/// Quota resumability, exact form: when repeated `read` calls have consumed
/// every delivered message and hold nothing back, their concatenated
/// captures are byte for byte what the stream delivered.
pub proof fn lemma_resumed_reads_capture_exactly(
    m: CommModel,
    msgs: Seq<Message>,
    k: nat,
    id: StreamIdent,
)
    requires
        model::wf(m),
        model::msgs_wf(m, msgs),
        id !is Stdin,
        m.leftover is None,
    ensures
        ({
            let (mk, nk, outs, errs) = resume_calls(m, msgs, k);
            (nk == msgs.len() && mk.leftover is None) ==> (if id is Stdout {
                outs
            } else {
                errs
            }) == model::delivered(msgs, id)
        }),
{
    lemma_resumed_reads_conserve(m, msgs, k, id);
    let (mk, nk, outs, errs) = resume_calls(m, msgs, k);
    if nk == msgs.len() && mk.leftover is None {
        let caps: Seq<u8> = if id is Stdout {
            outs
        } else {
            errs
        };
        assert(msgs.take(nk) =~= msgs);
        assert(caps + Seq::<u8>::empty() =~= caps);
        assert(Seq::<u8>::empty() + model::delivered(msgs, id) =~= model::delivered(msgs, id));
    }
}

/// Interleaving and chunking are immaterial: two deliveries that carry the
/// same bytes per stream — however differently their chunks are cut or
/// interleaved across streams, and however differently the reads are split
/// into calls — yield the same concatenated capture once each is fully
/// consumed with nothing held back.
pub proof fn lemma_interleaving_immaterial(
    m: CommModel,
    msgs_a: Seq<Message>,
    msgs_b: Seq<Message>,
    k_a: nat,
    k_b: nat,
    id: StreamIdent,
)
    requires
        model::wf(m),
        model::msgs_wf(m, msgs_a),
        model::msgs_wf(m, msgs_b),
        id !is Stdin,
        m.leftover is None,
        model::delivered(msgs_a, id) == model::delivered(msgs_b, id),
    ensures
        ({
            let ra = resume_calls(m, msgs_a, k_a);
            let rb = resume_calls(m, msgs_b, k_b);
            (ra.1 == msgs_a.len() && ra.0.leftover is None && rb.1 == msgs_b.len()
                && rb.0.leftover is None) ==> (if id is Stdout {
                ra.2
            } else {
                ra.3
            }) == (if id is Stdout {
                rb.2
            } else {
                rb.3
            })
        }),
{
    lemma_resumed_reads_capture_exactly(m, msgs_a, k_a, id);
    lemma_resumed_reads_capture_exactly(m, msgs_b, k_b, id);
}

/// A call never captures past its quota, whatever the messages deliver:
/// data beyond the quota is held back, not admitted.
pub proof fn lemma_quota_never_exceeded(m: CommModel, msgs: Seq<Message>, l: usize)
    requires
        model::wf(m),
        model::msgs_wf(m, msgs),
        m.size_limit == Some(l),
    ensures
        model::total_captured(model::run(model::begin(m), msgs).0) <= l,
{
    lemma_begin_frame(m);
    lemma_msgs_wf_same_session(m, model::begin(m), msgs);
    lemma_quota_bound_preserved(model::begin(m), msgs, l);
}

/// The quota bound is an invariant of consuming messages.
proof fn lemma_quota_bound_preserved(m: CommModel, msgs: Seq<Message>, l: usize)
    requires
        model::wf(m),
        model::msgs_wf(m, msgs),
        m.size_limit == Some(l),
        model::total_captured(m) <= l,
    ensures
        model::total_captured(model::run(m, msgs).0) <= l,
    decreases msgs.len(),
{
    if !model::active_any(m) || model::quota_hit(m) || m.leftover is Some || msgs.len() == 0 {
    } else {
        match msgs[0].payload {
            Payload::Failed(_) => {},
            _ => {
                let m1 = model::step(m, msgs[0]);
                assert(model::msg_wf(m, msgs[0]));
                lemma_step_wf(m, msgs[0]);
                lemma_msgs_wf_skip(m, msgs);
                lemma_msgs_wf_same_session(m, m1, msgs.skip(1));
                lemma_quota_bound_preserved(m1, msgs.skip(1), l);
            },
        }
    }
}

/// A close that the first message does not provide sits in the tail.
proof fn lemma_closes_skip(msgs: Seq<Message>, id: StreamIdent)
    requires
        closes(msgs, id),
        !(msgs[0].ident == id && msgs[0].payload is Eof),
    ensures
        closes(msgs.skip(1), id),
{
    let i = choose|i: int|
        0 <= i < msgs.len() && (#[trigger] msgs[i]).ident == id && msgs[i].payload is Eof;
    assert(i != 0);
    assert(msgs.skip(1)[i - 1] == msgs[i]);
}

/// No failure report in the tail either.
proof fn lemma_no_failures_skip(msgs: Seq<Message>)
    requires
        no_failures(msgs),
        msgs.len() > 0,
    ensures
        no_failures(msgs.skip(1)),
{
    assert forall|i: int| 0 <= i < msgs.skip(1).len() implies !(#[trigger] msgs.skip(
        1,
    )[i].payload is Failed) by {
        assert(msgs.skip(1)[i] == msgs[i + 1]);
        assert(!(msgs[i + 1].payload is Failed));
    }
}

/// Termination of an unbounded call — no deadlock from the protocol's side:
/// without a quota, a call that is delivered an end for every active stream
/// and no failure consumes messages until every stream is terminal and
/// stops `Done`, holding nothing back.
pub proof fn lemma_unbounded_run_completes(m: CommModel, msgs: Seq<Message>)
    requires
        model::wf(m),
        model::msgs_wf(m, msgs),
        m.size_limit is None,
        m.leftover is None,
        no_failures(msgs),
        closes_all(m, msgs),
    ensures
        ({
            let (m2, n, st) = model::run(m, msgs);
            &&& st is Done
            &&& !model::active_any(m2)
            &&& m2.leftover is None
        }),
    decreases msgs.len(),
{
    if !model::active_any(m) {
    } else if msgs.len() == 0 {
        if m.act_in {
            let i = choose|i: int|
                0 <= i < msgs.len() && (#[trigger] msgs[i]).ident == StreamIdent::Stdin
                    && msgs[i].payload is Eof;
            assert(false);
        } else if m.act_out {
            let i = choose|i: int|
                0 <= i < msgs.len() && (#[trigger] msgs[i]).ident == StreamIdent::Stdout
                    && msgs[i].payload is Eof;
            assert(false);
        } else {
            let i = choose|i: int|
                0 <= i < msgs.len() && (#[trigger] msgs[i]).ident == StreamIdent::Stderr
                    && msgs[i].payload is Eof;
            assert(false);
        }
    } else {
        assert(!(msgs[0].payload is Failed));
        let m1 = model::step(m, msgs[0]);
        assert(model::msg_wf(m, msgs[0]));
        lemma_step_wf(m, msgs[0]);
        lemma_msgs_wf_skip(m, msgs);
        lemma_msgs_wf_same_session(m, m1, msgs.skip(1));
        lemma_no_failures_skip(msgs);
        assert(m1.leftover is None);
        if m1.act_in {
            lemma_closes_skip(msgs, StreamIdent::Stdin);
        }
        if m1.act_out {
            lemma_closes_skip(msgs, StreamIdent::Stdout);
        }
        if m1.act_err {
            lemma_closes_skip(msgs, StreamIdent::Stderr);
        }
        lemma_unbounded_run_completes(m1, msgs.skip(1));
    }
}

/// Single-stream equivalence: when standard output is the only piped
/// stream, the general multiplexed protocol, run without a quota, finishes
/// and captures exactly the bytes the stream delivered before its end,
/// while standard error stays empty — a dedicated single-stream fast path
/// could return nothing else.
pub proof fn lemma_single_stream_exact(m: CommModel, msgs: Seq<Message>)
    requires
        model::wf(m),
        model::msgs_wf(m, msgs),
        m.size_limit is None,
        m.leftover is None,
        m.req_in == false,
        m.req_err == false,
        no_failures(msgs),
        m.act_out ==> closes(msgs, StreamIdent::Stdout),
    ensures
        ({
            let (m2, n, st) = model::run(m, msgs);
            &&& st is Done
            &&& m2.out == m.out + model::delivered(msgs.take(n), StreamIdent::Stdout)
            &&& m2.err == m.err
        }),
{
    lemma_unbounded_run_completes(m, msgs);
    lemma_run_frame(m, msgs);
    let (m2, n, st) = model::run(m, msgs);
    lemma_run_conserves(m, msgs, StreamIdent::Stdout);
    assert(model::held(m, StreamIdent::Stdout) == Seq::<u8>::empty());
    assert(model::held(m2, StreamIdent::Stdout) == Seq::<u8>::empty());
    assert(m2.out + Seq::<u8>::empty() =~= m2.out);
    assert(m.out + Seq::<u8>::empty() + model::delivered(msgs.take(n), StreamIdent::Stdout)
        =~= m.out + model::delivered(msgs.take(n), StreamIdent::Stdout));
    lemma_run_conserves(m, msgs, StreamIdent::Stderr);
    assert(model::delivered(msgs.take(n), StreamIdent::Stderr) == Seq::<u8>::empty()) by {
        assert forall|i: int| 0 <= i < msgs.take(n).len() implies (#[trigger] msgs.take(
            n,
        )[i]).ident != StreamIdent::Stderr by {
            assert(msgs.take(n)[i] == msgs[i]);
            assert(model::msg_wf(m, msgs[i]));
        }
        lemma_delivered_absent(msgs.take(n), StreamIdent::Stderr);
    }
    assert(m2.err + Seq::<u8>::empty() =~= m2.err);
    assert(m.err + Seq::<u8>::empty() + Seq::<u8>::empty() =~= m.err);
}

} // verus!
