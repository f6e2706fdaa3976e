use communicate::comm::{communicate, Communicator, Step};
use communicate::model::RunStop;
use communicate::msg::{IoKind, Message, Payload, StreamIdent};

fn data(ident: StreamIdent, bytes: &[u8]) -> Message {
    Message { ident, payload: Payload::Data(bytes.to_vec()) }
}

fn eof(ident: StreamIdent) -> Message {
    Message { ident, payload: Payload::Eof }
}

fn failed(ident: StreamIdent, kind: IoKind) -> Message {
    Message { ident, payload: Payload::Failed(kind) }
}

#[test]
fn unlimited_read_captures_everything() {
    let mut c = communicate(false, true, true, None);
    let msgs = vec![
        data(StreamIdent::Stdout, b"hello "),
        data(StreamIdent::Stderr, b"warning"),
        data(StreamIdent::Stdout, b"world"),
        eof(StreamIdent::Stdout),
        eof(StreamIdent::Stderr),
    ];
    let (out, err) = c.read(&msgs).unwrap();
    assert_eq!(out.unwrap(), b"hello world".to_vec());
    assert_eq!(err.unwrap(), b"warning".to_vec());
    assert!(!c.is_active());
}

#[test]
fn no_deadlock_large_transfer() {
    // An input far larger than a pipe buffer, echoed back in bounded
    // chunks, is fully written and fully captured by one unlimited read.
    let input: Vec<u8> = (0..300_000u32).map(|i| (i % 251) as u8).collect();
    let mut c = communicate(true, true, true, Some(input.clone()));

    // Drive the input cursor as a readiness loop would.
    let mut written: Vec<u8> = Vec::new();
    while c.interest().0 {
        let chunk = c.write_chunk();
        assert!(chunk.len() <= 4096);
        assert!(!chunk.is_empty());
        written.extend_from_slice(&chunk);
        let n = chunk.len();
        c.note_written(n);
    }
    assert_eq!(written, input);

    // The echoed output comes back in bounded chunks as well.
    let mut msgs: Vec<Message> = Vec::new();
    for chunk in input.chunks(4096) {
        msgs.push(data(StreamIdent::Stdout, chunk));
    }
    msgs.push(data(StreamIdent::Stderr, b"done"));
    msgs.push(eof(StreamIdent::Stdout));
    msgs.push(eof(StreamIdent::Stderr));
    let (out, err) = c.read(&msgs).unwrap();
    assert_eq!(out.unwrap(), input);
    assert_eq!(err.unwrap(), b"done".to_vec());
    assert!(!c.is_active());
}

#[test]
fn quota_resumability_concatenates_exactly() {
    let mut c = communicate(false, true, false, None).limit_size(3);
    let mut gathered: Vec<u8> = Vec::new();

    let (out, err) = c.read(&vec![data(StreamIdent::Stdout, b"hello")]).unwrap();
    assert!(err.is_none());
    let out = out.unwrap();
    assert_eq!(out, b"hel".to_vec());
    gathered.extend_from_slice(&out);
    assert!(c.is_active());

    // The cut fragment is replayed before any new message; the call stops
    // again the moment the quota is full, before the close is seen.
    let (out, _) = c.read(&vec![data(StreamIdent::Stdout, b"!")]).unwrap();
    let out = out.unwrap();
    assert_eq!(out, b"lo!".to_vec());
    gathered.extend_from_slice(&out);
    assert!(c.is_active());

    // The final call consumes the close and reports the stream finished.
    let (out, _) = c.read(&vec![eof(StreamIdent::Stdout)]).unwrap();
    let out = out.unwrap();
    assert_eq!(out, Vec::<u8>::new());
    gathered.extend_from_slice(&out);

    assert!(!c.is_active());
    assert_eq!(gathered, b"hello!".to_vec());
}

#[test]
fn quota_of_one_drips_bytes() {
    let mut c = communicate(false, true, false, None).limit_size(1);
    let msgs = vec![data(StreamIdent::Stdout, b"abc"), eof(StreamIdent::Stdout)];
    let (out, _) = c.read(&msgs).unwrap();
    assert_eq!(out.unwrap(), b"a".to_vec());
    // Later calls drain the held-back fragment one byte at a time, without
    // consuming new messages.
    let empty: Vec<Message> = Vec::new();
    let (out, _) = c.read(&empty).unwrap();
    assert_eq!(out.unwrap(), b"b".to_vec());
    let (out, _) = c.read(&vec![eof(StreamIdent::Stdout)]).unwrap();
    assert_eq!(out.unwrap(), b"c".to_vec());
    let (out, _) = c.read(&vec![eof(StreamIdent::Stdout)]).unwrap();
    assert_eq!(out.unwrap(), b"".to_vec());
    assert!(!c.is_active());
}

#[test]
fn stderr_fragment_is_replayed_too() {
    let mut c = communicate(false, true, true, None).limit_size(2);
    let (out, err) = c.read(&vec![data(StreamIdent::Stderr, b"abcd")]).unwrap();
    assert_eq!(out.unwrap(), Vec::<u8>::new());
    assert_eq!(err.unwrap(), b"ab".to_vec());
    let (out, err) = c.read(&Vec::new()).unwrap();
    assert_eq!(out.unwrap(), Vec::<u8>::new());
    assert_eq!(err.unwrap(), b"cd".to_vec());
    assert!(c.is_active());
    let (_, _) = c.read(&vec![eof(StreamIdent::Stdout), eof(StreamIdent::Stderr)]).unwrap();
    assert!(!c.is_active());
}

#[test]
fn quota_is_shared_across_streams() {
    let mut c = communicate(false, true, true, None).limit_size(3);
    let msgs = vec![
        data(StreamIdent::Stdout, b"ab"),
        data(StreamIdent::Stderr, b"cd"),
    ];
    let (out, err) = c.read(&msgs).unwrap();
    assert_eq!(out.unwrap(), b"ab".to_vec());
    assert_eq!(err.unwrap(), b"c".to_vec());
    let (out, err) = c.read(&vec![eof(StreamIdent::Stdout), eof(StreamIdent::Stderr)]).unwrap();
    assert_eq!(out.unwrap(), Vec::<u8>::new());
    assert_eq!(err.unwrap(), b"d".to_vec());
    assert!(!c.is_active());
}

#[test]
fn timeout_resumability() {
    // The child is slow: nothing was delivered before the budget elapsed.
    let mut c = communicate(false, true, false, None).limit_time(10);
    assert_eq!(c.time_limit_ms(), Some(10));
    let starved: Vec<Message> = Vec::new();
    let e = c.read(&starved).unwrap_err();
    assert_eq!(e.kind(), IoKind::TimedOut);
    assert_eq!(e.capture.0.unwrap(), Vec::<u8>::new());
    assert!(e.capture.1.is_none());
    assert!(c.is_active());

    // A later call picks up exactly where the first left off.
    let msgs = vec![data(StreamIdent::Stdout, b"late"), eof(StreamIdent::Stdout)];
    let (out, err) = c.read(&msgs).unwrap();
    assert_eq!(out.unwrap(), b"late".to_vec());
    assert!(err.is_none());
    assert!(!c.is_active());
}

#[test]
fn timeout_with_partial_capture() {
    let mut c = communicate(false, true, false, None);
    let e = c.read(&vec![data(StreamIdent::Stdout, b"par")]).unwrap_err();
    assert_eq!(e.kind(), IoKind::TimedOut);
    assert_eq!(e.capture.0.unwrap(), b"par".to_vec());
    let (out, _) = c.read(&vec![data(StreamIdent::Stdout, b"tial"), eof(StreamIdent::Stdout)])
        .unwrap();
    assert_eq!(out.unwrap(), b"tial".to_vec());
}

#[test]
fn stream_presence_contract() {
    let mut c = communicate(false, true, false, None);
    let (out, err) = c.read(&vec![eof(StreamIdent::Stdout)]).unwrap();
    assert!(out.is_some());
    assert!(err.is_none());

    let mut c = communicate(false, false, true, None);
    let (out, err) = c.read(&vec![eof(StreamIdent::Stderr)]).unwrap();
    assert!(out.is_none());
    assert_eq!(err.unwrap(), Vec::<u8>::new());

    let mut c = communicate(true, false, false, Some(b"in".to_vec()));
    let (out, err) = c.read(&vec![eof(StreamIdent::Stdin)]).unwrap();
    assert!(out.is_none());
    assert!(err.is_none());
    assert!(!c.is_active());
}

#[test]
fn single_stream_matches_multiplexed_path() {
    // The same stdout delivery, once as the only piped stream and once
    // beside the two others: identical capture.
    let msgs = vec![
        data(StreamIdent::Stdout, b"alpha"),
        data(StreamIdent::Stdout, b"beta"),
        eof(StreamIdent::Stdout),
    ];
    let mut lone = communicate(false, true, false, None);
    let (lone_out, lone_err) = lone.read(&msgs).unwrap();
    assert!(lone_err.is_none());

    let mut multi = communicate(true, true, true, Some(Vec::new()));
    let mut both = vec![eof(StreamIdent::Stdin), eof(StreamIdent::Stderr)];
    both.extend(msgs.into_iter());
    let (multi_out, multi_err) = multi.read(&both).unwrap();
    assert_eq!(lone_out.unwrap(), multi_out.unwrap());
    assert_eq!(multi_err.unwrap(), Vec::<u8>::new());
    assert!(!lone.is_active());
    assert!(!multi.is_active());
}

#[test]
fn error_surfaces_partial_capture() {
    let mut c = communicate(false, true, true, None);
    let msgs = vec![
        data(StreamIdent::Stdout, b"kept"),
        failed(StreamIdent::Stdout, IoKind::BrokenPipe),
        data(StreamIdent::Stderr, b"never reached"),
    ];
    let e = c.read(&msgs).unwrap_err();
    assert_eq!(e.kind(), IoKind::BrokenPipe);
    assert_eq!(e.error, IoKind::BrokenPipe);
    assert_eq!(e.capture.0.unwrap(), b"kept".to_vec());
    assert_eq!(e.capture.1.unwrap(), Vec::<u8>::new());
    // The failed stream is terminal; stderr is still live.
    assert!(c.is_active());
    let (out, err) = c.read(&vec![data(StreamIdent::Stderr, b"tail"), eof(StreamIdent::Stderr)])
        .unwrap();
    assert_eq!(out.unwrap(), Vec::<u8>::new());
    assert_eq!(err.unwrap(), b"tail".to_vec());
    assert!(!c.is_active());
}

#[test]
fn interrupted_stream_is_terminal() {
    let mut c = communicate(false, false, true, None);
    let e = c.read(&vec![failed(StreamIdent::Stderr, IoKind::Interrupted)]).unwrap_err();
    assert_eq!(e.kind(), IoKind::Interrupted);
    assert!(e.capture.0.is_none());
    assert_eq!(e.capture.1.unwrap(), Vec::<u8>::new());
    assert!(!c.is_active());
}

#[test]
fn step_protocol_mirrors_batch_read() {
    let mut c = communicate(false, true, false, None).limit_size(4);
    assert!(c.begin_read());
    assert!(c.is_active());
    assert_eq!(c.handle_msg(&data(StreamIdent::Stdout, b"ab")), Step::Continue);
    assert_eq!(c.handle_msg(&data(StreamIdent::Stdout, b"cdef")), Step::Reached);
    let (out, err) = c.finish_read();
    assert_eq!(out.unwrap(), b"abcd".to_vec());
    assert!(err.is_none());
    assert!(c.has_leftover());

    // The next call replays "ef" and sees the close.
    assert!(c.begin_read());
    assert_eq!(c.handle_msg(&eof(StreamIdent::Stdout)), Step::Continue);
    assert!(!c.is_active());
    let (out, _) = c.finish_read();
    assert_eq!(out.unwrap(), b"ef".to_vec());
}

#[test]
fn read_into_reports_each_outcome() {
    let mut c = communicate(false, true, false, None);
    assert_eq!(c.read_into(&vec![]), RunStop::Starved);
    assert_eq!(c.read_into(&vec![eof(StreamIdent::Stdout)]), RunStop::Done);
    let _ = c.finish_read();

    let mut c = communicate(false, true, false, None).limit_size(0);
    assert_eq!(c.read_into(&vec![]), RunStop::Cut);

    let mut c = communicate(false, true, false, None);
    assert_eq!(
        c.read_into(&vec![failed(StreamIdent::Stdout, IoKind::Other)]),
        RunStop::Failed(IoKind::Other)
    );
}

#[test]
fn quota_zero_holds_everything_back() {
    let mut c = communicate(false, true, false, None).limit_size(0);
    let (out, _) = c.read(&vec![data(StreamIdent::Stdout, b"xyz")]).unwrap();
    assert_eq!(out.unwrap(), Vec::<u8>::new());
    // Nothing was delivered to the call, and nothing was consumed: the
    // bytes wait in the channel, not in the leftover fragment.
    assert!(!c.has_leftover());
    let mut c = c.limit_size(10);
    let (out, _) = c.read(&vec![data(StreamIdent::Stdout, b"xyz"), eof(StreamIdent::Stdout)])
        .unwrap();
    assert_eq!(out.unwrap(), b"xyz".to_vec());
}

#[test]
fn construction_mirrors_requests() {
    let c = Communicator::new(true, false, true, Some(b"payload".to_vec()));
    let (want_in, want_out, want_err) = c.interest();
    assert!(want_in);
    assert!(!want_out);
    assert!(want_err);
}

#[test]
fn take_input_hands_out_the_unwritten_payload() {
    let mut c = communicate(true, true, false, Some(b"abcdef".to_vec()));
    c.note_written(2);
    let rest = c.take_input();
    assert_eq!(rest, b"cdef".to_vec());
    // The input stream stays active until its end-of-stream message: the
    // surrendered payload is now the writer's business.
    assert!(c.interest().0);
    let (out, _) = c.read(&vec![eof(StreamIdent::Stdin), eof(StreamIdent::Stdout)]).unwrap();
    assert_eq!(out.unwrap(), Vec::<u8>::new());
    assert!(!c.is_active());
}
