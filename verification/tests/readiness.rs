use communicate::comm::communicate;
use communicate::msg::{Message, Payload, StreamIdent};
use communicate::readiness::{millisecs_until, CHUNK_SIZE};

#[test]
fn millisecs_until_counts_down() {
    assert_eq!(millisecs_until(5_000, 1_500), 3_500);
    assert_eq!(millisecs_until(1_500, 1_500), 0);
    assert_eq!(millisecs_until(1_000, 2_000), 0);
    assert_eq!(millisecs_until(u64::MAX, 0), u32::MAX);
}

#[test]
fn write_chunks_stay_pipe_safe() {
    let input = vec![7u8; CHUNK_SIZE + 123];
    let mut c = communicate(true, false, false, Some(input.clone()));
    let first = c.write_chunk();
    assert_eq!(first.len(), CHUNK_SIZE);
    assert_eq!(first, input[..CHUNK_SIZE].to_vec());
    c.note_written(first.len());
    let second = c.write_chunk();
    assert_eq!(second, input[CHUNK_SIZE..].to_vec());
    c.note_written(second.len());
    // The whole payload is written: stdin turned terminal, so the child
    // observes end-of-input, and the session is done.
    assert!(!c.interest().0);
    assert!(!c.is_active());
}

#[test]
fn partial_writes_advance_the_cursor() {
    let mut c = communicate(true, false, false, Some(b"abcdefgh".to_vec()));
    let chunk = c.write_chunk();
    assert_eq!(chunk, b"abcdefgh".to_vec());
    // The pipe accepted only three bytes; the next chunk starts there.
    c.note_written(3);
    assert_eq!(c.write_chunk(), b"defgh".to_vec());
    assert!(c.interest().0);
}

#[test]
fn empty_input_closes_after_one_empty_write() {
    let mut c = communicate(true, false, false, Some(Vec::new()));
    assert!(c.interest().0);
    let chunk = c.write_chunk();
    assert!(chunk.is_empty());
    c.note_written(0);
    assert!(!c.interest().0);
}

#[test]
fn read_budget_respects_quota() {
    let c = communicate(false, true, false, None);
    assert_eq!(c.read_budget(), CHUNK_SIZE);

    let mut c = communicate(false, true, false, None).limit_size(10);
    assert_eq!(c.read_budget(), 10);
    let msgs = vec![Message { ident: StreamIdent::Stdout, payload: Payload::Data(b"123456".to_vec()) }];
    let e = c.read(&msgs).unwrap_err();
    assert_eq!(e.capture.0.unwrap(), b"123456".to_vec());

    // A new call starts from a fresh budget for the whole quota.
    assert!(c.begin_read());
    assert_eq!(c.read_budget(), 10);

    let c = communicate(false, true, false, None).limit_size(100_000);
    assert_eq!(c.read_budget(), CHUNK_SIZE);
}

#[test]
fn interest_follows_stream_state() {
    let mut c = communicate(true, true, true, Some(b"x".to_vec()));
    assert_eq!(c.interest(), (true, true, true));
    let chunk = c.write_chunk();
    c.note_written(chunk.len());
    assert_eq!(c.interest(), (false, true, true));
    let msgs = vec![Message { ident: StreamIdent::Stdout, payload: Payload::Eof }];
    let _ = c.read(&msgs);
    assert_eq!(c.interest(), (false, false, true));
}
