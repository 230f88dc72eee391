use mcpg_plugin_backend_net_core::body::body_read_error;
use mcpg_plugin_backend_net_core::exec::{BodyEvent, BodyReadStep, BodyReader};

fn progress(step: Option<Result<BodyReadStep, String>>) -> usize {
    match step {
        Some(Ok(BodyReadStep::Progress { cumulative_bytes })) => cumulative_bytes,
        other => panic!("{:?}", other),
    }
}

fn done(step: Option<Result<BodyReadStep, String>>) -> (String, bool) {
    match step {
        Some(Ok(BodyReadStep::Done { body, truncated })) => (body, truncated),
        other => panic!("{:?}", other),
    }
}

#[test]
fn a_short_body_is_kept_whole() {
    let mut reader = BodyReader::new(10);
    reader.append(b"abc");
    reader.append(b"");
    reader.append(b"def");
    assert_eq!(reader.finish(), (b"abcdef".to_vec(), false));
}

#[test]
fn a_body_of_exactly_the_limit_is_not_truncated() {
    let mut reader = BodyReader::new(6);
    reader.append(b"abc");
    reader.append(b"def");
    assert_eq!(reader.finish(), (b"abcdef".to_vec(), false));
}

#[test]
fn a_long_body_is_cut() {
    let mut reader = BodyReader::new(4);
    reader.append(b"abc");
    reader.append(b"def");
    reader.append(b"ghi");
    assert_eq!(reader.finish(), (b"abcd".to_vec(), true));
    let mut reader = BodyReader::new(0);
    reader.append(b"a");
    assert_eq!(reader.finish(), (Vec::new(), true));
}

#[test]
fn an_empty_chunk_at_the_limit_changes_nothing() {
    let mut reader = BodyReader::new(3);
    reader.append(b"abc");
    reader.append(b"");
    assert_eq!(reader.finish(), (b"abc".to_vec(), false));
    let mut reader = BodyReader::new(0);
    reader.append(b"");
    assert_eq!(reader.finish(), (Vec::new(), false));
}

#[test]
fn text_of_a_body() {
    let mut reader = BodyReader::new(100);
    reader.append("h\u{e9}".as_bytes());
    assert_eq!(reader.finish_text(), ("h\u{e9}".to_owned(), false));
    let mut reader = BodyReader::new(2);
    reader.append("h\u{e9}".as_bytes());
    assert_eq!(reader.finish_text(), ("h\u{fffd}".to_owned(), true));
}

#[test]
fn a_stream_reports_progress_and_ends() {
    let mut reader = BodyReader::new(5);
    assert!(!reader.finished());
    assert_eq!(progress(reader.next_step(BodyEvent::Chunk(b"abc".to_vec()))), 3);
    assert_eq!(progress(reader.next_step(BodyEvent::Chunk(b"def".to_vec()))), 5);
    assert_eq!(progress(reader.next_step(BodyEvent::Chunk(b"ghi".to_vec()))), 5);
    assert_eq!(done(reader.next_step(BodyEvent::End)), ("abcde".to_owned(), true));
    assert!(reader.finished());
    assert!(reader.next_step(BodyEvent::End).is_none());
    assert!(reader.next_step(BodyEvent::Chunk(b"x".to_vec())).is_none());
}

#[test]
fn an_error_ends_a_stream() {
    let mut reader = BodyReader::new(5);
    assert_eq!(progress(reader.next_step(BodyEvent::Chunk(b"a".to_vec()))), 1);
    match reader.next_step(BodyEvent::Failed("reset".to_owned())) {
        Some(Err(message)) => assert_eq!(message, "HTTP body read failed: reset"),
        other => panic!("{:?}", other),
    }
    assert!(reader.finished());
    assert!(reader.next_step(BodyEvent::End).is_none());
    assert_eq!(body_read_error("reset"), "HTTP body read failed: reset");
}
