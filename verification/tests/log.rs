use cathedral::core_types::hash;
use cathedral::core_types::id::{EventId, NodeId, RunId};
use cathedral::core_types::time::LogicalTime;
use cathedral::log::chain::{ChainError, ChainValidator, HashChain};
use cathedral::log::cursor::{Cursor, Direction};
use cathedral::log::event::{Event, EventKind};
use cathedral::log::stream::{EventStream, StreamError, StreamEvent, StreamWriter};
use cathedral::log::encoding::{frame, read_frame, DecodeError, EncodeError};

#[test]
fn test_hash_chain_new() {
    let chain = HashChain::new();
    assert!(chain.is_empty());
    assert_eq!(chain.len(), 0);
    assert!(chain.tip().is_none());
}

#[test]
fn test_hash_chain_with_initial() {
    let h = hash::Hash::compute(b"initial");
    let chain = HashChain::with_initial(h);
    assert_eq!(chain.len(), 1);
    assert_eq!(chain.tip(), Some(h));
}

#[test]
fn test_hash_chain_push() {
    let mut chain = HashChain::new();
    let h1 = hash::Hash::compute(b"event1");
    let h2 = hash::Hash::compute(b"event2");

    chain.set_expected(h1);
    chain.push(h1).unwrap();
    assert_eq!(chain.len(), 1);

    chain.set_expected(h2);
    chain.push(h2).unwrap();
    assert_eq!(chain.len(), 2);
}

#[test]
fn test_hash_chain_broken() {
    let mut chain = HashChain::new();
    let h1 = hash::Hash::compute(b"event1");
    let h2 = hash::Hash::compute(b"event2");

    chain.set_expected(h1);
    let result = chain.push(h2);
    assert!(result.is_err());
    assert_eq!(chain.len(), 0);
}

#[test]
fn test_hash_chain_validate() {
    let h1 = hash::Hash::compute(b"event1");
    let h2 = hash::Hash::compute(b"event2");
    let mut chain = HashChain::with_initial(h1);
    chain.set_expected(h2);
    chain.push(h2).unwrap();

    assert!(chain.validate());
    assert!(!HashChain::new().validate());
}

#[test]
fn chain_test_hash_chain_root() {
    let h1 = hash::Hash::compute(b"event1");
    let chain = HashChain::with_initial(h1);
    let root1 = chain.root();
    assert!(root1.is_some());
    assert!(HashChain::new().root().is_none());
}

#[test]
fn chain_test_validator_new() {
    let mut validator = ChainValidator::new();

    let h1 = hash::Hash::compute(b"event1");
    let h2 = hash::Hash::compute(b"event2");

    validator.validate(None, h1).unwrap();
    validator.validate(Some(h1), h2).unwrap();

    assert_eq!(validator.expected(), Some(h2));
}

#[test]
fn test_validator_with_initial() {
    let h1 = hash::Hash::compute(b"event1");
    let h2 = hash::Hash::compute(b"event2");
    let h3 = hash::Hash::compute(b"event3");

    let mut validator = ChainValidator::with_initial(h1);
    validator.validate(Some(h1), h2).unwrap();
    validator.validate(Some(h2), h3).unwrap();
}

#[test]
fn test_validator_sequence() {
    let h1 = hash::Hash::compute(b"event1");

    let mut validator = ChainValidator::new();
    validator.validate_sequence(&[h1, h1]).unwrap();
    assert_eq!(validator.expected(), Some(h1));
}

#[test]
fn test_validator_broken_sequence() {
    let h1 = hash::Hash::compute(b"event1");
    let h2 = hash::Hash::compute(b"event2");
    let h3 = hash::Hash::compute(b"event3");

    let mut validator = ChainValidator::with_initial(h1);
    let result = validator.validate_sequence(&[h2, h3]);
    assert!(result.is_err());
}

#[test]
fn test_validator_mismatch_error_and_reset() {
    let h1 = hash::Hash::compute(b"event1");
    let h2 = hash::Hash::compute(b"event2");
    let mut validator = ChainValidator::with_initial(h1);
    let r = validator.validate(Some(h2), h1);
    assert!(matches!(r, Err(ChainError::BrokenLink { .. })));
    validator.reset();
    assert_eq!(validator.expected(), None);
}

#[test]
fn test_hash_chain_basic() {
    let mut chain = HashChain::new();
    let h1 = hash::Hash::compute(b"event1");
    let h2 = hash::Hash::compute(b"event2");

    let _ = chain.push(h1);
    assert!(chain.validate());

    let _ = chain.push(h2);
    assert!(chain.validate());
}

#[test]
fn test_cursor_new() {
    let cursor = Cursor::new();
    assert_eq!(cursor.pos(), 0);
}

#[test]
fn test_cursor_at() {
    let cursor = Cursor::at(42);
    assert_eq!(cursor.pos(), 42);
}

#[test]
fn test_cursor_move_forward() {
    let mut cursor = Cursor::new();
    cursor.move_forward(5);
    assert_eq!(cursor.pos(), 5);
}

#[test]
fn test_cursor_move_backward() {
    let mut cursor = Cursor::at(10);
    cursor.move_backward(3);
    assert_eq!(cursor.pos(), 7);
}

#[test]
fn test_cursor_saturates() {
    let mut cursor = Cursor::at(2);
    cursor.move_backward(5);
    assert_eq!(cursor.pos(), 0);
    assert_eq!(cursor.direction, Direction::Backward);
    cursor.seek(u64::MAX - 1);
    cursor.move_forward(10);
    assert_eq!(cursor.pos(), u64::MAX);
    assert_eq!(cursor.direction, Direction::Forward);
}

#[test]
fn test_cursor_seek() {
    let mut cursor = Cursor::new();
    cursor.seek(100);
    assert_eq!(cursor.pos(), 100);
}

#[test]
fn test_cursor_reset() {
    let mut cursor = Cursor::at(50);
    cursor.reset();
    assert_eq!(cursor.pos(), 0);
}

#[test]
fn test_direction() {
    let cursor = Cursor::new();
    assert!(matches!(cursor.direction, Direction::Forward));
}

#[test]
fn test_event_creation() {
    let event = Event::new(
        EventId::new(),
        RunId::new(),
        NodeId::new(),
        LogicalTime::zero(),
        EventKind::RunStarted,
    );
    assert!(!event.is_terminal());
    assert!(!event.is_error());
}

#[test]
fn test_event_with_payload() {
    let event = Event::new(
        EventId::new(),
        RunId::new(),
        NodeId::new(),
        LogicalTime::zero(),
        EventKind::ToolCompleted,
    )
    .with_payload(b"data".to_vec());
    assert_eq!(event.payload, b"data");
    assert_eq!(event.payload_hash, hash::Hash::compute(b"data"));
    assert!(event.is_terminal());
}

#[test]
fn test_event_kind_error() {
    assert!(EventKind::ToolFailed.is_error());
    assert!(EventKind::ToolFailed.is_terminal());
    assert!(EventKind::Error.is_error());
    assert!(!EventKind::Error.is_terminal());
}

fn make_test_event(time: u64) -> StreamEvent {
    StreamEvent { logical_time: LogicalTime::from_raw(time) }
}

#[test]
fn test_stream_next() {
    let events = vec![make_test_event(0), make_test_event(1)];
    let mut stream = EventStream::new(events);
    assert_eq!(stream.next().unwrap().logical_time.as_u64(), 0);
    assert_eq!(stream.next().unwrap().logical_time.as_u64(), 1);
    assert!(stream.next().is_none());
}

#[test]
fn test_stream_peek() {
    let events = vec![make_test_event(0)];
    let stream = EventStream::new(events);
    assert_eq!(stream.peek().unwrap().logical_time.as_u64(), 0);
    assert_eq!(stream.peek().unwrap().logical_time.as_u64(), 0);
}

#[test]
fn test_stream_remaining() {
    let events = vec![make_test_event(0), make_test_event(1)];
    let mut stream = EventStream::new(events);
    assert_eq!(stream.remaining(), 2);
    stream.next();
    assert_eq!(stream.remaining(), 1);
}

#[test]
fn test_writer() {
    let mut writer = StreamWriter::new();
    writer.write(make_test_event(0));
    assert_eq!(writer.events().len(), 1);
}

#[test]
fn test_streaming_encode_decode() {
    let values: Vec<(u64, String, Vec<u32>)> =
        vec![(1, "first".to_string(), vec![10]), (2, "second".to_string(), vec![20])];

    let mut buffer = Vec::new();
    for v in &values {
        let bytes = postcard::to_allocvec(v).unwrap();
        buffer.extend_from_slice(&frame(&bytes));
    }

    let mut decoded: Vec<(u64, String, Vec<u32>)> = Vec::new();
    let mut rest: &[u8] = buffer.as_slice();
    while let Some((payload, used)) = read_frame(rest).unwrap() {
        decoded.push(postcard::from_bytes(&payload).unwrap());
        rest = &rest[used..];
    }

    assert_eq!(values, decoded);
}

#[test]
fn frame_layout_and_read_errors() {
    assert_eq!(frame(&[1, 2, 3]), vec![0, 0, 0, 3, 1, 2, 3]);
    assert_eq!(frame(&[]), vec![0, 0, 0, 0]);
    let long = vec![7u8; 300];
    let f = frame(&long);
    assert_eq!(&f[..4], &[0, 0, 1, 44]);
    assert_eq!(read_frame(&f).unwrap(), Some((long.clone(), 304)));
    assert_eq!(read_frame(&[]), Ok(None));
    assert_eq!(read_frame(&[0xFF, 0xFF, 0xFF]), Err(DecodeError::InvalidEncoding));
    assert_eq!(read_frame(&[0, 0, 0, 5, 1, 2]), Err(DecodeError::InvalidEncoding));
    assert_eq!(read_frame(&[0, 0, 0, 1, 9, 8]).unwrap(), Some((vec![9], 5)));
    assert_eq!(DecodeError::InvalidEncoding.to_string(), "Invalid canonical encoding");
    assert_eq!(EncodeError::BufferTooSmall.to_string(), "Buffer too small for encoded data");
}


#[test]
fn stream_error_messages() {
    assert_eq!(StreamError::InvalidPosition { position: 12 }.to_string(), "Invalid position: 12");
    assert_eq!(StreamError::EventNotFound.to_string(), "Event not found");
}
