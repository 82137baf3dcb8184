use cosmic_comp::framing::{encode_frame, ByteOrder, FrameReader, ReadAction, ReadResult};
use std::collections::VecDeque;

/// The byte order of this machine.
fn native_order() -> ByteOrder {
    if u16::from_ne_bytes([1, 0]) == 1 {
        ByteOrder::Little
    } else {
        ByteOrder::Big
    }
}

/// A non-blocking socket end: reads take what has been written so far.
struct FakeStream {
    available: VecDeque<u8>,
    closed: bool,
}

impl FakeStream {
    fn new() -> Self {
        FakeStream { available: VecDeque::new(), closed: false }
    }

    fn write_all(&mut self, bytes: &[u8]) {
        self.available.extend(bytes.iter().copied());
    }

    fn read(&mut self, want: usize) -> ReadResult {
        if self.available.is_empty() {
            if self.closed {
                ReadResult::Eof
            } else {
                ReadResult::WouldBlock
            }
        } else {
            let n = want.min(self.available.len());
            let data: Vec<u8> = self.available.drain(..n).collect();
            ReadResult::Data(data)
        }
    }
}

#[derive(Debug, PartialEq)]
enum LoopEnd {
    Open,
    Closed,
    Error(&'static str),
}

/// The read loop of the session socket, over the fake stream.
fn read_messages(
    reader: &mut FrameReader,
    stream: &mut FakeStream,
    mut on_message: impl FnMut(&[u8]),
) -> LoopEnd {
    loop {
        let want = reader.wanted();
        let result = stream.read(want);
        match reader.on_read(result) {
            ReadAction::ReadAgain => continue,
            ReadAction::Deliver(message) => on_message(&message),
            ReadAction::Drained => return LoopEnd::Open,
            ReadAction::Closed => return LoopEnd::Closed,
            ReadAction::EofInHeader => return LoopEnd::Error("header"),
            ReadAction::EofInBody => return LoopEnd::Error("body"),
            ReadAction::Failed => return LoopEnd::Error("failed"),
        }
    }
}

fn frame(payload: &[u8]) -> Vec<u8> {
    let mut frame = u16::try_from(payload.len()).unwrap().to_ne_bytes().to_vec();
    frame.extend_from_slice(payload);
    frame
}

#[test]
fn reads_fragmented_messages_without_blocking() {
    let mut writer = FakeStream::new();
    let mut stream = FrameReader::new(native_order());
    let payload: &[u8] = br#"{"message":"set_env","variables":{"A":"B"}}"#;
    let framed = frame(payload);
    let mut messages: Vec<Vec<u8>> = Vec::new();

    writer.write_all(&framed[..1]);
    assert!(read_messages(&mut stream, &mut writer, |message| messages.push(message.to_vec())) == LoopEnd::Open);
    assert!(messages.is_empty());

    writer.write_all(&framed[1..5]);
    assert!(read_messages(&mut stream, &mut writer, |message| messages.push(message.to_vec())) == LoopEnd::Open);
    assert!(messages.is_empty());

    writer.write_all(&framed[5..]);
    assert!(read_messages(&mut stream, &mut writer, |message| messages.push(message.to_vec())) == LoopEnd::Open);
    assert_eq!(messages, [payload]);
}

#[test]
fn reads_multiple_messages_from_one_ready_event() {
    let mut writer = FakeStream::new();
    let mut stream = FrameReader::new(native_order());
    let first: &[u8] = br#"{"message":"set_env","variables":{}}"#;
    let second: &[u8] = br#"{"message":"set_env","variables":{"A":"B"}}"#;
    let mut bytes = frame(first);
    bytes.extend(frame(second));
    writer.write_all(&bytes);

    let mut messages: Vec<Vec<u8>> = Vec::new();
    assert!(read_messages(&mut stream, &mut writer, |message| messages.push(message.to_vec())) == LoopEnd::Open);
    assert_eq!(messages, [first, second]);
}

#[test]
fn encoded_frame_matches_native_framing() {
    let payload: &[u8] = br#"{"message":"set_env","variables":{"A":"B"}}"#;
    assert_eq!(encode_frame(native_order(), payload), frame(payload));
}

#[test]
fn encoded_frame_puts_length_in_given_order() {
    let payload = vec![7u8; 258];
    let little = encode_frame(ByteOrder::Little, &payload);
    assert_eq!(&little[..2], &[2, 1]);
    assert_eq!(&little[2..], &payload[..]);
    let big = encode_frame(ByteOrder::Big, &payload);
    assert_eq!(&big[..2], &[1, 2]);
    assert_eq!(big.len(), 260);
}

#[test]
fn encoded_frame_cuts_length_to_sixteen_bits() {
    let payload = vec![0u8; 65536 + 3];
    let framed = encode_frame(ByteOrder::Little, &payload);
    assert_eq!(&framed[..2], &[3, 0]);
    assert_eq!(framed.len(), payload.len() + 2);
}

#[test]
fn empty_message_is_delivered_without_a_body_read() {
    let mut writer = FakeStream::new();
    let mut stream = FrameReader::new(ByteOrder::Little);
    writer.write_all(&[0, 0, 1, 0, 9]);
    let mut messages: Vec<Vec<u8>> = Vec::new();
    assert_eq!(read_messages(&mut stream, &mut writer, |m| messages.push(m.to_vec())), LoopEnd::Open);
    assert_eq!(messages, vec![vec![], vec![9u8]]);
}

#[test]
fn reader_asks_for_rest_of_header_then_body() {
    let mut stream = FrameReader::new(ByteOrder::Big);
    assert_eq!(stream.wanted(), 2);
    assert!(matches!(stream.on_read(ReadResult::Data(vec![0])), ReadAction::ReadAgain));
    assert_eq!(stream.wanted(), 1);
    assert!(matches!(stream.on_read(ReadResult::Data(vec![3])), ReadAction::ReadAgain));
    assert_eq!(stream.wanted(), 3);
    assert!(matches!(stream.on_read(ReadResult::Data(vec![1, 2])), ReadAction::ReadAgain));
    assert_eq!(stream.wanted(), 1);
    match stream.on_read(ReadResult::Data(vec![3])) {
        ReadAction::Deliver(m) => assert_eq!(m, vec![1, 2, 3]),
        other => panic!("unexpected {:?}", other),
    }
    assert_eq!(stream.wanted(), 2);
}

#[test]
fn closed_socket_between_messages_ends_cleanly() {
    let mut writer = FakeStream::new();
    writer.closed = true;
    let mut stream = FrameReader::new(native_order());
    assert_eq!(read_messages(&mut stream, &mut writer, |_| {}), LoopEnd::Closed);
}

#[test]
fn closed_socket_in_header_is_an_error() {
    let mut writer = FakeStream::new();
    writer.write_all(&[5]);
    writer.closed = true;
    let mut stream = FrameReader::new(ByteOrder::Little);
    assert_eq!(read_messages(&mut stream, &mut writer, |_| {}), LoopEnd::Error("header"));
}

#[test]
fn closed_socket_in_body_is_an_error() {
    let mut writer = FakeStream::new();
    writer.write_all(&[5, 0, 1, 2]);
    writer.closed = true;
    let mut stream = FrameReader::new(ByteOrder::Little);
    let mut messages: Vec<Vec<u8>> = Vec::new();
    assert_eq!(read_messages(&mut stream, &mut writer, |m| messages.push(m.to_vec())), LoopEnd::Error("body"));
    assert!(messages.is_empty());
}

#[test]
fn closed_socket_after_full_header_is_a_body_error() {
    let mut stream = FrameReader::new(ByteOrder::Little);
    assert!(matches!(stream.on_read(ReadResult::Data(vec![4, 0])), ReadAction::ReadAgain));
    assert!(matches!(stream.on_read(ReadResult::Eof), ReadAction::EofInBody));
}

#[test]
fn interrupted_and_failed_reads_keep_state() {
    let mut stream = FrameReader::new(ByteOrder::Little);
    assert!(matches!(stream.on_read(ReadResult::Data(vec![2])), ReadAction::ReadAgain));
    assert!(matches!(stream.on_read(ReadResult::Interrupted), ReadAction::ReadAgain));
    assert!(matches!(stream.on_read(ReadResult::Error), ReadAction::Failed));
    assert!(matches!(stream.on_read(ReadResult::WouldBlock), ReadAction::Drained));
    assert_eq!(stream.wanted(), 1);
    assert!(matches!(stream.on_read(ReadResult::Data(vec![0])), ReadAction::ReadAgain));
    assert_eq!(stream.wanted(), 2);
}

#[test]
fn every_split_of_a_stream_delivers_the_same_messages() {
    let order = ByteOrder::Little;
    let payloads: Vec<Vec<u8>> = vec![vec![1, 2, 3], vec![], vec![4; 300], vec![5]];
    let mut stream_bytes = Vec::new();
    for p in &payloads {
        stream_bytes.extend(encode_frame(order, p));
    }
    for chunk in 1..8 {
        let mut writer = FakeStream::new();
        let mut reader = FrameReader::new(order);
        let mut messages: Vec<Vec<u8>> = Vec::new();
        for piece in stream_bytes.chunks(chunk) {
            writer.write_all(piece);
            assert_eq!(read_messages(&mut reader, &mut writer, |m| messages.push(m.to_vec())), LoopEnd::Open);
        }
        assert_eq!(messages, payloads);
    }
}
