use lan_chat::message::MessageType;
use lan_chat::wire::{decode, encode, CodecError, FrameBuffer, MAX_MESSAGE_SIZE};

fn round_trip(m: MessageType) {
    let frame = encode(&m).unwrap();
    assert_eq!(decode(&frame).unwrap(), m);
}

#[test]
fn every_variant_round_trips() {
    round_trip(MessageType::Info("server notice".to_string()));
    round_trip(MessageType::Leave("127.0.0.1:5000".to_string()));
    round_trip(MessageType::Message("bob".to_string(), "hi".to_string()));
    round_trip(MessageType::Error("oops".to_string()));
    round_trip(MessageType::Command("help".to_string()));
    round_trip(MessageType::Pseudonym("alice".to_string()));
    round_trip(MessageType::File("notes.txt".to_string(), vec![0, 1, 2, 255]));
    round_trip(MessageType::Image("cat.png".to_string(), vec![137, 80, 78, 71]));
}

#[test]
fn empty_and_unicode_fields_round_trip() {
    round_trip(MessageType::Info(String::new()));
    round_trip(MessageType::Message(String::new(), String::new()));
    round_trip(MessageType::File(String::new(), Vec::new()));
    round_trip(MessageType::Message("zoë".to_string(), "héllo 😄 世界".to_string()));
}

#[test]
fn test_message_round_trips() {
    let message = MessageType::Info("Test message".to_string());
    let frame = encode(&message).unwrap();
    assert_eq!(decode(&frame).unwrap(), MessageType::Info("Test message".to_string()));
}

#[test]
fn frame_layout_is_exact() {
    let frame = encode(&MessageType::Info("hi".to_string())).unwrap();
    assert_eq!(frame, vec![0, 0, 0, 7, 0, 0, 0, 0, 2, b'h', b'i']);
    let frame = encode(&MessageType::Message("a".to_string(), "bc".to_string())).unwrap();
    assert_eq!(frame, vec![0, 0, 0, 12, 2, 0, 0, 0, 1, b'a', 0, 0, 0, 2, b'b', b'c']);
    let frame = encode(&MessageType::File("f".to_string(), vec![9])).unwrap();
    assert_eq!(frame, vec![0, 0, 0, 11, 6, 0, 0, 0, 1, b'f', 0, 0, 0, 1, 9]);
}

#[test]
fn non_ascii_text_is_utf8_on_the_wire() {
    let frame = encode(&MessageType::Pseudonym("é".to_string())).unwrap();
    assert_eq!(frame, vec![0, 0, 0, 7, 5, 0, 0, 0, 2, 0xC3, 0xA9]);
    assert_eq!(decode(&frame).unwrap(), MessageType::Pseudonym("é".to_string()));
}

#[test]
fn payload_at_the_limit_is_accepted() {
    // tag + length + text = MAX_MESSAGE_SIZE bytes
    let text = "x".repeat(MAX_MESSAGE_SIZE - 5);
    let frame = encode(&MessageType::Info(text.clone())).unwrap();
    assert_eq!(frame.len(), MAX_MESSAGE_SIZE + 4);
    assert_eq!(decode(&frame).unwrap(), MessageType::Info(text));
}

#[test]
fn oversized_payload_is_refused_for_every_variant_but_leave() {
    let big = "x".repeat(MAX_MESSAGE_SIZE - 4);
    let bytes = vec![7u8; MAX_MESSAGE_SIZE];
    let refused = vec![
        MessageType::Info(big.clone()),
        MessageType::Message("bob".to_string(), big.clone()),
        MessageType::Error(big.clone()),
        MessageType::Command(big.clone()),
        MessageType::Pseudonym(big.clone()),
        MessageType::File("f".to_string(), bytes.clone()),
        MessageType::Image("i".to_string(), bytes),
    ];
    for m in refused {
        assert_eq!(encode(&m), Err(CodecError::PayloadTooLarge));
    }
}

#[test]
fn leave_is_exempt_from_the_limit() {
    let m = MessageType::Leave("y".repeat(3 * MAX_MESSAGE_SIZE));
    let frame = encode(&m).unwrap();
    assert_eq!(frame.len(), 3 * MAX_MESSAGE_SIZE + 9);
    assert_eq!(decode(&frame).unwrap(), m);
}

#[test]
fn fifty_kilobyte_file_round_trips() {
    let content: Vec<u8> = (0..50_000u32).map(|i| (i % 251) as u8).collect();
    let m = MessageType::File("photo.bin".to_string(), content);
    round_trip(m);
}

#[test]
fn truncated_and_corrupt_frames_are_refused() {
    let frame = encode(&MessageType::Message("bob".to_string(), "hi".to_string())).unwrap();
    assert_eq!(decode(&[]), Err(CodecError::DecodeError));
    assert_eq!(decode(&frame[..3]), Err(CodecError::DecodeError));
    assert_eq!(decode(&frame[..frame.len() - 1]), Err(CodecError::DecodeError));
    let mut longer = frame.clone();
    longer.push(0);
    assert_eq!(decode(&longer), Err(CodecError::DecodeError));
    // an unknown tag
    assert_eq!(decode(&[0, 0, 0, 5, 9, 0, 0, 0, 0]), Err(CodecError::DecodeError));
    // a chat message with one text only
    assert_eq!(decode(&[0, 0, 0, 5, 2, 0, 0, 0, 0]), Err(CodecError::DecodeError));
    // a text that is not UTF-8
    assert_eq!(decode(&[0, 0, 0, 6, 0, 0, 0, 0, 1, 0xFF]), Err(CodecError::DecodeError));
    // a field length that runs past the payload
    assert_eq!(decode(&[0, 0, 0, 6, 0, 0, 0, 0, 9, b'a']), Err(CodecError::DecodeError));
}

#[test]
fn frames_split_across_reads_are_reassembled() {
    let a = MessageType::Message("alice".to_string(), "hello".to_string());
    let b = MessageType::File("f".to_string(), vec![1; 3000]);
    let mut stream = encode(&a).unwrap();
    stream.extend(encode(&b).unwrap());
    let mut buffer = FrameBuffer::new();
    let mut got = Vec::new();
    for chunk in stream.chunks(7) {
        buffer.push(chunk);
        while let Some(res) = buffer.next_message() {
            got.push(res.unwrap());
        }
    }
    assert_eq!(got, vec![a, b]);
    assert!(buffer.next_frame().is_none());
}

#[test]
fn a_partial_frame_stays_buffered() {
    let frame = encode(&MessageType::Info("wait".to_string())).unwrap();
    let mut buffer = FrameBuffer::new();
    buffer.push(&frame[..5]);
    assert!(buffer.next_frame().is_none());
    buffer.push(&frame[5..]);
    assert_eq!(buffer.next_frame().unwrap(), frame);
    assert!(buffer.next_frame().is_none());
}

#[test]
fn a_corrupt_frame_is_reported_and_taken_out() {
    let good = encode(&MessageType::Info("ok".to_string())).unwrap();
    let mut buffer = FrameBuffer::new();
    buffer.push(&[0, 0, 0, 1, 42]);
    buffer.push(&good);
    assert_eq!(buffer.next_message(), Some(Err(CodecError::DecodeError)));
    assert_eq!(buffer.next_message(), Some(Ok(MessageType::Info("ok".to_string()))));
    assert_eq!(buffer.next_message(), None);
}
