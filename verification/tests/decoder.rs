use bluerobotics_ping::decoder::{Decoder, DecoderResult, DecoderState, ParseError};
use bluerobotics_ping::message::ProtocolMessage;

fn feed(decoder: &mut Decoder, bytes: &[u8]) -> Vec<DecoderResult> {
    bytes.iter().map(|byte| decoder.parse_byte(*byte)).collect()
}

#[test]
fn decoder_reads_documented_frame() {
    let mut decoder = Decoder::new();
    let frame = [0x42, 0x52, 0x02, 0x00, 0x06, 0x00, 0x00, 0x00, 0x05, 0x00, 0xa1, 0x00];
    let results = feed(&mut decoder, &frame);
    for result in &results[..frame.len() - 1] {
        assert!(matches!(result, DecoderResult::InProgress));
    }
    match &results[frame.len() - 1] {
        DecoderResult::Success(message) => {
            let mut expected = ProtocolMessage::new();
            expected.set_message_id_and_payload(6, vec![5, 0]);
            assert_eq!(*message, expected);
        }
        other => panic!("unexpected result {other:?}"),
    }
    assert_eq!(decoder.state, DecoderState::AwaitingStart1);
}

#[test]
fn decoder_keeps_checksum_as_received() {
    let mut decoder = Decoder::new();
    let frame = [0x42, 0x52, 0x01, 0x00, 0x07, 0x00, 0x01, 0x02, 0x09, 0x34, 0x12];
    let results = feed(&mut decoder, &frame);
    match results.last() {
        Some(DecoderResult::Success(message)) => {
            assert_eq!(message.payload_length, 1);
            assert_eq!(message.message_id, 7);
            assert_eq!(message.src_device_id, 1);
            assert_eq!(message.dst_device_id, 2);
            assert_eq!(message.payload, vec![9]);
            assert_eq!(message.checksum, 0x1234);
            assert!(!message.has_valid_crc());
        }
        other => panic!("unexpected result {other:?}"),
    }
}

#[test]
fn decoder_reads_frames_back_to_back() {
    let mut decoder = Decoder::new();
    let mut first = ProtocolMessage::new();
    first.set_message_id_and_payload(1211, vec![1, 2, 3, 4]);
    let mut second = ProtocolMessage::new();
    second.set_message_id_and_payload(1300, (0..=200).collect());
    second.set_src_device_id(9);
    let mut stream = first.serialized();
    stream.extend(second.serialized());
    let successes: Vec<ProtocolMessage> = feed(&mut decoder, &stream)
        .into_iter()
        .filter_map(|result| match result {
            DecoderResult::Success(message) => Some(message),
            _ => None,
        })
        .collect();
    assert_eq!(successes, vec![first, second]);
}

#[test]
fn decoder_rejects_bad_start_bytes() {
    let mut decoder = Decoder::new();
    assert!(matches!(
        decoder.parse_byte(0x00),
        DecoderResult::Error(ParseError::InvalidStartByte)
    ));
    assert_eq!(decoder.state, DecoderState::AwaitingStart1);
    assert!(matches!(decoder.parse_byte(0x42), DecoderResult::InProgress));
    assert_eq!(decoder.state, DecoderState::AwaitingStart2);
    assert!(matches!(
        decoder.parse_byte(0x42),
        DecoderResult::Error(ParseError::InvalidStartByte)
    ));
    assert_eq!(decoder.state, DecoderState::AwaitingStart1);
}

#[test]
fn decoder_reset_waits_for_start() {
    let mut decoder = Decoder::new();
    feed(&mut decoder, &[0x42, 0x52, 0x02, 0x00]);
    assert_eq!(decoder.state, DecoderState::ReadingHeader);
    assert_eq!(decoder.state(), DecoderState::ReadingHeader);
    decoder.reset();
    assert_eq!(decoder.state, DecoderState::AwaitingStart1);
    let results = feed(
        &mut decoder,
        &[0x42, 0x52, 0x02, 0x00, 0x06, 0x00, 0x00, 0x00, 0x05, 0x00, 0xa1, 0x00],
    );
    assert!(matches!(results.last(), Some(DecoderResult::Success(_))));
}

#[test]
fn decoder_reads_frame_with_empty_payload() {
    let mut decoder = Decoder::new();
    let frame = [0x42, 0x52, 0x00, 0x00, 0x64, 0x00, 0x00, 0x00, 0xF8, 0x00];
    let results = feed(&mut decoder, &frame);
    for result in &results[..frame.len() - 1] {
        assert!(matches!(result, DecoderResult::InProgress));
    }
    match &results[frame.len() - 1] {
        DecoderResult::Success(message) => {
            assert_eq!(
                *message,
                ProtocolMessage {
                    payload_length: 0,
                    message_id: 100,
                    src_device_id: 0,
                    dst_device_id: 0,
                    payload: vec![],
                    checksum: 0x00F8,
                }
            );
            assert!(message.has_valid_crc());
        }
        other => panic!("unexpected result {other:?}"),
    }
    assert_eq!(decoder.state(), DecoderState::AwaitingStart1);
}

#[test]
fn decoder_empty_payload_after_longer_frame() {
    let mut decoder = Decoder::new();
    let mut first = ProtocolMessage::new();
    first.set_message_id_and_payload(1211, vec![1, 2, 3]);
    let mut second = ProtocolMessage::new();
    second.set_message_id_and_payload(5, vec![]);
    let mut stream = first.serialized();
    stream.extend(second.serialized());
    let successes: Vec<ProtocolMessage> = feed(&mut decoder, &stream)
        .into_iter()
        .filter_map(|result| match result {
            DecoderResult::Success(message) => Some(message),
            _ => None,
        })
        .collect();
    assert_eq!(successes, vec![first, second]);
}
