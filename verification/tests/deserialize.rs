use bluerobotics_ping::frame::{parse_frame, FrameError};
use bluerobotics_ping::message::ProtocolMessage;
use bluerobotics_ping::parser::PayloadType;
use bluerobotics_ping::payload::{decode_payload, FieldValue};

fn general_request(requested_id: u16) -> ProtocolMessage {
    let mut message = ProtocolMessage::new();
    message.set_message_id_and_payload(6, requested_id.to_le_bytes().to_vec());
    message
}

#[test]
fn test_simple_deserialization() {
    let general_request = general_request(5);

    let buffer: Vec<u8> = vec![
        0x42, 0x52, 0x02, 0x00, 0x06, 0x00, 0x00, 0x00, 0x05, 0x00, 0xa1, 0x00,
    ];
    let parsed = parse_frame(&buffer).unwrap();

    // From official ping protocol documentation
    assert_eq!(general_request, parsed);
}

#[test]
fn test_inner() {
    // From official ping protocol documentation
    let buffer: Vec<u8> = vec![
        0x42, 0x52, 0x02, 0x00, // payload length
        0x06, 0x00, // message id
        0x00, 0x00, // src and dst id
        0x05, 0x00, // payload
        0xa1, 0x00, // crc
    ];
    let decoded_message = parse_frame(&buffer).expect("Failed to parse common message.");
    assert_eq!(decoded_message.message_id, 6);
    let requested_id = u16::from_le_bytes([decoded_message.payload[0], decoded_message.payload[1]]);
    assert_eq!(requested_id, 5);
}

#[test]
fn inner_payload_decodes_as_general_request() {
    let buffer: Vec<u8> = vec![
        0x42, 0x52, 0x02, 0x00, 0x06, 0x00, 0x00, 0x00, 0x05, 0x00, 0xa1, 0x00,
    ];
    let decoded_message = parse_frame(&buffer).expect("Failed to parse common message.");
    assert_eq!(
        decode_payload(&vec![PayloadType::U16], &decoded_message.payload),
        Some(vec![FieldValue::Scalar(5)])
    );
}

#[test]
fn frame_roundtrip() {
    let mut message = ProtocolMessage::new();
    message.set_message_id_and_payload(1300, (0..=255).collect());
    message.set_src_device_id(1);
    message.set_dst_device_id(2);
    assert_eq!(parse_frame(&message.serialized()), Ok(message));
}

#[test]
fn frame_with_empty_payload() {
    let mut message = ProtocolMessage::new();
    message.set_message_id_and_payload(5, vec![]);
    let frame = message.serialized();
    assert_eq!(frame.len(), 10);
    assert_eq!(parse_frame(&frame), Ok(message));
}

#[test]
fn frame_errors() {
    assert_eq!(
        parse_frame(&vec![0x42, 0x53, 0, 0, 0, 0, 0, 0, 0, 0]),
        Err(FrameError::InvalidStart { first: 0x42, second: 0x53 })
    );
    assert_eq!(
        parse_frame(&vec![0x42, 0x52, 0, 0]),
        Err(FrameError::TooShort { length: 4 })
    );
    assert_eq!(
        parse_frame(&vec![0x42, 0x52, 0x03, 0x00, 0x06, 0x00, 0x00, 0x00, 0x05, 0x00, 0xa1, 0x00]),
        Err(FrameError::PayloadLengthMismatch { payload_length: 3, available: 2 })
    );
    assert_eq!(
        parse_frame(&vec![0x42, 0x52, 0x02, 0x00, 0x06, 0x00, 0x00, 0x00, 0x05, 0x00, 0xa2, 0x00]),
        Err(FrameError::ChecksumMismatch { expected: 0xa1, received: 0xa2 })
    );
}
