use bluerobotics_ping::device::{
    ack_outcome, awaited_reply, general_request, reply_outcome, set_device_id_request, AckOutcome,
    ReplyOutcome, ACK_ID, NACK_ID, PROTOCOL_VERSION_ID, SET_DEVICE_ID_ID,
};
use bluerobotics_ping::message::ProtocolMessage;
use bluerobotics_ping::parser::PayloadType;
use bluerobotics_ping::payload::FieldValue;

fn message(id: u16, payload: Vec<u8>) -> ProtocolMessage {
    let mut m = ProtocolMessage::new();
    m.set_message_id_and_payload(id, payload);
    m
}

#[test]
fn general_request_frame() {
    let request = general_request(5);
    assert_eq!(
        request.serialized(),
        [0x42, 0x52, 0x02, 0x00, 0x06, 0x00, 0x00, 0x00, 0x05, 0x00, 0xa1, 0x00]
    );
    assert_eq!(
        general_request(1211).serialized(),
        [0x42, 0x52, 0x02, 0x00, 0x06, 0x00, 0x00, 0x00, 0xbb, 0x04, 0x5b, 0x01]
    );
}

#[test]
fn set_device_id_request_frame() {
    let request = set_device_id_request(9);
    assert_eq!(request.message_id, SET_DEVICE_ID_ID);
    assert_eq!(request.payload, vec![9]);
    assert!(request.has_valid_crc());
}

#[test]
fn awaited_reply_matches_id() {
    assert!(awaited_reply(1211, &message(1211, vec![])));
    assert!(!awaited_reply(1211, &message(1212, vec![])));
}

#[test]
fn ack_outcomes() {
    // other messages are skipped
    assert_eq!(ack_outcome(ACK_ID, NACK_ID, 100, &message(1211, vec![100, 0])), AckOutcome::Skip);
    // ack for the awaited id
    assert_eq!(ack_outcome(ACK_ID, NACK_ID, 100, &message(ACK_ID, vec![100, 0])), AckOutcome::Acked);
    // ack for another request
    assert_eq!(ack_outcome(ACK_ID, NACK_ID, 100, &message(ACK_ID, vec![101, 0])), AckOutcome::Skip);
    // nack for the awaited id, with its reason
    assert_eq!(
        ack_outcome(ACK_ID, NACK_ID, 0x666, &message(NACK_ID, vec![0x66, 0x06, b'B', b'A', 0])),
        AckOutcome::Nacked(vec![b'B', b'A', 0])
    );
    // nack for another request
    assert_eq!(ack_outcome(ACK_ID, NACK_ID, 100, &message(NACK_ID, vec![1, 0])), AckOutcome::Skip);
    // ack that is too short
    assert_eq!(ack_outcome(ACK_ID, NACK_ID, 100, &message(ACK_ID, vec![100])), AckOutcome::Unparsable);
    // ack with a wrong checksum
    let mut bad = message(ACK_ID, vec![100, 0]);
    bad.checksum = bad.checksum.wrapping_add(1);
    assert_eq!(ack_outcome(ACK_ID, NACK_ID, 100, &bad), AckOutcome::Unparsable);
}

#[test]
fn reply_outcomes() {
    let types = vec![PayloadType::U8, PayloadType::U8, PayloadType::U8, PayloadType::U8];
    // another message is skipped
    assert_eq!(
        reply_outcome(PROTOCOL_VERSION_ID, &types, &message(1211, vec![1, 2, 3, 0])),
        ReplyOutcome::Skip
    );
    // the reply, read into its fields
    assert_eq!(
        reply_outcome(PROTOCOL_VERSION_ID, &types, &message(PROTOCOL_VERSION_ID, vec![1, 2, 3, 0])),
        ReplyOutcome::Reply(vec![
            FieldValue::Scalar(1),
            FieldValue::Scalar(2),
            FieldValue::Scalar(3),
            FieldValue::Scalar(0),
        ])
    );
    // a payload that does not hold the fields
    assert_eq!(
        reply_outcome(PROTOCOL_VERSION_ID, &types, &message(PROTOCOL_VERSION_ID, vec![1, 2, 3])),
        ReplyOutcome::Unparsable
    );
    // a wrong checksum
    let mut bad = message(PROTOCOL_VERSION_ID, vec![1, 2, 3, 0]);
    bad.checksum = bad.checksum.wrapping_add(1);
    assert_eq!(reply_outcome(PROTOCOL_VERSION_ID, &types, &bad), ReplyOutcome::Unparsable);
}
