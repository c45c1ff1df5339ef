use bluerobotics_ping::message::{PingMessage, ProtocolMessage, SerializePayload};
use bluerobotics_ping::parser::PayloadType;
use bluerobotics_ping::payload::{encode_payload, FieldValue};

/// The general request of the common message set: id 6, one little-endian u16 field.
#[derive(Clone, Debug, PartialEq)]
struct GeneralRequest {
    requested_id: u16,
}

impl SerializePayload for GeneralRequest {
    fn serialize(&self) -> Vec<u8> {
        encode_payload(
            &vec![PayloadType::U16],
            &vec![FieldValue::Scalar(self.requested_id as u64)],
        )
    }
}

impl PingMessage for GeneralRequest {
    fn message_id(&self) -> u16 {
        6
    }

    fn message_name(&self) -> &'static str {
        "general_request"
    }

    fn message_id_from_name(name: &str) -> Result<u16, String> {
        match name {
            "general_request" => Ok(6),
            _ => Err(format!("Failed to find message ID from name: {name}.")),
        }
    }
}

#[test]
fn test_same_packer() {
    let mut packer = ProtocolMessage::new();
    let mut general_request = GeneralRequest { requested_id: 5 };
    packer.set_message(&general_request.clone());

    assert_eq!(
        packer.serialized(),
        [0x42, 0x52, 0x02, 0x00, 0x06, 0x00, 0x00, 0x00, 0x05, 0x00, 0xa1, 0x00]
    );

    packer.set_message(&general_request.clone());

    assert_eq!(
        packer.serialized(),
        [0x42, 0x52, 0x02, 0x00, 0x06, 0x00, 0x00, 0x00, 0x05, 0x00, 0xa1, 0x00]
    );

    packer.set_dst_device_id(1);
    assert_eq!(
        packer.serialized(),
        [0x42, 0x52, 0x02, 0x00, 0x06, 0x00, 0x00, 0x01, 0x05, 0x00, 0xa2, 0x00]
    );

    general_request.requested_id = 1211;
    packer.set_message(&general_request.clone());
    packer.set_dst_device_id(0);
    assert_eq!(
        packer.serialized(),
        [0x42, 0x52, 0x02, 0x00, 0x06, 0x00, 0x00, 0x00, 0xbb, 0x04, 0x5b, 0x01]
    );

    assert_eq!(packer.message_id, general_request.message_id());
}

#[test]
fn new_message_is_all_zero() {
    let message = ProtocolMessage::new();
    assert_eq!(message.payload_length, 0);
    assert_eq!(message.message_id, 0);
    assert_eq!(message.src_device_id, 0);
    assert_eq!(message.dst_device_id, 0);
    assert!(message.payload.is_empty());
    assert_eq!(message.checksum(), 0);
    assert_eq!(ProtocolMessage::default(), message);
    // an empty message's checksum is that of "BR" alone
    assert_eq!(message.calculate_crc(), 0x42 + 0x52);
    assert!(!message.has_valid_crc());
}

#[test]
fn set_message_id_and_payload_sets_length_and_checksum() {
    let mut message = ProtocolMessage::new();
    message.set_message_id_and_payload(1211, vec![1, 2, 3]);
    assert_eq!(message.message_id, 1211);
    assert_eq!(message.payload(), &[1, 2, 3]);
    assert_eq!(message.payload_length, 3);
    assert_eq!(message.length(), 13);
    assert_eq!(message.serialized().len(), message.length());
    assert!(message.has_valid_crc());
    assert_eq!(
        message.checksum(),
        0x42 + 0x52 + 3 + 0 + 0xbb + 0x04 + 0 + 0 + 1 + 2 + 3
    );
}

#[test]
fn device_ids_update_checksum() {
    let mut message = ProtocolMessage::new();
    message.set_message_id_and_payload(6, vec![5, 0]);
    message.set_src_device_id(3);
    assert_eq!(message.src_device_id, 3);
    assert_eq!(message.checksum(), 0xa1 + 3);
    message.set_dst_device_id(200);
    assert_eq!(message.dst_device_id(), 200);
    assert_eq!(message.checksum(), 0xa1 + 3 + 200);
    assert!(message.has_valid_crc());
}

#[test]
fn update_checksum_restores_validity() {
    let mut message = ProtocolMessage::new();
    message.set_message_id_and_payload(6, vec![5, 0]);
    message.payload[0] = 9;
    assert!(!message.has_valid_crc());
    message.update_checksum();
    assert!(message.has_valid_crc());
    assert_eq!(message.checksum(), 0xa1 + 4);
}

#[test]
fn checksum_wraps_at_sixteen_bits() {
    let mut message = ProtocolMessage::new();
    message.set_message_id_and_payload(0, vec![0xff; 300]);
    let expected = ((0x42u32 + 0x52 + (300 % 256) + (300 / 256) + 300 * 0xff) % 0x10000) as u16;
    assert_eq!(message.checksum(), expected);
    let frame = message.serialized();
    assert_eq!(
        bluerobotics_ping::calculate_crc(&frame[..frame.len() - 2]),
        expected
    );
}

#[test]
fn payload_length_field_truncates_to_sixteen_bits() {
    let mut message = ProtocolMessage::new();
    message.set_message_id_and_payload(1, vec![7; 65536 + 4]);
    assert_eq!(message.payload_length, 4);
    assert_eq!(message.length(), 14);
}

#[test]
fn crate_checksum_of_bytes() {
    assert_eq!(bluerobotics_ping::calculate_crc(&[]), 0);
    assert_eq!(
        bluerobotics_ping::calculate_crc(&[0x42, 0x52, 0x02, 0x00, 0x06, 0x00, 0x00, 0x00, 0x05, 0x00]),
        0xa1
    );
    assert_eq!(bluerobotics_ping::calculate_crc(&[0xff; 258]), ((258 * 0xff) % 0x10000) as u16);
}

#[test]
fn set_message_takes_id_and_payload_from_message() {
    let mut message = ProtocolMessage::new();
    message.set_src_device_id(4);
    let request = GeneralRequest { requested_id: 0x1234 };
    message.set_message(&request);
    assert_eq!(message.message_id, request.message_id());
    assert_eq!(message.payload(), request.serialize().as_slice());
    assert_eq!(message.payload().len(), message.payload_length as usize);
    assert_eq!(message.src_device_id, 4);
    assert!(message.has_valid_crc());
    let before = message.clone();
    message.set_message(&request);
    assert_eq!(message, before);
}
