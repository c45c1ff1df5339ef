use bluerobotics_ping::parser::{PayloadType, VectorType};
use bluerobotics_ping::payload::{decode_payload, encode_payload, scalar_fits_type, FieldValue};

fn string_type() -> PayloadType {
    PayloadType::VECTOR(Box::new(VectorType {
        size_type: None,
        data_type: PayloadType::CHAR,
    }))
}

fn sized_vector(size_type: PayloadType, data_type: PayloadType) -> PayloadType {
    PayloadType::VECTOR(Box::new(VectorType {
        size_type: Some(size_type),
        data_type,
    }))
}

#[test]
fn test_simple_serialization() {
    // general_request: requested_id u16
    let general_request = vec![PayloadType::U16];
    assert_eq!(
        encode_payload(&general_request, &vec![FieldValue::Scalar(5)]),
        [0x05, 0x00]
    );

    // nack: nacked_id u16, nack_message string
    let nack = vec![PayloadType::U16, string_type()];
    assert_eq!(
        encode_payload(
            &nack,
            &vec![FieldValue::Scalar(0x666), FieldValue::Text(b"BATATA".to_vec())]
        ),
        [0x66, 0x6, 0x42, 0x41, 0x54, 0x41, 0x54, 0x41, 0x00]
    );
}

#[test]
fn nack_payload_reads_back() {
    let nack = vec![PayloadType::U16, string_type()];
    let payload = [0x66, 0x6, 0x42, 0x41, 0x54, 0x41, 0x54, 0x41, 0x00];
    assert_eq!(
        decode_payload(&nack, &payload),
        Some(vec![FieldValue::Scalar(0x666), FieldValue::Text(b"BATATA".to_vec())])
    );
}

#[test]
fn scalars_of_every_width() {
    let types = vec![
        PayloadType::BOOL,
        PayloadType::U8,
        PayloadType::I16,
        PayloadType::U32,
        PayloadType::F64,
    ];
    let values = vec![
        FieldValue::Scalar(1),
        FieldValue::Scalar(0xab),
        FieldValue::Scalar((-2i16) as u16 as u64),
        FieldValue::Scalar(0x0102_0304),
        FieldValue::Scalar(1.5f64.to_bits()),
    ];
    let bytes = encode_payload(&types, &values);
    let mut expected = vec![1, 0xab, 0xfe, 0xff, 0x04, 0x03, 0x02, 0x01];
    expected.extend_from_slice(&1.5f64.to_le_bytes());
    assert_eq!(bytes, expected);
    assert_eq!(decode_payload(&types, &bytes), Some(values));
}

#[test]
fn sized_vector_roundtrip() {
    let types = vec![PayloadType::U8, sized_vector(PayloadType::U16, PayloadType::U16)];
    let values = vec![
        FieldValue::Scalar(7),
        FieldValue::Vector(3, vec![0x1234, 0xabcd, 1]),
    ];
    let bytes = encode_payload(&types, &values);
    assert_eq!(bytes, [7, 3, 0, 0x34, 0x12, 0xcd, 0xab, 1, 0]);
    assert_eq!(decode_payload(&types, &bytes), Some(values));
}

#[test]
fn malformed_payloads_are_refused() {
    let types = vec![PayloadType::U16];
    // too short, too long
    assert_eq!(decode_payload(&types, &[1]), None);
    assert_eq!(decode_payload(&types, &[1, 2, 3]), None);
    // a boolean must be 0 or 1
    assert_eq!(decode_payload(&vec![PayloadType::BOOL], &[2]), None);
    // a string without its terminating zero
    assert_eq!(decode_payload(&vec![string_type()], b"abc"), None);
    // a vector announcing more items than there are bytes
    let vector = vec![sized_vector(PayloadType::U8, PayloadType::U32)];
    assert_eq!(decode_payload(&vector, &[2, 1, 0, 0, 0]), None);
    // no fields: only the empty payload
    let none: Vec<PayloadType> = vec![];
    assert_eq!(decode_payload(&none, &[]), Some(vec![]));
    assert_eq!(decode_payload(&none, &[0]), None);
}

#[test]
fn scalar_fits_its_type() {
    assert!(scalar_fits_type(&PayloadType::BOOL, 1));
    assert!(!scalar_fits_type(&PayloadType::BOOL, 2));
    assert!(scalar_fits_type(&PayloadType::U16, 0xffff));
    assert!(!scalar_fits_type(&PayloadType::U16, 0x10000));
    assert!(!scalar_fits_type(&string_type(), 0));
}

#[test]
fn sized_vector_writes_its_stored_length() {
    // The length prefix is the value the message holds, as a generated struct stores it.
    let types = vec![sized_vector(PayloadType::U8, PayloadType::U8)];
    let values = vec![FieldValue::Vector(5, vec![1, 2])];
    assert_eq!(encode_payload(&types, &values), [5, 1, 2]);
}

#[test]
fn scalar_fields_lie_at_the_sum_of_the_sizes_before_them() {
    let types = vec![PayloadType::U8, PayloadType::U32, PayloadType::I16];
    let values = vec![
        FieldValue::Scalar(0x11),
        FieldValue::Scalar(0x2233_4455),
        FieldValue::Scalar(0x6677),
    ];
    let bytes = encode_payload(&types, &values);
    assert_eq!(bytes.len(), 1 + 4 + 2);
    assert_eq!(bytes[0..1], [0x11]);
    assert_eq!(bytes[1..5], [0x55, 0x44, 0x33, 0x22]);
    assert_eq!(bytes[5..7], [0x77, 0x66]);
}
