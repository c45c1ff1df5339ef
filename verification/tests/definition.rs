use bluerobotics_ping::definition::{message_definition_from_json, parse_description};
use bluerobotics_ping::json::JsonValue;
use bluerobotics_ping::parser::{PayloadType, VectorType};

const DEFINITION: &str = r#"{
    "class_info": { "common": { "version": 1 } },
    "messages": {
        "get": {
            "general_request": {
                "id": 6,
                "description": "Requests a specific message to be sent from the sonar to the host.",
                "payload": [
                    { "name": "requested_id", "type": "u16", "description": "Message ID to be requested." }
                ]
            }
        },
        "set": {
            "nack": {
                "id": 65538,
                "payload": [
                    { "name": "nacked_id", "type": "u16" },
                    { "name": "nack_message", "type": "vector", "vector": { "datatype": "char" } },
                    { "name": "profile_data", "type": "vector", "units": "mm",
                      "vector": { "datatype": "uint8_t", "sizetype": "u16" } }
                ]
            }
        }
    }
}"#;

fn obj(members: Vec<(&str, JsonValue)>) -> JsonValue {
    JsonValue::Object(members.into_iter().map(|(k, v)| (k.to_string(), v)).collect())
}

fn st(value: &str) -> JsonValue {
    JsonValue::Str(value.to_string())
}

fn with_field(field: JsonValue) -> JsonValue {
    obj(vec![("id", JsonValue::Int(1)), ("payload", JsonValue::Array(vec![field]))])
}

#[test]
fn parse_description_reads_every_category() {
    let categories = parse_description(DEFINITION).expect("readable definition");
    assert_eq!(categories.len(), 2);
    // members come out in key order
    assert_eq!(categories[0].0, "get");
    assert_eq!(categories[1].0, "set");

    let (name, request) = &categories[0].1[0];
    assert_eq!(name, "general_request");
    assert_eq!(request.name, "general_request");
    assert_eq!(request.id, 6);
    assert_eq!(
        request.description,
        "Requests a specific message to be sent from the sonar to the host."
    );
    assert_eq!(request.payload.len(), 1);
    assert_eq!(request.payload[0].name, "requested_id");
    assert!(matches!(request.payload[0].typ, PayloadType::U16));
    assert_eq!(request.payload[0].units, None);

    let (_, nack) = &categories[1].1[0];
    // the id keeps its low 16 bits, and a missing description reads as empty
    assert_eq!(nack.id, 2);
    assert_eq!(nack.description, "");
    assert_eq!(nack.payload.len(), 3);
    match &nack.payload[1].typ {
        PayloadType::VECTOR(vector) => {
            let VectorType { size_type, data_type } = vector.as_ref();
            assert!(size_type.is_none());
            assert!(matches!(data_type, PayloadType::CHAR));
        }
        other => panic!("not a vector: {:?}", other),
    }
    match &nack.payload[2].typ {
        PayloadType::VECTOR(vector) => {
            assert!(matches!(vector.size_type, Some(PayloadType::U16)));
            assert!(matches!(vector.data_type, PayloadType::U8));
        }
        other => panic!("not a vector: {:?}", other),
    }
    assert_eq!(nack.payload[2].units.as_deref(), Some("mm"));
}

#[test]
fn parse_description_refuses_what_cannot_be_read() {
    // not JSON
    assert!(parse_description("messages").is_none());
    // no "messages" member
    assert!(parse_description(r#"{"other": {}}"#).is_none());
    // a top-level value that is not an object of objects
    assert!(parse_description(r#"{"messages": {}, "version": 1}"#).is_none());
    // an unknown type name
    assert!(parse_description(
        r#"{"messages": {"get": {"m": {"id": 1, "payload": [{"name": "a", "type": "u128"}]}}}}"#
    )
    .is_none());
    // floats, nulls and repeated keys are read as serde_json reads them
    let read = parse_description(
        r#"{"messages": {"c": {"m": {"id": 2.5, "payload": []}, "n": {"id": 3, "id": 4, "payload": [], "x": null}}}}"#,
    );
    assert!(read.is_none());
    let categories = parse_description(
        r#"{"messages": {"c": {"n": {"id": 3, "id": 4, "payload": [], "x": [null, true, -1]}}}}"#,
    )
    .expect("readable");
    assert_eq!(categories[0].1[0].1.id, 4);
    // an empty set of categories reads as such
    assert_eq!(parse_description(r#"{"messages": {}}"#).map(|c| c.len()), Some(0));
}

#[test]
fn message_definition_needs_id_and_payload() {
    let name = "m".to_string();
    let empty = || JsonValue::Array(vec![]);
    let read = |value: JsonValue| message_definition_from_json(&name, &value);
    assert!(read(obj(vec![("payload", empty())])).is_none());
    assert!(read(obj(vec![("id", JsonValue::Int(-1)), ("payload", empty())])).is_none());
    assert!(read(obj(vec![("id", JsonValue::Int(1 << 64)), ("payload", empty())])).is_none());
    assert!(read(obj(vec![("id", JsonValue::Other), ("payload", empty())])).is_none());
    assert!(read(obj(vec![("id", JsonValue::Int(1))])).is_none());
    assert!(read(obj(vec![("id", JsonValue::Int(1)), ("payload", obj(vec![]))])).is_none());
    assert!(read(JsonValue::Array(vec![])).is_none());
    let definition = read(obj(vec![
        ("id", JsonValue::Int(0x1_0005)),
        ("description", JsonValue::Null),
        ("payload", empty()),
    ]))
    .expect("readable");
    assert_eq!(definition.id, 5);
    assert_eq!(definition.name, "m");
    assert_eq!(definition.description, "");
    assert!(definition.payload.is_empty());
}

#[test]
fn payload_fields_need_name_and_known_type() {
    let name = "m".to_string();
    let read = |field: JsonValue| message_definition_from_json(&name, &with_field(field));
    assert!(read(obj(vec![("type", st("u8"))])).is_none());
    assert!(read(obj(vec![("name", JsonValue::Int(3)), ("type", st("u8"))])).is_none());
    assert!(read(obj(vec![("name", st("a"))])).is_none());
    assert!(read(obj(vec![("name", st("a")), ("type", st("vector"))])).is_none());
    assert!(read(obj(vec![
        ("name", st("a")),
        ("type", st("vector")),
        ("vector", obj(vec![("datatype", st("u8")), ("sizetype", JsonValue::Int(2))])),
    ]))
    .is_none());
    assert!(read(obj(vec![("name", st("a")), ("type", st("u8")), ("units", JsonValue::Int(1))])).is_none());
    assert!(read(obj(vec![("name", st("a")), ("type", st("u8")), ("description", JsonValue::Null)])).is_none());
    let field = read(obj(vec![
        ("name", st("a")),
        ("type", st("boolean")),
        ("description", st("flag")),
    ]))
    .expect("readable");
    assert!(matches!(field.payload[0].typ, PayloadType::BOOL));
    assert_eq!(field.payload[0].description.as_deref(), Some("flag"));
    // a type name holding "vector" is a vector; the element type is required
    let vector = read(obj(vec![
        ("name", st("a")),
        ("type", st("vector")),
        ("vector", obj(vec![("datatype", st("int16_t")), ("sizetype", st("u32"))])),
    ]))
    .expect("readable");
    match &vector.payload[0].typ {
        PayloadType::VECTOR(v) => {
            assert!(matches!(v.size_type, Some(PayloadType::U32)));
            assert!(matches!(v.data_type, PayloadType::I16));
        }
        other => panic!("not a vector: {:?}", other),
    }
}
