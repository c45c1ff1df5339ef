use bluerobotics_ping::parser::{PayloadType, TypeDescription};

#[test]
fn scalar_type_names() {
    let cases = [
        ("bool", 1),
        ("boolean", 1),
        ("char", 1),
        ("u8", 1),
        ("uint8_t", 1),
        ("u16", 2),
        ("uint16_t", 2),
        ("u32", 4),
        ("uint32_t", 4),
        ("u64", 8),
        ("uint64_t", 8),
        ("i8", 1),
        ("int8_t", 1),
        ("i16", 2),
        ("int16_t", 2),
        ("i32", 4),
        ("int32_t", 4),
        ("i64", 8),
        ("int64_t", 8),
        ("float", 4),
        ("double", 8),
    ];
    for (name, size) in cases {
        assert_eq!(PayloadType::from_string(name).to_size(), size, "{name}");
    }
    assert!(matches!(PayloadType::from_string("boolean"), PayloadType::BOOL));
    assert!(matches!(PayloadType::from_string("char"), PayloadType::CHAR));
    assert!(matches!(PayloadType::from_string("uint16_t"), PayloadType::U16));
    assert!(matches!(PayloadType::from_string("int32_t"), PayloadType::I32));
    assert!(matches!(PayloadType::from_string("float"), PayloadType::F32));
    assert!(matches!(PayloadType::from_string("double"), PayloadType::F64));
}

#[test]
fn vector_descriptions() {
    let with_length = TypeDescription {
        typ: "vector".into(),
        vector_datatype: Some("u16".into()),
        vector_sizetype: Some("u16".into()),
    };
    match PayloadType::from_json(&with_length) {
        PayloadType::VECTOR(v) => {
            assert!(matches!(v.data_type, PayloadType::U16));
            assert!(matches!(v.size_type, Some(PayloadType::U16)));
        }
        other => panic!("unexpected {other:?}"),
    }
    let string = TypeDescription {
        typ: "fixed_vector".into(),
        vector_datatype: Some("char".into()),
        vector_sizetype: None,
    };
    let t = PayloadType::from_json(&string);
    assert_eq!(t.to_size(), 0);
    match t {
        PayloadType::VECTOR(v) => {
            assert!(matches!(v.data_type, PayloadType::CHAR));
            assert!(v.size_type.is_none());
        }
        other => panic!("unexpected {other:?}"),
    }
}

#[test]
fn scalar_description() {
    let d = TypeDescription {
        typ: "uint32_t".into(),
        vector_datatype: None,
        vector_sizetype: None,
    };
    assert!(matches!(PayloadType::from_json(&d), PayloadType::U32));
}
