use flecs_core::api::flecs_deserialize_entity;
use flecs_core::codec::{apply, encode, read_fields, DecodedComponent, SerializedComponent};
use flecs_core::error::ErrorKind;
use flecs_core::schema::ecs_struct_desc_t;
use flecs_core::text::{bytes_eq, str_eq};
use flecs_core::types::Type;
use flecs_core::value::DynamicType;
use flecs_core::wire::{decode, encode_fields, push_all, push_le, SerializedField};

fn names(list: &[&str]) -> Vec<String> {
    list.iter().map(|s| s.to_string()).collect()
}

fn field(name: &str, value: DynamicType) -> SerializedField {
    SerializedField { name: name.to_string(), value }
}

fn position() -> ecs_struct_desc_t {
    ecs_struct_desc_t::new(1, "Position", &names(&["x", "y"]), &vec![Type::F32, Type::F32]).unwrap()
}

fn position_record(x: f32, y: f32) -> Vec<u8> {
    let mut data = Vec::new();
    data.extend_from_slice(&x.to_bits().to_le_bytes());
    data.extend_from_slice(&y.to_bits().to_le_bytes());
    data
}

#[test]
fn the_payload_of_a_position() {
    let c = encode(&position(), &position_record(1.5, -2.0)).unwrap();
    assert_eq!(c.name, "Position");
    assert_eq!(
        c.payload,
        vec![
            2, // two entries
            1, 0, b'x', 8, 0x00, 0x00, 0xC0, 0x3F, // x: F32 = 1.5
            1, 0, b'y', 8, 0x00, 0x00, 0x00, 0xC0, // y: F32 = -2.0
        ]
    );
}

#[test]
fn decoding_gives_names_types_and_values_in_order() {
    let c = encode(&position(), &position_record(1.5, -2.0)).unwrap();
    let fields = decode(&c.payload).unwrap();
    assert_eq!(fields.len(), 2);
    assert_eq!(fields[0].name, "x");
    assert_eq!(fields[1].name, "y");
    match (fields[0].value, fields[1].value) {
        (DynamicType::F32(x), DynamicType::F32(y)) => {
            assert_eq!(f32::from_bits(x), 1.5);
            assert_eq!(f32::from_bits(y), -2.0);
        },
        other => panic!("not two F32 values: {:?}", other),
    }
}

#[test]
fn every_scalar_type_survives_the_wire() {
    let fields = vec![
        field("a", DynamicType::U8(0xFF)),
        field("b", DynamicType::U16(0xBEEF)),
        field("c", DynamicType::U32(0xDEAD_BEEF)),
        field("d", DynamicType::U64(u64::MAX)),
        field("e", DynamicType::I8(-128)),
        field("f", DynamicType::I16(-1)),
        field("g", DynamicType::I32(i32::MIN)),
        field("h", DynamicType::I64(-5_000_000_000)),
        field("i", DynamicType::F32(3.25f32.to_bits())),
        field("j", DynamicType::F64((-1e300f64).to_bits())),
        field("k", DynamicType::Bool(true)),
        field("", DynamicType::Bool(false)),
        field("héllo wörld ✓", DynamicType::U8(1)),
    ];
    let bytes = encode_fields(&fields).unwrap();
    assert_eq!(bytes[0], 13);
    assert_eq!(decode(&bytes), Ok(fields));
}

#[test]
fn an_empty_field_list_is_one_byte() {
    assert_eq!(encode_fields(&Vec::new()), Ok(vec![0]));
    assert_eq!(decode(&[0]), Ok(Vec::new()));
}

#[test]
fn the_bytes_of_one_entry() {
    let bytes = encode_fields(&vec![field("hp", DynamicType::I16(-2))]).unwrap();
    assert_eq!(bytes, vec![1, 2, 0, b'h', b'p', 5, 0xFE, 0xFF]);
}

#[test]
fn too_many_or_too_long_cannot_be_encoded() {
    let many: Vec<SerializedField> =
        (0..33).map(|i| field(&format!("f{}", i), DynamicType::U8(0))).collect();
    assert_eq!(encode_fields(&many), Err(ErrorKind::TooManyFields));
    let fits: Vec<SerializedField> =
        (0..32).map(|i| field(&format!("f{}", i), DynamicType::U8(0))).collect();
    assert_eq!(encode_fields(&fits).unwrap().len(), 1 + 10 * 6 + 22 * 7);
    let long = vec![field(&"n".repeat(65536), DynamicType::U8(0))];
    assert_eq!(encode_fields(&long), Err(ErrorKind::InvalidDefinition));
    let longest = vec![field(&"n".repeat(65535), DynamicType::U8(7))];
    let bytes = encode_fields(&longest).unwrap();
    assert_eq!(bytes.len(), 1 + 2 + 65535 + 1 + 1);
    assert_eq!(&bytes[1..3], &[0xFF, 0xFF]);
    assert_eq!(decode(&bytes), Ok(longest));
}

#[test]
fn truncated_payloads_are_malformed() {
    let full = encode_fields(&vec![field("hp", DynamicType::U32(7)), field("mp", DynamicType::U8(1))])
        .unwrap();
    assert!(decode(&full).is_ok());
    for cut in 0..full.len() {
        assert_eq!(decode(&full[..cut]), Err(ErrorKind::MalformedPayload), "cut at {}", cut);
    }
}

#[test]
fn bytes_after_the_last_entry_are_malformed() {
    let mut bytes = encode_fields(&vec![field("hp", DynamicType::U8(7))]).unwrap();
    bytes.push(0);
    assert_eq!(decode(&bytes), Err(ErrorKind::MalformedPayload));
    assert_eq!(decode(&[0, 0]), Err(ErrorKind::MalformedPayload));
}

#[test]
fn a_name_that_is_not_utf8_is_malformed() {
    assert_eq!(decode(&[1, 1, 0, 0xFF, 0, 7]), Err(ErrorKind::MalformedPayload));
    assert_eq!(decode(&[1, 2, 0, 0xC3, 0x28, 0, 7]), Err(ErrorKind::MalformedPayload));
    // the same frame with a valid two-byte character
    let ok = decode(&[1, 2, 0, 0xC3, 0xA9, 0, 7]).unwrap();
    assert_eq!(ok, vec![field("é", DynamicType::U8(7))]);
}

#[test]
fn tags_without_a_scalar_type_are_unsupported() {
    for tag in [11u8, 12, 13, 14, 15, 200, 255] {
        assert_eq!(
            decode(&[1, 1, 0, b'x', tag, 0, 0, 0, 0, 0, 0, 0, 0]),
            Err(ErrorKind::UnsupportedType),
            "tag {}",
            tag
        );
    }
}

#[test]
fn a_count_above_the_field_limit_is_too_many_fields() {
    assert_eq!(decode(&[33]), Err(ErrorKind::TooManyFields));
    assert_eq!(decode(&[255, 1, 2, 3]), Err(ErrorKind::TooManyFields));
    assert_eq!(decode(&[32]), Err(ErrorKind::MalformedPayload));
}

#[test]
fn any_nonzero_byte_decodes_as_true() {
    assert_eq!(decode(&[1, 1, 0, b'b', 10, 2]), Ok(vec![field("b", DynamicType::Bool(true))]));
    assert_eq!(decode(&[1, 1, 0, b'b', 10, 0]), Ok(vec![field("b", DynamicType::Bool(false))]));
}

#[test]
fn reading_the_fields_of_a_record() {
    let d = ecs_struct_desc_t::new(1, "Stats", &names(&["hp", "alive", "score"]), &vec![
        Type::I16,
        Type::Bool,
        Type::U64,
    ])
    .unwrap();
    let data = vec![0xFE, 0xFF, 1, 9, 0, 0, 0, 0, 0, 0, 0];
    assert_eq!(
        read_fields(&d, &data),
        Ok(vec![
            field("hp", DynamicType::I16(-2)),
            field("alive", DynamicType::Bool(true)),
            field("score", DynamicType::U64(9)),
        ])
    );
}

#[test]
fn a_record_with_an_indirection_cannot_be_encoded() {
    for ty in [Type::String, Type::Pointer, Type::U32Array, Type::F32Array] {
        let d = ecs_struct_desc_t::new(1, "Named", &names(&["id", "label"]), &vec![Type::U32, ty])
            .unwrap();
        let data = vec![0u8; 12];
        assert_eq!(encode(&d, &data), Err(ErrorKind::UnsupportedType));
        assert_eq!(read_fields(&d, &data), Err(ErrorKind::UnsupportedType));
    }
}

#[test]
fn a_record_shorter_than_its_schema_cannot_be_encoded() {
    assert_eq!(encode(&position(), &vec![0u8; 7]), Err(ErrorKind::OffsetOutOfBounds));
    assert!(encode(&position(), &vec![0u8; 8]).is_ok());
}

#[test]
fn a_tag_encodes_to_an_empty_payload() {
    let d = ecs_struct_desc_t::new(3, "Frozen", &Vec::new(), &Vec::new()).unwrap();
    let c = encode(&d, &[]).unwrap();
    assert_eq!(c, SerializedComponent { name: "Frozen".to_string(), payload: vec![0] });
}

#[test]
fn encode_decode_apply_copies_a_record() {
    let d = ecs_struct_desc_t::new(1, "Stats", &names(&["hp", "alive", "score", "x"]), &vec![
        Type::I16,
        Type::Bool,
        Type::U64,
        Type::F32,
    ])
    .unwrap();
    let mut src = vec![0u8; 15];
    src[0..2].copy_from_slice(&(-300i16).to_le_bytes());
    src[2] = 1;
    src[3..11].copy_from_slice(&0x0102_0304_0506_0708u64.to_le_bytes());
    src[11..15].copy_from_slice(&2.5f32.to_bits().to_le_bytes());
    let c = encode(&d, &src).unwrap();
    let fields = decode(&c.payload).unwrap();
    let mut dst = vec![0xAAu8; 15];
    assert_eq!(apply(&d, &mut dst, &fields), Ok(()));
    assert_eq!(dst, src);
    assert_eq!(read_fields(&d, &dst), read_fields(&d, &src));
}

#[test]
fn a_bool_keeps_its_value_not_its_byte() {
    let d = ecs_struct_desc_t::new(1, "Flag", &names(&["on"]), &vec![Type::Bool]).unwrap();
    let src = vec![7u8];
    let c = encode(&d, &src).unwrap();
    assert_eq!(c.payload, vec![1, 2, 0, b'o', b'n', 10, 1]);
    let mut dst = vec![0u8];
    apply(&d, &mut dst, &decode(&c.payload).unwrap()).unwrap();
    assert_eq!(dst, vec![1]);
}

#[test]
fn apply_skips_unknown_names_and_keeps_unmentioned_fields() {
    let d = position();
    let mut data = position_record(1.0, 2.0);
    let fields = vec![
        field("z", DynamicType::F32(9.0f32.to_bits())),
        field("y", DynamicType::F32(5.0f32.to_bits())),
    ];
    assert_eq!(apply(&d, &mut data, &fields), Ok(()));
    assert_eq!(data, position_record(1.0, 5.0));
    assert_eq!(apply(&d, &mut data, &Vec::new()), Ok(()));
    assert_eq!(data, position_record(1.0, 5.0));
}

#[test]
fn apply_writes_in_order_so_the_last_value_stays() {
    let d = position();
    let mut data = position_record(0.0, 0.0);
    let fields = vec![
        field("x", DynamicType::F32(1.0f32.to_bits())),
        field("x", DynamicType::F32(2.0f32.to_bits())),
    ];
    assert_eq!(apply(&d, &mut data, &fields), Ok(()));
    assert_eq!(data, position_record(2.0, 0.0));
}

#[test]
fn apply_refuses_a_value_of_another_type_and_changes_nothing() {
    let d = position();
    let mut data = position_record(1.0, 2.0);
    let fields = vec![
        field("x", DynamicType::F32(7.0f32.to_bits())),
        field("y", DynamicType::U32(5)),
    ];
    assert_eq!(apply(&d, &mut data, &fields), Err(ErrorKind::TypeMismatch));
    assert_eq!(data, position_record(1.0, 2.0));
}

#[test]
fn apply_checks_the_memory_given() {
    let d = position();
    let mut short = vec![0u8; 6];
    let fields = vec![field("y", DynamicType::F32(1))];
    assert_eq!(apply(&d, &mut short, &fields), Err(ErrorKind::OffsetOutOfBounds));
    assert_eq!(short, vec![0u8; 6]);
}

#[test]
fn decoding_a_whole_entity() {
    let a = encode(&position(), &position_record(1.5, -2.0)).unwrap();
    let tag = SerializedComponent { name: "Frozen".to_string(), payload: vec![0] };
    let decoded = flecs_deserialize_entity(&vec![a, tag]).unwrap();
    assert_eq!(
        decoded,
        vec![
            DecodedComponent {
                name: "Position".to_string(),
                fields: vec![
                    field("x", DynamicType::F32(0x3FC0_0000)),
                    field("y", DynamicType::F32(0xC000_0000)),
                ],
            },
            DecodedComponent { name: "Frozen".to_string(), fields: vec![] },
        ]
    );
    assert_eq!(flecs_deserialize_entity(&Vec::new()), Ok(Vec::new()));
}

#[test]
fn the_first_bad_payload_decides_the_error() {
    let good = SerializedComponent { name: "A".to_string(), payload: vec![0] };
    let unsupported =
        SerializedComponent { name: "B".to_string(), payload: vec![1, 0, 0, 12, 0, 0, 0, 0, 0, 0, 0, 0] };
    let malformed = SerializedComponent { name: "C".to_string(), payload: vec![] };
    assert_eq!(
        flecs_deserialize_entity(&vec![good.clone(), unsupported.clone(), malformed.clone()]),
        Err(ErrorKind::UnsupportedType)
    );
    assert_eq!(
        flecs_deserialize_entity(&vec![good, malformed, unsupported]),
        Err(ErrorKind::MalformedPayload)
    );
}

#[test]
fn appending_little_endian_numbers_and_bytes() {
    let mut out = vec![9u8];
    push_le(&mut out, 2, 0x0102);
    push_le(&mut out, 0, 0xFFFF);
    push_le(&mut out, 8, 0x1122_3344_5566_7788);
    push_all(&mut out, &[7, 7]);
    assert_eq!(out, vec![9, 2, 1, 0x88, 0x77, 0x66, 0x55, 0x44, 0x33, 0x22, 0x11, 7, 7]);
}

#[test]
fn names_compare_by_their_characters() {
    assert!(str_eq("Position", "Position"));
    assert!(!str_eq("Position", "position"));
    assert!(!str_eq("Position", "Positio"));
    assert!(str_eq("", ""));
    assert!(str_eq("é✓", "é✓"));
    assert!(bytes_eq(&[1, 2], &[1, 2]));
    assert!(!bytes_eq(&[1, 2], &[1, 3]));
    assert!(!bytes_eq(&[1, 2], &[1, 2, 3]));
}
