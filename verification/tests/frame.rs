use flecs_core::codec::SerializedComponent;
use flecs_core::error::ErrorKind;
use flecs_core::frame::{frame_entity, parse_entity};
use flecs_core::text::{copy_bytes, text_of};

fn component(name: &str, payload: &[u8]) -> SerializedComponent {
    SerializedComponent { name: name.to_string(), payload: payload.to_vec() }
}

fn sample() -> Vec<SerializedComponent> {
    vec![
        component("Health", &[1, 2, 0, b'h', b'p', 0, 77]),
        component("Frozen", &[0]),
        component("Position", &[2, 1, 0, b'x', 8, 0, 0, 0xC0, 0x3F, 1, 0, b'y', 8, 0, 0, 0, 0xC0]),
    ]
}

#[test]
fn the_bytes_of_a_framed_entity() {
    let bytes = frame_entity(&vec![component("Health", &[1, 2, 0, b'h', b'p', 0, 77]), component("T", &[0])])
        .unwrap();
    assert_eq!(
        bytes,
        vec![
            2, 0, 0, 0, // two components
            6, 0, b'H', b'e', b'a', b'l', b't', b'h', // name
            1, 2, 0, b'h', b'p', 0, 77, // payload: one entry, hp: U8 = 77
            1, 0, b'T', // name
            0, // payload: no entries
        ]
    );
}

#[test]
fn an_entity_without_components_is_its_count() {
    assert_eq!(frame_entity(&Vec::new()), Ok(vec![0, 0, 0, 0]));
    assert_eq!(parse_entity(&[0, 0, 0, 0]), Ok(Vec::new()));
}

#[test]
fn parsing_gives_the_components_back() {
    let bytes = frame_entity(&sample()).unwrap();
    assert_eq!(parse_entity(&bytes), Ok(sample()));
}

#[test]
fn truncated_entities_are_malformed() {
    let bytes = frame_entity(&sample()).unwrap();
    for cut in 0..bytes.len() {
        assert_eq!(parse_entity(&bytes[..cut]), Err(ErrorKind::MalformedPayload), "cut at {}", cut);
    }
}

#[test]
fn bytes_after_the_last_component_are_malformed() {
    let mut bytes = frame_entity(&sample()).unwrap();
    bytes.push(0);
    assert_eq!(parse_entity(&bytes), Err(ErrorKind::MalformedPayload));
}

#[test]
fn a_count_larger_than_what_follows_is_malformed() {
    assert_eq!(parse_entity(&[1, 0, 0, 0]), Err(ErrorKind::MalformedPayload));
    assert_eq!(parse_entity(&[0xFF, 0xFF, 0xFF, 0xFF, 1, 0, b'T', 0]), Err(ErrorKind::MalformedPayload));
}

#[test]
fn a_payload_that_does_not_parse_fails_the_entity() {
    // entry with tag 12 (a pointer)
    let bad_tag = [1, 0, 0, 0, 1, 0, b'T', 1, 1, 0, b'p', 12, 0, 0, 0, 0, 0, 0, 0, 0];
    assert_eq!(parse_entity(&bad_tag), Err(ErrorKind::UnsupportedType));
    // payload that claims 40 entries
    assert_eq!(parse_entity(&[1, 0, 0, 0, 1, 0, b'T', 40]), Err(ErrorKind::TooManyFields));
    // type name that is not UTF-8
    assert_eq!(parse_entity(&[1, 0, 0, 0, 1, 0, 0xFF, 0]), Err(ErrorKind::MalformedPayload));
}

#[test]
fn a_type_name_too_long_for_its_prefix_cannot_be_framed() {
    let long = "n".repeat(65536);
    assert_eq!(frame_entity(&vec![component(&long, &[0])]), Err(ErrorKind::InvalidDefinition));
    let fits = "n".repeat(65535);
    let bytes = frame_entity(&vec![component(&fits, &[0])]).unwrap();
    assert_eq!(bytes.len(), 4 + 2 + 65535 + 1);
    assert_eq!(parse_entity(&bytes), Ok(vec![component(&fits, &[0])]));
}

#[test]
fn text_of_bytes() {
    assert_eq!(text_of(b"Position"), Some("Position".to_string()));
    assert_eq!(text_of(&[]), Some(String::new()));
    assert_eq!(text_of(&[0xE2, 0x9C, 0x93]), Some("✓".to_string()));
    assert_eq!(text_of(&[0xE2, 0x9C]), None);
    assert_eq!(text_of(&[0x80]), None);
    assert_eq!(text_of(&[0xED, 0xA0, 0x80]), None);
    assert_eq!(copy_bytes(&[1, 2, 3]), vec![1, 2, 3]);
}
