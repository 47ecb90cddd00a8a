//! The record layout and the buffer lifecycle: encode/decode round trips
//! and the flush discipline.

use mpd_attrs::buffer::{AttributeList, CoercedValue};
use mpd_attrs::tags::{AttributeName, TagName};

#[test]
fn record_layout_is_tag_then_payload() {
    let mut list = AttributeList::new();
    list.add_u64(AttributeName::Width, b"1920").expect("valid integer");
    let bytes = list.as_bytes();
    // One tag byte then eight little-endian payload bytes.
    assert_eq!(bytes.len(), 9);
    assert_eq!(bytes[0], AttributeName::Width.code());
    let mut payload = [0u8; 8];
    payload.copy_from_slice(&bytes[1..9]);
    assert_eq!(f64::from_bits(u64::from_le_bytes(payload)), 1920.0);
}

#[test]
fn string_record_layout_has_length_prefix() {
    let mut list = AttributeList::new();
    list.add_string(AttributeName::Codecs, b"avc1").expect("plain text");
    let bytes = list.as_bytes();
    assert_eq!(bytes.len(), 1 + 4 + 4);
    assert_eq!(bytes[0], AttributeName::Codecs.code());
    assert_eq!(&bytes[1..5], &4u32.to_le_bytes());
    assert_eq!(&bytes[5..9], b"avc1");
}

#[test]
fn mixed_records_round_trip() {
    let mut list = AttributeList::new();
    list.add_string(AttributeName::Id, b"rep-1").expect("text");
    list.add_bool(AttributeName::CodingDependency, b"true").expect("flag");
    list.add_u64(AttributeName::Height, b"1080").expect("number");
    let decoded = mpd_attrs::buffer::decode_all(list.as_bytes()).expect("decodes");
    assert_eq!(decoded.len(), 3);
    assert_eq!(decoded[0].0, AttributeName::Id);
    assert_eq!(decoded[0].1, CoercedValue::Str(b"rep-1".to_vec()));
    assert_eq!(decoded[1].0, AttributeName::CodingDependency);
    assert_eq!(decoded[1].1, CoercedValue::Flag(true));
    assert_eq!(decoded[2].0, AttributeName::Height);
    match decoded[2].1 {
        CoercedValue::Num(bits) => assert_eq!(f64::from_bits(bits), 1080.0),
        ref other => panic!("expected a number, got {:?}", other),
    }
}

#[test]
fn decode_one_record_at_a_time() {
    let mut list = AttributeList::new();
    list.add_bool(AttributeName::BitstreamSwitching, b"false").expect("flag");
    list.add_string(AttributeName::Language, b"en").expect("text");
    let bytes = list.as_bytes();
    let (t0, v0, next) = mpd_attrs::buffer::decode_record_at(bytes, 0).expect("first");
    assert_eq!(t0, AttributeName::BitstreamSwitching);
    assert_eq!(v0, CoercedValue::Flag(false));
    let (t1, v1, end) = mpd_attrs::buffer::decode_record_at(bytes, next).expect("second");
    assert_eq!(t1, AttributeName::Language);
    assert_eq!(v1, CoercedValue::Str(b"en".to_vec()));
    assert_eq!(end, bytes.len());
}

#[test]
fn decode_rejects_unknown_tag_and_truncation() {
    assert!(mpd_attrs::buffer::decode_all(&[0xFF]).is_none());
    let mut list = AttributeList::new();
    list.add_u64(AttributeName::Width, b"1").expect("number");
    let mut bytes = list.as_bytes().to_vec();
    bytes.pop();
    assert!(mpd_attrs::buffer::decode_all(&bytes).is_none());
}

#[test]
fn flush_empties_the_buffer_and_hands_over_its_bytes() {
    let mut list = AttributeList::new();
    list.add_u64(AttributeName::Bitrate, b"42").expect("number");
    let before = list.as_bytes().to_vec();
    assert!(list.len() > 0);
    let emission = list.send_as(TagName::Representation);
    assert_eq!(emission.element, TagName::Representation);
    assert_eq!(emission.payload, before);
    assert_eq!(list.len(), 0);
    // A flush with nothing recognized still marks the element boundary.
    let empty = list.send_as(TagName::Period);
    assert_eq!(empty.element, TagName::Period);
    assert!(empty.payload.is_empty());
    assert_eq!(list.len(), 0);
}

#[test]
fn buffer_is_reusable_across_elements() {
    let mut list = AttributeList::new();
    list.add_u64(AttributeName::Width, b"640").expect("number");
    let first = list.send_as(TagName::Representation);
    list.add_u64(AttributeName::Height, b"480").expect("number");
    let second = list.send_as(TagName::Representation);
    assert_ne!(first.payload, second.payload);
    let decoded = mpd_attrs::buffer::decode_all(&second.payload).expect("decodes");
    assert_eq!(decoded.len(), 1);
    assert_eq!(decoded[0].0, AttributeName::Height);
}

#[test]
fn element_codes_are_stable() {
    assert_eq!(TagName::Mpd.code(), 1);
    assert_eq!(TagName::Representation.code(), 4);
    assert_eq!(TagName::ContentComponent.code(), 14);
    assert_eq!(AttributeName::Id.code(), 0);
    assert_eq!(AttributeName::QualityRanking.code(), 49);
    assert_eq!(AttributeName::of_code(48), Some(AttributeName::Bitrate));
    assert_eq!(AttributeName::of_code(200), None);
}
