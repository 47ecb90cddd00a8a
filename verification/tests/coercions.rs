//! Value coercions through the buffer: numeric payloads are checked by
//! reinterpreting the recorded bit pattern as a float.

use mpd_attrs::buffer::{AttributeList, CoercedValue};
use mpd_attrs::errors::ParsingError;
use mpd_attrs::tags::AttributeName;

fn single_num(list: &AttributeList) -> f64 {
    let decoded = mpd_attrs::buffer::decode_all(list.as_bytes()).expect("decodes");
    assert_eq!(decoded.len(), 1);
    match &decoded[0].1 {
        CoercedValue::Num(bits) => f64::from_bits(*bits),
        other => panic!("expected a numeric record, got {:?}", other),
    }
}

#[test]
fn duration_hours_minutes() {
    let mut list = AttributeList::new();
    list.add_iso_8601_duration(AttributeName::MediaPresentationDuration, b"PT1H30M")
        .expect("valid duration");
    assert_eq!(single_num(&list), 5400.0);
}

#[test]
fn duration_fractional_seconds() {
    let mut list = AttributeList::new();
    list.add_iso_8601_duration(AttributeName::MinBufferTime, b"PT0.5S")
        .expect("valid duration");
    assert_eq!(single_num(&list), 0.5);
}

#[test]
fn duration_tenth_second_rounds_like_a_float_literal() {
    let mut list = AttributeList::new();
    list.add_iso_8601_duration(AttributeName::MinBufferTime, b"PT0.1S")
        .expect("valid duration");
    assert_eq!(single_num(&list), 0.1);
}

#[test]
fn duration_year_and_month_units() {
    let mut list = AttributeList::new();
    list.add_iso_8601_duration(AttributeName::MaxSegmentDuration, b"P1Y")
        .expect("valid duration");
    assert_eq!(single_num(&list), 31536000.0);
    let mut list2 = AttributeList::new();
    list2
        .add_iso_8601_duration(AttributeName::MaxSegmentDuration, b"P1M")
        .expect("valid duration");
    assert_eq!(single_num(&list2), 2592000.0);
}

#[test]
fn duration_full_designator_mix() {
    let mut list = AttributeList::new();
    list.add_iso_8601_duration(AttributeName::MediaPresentationDuration, b"P1DT2H3M4.25S")
        .expect("valid duration");
    assert_eq!(single_num(&list), 86400.0 + 7200.0 + 180.0 + 4.25);
}

#[test]
fn duration_rejects_bad_unit() {
    let mut list = AttributeList::new();
    let r = list.add_iso_8601_duration(AttributeName::MediaPresentationDuration, b"P1X");
    assert_eq!(r, Err(ParsingError::DurationFormatError));
    assert_eq!(list.len(), 0);
}

#[test]
fn duration_rejects_empty_and_misordered() {
    let mut list = AttributeList::new();
    assert!(list
        .add_iso_8601_duration(AttributeName::MinBufferTime, b"P")
        .is_err());
    assert!(list
        .add_iso_8601_duration(AttributeName::MinBufferTime, b"PT")
        .is_err());
    assert!(list
        .add_iso_8601_duration(AttributeName::MinBufferTime, b"P1S")
        .is_err());
    assert!(list
        .add_iso_8601_duration(AttributeName::MinBufferTime, b"PT1Y")
        .is_err());
    assert!(list
        .add_iso_8601_duration(AttributeName::MinBufferTime, b"1H")
        .is_err());
    assert_eq!(list.len(), 0);
}

#[test]
fn u64_plain_values() {
    let mut list = AttributeList::new();
    list.add_u64(AttributeName::Bitrate, b"128000").expect("valid integer");
    assert_eq!(single_num(&list), 128000.0);
    let mut list2 = AttributeList::new();
    list2.add_u64(AttributeName::Width, b"007").expect("leading zeros are digits");
    assert_eq!(single_num(&list2), 7.0);
}

#[test]
fn u64_max_and_overflow() {
    let mut list = AttributeList::new();
    list.add_u64(AttributeName::Bitrate, b"18446744073709551615")
        .expect("fits 64 bits");
    assert_eq!(single_num(&list), u64::MAX as f64);
    let mut list2 = AttributeList::new();
    let r = list2.add_u64(AttributeName::Bitrate, b"18446744073709551616");
    assert_eq!(r, Err(ParsingError::IntegerFormatError));
    assert_eq!(list2.len(), 0);
}

#[test]
fn u64_widening_rounds_to_nearest_even() {
    // 2^53 + 1 is not representable in binary64 and rounds down to 2^53.
    let mut list = AttributeList::new();
    list.add_u64(AttributeName::Bitrate, b"9007199254740993").expect("valid integer");
    assert_eq!(single_num(&list), 9007199254740992.0);
}

#[test]
fn u64_rejects_non_digits_and_empty() {
    let mut list = AttributeList::new();
    assert_eq!(
        list.add_u64(AttributeName::Bitrate, b"12a"),
        Err(ParsingError::IntegerFormatError)
    );
    assert_eq!(
        list.add_u64(AttributeName::Bitrate, b""),
        Err(ParsingError::IntegerFormatError)
    );
    assert_eq!(
        list.add_u64(AttributeName::Bitrate, b"-3"),
        Err(ParsingError::IntegerFormatError)
    );
    assert_eq!(list.len(), 0);
}

#[test]
fn float_literals() {
    let cases: [(&[u8], f64); 7] = [
        (b"2.5", 2.5),
        (b"-1.5", -1.5),
        (b"1e3", 1000.0),
        (b"12.34e2", 1234.0),
        (b"5e-1", 0.5),
        (b"+0.25", 0.25),
        (b"0.1", 0.1),
    ];
    for (raw, want) in cases {
        let mut list = AttributeList::new();
        list.add_f64(AttributeName::MaxPlayoutRate, raw).expect("valid float");
        assert_eq!(single_num(&list), want, "literal {:?}", raw);
    }
}

#[test]
fn float_rejects_bad_syntax() {
    let bad: [&[u8]; 6] = [b"abc", b"", b"1.", b".5", b"1e", b"1.2.3"];
    for raw in bad {
        let mut list = AttributeList::new();
        assert_eq!(
            list.add_f64(AttributeName::MaxPlayoutRate, raw),
            Err(ParsingError::FloatFormatError),
            "literal {:?}",
            raw
        );
        assert_eq!(list.len(), 0);
    }
}

#[test]
fn bool_tokens_only() {
    let mut list = AttributeList::new();
    list.add_bool(AttributeName::BitstreamSwitching, b"true").expect("token");
    list.add_bool(AttributeName::CodingDependency, b"false").expect("token");
    let decoded = mpd_attrs::buffer::decode_all(list.as_bytes()).expect("decodes");
    assert_eq!(decoded.len(), 2);
    assert_eq!(decoded[0].1, CoercedValue::Flag(true));
    assert_eq!(decoded[1].1, CoercedValue::Flag(false));
    assert_eq!(
        list.add_bool(AttributeName::BitstreamSwitching, b"TRUE"),
        Err(ParsingError::BooleanFormatError)
    );
}

#[test]
fn u64_or_bool_union() {
    let mut list = AttributeList::new();
    list.add_u64_or_bool(AttributeName::SegmentAlignment, b"true").expect("token");
    assert_eq!(single_num(&list), 1.0);
    let mut list2 = AttributeList::new();
    list2.add_u64_or_bool(AttributeName::SegmentAlignment, b"false").expect("token");
    assert_eq!(single_num(&list2), 0.0);
    let mut list3 = AttributeList::new();
    list3.add_u64_or_bool(AttributeName::SegmentAlignment, b"7").expect("integer");
    assert_eq!(single_num(&list3), 7.0);
    let mut list4 = AttributeList::new();
    assert_eq!(
        list4.add_u64_or_bool(AttributeName::SegmentAlignment, b"abc"),
        Err(ParsingError::IntegerFormatError)
    );
    assert_eq!(list4.len(), 0);
}

#[test]
fn string_unescapes_entities() {
    let mut list = AttributeList::new();
    list.add_string(AttributeName::Codecs, b"a&amp;b").expect("unescapes");
    let decoded = mpd_attrs::buffer::decode_all(list.as_bytes()).expect("decodes");
    assert_eq!(decoded[0].1, CoercedValue::Str(b"a&b".to_vec()));
}

#[test]
fn string_rejects_bad_entity() {
    let mut list = AttributeList::new();
    assert_eq!(
        list.add_string(AttributeName::Codecs, b"a&bogus;b"),
        Err(ParsingError::AttributeUnescapeError)
    );
    assert_eq!(list.len(), 0);
}

#[test]
fn raw_infinity_bits() {
    let mut list = AttributeList::new();
    list.add_raw_f64(
        AttributeName::AvailabilityTimeOffset,
        mpd_attrs::binary64::INFINITY_BITS,
    );
    assert_eq!(single_num(&list), f64::INFINITY);
}
