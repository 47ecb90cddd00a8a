//! Dispatch over real element-open events from the XML tokenizer.

use mpd_attrs::buffer::{AttributeList, CoercedValue};
use mpd_attrs::errors::ParsingError;
use mpd_attrs::tags::{AttributeName, TagName};
use quick_xml::events::BytesStart;

fn num(v: &CoercedValue) -> f64 {
    match v {
        CoercedValue::Num(bits) => f64::from_bits(*bits),
        other => panic!("expected a numeric record, got {:?}", other),
    }
}

#[test]
fn representation_end_to_end() {
    let e = BytesStart::new("Representation").with_attributes([
        ("bandwidth", "128000"),
        ("width", "1920"),
        ("height", "1080"),
        ("codecs", "avc1.64001f"),
    ]);
    let mut list = AttributeList::new();
    let mut diags: Vec<ParsingError> = Vec::new();
    mpd_attrs::dispatch::parse_representation_attrs(&e, &mut list, &mut diags);
    assert!(diags.is_empty());
    let emission = list.send_as(TagName::Representation);
    assert_eq!(emission.element, TagName::Representation);
    assert_eq!(list.len(), 0);
    let decoded = mpd_attrs::buffer::decode_all(&emission.payload).expect("decodes");
    assert_eq!(decoded.len(), 4);
    assert_eq!(decoded[0].0, AttributeName::Bitrate);
    assert_eq!(num(&decoded[0].1), 128000.0);
    assert_eq!(decoded[1].0, AttributeName::Width);
    assert_eq!(num(&decoded[1].1), 1920.0);
    assert_eq!(decoded[2].0, AttributeName::Height);
    assert_eq!(num(&decoded[2].1), 1080.0);
    assert_eq!(decoded[3].0, AttributeName::Codecs);
    assert_eq!(decoded[3].1, CoercedValue::Str(b"avc1.64001f".to_vec()));
}

#[test]
fn unrecognized_attributes_leave_no_trace() {
    let e = BytesStart::new("Representation").with_attributes([
        ("somethingElse", "99"),
        ("data-extension", "x"),
    ]);
    let mut list = AttributeList::new();
    let mut diags: Vec<ParsingError> = Vec::new();
    mpd_attrs::dispatch::parse_representation_attrs(&e, &mut list, &mut diags);
    assert_eq!(list.len(), 0);
    assert!(diags.is_empty());
}

#[test]
fn segment_alignment_union_through_dispatch() {
    let e = BytesStart::new("AdaptationSet").with_attributes([
        ("segmentAlignment", "true"),
        ("subsegmentAlignment", "7"),
    ]);
    let mut list = AttributeList::new();
    let mut diags: Vec<ParsingError> = Vec::new();
    mpd_attrs::dispatch::parse_adaptation_set_attrs(&e, &mut list, &mut diags);
    assert!(diags.is_empty());
    let decoded = mpd_attrs::buffer::decode_all(list.as_bytes()).expect("decodes");
    assert_eq!(decoded.len(), 2);
    assert_eq!(decoded[0].0, AttributeName::SegmentAlignment);
    assert_eq!(num(&decoded[0].1), 1.0);
    assert_eq!(decoded[1].0, AttributeName::SubsegmentAlignment);
    assert_eq!(num(&decoded[1].1), 7.0);
}

#[test]
fn segment_alignment_failure_reports_one_diagnostic() {
    let e = BytesStart::new("AdaptationSet").with_attributes([("segmentAlignment", "abc")]);
    let mut list = AttributeList::new();
    let mut diags: Vec<ParsingError> = Vec::new();
    mpd_attrs::dispatch::parse_adaptation_set_attrs(&e, &mut list, &mut diags);
    assert_eq!(list.len(), 0);
    assert_eq!(diags, vec![ParsingError::IntegerFormatError]);
}

#[test]
fn duration_failure_reports_one_diagnostic() {
    let e = BytesStart::new("MPD").with_attributes([("mediaPresentationDuration", "P1X")]);
    let mut list = AttributeList::new();
    let mut diags: Vec<ParsingError> = Vec::new();
    mpd_attrs::dispatch::parse_mpd_attrs(&e, &mut list, &mut diags);
    assert_eq!(list.len(), 0);
    assert_eq!(diags, vec![ParsingError::DurationFormatError]);
}

#[test]
fn base_url_infinity_override() {
    let e = BytesStart::new("BaseURL").with_attributes([("availabilityTimeOffset", "INF")]);
    let mut list = AttributeList::new();
    let mut diags: Vec<ParsingError> = Vec::new();
    mpd_attrs::dispatch::parse_base_url_attrs(&e, &mut list, &mut diags);
    assert!(diags.is_empty());
    let decoded = mpd_attrs::buffer::decode_all(list.as_bytes()).expect("decodes");
    assert_eq!(decoded.len(), 1);
    assert_eq!(decoded[0].0, AttributeName::AvailabilityTimeOffset);
    assert_eq!(num(&decoded[0].1), f64::INFINITY);
}

#[test]
fn base_url_plain_offset() {
    let e = BytesStart::new("BaseURL").with_attributes([("availabilityTimeOffset", "3.5")]);
    let mut list = AttributeList::new();
    let mut diags: Vec<ParsingError> = Vec::new();
    mpd_attrs::dispatch::parse_base_url_attrs(&e, &mut list, &mut diags);
    assert!(diags.is_empty());
    let decoded = mpd_attrs::buffer::decode_all(list.as_bytes()).expect("decodes");
    assert_eq!(num(&decoded[0].1), 3.5);
}

#[test]
fn mpd_durations_and_strings() {
    let e = BytesStart::new("MPD").with_attributes([
        ("type", "static"),
        ("mediaPresentationDuration", "PT1H30M"),
        ("minBufferTime", "PT1.5S"),
    ]);
    let mut list = AttributeList::new();
    let mut diags: Vec<ParsingError> = Vec::new();
    mpd_attrs::dispatch::parse_mpd_attrs(&e, &mut list, &mut diags);
    assert!(diags.is_empty());
    let decoded = mpd_attrs::buffer::decode_all(list.as_bytes()).expect("decodes");
    assert_eq!(decoded.len(), 3);
    assert_eq!(decoded[0].1, CoercedValue::Str(b"static".to_vec()));
    assert_eq!(num(&decoded[1].1), 5400.0);
    assert_eq!(num(&decoded[2].1), 1.5);
}

#[test]
fn period_xlink_and_bool() {
    let e = BytesStart::new("Period").with_attributes([
        ("xlink:href", "http://example.com/period"),
        ("bitstreamSwitching", "true"),
        ("start", "PT30S"),
    ]);
    let mut list = AttributeList::new();
    let mut diags: Vec<ParsingError> = Vec::new();
    mpd_attrs::dispatch::parse_period_attrs(&e, &mut list, &mut diags);
    assert!(diags.is_empty());
    let decoded = mpd_attrs::buffer::decode_all(list.as_bytes()).expect("decodes");
    assert_eq!(decoded.len(), 3);
    assert_eq!(decoded[0].0, AttributeName::XLinkHref);
    assert_eq!(decoded[1].1, CoercedValue::Flag(true));
    assert_eq!(num(&decoded[2].1), 30.0);
}

#[test]
fn content_protection_key_id_stays_text() {
    let e = BytesStart::new("ContentProtection").with_attributes([
        ("schemeIdUri", "urn:uuid:1077efec-c0b2-4d02-ace3-3c1e52e2fb4b"),
        ("value", "cenc"),
        ("cenc:default_KID", "10000000-1000-1000-8000-100000000001"),
    ]);
    let mut list = AttributeList::new();
    let mut diags: Vec<ParsingError> = Vec::new();
    mpd_attrs::dispatch::parse_content_protection_attrs(&e, &mut list, &mut diags);
    assert!(diags.is_empty());
    let decoded = mpd_attrs::buffer::decode_all(list.as_bytes()).expect("decodes");
    assert_eq!(decoded.len(), 3);
    assert_eq!(decoded[0].0, AttributeName::SchemeIdUri);
    assert_eq!(decoded[1].0, AttributeName::ContentProtectionValue);
    assert_eq!(decoded[2].0, AttributeName::ContentProtectionKeyId);
    assert_eq!(
        decoded[2].1,
        CoercedValue::Str(b"10000000-1000-1000-8000-100000000001".to_vec())
    );
}

#[test]
fn scheme_and_content_component_tables() {
    let e = BytesStart::new("Role").with_attributes([
        ("schemeIdUri", "urn:mpeg:dash:role:2011"),
        ("value", "main"),
    ]);
    let mut list = AttributeList::new();
    let mut diags: Vec<ParsingError> = Vec::new();
    mpd_attrs::dispatch::parse_scheme_attrs(&e, &mut list, &mut diags);
    let decoded = mpd_attrs::buffer::decode_all(list.as_bytes()).expect("decodes");
    assert_eq!(decoded.len(), 2);
    assert_eq!(decoded[1].0, AttributeName::SchemeValue);

    let e2 = BytesStart::new("ContentComponent").with_attributes([
        ("id", "1"),
        ("lang", "en"),
        ("contentType", "audio"),
    ]);
    let mut list2 = AttributeList::new();
    let mut diags2: Vec<ParsingError> = Vec::new();
    mpd_attrs::dispatch::parse_content_component_attrs(&e2, &mut list2, &mut diags2);
    let decoded2 = mpd_attrs::buffer::decode_all(list2.as_bytes()).expect("decodes");
    assert_eq!(decoded2.len(), 3);
    assert_eq!(decoded2[1].0, AttributeName::Language);
}

#[test]
fn attribute_entity_unescaping_through_dispatch() {
    let e = BytesStart::from_content("Representation id=\"a&amp;b\"", 14);
    let mut list = AttributeList::new();
    let mut diags: Vec<ParsingError> = Vec::new();
    mpd_attrs::dispatch::parse_representation_attrs(&e, &mut list, &mut diags);
    assert!(diags.is_empty());
    let decoded = mpd_attrs::buffer::decode_all(list.as_bytes()).expect("decodes");
    assert_eq!(decoded[0].1, CoercedValue::Str(b"a&b".to_vec()));
}

#[test]
fn malformed_attribute_reports_tokenization_fault() {
    // Unquoted attribute values are a tokenizer-level attribute error.
    let e = BytesStart::from_content("Role schemeIdUri=abc", 4);
    let mut list = AttributeList::new();
    let mut diags: Vec<ParsingError> = Vec::new();
    mpd_attrs::dispatch::parse_scheme_attrs(&e, &mut list, &mut diags);
    assert_eq!(list.len(), 0);
    assert_eq!(diags, vec![ParsingError::UpstreamTokenizationError]);
}

#[test]
fn duplicate_attribute_first_wins_with_a_diagnostic() {
    // The tokenizer yields the first occurrence, then flags the repeat.
    let e = BytesStart::from_content("Representation width=\"640\" width=\"1280\"", 14);
    let mut list = AttributeList::new();
    let mut diags: Vec<ParsingError> = Vec::new();
    mpd_attrs::dispatch::parse_representation_attrs(&e, &mut list, &mut diags);
    let decoded = mpd_attrs::buffer::decode_all(list.as_bytes()).expect("decodes");
    assert_eq!(decoded.len(), 1);
    assert_eq!(decoded[0].0, AttributeName::Width);
    assert_eq!(num(&decoded[0].1), 640.0);
    assert_eq!(diags, vec![ParsingError::UpstreamTokenizationError]);
}

#[test]
fn element_without_attributes_contributes_nothing() {
    let e = BytesStart::new("Period");
    let mut list = AttributeList::new();
    let mut diags: Vec<ParsingError> = Vec::new();
    mpd_attrs::dispatch::parse_period_attrs(&e, &mut list, &mut diags);
    assert_eq!(list.len(), 0);
    assert!(diags.is_empty());
    // The boundary flush still happens for such an element.
    let emission = list.send_as(TagName::Period);
    assert_eq!(emission.element, TagName::Period);
    assert!(emission.payload.is_empty());
}

#[test]
fn failures_do_not_corrupt_neighbouring_records() {
    let e = BytesStart::new("Representation").with_attributes([
        ("bandwidth", "not-a-number"),
        ("width", "1280"),
    ]);
    let mut list = AttributeList::new();
    let mut diags: Vec<ParsingError> = Vec::new();
    mpd_attrs::dispatch::parse_representation_attrs(&e, &mut list, &mut diags);
    assert_eq!(diags, vec![ParsingError::IntegerFormatError]);
    let decoded = mpd_attrs::buffer::decode_all(list.as_bytes()).expect("decodes");
    assert_eq!(decoded.len(), 1);
    assert_eq!(decoded[0].0, AttributeName::Width);
    assert_eq!(num(&decoded[0].1), 1280.0);
}
