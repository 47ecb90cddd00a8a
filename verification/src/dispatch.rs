//! Attribute dispatch: one fixed table per manifest element kind, mapping
//! a literal attribute name to its tag and coercion.
//!
//! Dispatch is case-sensitive exact match; unrecognized names are ignored
//! without error, since manifests commonly carry extension attributes.
//! Each recognized attribute is coerced and, on success, appended to the
//! buffer as one record; on failure a diagnostic is collected and the
//! attribute is dropped.  No attribute ever aborts the element.

use vstd::prelude::*;
use vstd::string::StringSliceAdditionalSpecFns;
use crate::tags::{AttributeName, TagName, PayloadShape, spec_shape_of};
use crate::errors::ParsingError;
use crate::buffer::{AttributeList, RecVal, record_bytes, records_bytes, decode_records,
    value_shape, wf_value, wf_records, lemma_records_round_trip};
use crate::coerce::{spec_parse_u64, spec_parse_bool, spec_parse_u64_or_bool, spec_parse_float,
    bytes_eq};
use crate::duration::spec_parse_duration;
use crate::binary64::{spec_f64_bits, pow10, INFINITY_BITS};
use crate::xml::{AttrRead, AttrReadSpec, raw_attrs_of, read_attrs, unescaped_of};

verus! {

/// Which coercion a table entry applies.
#[derive(Clone, Copy, Debug, PartialEq, Eq, Structural)]
pub enum CoercionKind {
    /// Entity-unescaped bytes.
    Text,
    /// Strict decimal unsigned 64-bit integer.
    U64,
    /// Decimal or exponential float literal.
    F64,
    /// The literal infinity token, or else a float literal.
    F64OrInf,
    /// The boolean tokens.
    Bool,
    /// An ISO-8601 duration.
    Duration,
    /// A boolean token or an unsigned integer.
    U64OrBool,
}

/// The root (manifest) element's table.
pub open spec fn mpd_table(key: Seq<u8>) -> Option<(AttributeName, CoercionKind)> {
    if key == "id".spec_bytes() {
        Some((AttributeName::Id, CoercionKind::Text))
    } else if key == "profiles".spec_bytes() {
        Some((AttributeName::Profiles, CoercionKind::Text))
    } else if key == "type".spec_bytes() {
        Some((AttributeName::Type, CoercionKind::Text))
    } else if key == "availabilityStartTime".spec_bytes() {
        Some((AttributeName::AvailabilityStartTime, CoercionKind::Text))
    } else if key == "availabilityEndTime".spec_bytes() {
        Some((AttributeName::AvailabilityEndTime, CoercionKind::Text))
    } else if key == "publishTime".spec_bytes() {
        Some((AttributeName::PublishTime, CoercionKind::Text))
    } else if key == "mediaPresentationDuration".spec_bytes() {
        Some((AttributeName::MediaPresentationDuration, CoercionKind::Duration))
    } else if key == "minimumUpdatePeriod".spec_bytes() {
        Some((AttributeName::MinimumUpdatePeriod, CoercionKind::Duration))
    } else if key == "minBufferTime".spec_bytes() {
        Some((AttributeName::MinBufferTime, CoercionKind::Duration))
    } else if key == "timeShiftBufferDepth".spec_bytes() {
        Some((AttributeName::TimeShiftBufferDepth, CoercionKind::Duration))
    } else if key == "suggestedPresentationDelay".spec_bytes() {
        Some((AttributeName::SuggestedPresentationDelay, CoercionKind::Duration))
    } else if key == "maxSegmentDuration".spec_bytes() {
        Some((AttributeName::MaxSegmentDuration, CoercionKind::Duration))
    } else if key == "maxSubsegmentDuration".spec_bytes() {
        Some((AttributeName::MaxSubsegmentDuration, CoercionKind::Duration))
    } else {
        None
    }
}

/// The period element's table.
pub open spec fn period_table(key: Seq<u8>) -> Option<(AttributeName, CoercionKind)> {
    if key == "id".spec_bytes() {
        Some((AttributeName::Id, CoercionKind::Text))
    } else if key == "start".spec_bytes() {
        Some((AttributeName::Start, CoercionKind::Duration))
    } else if key == "duration".spec_bytes() {
        Some((AttributeName::Duration, CoercionKind::Duration))
    } else if key == "bitstreamSwitching".spec_bytes() {
        Some((AttributeName::BitstreamSwitching, CoercionKind::Bool))
    } else if key == "xlink:href".spec_bytes() {
        Some((AttributeName::XLinkHref, CoercionKind::Text))
    } else if key == "xlink:actuate".spec_bytes() {
        Some((AttributeName::XLinkActuate, CoercionKind::Text))
    } else {
        None
    }
}

/// The adaptation-set element's table.
pub open spec fn adaptation_set_table(key: Seq<u8>) -> Option<(AttributeName, CoercionKind)> {
    if key == "id".spec_bytes() {
        Some((AttributeName::Id, CoercionKind::Text))
    } else if key == "group".spec_bytes() {
        Some((AttributeName::Group, CoercionKind::U64))
    } else if key == "lang".spec_bytes() {
        Some((AttributeName::Language, CoercionKind::Text))
    } else if key == "contentType".spec_bytes() {
        Some((AttributeName::ContentType, CoercionKind::Text))
    } else if key == "par".spec_bytes() {
        Some((AttributeName::Par, CoercionKind::Text))
    } else if key == "minBandwidth".spec_bytes() {
        Some((AttributeName::MinBandwidth, CoercionKind::U64))
    } else if key == "maxBandwidth".spec_bytes() {
        Some((AttributeName::MaxBandwidth, CoercionKind::U64))
    } else if key == "minWidth".spec_bytes() {
        Some((AttributeName::MinWidth, CoercionKind::U64))
    } else if key == "maxWidth".spec_bytes() {
        Some((AttributeName::MaxWidth, CoercionKind::U64))
    } else if key == "minHeight".spec_bytes() {
        Some((AttributeName::MinHeight, CoercionKind::U64))
    } else if key == "maxHeight".spec_bytes() {
        Some((AttributeName::MaxHeight, CoercionKind::U64))
    } else if key == "minFrameRate".spec_bytes() {
        Some((AttributeName::MinFrameRate, CoercionKind::Text))
    } else if key == "maxFrameRate".spec_bytes() {
        Some((AttributeName::MaxFrameRate, CoercionKind::Text))
    } else if key == "selectionPriority".spec_bytes() {
        Some((AttributeName::SelectionPriority, CoercionKind::U64))
    } else if key == "segmentAlignment".spec_bytes() {
        Some((AttributeName::SegmentAlignment, CoercionKind::U64OrBool))
    } else if key == "subsegmentAlignment".spec_bytes() {
        Some((AttributeName::SubsegmentAlignment, CoercionKind::U64OrBool))
    } else if key == "bitstreamSwitching".spec_bytes() {
        Some((AttributeName::BitstreamSwitching, CoercionKind::Bool))
    } else if key == "audioSamplingRate".spec_bytes() {
        Some((AttributeName::AudioSamplingRate, CoercionKind::Text))
    } else if key == "codecs".spec_bytes() {
        Some((AttributeName::Codecs, CoercionKind::Text))
    } else if key == "profiles".spec_bytes() {
        Some((AttributeName::Profiles, CoercionKind::Text))
    } else if key == "segmentProfiles".spec_bytes() {
        Some((AttributeName::SegmentProfiles, CoercionKind::Text))
    } else if key == "mimeType".spec_bytes() {
        Some((AttributeName::MimeType, CoercionKind::Text))
    } else if key == "codingDependency".spec_bytes() {
        Some((AttributeName::CodingDependency, CoercionKind::Bool))
    } else if key == "frameRate".spec_bytes() {
        Some((AttributeName::FrameRate, CoercionKind::Text))
    } else if key == "height".spec_bytes() {
        Some((AttributeName::Height, CoercionKind::U64))
    } else if key == "width".spec_bytes() {
        Some((AttributeName::Width, CoercionKind::U64))
    } else if key == "maxPlayoutRate".spec_bytes() {
        Some((AttributeName::MaxPlayoutRate, CoercionKind::F64))
    } else if key == "maxSAPPeriod".spec_bytes() {
        Some((AttributeName::MaxSAPPeriod, CoercionKind::F64))
    } else {
        None
    }
}

/// The base-URL element's table.
pub open spec fn base_url_table(key: Seq<u8>) -> Option<(AttributeName, CoercionKind)> {
    if key == "availabilityTimeOffset".spec_bytes() {
        Some((AttributeName::AvailabilityTimeOffset, CoercionKind::F64OrInf))
    } else {
        None
    }
}

/// The generic scheme descriptor's table.
pub open spec fn scheme_table(key: Seq<u8>) -> Option<(AttributeName, CoercionKind)> {
    if key == "schemeIdUri".spec_bytes() {
        Some((AttributeName::SchemeIdUri, CoercionKind::Text))
    } else if key == "value".spec_bytes() {
        Some((AttributeName::SchemeValue, CoercionKind::Text))
    } else {
        None
    }
}

/// The content-component element's table.
pub open spec fn content_component_table(key: Seq<u8>) -> Option<(AttributeName, CoercionKind)> {
    if key == "id".spec_bytes() {
        Some((AttributeName::Id, CoercionKind::Text))
    } else if key == "lang".spec_bytes() {
        Some((AttributeName::Language, CoercionKind::Text))
    } else if key == "contentType".spec_bytes() {
        Some((AttributeName::ContentType, CoercionKind::Text))
    } else if key == "par".spec_bytes() {
        Some((AttributeName::Par, CoercionKind::Text))
    } else {
        None
    }
}

/// The content-protection descriptor's table.  The key identifier stays
/// a string: its hex form is left undecoded for the consumer.
pub open spec fn content_protection_table(key: Seq<u8>) -> Option<(AttributeName, CoercionKind)> {
    if key == "schemeIdUri".spec_bytes() {
        Some((AttributeName::SchemeIdUri, CoercionKind::Text))
    } else if key == "value".spec_bytes() {
        Some((AttributeName::ContentProtectionValue, CoercionKind::Text))
    } else if key == "cenc:default_KID".spec_bytes() {
        Some((AttributeName::ContentProtectionKeyId, CoercionKind::Text))
    } else {
        None
    }
}

/// The representation element's table.
pub open spec fn representation_table(key: Seq<u8>) -> Option<(AttributeName, CoercionKind)> {
    if key == "id".spec_bytes() {
        Some((AttributeName::Id, CoercionKind::Text))
    } else if key == "audioSamplingRate".spec_bytes() {
        Some((AttributeName::AudioSamplingRate, CoercionKind::Text))
    } else if key == "bandwidth".spec_bytes() {
        Some((AttributeName::Bitrate, CoercionKind::U64))
    } else if key == "codecs".spec_bytes() {
        Some((AttributeName::Codecs, CoercionKind::Text))
    } else if key == "codingDependency".spec_bytes() {
        Some((AttributeName::CodingDependency, CoercionKind::Bool))
    } else if key == "frameRate".spec_bytes() {
        Some((AttributeName::FrameRate, CoercionKind::Text))
    } else if key == "height".spec_bytes() {
        Some((AttributeName::Height, CoercionKind::U64))
    } else if key == "width".spec_bytes() {
        Some((AttributeName::Width, CoercionKind::U64))
    } else if key == "maxPlayoutRate".spec_bytes() {
        Some((AttributeName::MaxPlayoutRate, CoercionKind::F64))
    } else if key == "maxSAPPeriod".spec_bytes() {
        Some((AttributeName::MaxSAPPeriod, CoercionKind::F64))
    } else if key == "mimeType".spec_bytes() {
        Some((AttributeName::MimeType, CoercionKind::Text))
    } else if key == "profiles".spec_bytes() {
        Some((AttributeName::Profiles, CoercionKind::Text))
    } else if key == "qualityRanking".spec_bytes() {
        Some((AttributeName::QualityRanking, CoercionKind::U64))
    } else if key == "segmentProfiles".spec_bytes() {
        Some((AttributeName::SegmentProfiles, CoercionKind::Text))
    } else {
        None
    }
}

/// The table of the element kind being parsed; element kinds without a
/// dispatch entry point recognize nothing.
pub open spec fn table_lookup(kind: TagName, key: Seq<u8>) -> Option<(
    AttributeName,
    CoercionKind,
)> {
    match kind {
        TagName::Mpd => mpd_table(key),
        TagName::Period => period_table(key),
        TagName::AdaptationSet => adaptation_set_table(key),
        TagName::BaseUrl => base_url_table(key),
        TagName::Scheme => scheme_table(key),
        TagName::ContentComponent => content_component_table(key),
        TagName::ContentProtection => content_protection_table(key),
        TagName::Representation => representation_table(key),
        _ => None,
    }
}

/// What one coercion makes of a raw value: the record value to append,
/// or the diagnostic to report.
pub open spec fn coerce_value(ck: CoercionKind, raw: Seq<u8>) -> Result<RecVal, ParsingError> {
    match ck {
        CoercionKind::Text => match unescaped_of(raw) {
            Some(u) => if u.len() < 0x100000000 {
                Ok(RecVal::Str(u))
            } else {
                Err(ParsingError::AttributeUnescapeError)
            },
            None => Err(ParsingError::AttributeUnescapeError),
        },
        CoercionKind::U64 => match spec_parse_u64(raw) {
            Some(n) => Ok(RecVal::Num(spec_f64_bits(false, n as nat, 0, 1))),
            None => Err(ParsingError::IntegerFormatError),
        },
        CoercionKind::F64 => match spec_parse_float(raw) {
            Some((neg, i, f, k)) => Ok(
                RecVal::Num(spec_f64_bits(neg, i as nat, f as nat, pow10(k as nat))),
            ),
            None => Err(ParsingError::FloatFormatError),
        },
        CoercionKind::F64OrInf => if raw == "INF".spec_bytes() {
            Ok(RecVal::Num(INFINITY_BITS))
        } else {
            match spec_parse_float(raw) {
                Some((neg, i, f, k)) => Ok(
                    RecVal::Num(spec_f64_bits(neg, i as nat, f as nat, pow10(k as nat))),
                ),
                None => Err(ParsingError::FloatFormatError),
            }
        },
        CoercionKind::Bool => match spec_parse_bool(raw) {
            Some(b) => Ok(RecVal::Flag(b)),
            None => Err(ParsingError::BooleanFormatError),
        },
        CoercionKind::Duration => match spec_parse_duration(raw) {
            Some((i, f, k)) => Ok(
                RecVal::Num(spec_f64_bits(false, i as nat, f as nat, pow10(k as nat))),
            ),
            None => Err(ParsingError::DurationFormatError),
        },
        CoercionKind::U64OrBool => match spec_parse_u64_or_bool(raw) {
            Some(n) => Ok(RecVal::Num(spec_f64_bits(false, n as nat, 0, 1))),
            None => Err(ParsingError::IntegerFormatError),
        },
    }
}

/// What one attribute read contributes: the record bytes it appends and
/// the diagnostics it reports.
#[verifier::opaque]
pub open spec fn step(kind: TagName, ev: AttrReadSpec) -> (Seq<u8>, Seq<ParsingError>) {
    match ev {
        AttrReadSpec::Fault => (Seq::empty(), seq![ParsingError::UpstreamTokenizationError]),
        AttrReadSpec::Pair { key, value } => match table_lookup(kind, key) {
            None => (Seq::empty(), Seq::empty()),
            Some((tag, ck)) => match coerce_value(ck, value) {
                Ok(v) => (record_bytes(tag, v), Seq::empty()),
                Err(er) => (Seq::empty(), seq![er]),
            },
        },
    }
}

/// What a whole element-open event contributes, in source order.
pub open spec fn process_events(kind: TagName, evs: Seq<AttrReadSpec>) -> (
    Seq<u8>,
    Seq<ParsingError>,
)
    decreases evs.len(),
{
    if evs.len() == 0 {
        (Seq::empty(), Seq::empty())
    } else {
        let head = step(kind, evs[0]);
        let rest = process_events(kind, evs.drop_first());
        (head.0 + rest.0, head.1 + rest.1)
    }
}

/// Tail form of `process_events`, the shape the engine's loop walks.
pub open spec fn process_tail(
    kind: TagName,
    evs: Seq<AttrReadSpec>,
    accb: Seq<u8>,
    accd: Seq<ParsingError>,
) -> (Seq<u8>, Seq<ParsingError>)
    decreases evs.len(),
{
    if evs.len() == 0 {
        (accb, accd)
    } else {
        process_tail(
            kind,
            evs.drop_first(),
            accb + step(kind, evs[0]).0,
            accd + step(kind, evs[0]).1,
        )
    }
}

/// The two forms agree.
pub proof fn lemma_process_tail(
    kind: TagName,
    evs: Seq<AttrReadSpec>,
    accb: Seq<u8>,
    accd: Seq<ParsingError>,
)
    ensures
        process_tail(kind, evs, accb, accd) == (
            accb + process_events(kind, evs).0,
            accd + process_events(kind, evs).1,
        ),
    decreases evs.len(),
{
    if evs.len() == 0 {
        assert(accb + process_events(kind, evs).0 =~= accb);
        assert(accd + process_events(kind, evs).1 =~= accd);
    } else {
        let h = step(kind, evs[0]);
        lemma_process_tail(kind, evs.drop_first(), accb + h.0, accd + h.1);
        let rest = process_events(kind, evs.drop_first());
        assert((accb + h.0) + rest.0 =~= accb + (h.0 + rest.0));
        assert((accd + h.1) + rest.1 =~= accd + (h.1 + rest.1));
    }
}

/// Filtering completeness: an attribute name outside the element's
/// table contributes nothing at all — no record and no diagnostic.
pub proof fn lemma_unrecognized_attr_ignored(kind: TagName, key: Seq<u8>, value: Seq<u8>)
    requires
        table_lookup(kind, key) is None,
    ensures
        step(kind, AttrReadSpec::Pair { key, value }) == (
            Seq::<u8>::empty(),
            Seq::<ParsingError>::empty(),
        ),
{
    reveal(step);
}

/// The payload shape each coercion produces.
pub open spec fn coercion_shape(ck: CoercionKind) -> PayloadShape {
    match ck {
        CoercionKind::Text => PayloadShape::Text,
        CoercionKind::Bool => PayloadShape::Flag,
        _ => PayloadShape::Number,
    }
}

/// A successful coercion yields a well-formed value of its kind's shape.
pub proof fn lemma_coerce_ok(ck: CoercionKind, raw: Seq<u8>)
    ensures
        match coerce_value(ck, raw) {
            Ok(v) => wf_value(v) && value_shape(v) == coercion_shape(ck),
            Err(_) => true,
        },
{
}

/// The out-of-band agreement: every table entry applies a coercion whose
/// payload shape is exactly the one its attribute tag implies, so the
/// consumer can decode each record from the tag alone.
pub proof fn lemma_table_shape_agreement(kind: TagName, key: Seq<u8>)
    ensures
        match table_lookup(kind, key) {
            Some((tag, ck)) => coercion_shape(ck) == spec_shape_of(tag),
            None => true,
        },
{
}

/// The recognized, successfully coerced attributes of the events, as
/// tag/value pairs in source order.
pub open spec fn recognized_records(kind: TagName, evs: Seq<AttrReadSpec>) -> Seq<
    (AttributeName, RecVal),
>
    decreases evs.len(),
{
    if evs.len() == 0 {
        Seq::empty()
    } else {
        let rest = recognized_records(kind, evs.drop_first());
        match evs[0] {
            AttrReadSpec::Pair { key, value } => match table_lookup(kind, key) {
                Some((tag, ck)) => match coerce_value(ck, value) {
                    Ok(v) => seq![(tag, v)] + rest,
                    Err(_) => rest,
                },
                None => rest,
            },
            AttrReadSpec::Fault => rest,
        }
    }
}

/// The bytes an element-open event contributes are exactly the
/// concatenated records of its recognized attributes, all well formed.
pub proof fn lemma_process_is_records(kind: TagName, evs: Seq<AttrReadSpec>)
    ensures
        process_events(kind, evs).0 == records_bytes(recognized_records(kind, evs)),
        wf_records(recognized_records(kind, evs)),
    decreases evs.len(),
{
    reveal(step);
    if evs.len() == 0 {
        assert(process_events(kind, evs).0 =~= records_bytes(recognized_records(kind, evs)));
    } else {
        lemma_process_is_records(kind, evs.drop_first());
        let rest = recognized_records(kind, evs.drop_first());
        let restb = process_events(kind, evs.drop_first()).0;
        match evs[0] {
            AttrReadSpec::Pair { key, value } => {
                match table_lookup(kind, key) {
                    Some((tag, ck)) => {
                        match coerce_value(ck, value) {
                            Ok(v) => {
                                lemma_coerce_ok(ck, value);
                                lemma_table_shape_agreement(kind, key);
                                let rs = seq![(tag, v)] + rest;
                                assert(rs.drop_first() =~= rest);
                                assert(records_bytes(rs) == record_bytes(tag, v) + restb);
                                assert(wf_records(rs)) by {
                                    assert(forall|i: int|
                                        1 <= i < rs.len() ==> rs[i] == rest[i - 1]);
                                }
                            },
                            Err(_) => {
                                assert(process_events(kind, evs).0 =~= restb);
                            },
                        }
                    },
                    None => {
                        assert(process_events(kind, evs).0 =~= restb);
                    },
                }
            },
            AttrReadSpec::Fault => {
                assert(process_events(kind, evs).0 =~= restb);
            },
        }
    }
}

/// Round trip through the whole pipeline: the buffer bytes an
/// element-open event contributes decode, with the documented record
/// layout, to exactly its recognized and successfully coerced
/// attributes, in source order.
pub proof fn lemma_emitted_buffer_decodes(kind: TagName, evs: Seq<AttrReadSpec>)
    ensures
        decode_records(process_events(kind, evs).0) == Some(recognized_records(kind, evs)),
{
    lemma_process_is_records(kind, evs);
    lemma_records_round_trip(recognized_records(kind, evs));
}

/// Exec lookup in the table of `kind`; mirrors `table_lookup`.
fn lookup_run(kind: TagName, key: &[u8]) -> (r: Option<(AttributeName, CoercionKind)>)
    ensures
        r == table_lookup(kind, key@),
{
    match kind {
        TagName::Mpd => {
            if bytes_eq(key, "id".as_bytes()) {
                Some((AttributeName::Id, CoercionKind::Text))
            } else if bytes_eq(key, "profiles".as_bytes()) {
                Some((AttributeName::Profiles, CoercionKind::Text))
            } else if bytes_eq(key, "type".as_bytes()) {
                Some((AttributeName::Type, CoercionKind::Text))
            } else if bytes_eq(key, "availabilityStartTime".as_bytes()) {
                Some((AttributeName::AvailabilityStartTime, CoercionKind::Text))
            } else if bytes_eq(key, "availabilityEndTime".as_bytes()) {
                Some((AttributeName::AvailabilityEndTime, CoercionKind::Text))
            } else if bytes_eq(key, "publishTime".as_bytes()) {
                Some((AttributeName::PublishTime, CoercionKind::Text))
            } else if bytes_eq(key, "mediaPresentationDuration".as_bytes()) {
                Some((AttributeName::MediaPresentationDuration, CoercionKind::Duration))
            } else if bytes_eq(key, "minimumUpdatePeriod".as_bytes()) {
                Some((AttributeName::MinimumUpdatePeriod, CoercionKind::Duration))
            } else if bytes_eq(key, "minBufferTime".as_bytes()) {
                Some((AttributeName::MinBufferTime, CoercionKind::Duration))
            } else if bytes_eq(key, "timeShiftBufferDepth".as_bytes()) {
                Some((AttributeName::TimeShiftBufferDepth, CoercionKind::Duration))
            } else if bytes_eq(key, "suggestedPresentationDelay".as_bytes()) {
                Some((AttributeName::SuggestedPresentationDelay, CoercionKind::Duration))
            } else if bytes_eq(key, "maxSegmentDuration".as_bytes()) {
                Some((AttributeName::MaxSegmentDuration, CoercionKind::Duration))
            } else if bytes_eq(key, "maxSubsegmentDuration".as_bytes()) {
                Some((AttributeName::MaxSubsegmentDuration, CoercionKind::Duration))
            } else {
                None
            }
        },
        TagName::Period => {
            if bytes_eq(key, "id".as_bytes()) {
                Some((AttributeName::Id, CoercionKind::Text))
            } else if bytes_eq(key, "start".as_bytes()) {
                Some((AttributeName::Start, CoercionKind::Duration))
            } else if bytes_eq(key, "duration".as_bytes()) {
                Some((AttributeName::Duration, CoercionKind::Duration))
            } else if bytes_eq(key, "bitstreamSwitching".as_bytes()) {
                Some((AttributeName::BitstreamSwitching, CoercionKind::Bool))
            } else if bytes_eq(key, "xlink:href".as_bytes()) {
                Some((AttributeName::XLinkHref, CoercionKind::Text))
            } else if bytes_eq(key, "xlink:actuate".as_bytes()) {
                Some((AttributeName::XLinkActuate, CoercionKind::Text))
            } else {
                None
            }
        },
        TagName::AdaptationSet => {
            if bytes_eq(key, "id".as_bytes()) {
                Some((AttributeName::Id, CoercionKind::Text))
            } else if bytes_eq(key, "group".as_bytes()) {
                Some((AttributeName::Group, CoercionKind::U64))
            } else if bytes_eq(key, "lang".as_bytes()) {
                Some((AttributeName::Language, CoercionKind::Text))
            } else if bytes_eq(key, "contentType".as_bytes()) {
                Some((AttributeName::ContentType, CoercionKind::Text))
            } else if bytes_eq(key, "par".as_bytes()) {
                Some((AttributeName::Par, CoercionKind::Text))
            } else if bytes_eq(key, "minBandwidth".as_bytes()) {
                Some((AttributeName::MinBandwidth, CoercionKind::U64))
            } else if bytes_eq(key, "maxBandwidth".as_bytes()) {
                Some((AttributeName::MaxBandwidth, CoercionKind::U64))
            } else if bytes_eq(key, "minWidth".as_bytes()) {
                Some((AttributeName::MinWidth, CoercionKind::U64))
            } else if bytes_eq(key, "maxWidth".as_bytes()) {
                Some((AttributeName::MaxWidth, CoercionKind::U64))
            } else if bytes_eq(key, "minHeight".as_bytes()) {
                Some((AttributeName::MinHeight, CoercionKind::U64))
            } else if bytes_eq(key, "maxHeight".as_bytes()) {
                Some((AttributeName::MaxHeight, CoercionKind::U64))
            } else if bytes_eq(key, "minFrameRate".as_bytes()) {
                Some((AttributeName::MinFrameRate, CoercionKind::Text))
            } else if bytes_eq(key, "maxFrameRate".as_bytes()) {
                Some((AttributeName::MaxFrameRate, CoercionKind::Text))
            } else if bytes_eq(key, "selectionPriority".as_bytes()) {
                Some((AttributeName::SelectionPriority, CoercionKind::U64))
            } else if bytes_eq(key, "segmentAlignment".as_bytes()) {
                Some((AttributeName::SegmentAlignment, CoercionKind::U64OrBool))
            } else if bytes_eq(key, "subsegmentAlignment".as_bytes()) {
                Some((AttributeName::SubsegmentAlignment, CoercionKind::U64OrBool))
            } else if bytes_eq(key, "bitstreamSwitching".as_bytes()) {
                Some((AttributeName::BitstreamSwitching, CoercionKind::Bool))
            } else if bytes_eq(key, "audioSamplingRate".as_bytes()) {
                Some((AttributeName::AudioSamplingRate, CoercionKind::Text))
            } else if bytes_eq(key, "codecs".as_bytes()) {
                Some((AttributeName::Codecs, CoercionKind::Text))
            } else if bytes_eq(key, "profiles".as_bytes()) {
                Some((AttributeName::Profiles, CoercionKind::Text))
            } else if bytes_eq(key, "segmentProfiles".as_bytes()) {
                Some((AttributeName::SegmentProfiles, CoercionKind::Text))
            } else if bytes_eq(key, "mimeType".as_bytes()) {
                Some((AttributeName::MimeType, CoercionKind::Text))
            } else if bytes_eq(key, "codingDependency".as_bytes()) {
                Some((AttributeName::CodingDependency, CoercionKind::Bool))
            } else if bytes_eq(key, "frameRate".as_bytes()) {
                Some((AttributeName::FrameRate, CoercionKind::Text))
            } else if bytes_eq(key, "height".as_bytes()) {
                Some((AttributeName::Height, CoercionKind::U64))
            } else if bytes_eq(key, "width".as_bytes()) {
                Some((AttributeName::Width, CoercionKind::U64))
            } else if bytes_eq(key, "maxPlayoutRate".as_bytes()) {
                Some((AttributeName::MaxPlayoutRate, CoercionKind::F64))
            } else if bytes_eq(key, "maxSAPPeriod".as_bytes()) {
                Some((AttributeName::MaxSAPPeriod, CoercionKind::F64))
            } else {
                None
            }
        },
        TagName::BaseUrl => {
            if bytes_eq(key, "availabilityTimeOffset".as_bytes()) {
                Some((AttributeName::AvailabilityTimeOffset, CoercionKind::F64OrInf))
            } else {
                None
            }
        },
        TagName::Scheme => {
            if bytes_eq(key, "schemeIdUri".as_bytes()) {
                Some((AttributeName::SchemeIdUri, CoercionKind::Text))
            } else if bytes_eq(key, "value".as_bytes()) {
                Some((AttributeName::SchemeValue, CoercionKind::Text))
            } else {
                None
            }
        },
        TagName::ContentComponent => {
            if bytes_eq(key, "id".as_bytes()) {
                Some((AttributeName::Id, CoercionKind::Text))
            } else if bytes_eq(key, "lang".as_bytes()) {
                Some((AttributeName::Language, CoercionKind::Text))
            } else if bytes_eq(key, "contentType".as_bytes()) {
                Some((AttributeName::ContentType, CoercionKind::Text))
            } else if bytes_eq(key, "par".as_bytes()) {
                Some((AttributeName::Par, CoercionKind::Text))
            } else {
                None
            }
        },
        TagName::ContentProtection => {
            if bytes_eq(key, "schemeIdUri".as_bytes()) {
                Some((AttributeName::SchemeIdUri, CoercionKind::Text))
            } else if bytes_eq(key, "value".as_bytes()) {
                Some((AttributeName::ContentProtectionValue, CoercionKind::Text))
            } else if bytes_eq(key, "cenc:default_KID".as_bytes()) {
                Some((AttributeName::ContentProtectionKeyId, CoercionKind::Text))
            } else {
                None
            }
        },
        TagName::Representation => {
            if bytes_eq(key, "id".as_bytes()) {
                Some((AttributeName::Id, CoercionKind::Text))
            } else if bytes_eq(key, "audioSamplingRate".as_bytes()) {
                Some((AttributeName::AudioSamplingRate, CoercionKind::Text))
            } else if bytes_eq(key, "bandwidth".as_bytes()) {
                Some((AttributeName::Bitrate, CoercionKind::U64))
            } else if bytes_eq(key, "codecs".as_bytes()) {
                Some((AttributeName::Codecs, CoercionKind::Text))
            } else if bytes_eq(key, "codingDependency".as_bytes()) {
                Some((AttributeName::CodingDependency, CoercionKind::Bool))
            } else if bytes_eq(key, "frameRate".as_bytes()) {
                Some((AttributeName::FrameRate, CoercionKind::Text))
            } else if bytes_eq(key, "height".as_bytes()) {
                Some((AttributeName::Height, CoercionKind::U64))
            } else if bytes_eq(key, "width".as_bytes()) {
                Some((AttributeName::Width, CoercionKind::U64))
            } else if bytes_eq(key, "maxPlayoutRate".as_bytes()) {
                Some((AttributeName::MaxPlayoutRate, CoercionKind::F64))
            } else if bytes_eq(key, "maxSAPPeriod".as_bytes()) {
                Some((AttributeName::MaxSAPPeriod, CoercionKind::F64))
            } else if bytes_eq(key, "mimeType".as_bytes()) {
                Some((AttributeName::MimeType, CoercionKind::Text))
            } else if bytes_eq(key, "profiles".as_bytes()) {
                Some((AttributeName::Profiles, CoercionKind::Text))
            } else if bytes_eq(key, "qualityRanking".as_bytes()) {
                Some((AttributeName::QualityRanking, CoercionKind::U64))
            } else if bytes_eq(key, "segmentProfiles".as_bytes()) {
                Some((AttributeName::SegmentProfiles, CoercionKind::Text))
            } else {
                None
            }
        },
        _ => None,
    }
}

/// Handles one attribute read: dispatch, coercion, append or diagnose.
#[verifier::rlimit(100)]
fn process_one(
    kind: TagName,
    ev: &AttrRead,
    attr_list: &mut AttributeList,
    diags: &mut Vec<ParsingError>,
)
    ensures
        final(attr_list)@ == old(attr_list)@ + step(kind, ev@).0,
        final(diags)@ == old(diags)@ + step(kind, ev@).1,
{
    proof {
        reveal(step);
    }
    let ghost pre_b = attr_list@;
    let ghost pre_d = diags@;
    match ev {
        AttrRead::Fault => {
            diags.push(ParsingError::UpstreamTokenizationError);
            proof {
                assert(diags@ =~= pre_d + seq![ParsingError::UpstreamTokenizationError]);
                assert(attr_list@ =~= pre_b + Seq::<u8>::empty());
            }
        },
        AttrRead::Pair { key, value } => {
            match lookup_run(kind, key.as_slice()) {
                None => {
                    proof {
                        assert(attr_list@ =~= pre_b + Seq::<u8>::empty());
                        assert(diags@ =~= pre_d + Seq::<ParsingError>::empty());
                    }
                },
                Some((tag, ck)) => {
                    let res: Result<(), ParsingError> = match ck {
                        CoercionKind::Text => attr_list.add_string(tag, value.as_slice()),
                        CoercionKind::U64 => attr_list.add_u64(tag, value.as_slice()),
                        CoercionKind::F64 => attr_list.add_f64(tag, value.as_slice()),
                        CoercionKind::F64OrInf => {
                            if bytes_eq(value.as_slice(), "INF".as_bytes()) {
                                attr_list.add_raw_f64(tag, INFINITY_BITS);
                                Ok(())
                            } else {
                                attr_list.add_f64(tag, value.as_slice())
                            }
                        },
                        CoercionKind::Bool => attr_list.add_bool(tag, value.as_slice()),
                        CoercionKind::Duration => attr_list.add_iso_8601_duration(
                            tag,
                            value.as_slice(),
                        ),
                        CoercionKind::U64OrBool => attr_list.add_u64_or_bool(
                            tag,
                            value.as_slice(),
                        ),
                    };
                    match res {
                        Ok(_) => {
                            proof {
                                assert(diags@ =~= pre_d + Seq::<ParsingError>::empty());
                            }
                        },
                        Err(er) => {
                            diags.push(er);
                            proof {
                                assert(attr_list@ =~= pre_b + Seq::<u8>::empty());
                                assert(diags@ =~= pre_d + seq![er]);
                            }
                        },
                    }
                },
            }
        },
    }
}

/// The engine: reads the event's attributes, dispatches each through the
/// element's table, appends the records of the successful coercions in
/// source order and collects one diagnostic per failed one.
fn process_element(
    kind: TagName,
    e: &quick_xml::events::BytesStart,
    attr_list: &mut AttributeList,
    diags: &mut Vec<ParsingError>,
)
    ensures
        final(attr_list)@ == old(attr_list)@ + process_events(kind, raw_attrs_of(*e)).0,
        final(diags)@ == old(diags)@ + process_events(kind, raw_attrs_of(*e)).1,
{
    let evs = read_attrs(e);
    let ghost evss = raw_attrs_of(*e);
    proof {
        assert(evss.skip(0) =~= evss);
    }
    let mut i: usize = 0;
    while i < evs.len()
        invariant
            i <= evs.len(),
            evs@.map_values(|a: AttrRead| a@) == evss,
            process_tail(kind, evss.skip(i as int), attr_list@, diags@) == process_tail(
                kind,
                evss,
                old(attr_list)@,
                old(diags)@,
            ),
        decreases evs.len() - i,
    {
        proof {
            assert(evss[i as int] == evs@[i as int]@);
            assert(evss.skip(i as int).drop_first() =~= evss.skip(i + 1));
            assert(evss.skip(i as int)[0] == evss[i as int]);
        }
        process_one(kind, &evs[i], attr_list, diags);
        i = i + 1;
    }
    proof {
        assert(evss.skip(evs@.len() as int) =~= Seq::<AttrReadSpec>::empty());
        lemma_process_tail(kind, evss, old(attr_list)@, old(diags)@);
    }
}

/// Dispatches the attributes of a root (manifest) element-open event.
pub fn parse_mpd_attrs(
    e: &quick_xml::events::BytesStart,
    attr_list: &mut AttributeList,
    diags: &mut Vec<ParsingError>,
)
    ensures
        final(attr_list)@ == old(attr_list)@ + process_events(TagName::Mpd, raw_attrs_of(*e)).0,
        final(diags)@ == old(diags)@ + process_events(TagName::Mpd, raw_attrs_of(*e)).1,
{
    process_element(TagName::Mpd, e, attr_list, diags)
}

/// Dispatches the attributes of a period element-open event.
pub fn parse_period_attrs(
    e: &quick_xml::events::BytesStart,
    attr_list: &mut AttributeList,
    diags: &mut Vec<ParsingError>,
)
    ensures
        final(attr_list)@ == old(attr_list)@ + process_events(
            TagName::Period,
            raw_attrs_of(*e),
        ).0,
        final(diags)@ == old(diags)@ + process_events(TagName::Period, raw_attrs_of(*e)).1,
{
    process_element(TagName::Period, e, attr_list, diags)
}

/// Dispatches the attributes of an adaptation-set element-open event.
pub fn parse_adaptation_set_attrs(
    e: &quick_xml::events::BytesStart,
    attr_list: &mut AttributeList,
    diags: &mut Vec<ParsingError>,
)
    ensures
        final(attr_list)@ == old(attr_list)@ + process_events(
            TagName::AdaptationSet,
            raw_attrs_of(*e),
        ).0,
        final(diags)@ == old(diags)@ + process_events(
            TagName::AdaptationSet,
            raw_attrs_of(*e),
        ).1,
{
    process_element(TagName::AdaptationSet, e, attr_list, diags)
}

/// Dispatches the attributes of a base-URL element-open event.
pub fn parse_base_url_attrs(
    e: &quick_xml::events::BytesStart,
    attr_list: &mut AttributeList,
    diags: &mut Vec<ParsingError>,
)
    ensures
        final(attr_list)@ == old(attr_list)@ + process_events(
            TagName::BaseUrl,
            raw_attrs_of(*e),
        ).0,
        final(diags)@ == old(diags)@ + process_events(TagName::BaseUrl, raw_attrs_of(*e)).1,
{
    process_element(TagName::BaseUrl, e, attr_list, diags)
}

/// Dispatches the attributes of a generic scheme descriptor.
pub fn parse_scheme_attrs(
    e: &quick_xml::events::BytesStart,
    attr_list: &mut AttributeList,
    diags: &mut Vec<ParsingError>,
)
    ensures
        final(attr_list)@ == old(attr_list)@ + process_events(
            TagName::Scheme,
            raw_attrs_of(*e),
        ).0,
        final(diags)@ == old(diags)@ + process_events(TagName::Scheme, raw_attrs_of(*e)).1,
{
    process_element(TagName::Scheme, e, attr_list, diags)
}

/// Dispatches the attributes of a content-component element-open event.
pub fn parse_content_component_attrs(
    e: &quick_xml::events::BytesStart,
    attr_list: &mut AttributeList,
    diags: &mut Vec<ParsingError>,
)
    ensures
        final(attr_list)@ == old(attr_list)@ + process_events(
            TagName::ContentComponent,
            raw_attrs_of(*e),
        ).0,
        final(diags)@ == old(diags)@ + process_events(
            TagName::ContentComponent,
            raw_attrs_of(*e),
        ).1,
{
    process_element(TagName::ContentComponent, e, attr_list, diags)
}

/// Dispatches the attributes of a content-protection descriptor.
pub fn parse_content_protection_attrs(
    e: &quick_xml::events::BytesStart,
    attr_list: &mut AttributeList,
    diags: &mut Vec<ParsingError>,
)
    ensures
        final(attr_list)@ == old(attr_list)@ + process_events(
            TagName::ContentProtection,
            raw_attrs_of(*e),
        ).0,
        final(diags)@ == old(diags)@ + process_events(
            TagName::ContentProtection,
            raw_attrs_of(*e),
        ).1,
{
    process_element(TagName::ContentProtection, e, attr_list, diags)
}

/// Dispatches the attributes of a representation element-open event.
pub fn parse_representation_attrs(
    e: &quick_xml::events::BytesStart,
    attr_list: &mut AttributeList,
    diags: &mut Vec<ParsingError>,
)
    ensures
        final(attr_list)@ == old(attr_list)@ + process_events(
            TagName::Representation,
            raw_attrs_of(*e),
        ).0,
        final(diags)@ == old(diags)@ + process_events(
            TagName::Representation,
            raw_attrs_of(*e),
        ).1,
{
    process_element(TagName::Representation, e, attr_list, diags)
}

} // verus!
