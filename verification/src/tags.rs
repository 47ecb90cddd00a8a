//! The shared tag registry: the stable small integers that name each
//! recognized attribute and each element kind on the wire.
//!
//! Producer and consumer agree on these numbers out of band; the payload
//! shape of a record is implied solely by its attribute tag, so the shape
//! table lives here beside the codes.

use vstd::prelude::*;

verus! {

/// A recognized semantic attribute.  Closed, versioned set: the wire code of
/// a variant never changes once published.
#[derive(Clone, Copy, Debug, PartialEq, Eq, Structural)]
pub enum AttributeName {
    Id,
    Profiles,
    Type,
    AvailabilityStartTime,
    AvailabilityEndTime,
    PublishTime,
    MediaPresentationDuration,
    MinimumUpdatePeriod,
    MinBufferTime,
    TimeShiftBufferDepth,
    SuggestedPresentationDelay,
    MaxSegmentDuration,
    MaxSubsegmentDuration,
    Start,
    Duration,
    BitstreamSwitching,
    XLinkHref,
    XLinkActuate,
    Group,
    Language,
    ContentType,
    Par,
    MinBandwidth,
    MaxBandwidth,
    MinWidth,
    MaxWidth,
    MinHeight,
    MaxHeight,
    MinFrameRate,
    MaxFrameRate,
    SelectionPriority,
    SegmentAlignment,
    SubsegmentAlignment,
    AudioSamplingRate,
    Codecs,
    SegmentProfiles,
    MimeType,
    CodingDependency,
    FrameRate,
    Height,
    Width,
    MaxPlayoutRate,
    MaxSAPPeriod,
    AvailabilityTimeOffset,
    SchemeIdUri,
    SchemeValue,
    ContentProtectionValue,
    ContentProtectionKeyId,
    Bitrate,
    QualityRanking,
}

/// The payload shape a record carries; implied by the attribute tag alone.
#[derive(Clone, Copy, Debug, PartialEq, Eq, Structural)]
pub enum PayloadShape {
    /// 4-byte little-endian length followed by that many raw bytes.
    Text,
    /// 8 bytes: the little-endian bit pattern of an IEEE 754 binary64 value.
    Number,
    /// 1 byte: 0 or 1.
    Flag,
}

/// The wire code of an attribute tag.
pub open spec fn spec_attr_code(t: AttributeName) -> u8 {
    match t {
        AttributeName::Id => 0,
        AttributeName::Profiles => 1,
        AttributeName::Type => 2,
        AttributeName::AvailabilityStartTime => 3,
        AttributeName::AvailabilityEndTime => 4,
        AttributeName::PublishTime => 5,
        AttributeName::MediaPresentationDuration => 6,
        AttributeName::MinimumUpdatePeriod => 7,
        AttributeName::MinBufferTime => 8,
        AttributeName::TimeShiftBufferDepth => 9,
        AttributeName::SuggestedPresentationDelay => 10,
        AttributeName::MaxSegmentDuration => 11,
        AttributeName::MaxSubsegmentDuration => 12,
        AttributeName::Start => 13,
        AttributeName::Duration => 14,
        AttributeName::BitstreamSwitching => 15,
        AttributeName::XLinkHref => 16,
        AttributeName::XLinkActuate => 17,
        AttributeName::Group => 18,
        AttributeName::Language => 19,
        AttributeName::ContentType => 20,
        AttributeName::Par => 21,
        AttributeName::MinBandwidth => 22,
        AttributeName::MaxBandwidth => 23,
        AttributeName::MinWidth => 24,
        AttributeName::MaxWidth => 25,
        AttributeName::MinHeight => 26,
        AttributeName::MaxHeight => 27,
        AttributeName::MinFrameRate => 28,
        AttributeName::MaxFrameRate => 29,
        AttributeName::SelectionPriority => 30,
        AttributeName::SegmentAlignment => 31,
        AttributeName::SubsegmentAlignment => 32,
        AttributeName::AudioSamplingRate => 33,
        AttributeName::Codecs => 34,
        AttributeName::SegmentProfiles => 35,
        AttributeName::MimeType => 36,
        AttributeName::CodingDependency => 37,
        AttributeName::FrameRate => 38,
        AttributeName::Height => 39,
        AttributeName::Width => 40,
        AttributeName::MaxPlayoutRate => 41,
        AttributeName::MaxSAPPeriod => 42,
        AttributeName::AvailabilityTimeOffset => 43,
        AttributeName::SchemeIdUri => 44,
        AttributeName::SchemeValue => 45,
        AttributeName::ContentProtectionValue => 46,
        AttributeName::ContentProtectionKeyId => 47,
        AttributeName::Bitrate => 48,
        AttributeName::QualityRanking => 49,
    }
}

/// The attribute tag named by a wire code, if any.
pub open spec fn spec_attr_of_code(c: u8) -> Option<AttributeName> {
    match c {
        0 => Some(AttributeName::Id),
        1 => Some(AttributeName::Profiles),
        2 => Some(AttributeName::Type),
        3 => Some(AttributeName::AvailabilityStartTime),
        4 => Some(AttributeName::AvailabilityEndTime),
        5 => Some(AttributeName::PublishTime),
        6 => Some(AttributeName::MediaPresentationDuration),
        7 => Some(AttributeName::MinimumUpdatePeriod),
        8 => Some(AttributeName::MinBufferTime),
        9 => Some(AttributeName::TimeShiftBufferDepth),
        10 => Some(AttributeName::SuggestedPresentationDelay),
        11 => Some(AttributeName::MaxSegmentDuration),
        12 => Some(AttributeName::MaxSubsegmentDuration),
        13 => Some(AttributeName::Start),
        14 => Some(AttributeName::Duration),
        15 => Some(AttributeName::BitstreamSwitching),
        16 => Some(AttributeName::XLinkHref),
        17 => Some(AttributeName::XLinkActuate),
        18 => Some(AttributeName::Group),
        19 => Some(AttributeName::Language),
        20 => Some(AttributeName::ContentType),
        21 => Some(AttributeName::Par),
        22 => Some(AttributeName::MinBandwidth),
        23 => Some(AttributeName::MaxBandwidth),
        24 => Some(AttributeName::MinWidth),
        25 => Some(AttributeName::MaxWidth),
        26 => Some(AttributeName::MinHeight),
        27 => Some(AttributeName::MaxHeight),
        28 => Some(AttributeName::MinFrameRate),
        29 => Some(AttributeName::MaxFrameRate),
        30 => Some(AttributeName::SelectionPriority),
        31 => Some(AttributeName::SegmentAlignment),
        32 => Some(AttributeName::SubsegmentAlignment),
        33 => Some(AttributeName::AudioSamplingRate),
        34 => Some(AttributeName::Codecs),
        35 => Some(AttributeName::SegmentProfiles),
        36 => Some(AttributeName::MimeType),
        37 => Some(AttributeName::CodingDependency),
        38 => Some(AttributeName::FrameRate),
        39 => Some(AttributeName::Height),
        40 => Some(AttributeName::Width),
        41 => Some(AttributeName::MaxPlayoutRate),
        42 => Some(AttributeName::MaxSAPPeriod),
        43 => Some(AttributeName::AvailabilityTimeOffset),
        44 => Some(AttributeName::SchemeIdUri),
        45 => Some(AttributeName::SchemeValue),
        46 => Some(AttributeName::ContentProtectionValue),
        47 => Some(AttributeName::ContentProtectionKeyId),
        48 => Some(AttributeName::Bitrate),
        49 => Some(AttributeName::QualityRanking),
        _ => None,
    }
}

/// The payload shape implied by an attribute tag.
pub open spec fn spec_shape_of(t: AttributeName) -> PayloadShape {
    match t {
        AttributeName::MediaPresentationDuration => PayloadShape::Number,
        AttributeName::MinimumUpdatePeriod => PayloadShape::Number,
        AttributeName::MinBufferTime => PayloadShape::Number,
        AttributeName::TimeShiftBufferDepth => PayloadShape::Number,
        AttributeName::SuggestedPresentationDelay => PayloadShape::Number,
        AttributeName::MaxSegmentDuration => PayloadShape::Number,
        AttributeName::MaxSubsegmentDuration => PayloadShape::Number,
        AttributeName::Start => PayloadShape::Number,
        AttributeName::Duration => PayloadShape::Number,
        AttributeName::Group => PayloadShape::Number,
        AttributeName::MinBandwidth => PayloadShape::Number,
        AttributeName::MaxBandwidth => PayloadShape::Number,
        AttributeName::MinWidth => PayloadShape::Number,
        AttributeName::MaxWidth => PayloadShape::Number,
        AttributeName::MinHeight => PayloadShape::Number,
        AttributeName::MaxHeight => PayloadShape::Number,
        AttributeName::SelectionPriority => PayloadShape::Number,
        AttributeName::SegmentAlignment => PayloadShape::Number,
        AttributeName::SubsegmentAlignment => PayloadShape::Number,
        AttributeName::Height => PayloadShape::Number,
        AttributeName::Width => PayloadShape::Number,
        AttributeName::MaxPlayoutRate => PayloadShape::Number,
        AttributeName::MaxSAPPeriod => PayloadShape::Number,
        AttributeName::AvailabilityTimeOffset => PayloadShape::Number,
        AttributeName::Bitrate => PayloadShape::Number,
        AttributeName::QualityRanking => PayloadShape::Number,
        AttributeName::BitstreamSwitching => PayloadShape::Flag,
        AttributeName::CodingDependency => PayloadShape::Flag,
        _ => PayloadShape::Text,
    }
}

impl AttributeName {
    /// The wire code of this attribute tag.
    pub fn code(&self) -> (c: u8)
        ensures
            c == spec_attr_code(*self),
    {
        match self {
            AttributeName::Id => 0,
            AttributeName::Profiles => 1,
            AttributeName::Type => 2,
            AttributeName::AvailabilityStartTime => 3,
            AttributeName::AvailabilityEndTime => 4,
            AttributeName::PublishTime => 5,
            AttributeName::MediaPresentationDuration => 6,
            AttributeName::MinimumUpdatePeriod => 7,
            AttributeName::MinBufferTime => 8,
            AttributeName::TimeShiftBufferDepth => 9,
            AttributeName::SuggestedPresentationDelay => 10,
            AttributeName::MaxSegmentDuration => 11,
            AttributeName::MaxSubsegmentDuration => 12,
            AttributeName::Start => 13,
            AttributeName::Duration => 14,
            AttributeName::BitstreamSwitching => 15,
            AttributeName::XLinkHref => 16,
            AttributeName::XLinkActuate => 17,
            AttributeName::Group => 18,
            AttributeName::Language => 19,
            AttributeName::ContentType => 20,
            AttributeName::Par => 21,
            AttributeName::MinBandwidth => 22,
            AttributeName::MaxBandwidth => 23,
            AttributeName::MinWidth => 24,
            AttributeName::MaxWidth => 25,
            AttributeName::MinHeight => 26,
            AttributeName::MaxHeight => 27,
            AttributeName::MinFrameRate => 28,
            AttributeName::MaxFrameRate => 29,
            AttributeName::SelectionPriority => 30,
            AttributeName::SegmentAlignment => 31,
            AttributeName::SubsegmentAlignment => 32,
            AttributeName::AudioSamplingRate => 33,
            AttributeName::Codecs => 34,
            AttributeName::SegmentProfiles => 35,
            AttributeName::MimeType => 36,
            AttributeName::CodingDependency => 37,
            AttributeName::FrameRate => 38,
            AttributeName::Height => 39,
            AttributeName::Width => 40,
            AttributeName::MaxPlayoutRate => 41,
            AttributeName::MaxSAPPeriod => 42,
            AttributeName::AvailabilityTimeOffset => 43,
            AttributeName::SchemeIdUri => 44,
            AttributeName::SchemeValue => 45,
            AttributeName::ContentProtectionValue => 46,
            AttributeName::ContentProtectionKeyId => 47,
            AttributeName::Bitrate => 48,
            AttributeName::QualityRanking => 49,
        }
    }

    /// The attribute tag named by a wire code, if any.
    pub fn of_code(c: u8) -> (t: Option<AttributeName>)
        ensures
            t == spec_attr_of_code(c),
    {
        match c {
            0 => Some(AttributeName::Id),
            1 => Some(AttributeName::Profiles),
            2 => Some(AttributeName::Type),
            3 => Some(AttributeName::AvailabilityStartTime),
            4 => Some(AttributeName::AvailabilityEndTime),
            5 => Some(AttributeName::PublishTime),
            6 => Some(AttributeName::MediaPresentationDuration),
            7 => Some(AttributeName::MinimumUpdatePeriod),
            8 => Some(AttributeName::MinBufferTime),
            9 => Some(AttributeName::TimeShiftBufferDepth),
            10 => Some(AttributeName::SuggestedPresentationDelay),
            11 => Some(AttributeName::MaxSegmentDuration),
            12 => Some(AttributeName::MaxSubsegmentDuration),
            13 => Some(AttributeName::Start),
            14 => Some(AttributeName::Duration),
            15 => Some(AttributeName::BitstreamSwitching),
            16 => Some(AttributeName::XLinkHref),
            17 => Some(AttributeName::XLinkActuate),
            18 => Some(AttributeName::Group),
            19 => Some(AttributeName::Language),
            20 => Some(AttributeName::ContentType),
            21 => Some(AttributeName::Par),
            22 => Some(AttributeName::MinBandwidth),
            23 => Some(AttributeName::MaxBandwidth),
            24 => Some(AttributeName::MinWidth),
            25 => Some(AttributeName::MaxWidth),
            26 => Some(AttributeName::MinHeight),
            27 => Some(AttributeName::MaxHeight),
            28 => Some(AttributeName::MinFrameRate),
            29 => Some(AttributeName::MaxFrameRate),
            30 => Some(AttributeName::SelectionPriority),
            31 => Some(AttributeName::SegmentAlignment),
            32 => Some(AttributeName::SubsegmentAlignment),
            33 => Some(AttributeName::AudioSamplingRate),
            34 => Some(AttributeName::Codecs),
            35 => Some(AttributeName::SegmentProfiles),
            36 => Some(AttributeName::MimeType),
            37 => Some(AttributeName::CodingDependency),
            38 => Some(AttributeName::FrameRate),
            39 => Some(AttributeName::Height),
            40 => Some(AttributeName::Width),
            41 => Some(AttributeName::MaxPlayoutRate),
            42 => Some(AttributeName::MaxSAPPeriod),
            43 => Some(AttributeName::AvailabilityTimeOffset),
            44 => Some(AttributeName::SchemeIdUri),
            45 => Some(AttributeName::SchemeValue),
            46 => Some(AttributeName::ContentProtectionValue),
            47 => Some(AttributeName::ContentProtectionKeyId),
            48 => Some(AttributeName::Bitrate),
            49 => Some(AttributeName::QualityRanking),
            _ => None,
        }
    }

    /// The payload shape implied by this attribute tag.
    pub fn shape(&self) -> (s: PayloadShape)
        ensures
            s == spec_shape_of(*self),
    {
        match self {
            AttributeName::MediaPresentationDuration => PayloadShape::Number,
            AttributeName::MinimumUpdatePeriod => PayloadShape::Number,
            AttributeName::MinBufferTime => PayloadShape::Number,
            AttributeName::TimeShiftBufferDepth => PayloadShape::Number,
            AttributeName::SuggestedPresentationDelay => PayloadShape::Number,
            AttributeName::MaxSegmentDuration => PayloadShape::Number,
            AttributeName::MaxSubsegmentDuration => PayloadShape::Number,
            AttributeName::Start => PayloadShape::Number,
            AttributeName::Duration => PayloadShape::Number,
            AttributeName::Group => PayloadShape::Number,
            AttributeName::MinBandwidth => PayloadShape::Number,
            AttributeName::MaxBandwidth => PayloadShape::Number,
            AttributeName::MinWidth => PayloadShape::Number,
            AttributeName::MaxWidth => PayloadShape::Number,
            AttributeName::MinHeight => PayloadShape::Number,
            AttributeName::MaxHeight => PayloadShape::Number,
            AttributeName::SelectionPriority => PayloadShape::Number,
            AttributeName::SegmentAlignment => PayloadShape::Number,
            AttributeName::SubsegmentAlignment => PayloadShape::Number,
            AttributeName::Height => PayloadShape::Number,
            AttributeName::Width => PayloadShape::Number,
            AttributeName::MaxPlayoutRate => PayloadShape::Number,
            AttributeName::MaxSAPPeriod => PayloadShape::Number,
            AttributeName::AvailabilityTimeOffset => PayloadShape::Number,
            AttributeName::Bitrate => PayloadShape::Number,
            AttributeName::QualityRanking => PayloadShape::Number,
            AttributeName::BitstreamSwitching => PayloadShape::Flag,
            AttributeName::CodingDependency => PayloadShape::Flag,
            _ => PayloadShape::Text,
        }
    }
}

/// Each attribute tag is recovered exactly from its own wire code: the code
/// table is injective, so a decoded record names the tag it was written with.
pub proof fn lemma_attr_code_inverse(t: AttributeName)
    ensures
        spec_attr_of_code(spec_attr_code(t)) == Some(t),
{
}

/// The kind of manifest element an emitted buffer belongs to.
#[derive(Clone, Copy, Debug, PartialEq, Eq, Structural)]
pub enum TagName {
    Mpd,
    Period,
    AdaptationSet,
    Representation,
    BaseUrl,
    ContentProtection,
    Scheme,
    SegmentTemplate,
    SegmentBase,
    Initialization,
    SegmentUrl,
    EventStream,
    Event,
    ContentComponent,
}

/// The wire code of an element kind.
pub open spec fn spec_element_code(t: TagName) -> u8 {
    match t {
        TagName::Mpd => 1,
        TagName::Period => 2,
        TagName::AdaptationSet => 3,
        TagName::Representation => 4,
        TagName::BaseUrl => 5,
        TagName::ContentProtection => 6,
        TagName::Scheme => 7,
        TagName::SegmentTemplate => 8,
        TagName::SegmentBase => 9,
        TagName::Initialization => 10,
        TagName::SegmentUrl => 11,
        TagName::EventStream => 12,
        TagName::Event => 13,
        TagName::ContentComponent => 14,
    }
}

impl TagName {
    /// The wire code of this element kind.
    pub fn code(&self) -> (c: u8)
        ensures
            c == spec_element_code(*self),
    {
        match self {
            TagName::Mpd => 1,
            TagName::Period => 2,
            TagName::AdaptationSet => 3,
            TagName::Representation => 4,
            TagName::BaseUrl => 5,
            TagName::ContentProtection => 6,
            TagName::Scheme => 7,
            TagName::SegmentTemplate => 8,
            TagName::SegmentBase => 9,
            TagName::Initialization => 10,
            TagName::SegmentUrl => 11,
            TagName::EventStream => 12,
            TagName::Event => 13,
            TagName::ContentComponent => 14,
        }
    }
}

} // verus!
