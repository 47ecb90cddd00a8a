//! The failure kinds a coercion or the upstream tokenizer can report.
//!
//! Every failure is local: the offending attribute is dropped, the error is
//! handed to the caller for the diagnostic sink, and processing continues.

use vstd::prelude::*;

verus! {

/// Why a raw attribute value produced no record.
#[derive(Clone, Copy, Debug, PartialEq, Eq, Structural)]
pub enum ParsingError {
    /// The raw value's entity escapes could not be resolved.
    AttributeUnescapeError,
    /// The value is not a decimal digit string that fits 64 bits.
    IntegerFormatError,
    /// The value is not a supported decimal or exponential literal.
    FloatFormatError,
    /// The value is neither of the two boolean tokens.
    BooleanFormatError,
    /// The value deviates from the ISO-8601 duration grammar or range.
    DurationFormatError,
    /// The tokenizer reported a malformed attribute; passed through.
    UpstreamTokenizationError,
}

} // verus!
