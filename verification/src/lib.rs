//! Encoder for the recognized attributes of streaming-manifest elements.
//!
//! For each manifest element kind the library knows which attribute names are
//! meaningful, coerces each raw text value into its typed form (string,
//! unsigned integer, binary64 number, boolean, ISO-8601 duration, or the
//! integer-or-boolean union), and appends the result to a reusable byte
//! buffer as tagged records with a fixed layout.  Numeric payloads are
//! handled throughout as the 64-bit pattern of the IEEE 754 binary64 value,
//! so the wire contract is stated and proved over plain integers.

pub mod tags;
pub mod binary64;
pub mod errors;
pub mod coerce;
pub mod duration;
pub mod buffer;
pub mod xml;
pub mod dispatch;
