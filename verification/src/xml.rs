//! The trusted boundary to the XML tokenizer crate.
//!
//! Everything the library takes from quick_xml passes through here: the
//! attributes of an element-open event, read out as plain byte pairs, and
//! entity unescaping of a raw attribute value.  The contracts below are
//! what the rest of the library is verified against.

use vstd::prelude::*;

verus! {

#[verifier::external_type_specification]
#[verifier::external_body]
pub struct ExBytesStart<'a>(quick_xml::events::BytesStart<'a>);

/// One attribute read from an element-open event.
pub enum AttrRead {
    /// A (name, raw value) pair as it appeared in the source document.
    Pair { key: Vec<u8>, value: Vec<u8> },
    /// The tokenizer could not produce this attribute.
    Fault,
}

/// The mathematical form of an attribute read.
pub ghost enum AttrReadSpec {
    Pair { key: Seq<u8>, value: Seq<u8> },
    Fault,
}

impl View for AttrRead {
    type V = AttrReadSpec;

    open spec fn view(&self) -> AttrReadSpec {
        match self {
            AttrRead::Pair { key, value } => AttrReadSpec::Pair { key: key@, value: value@ },
            AttrRead::Fault => AttrReadSpec::Fault,
        }
    }
}

/// The ordered attribute reads of an element-open event; a deterministic
/// function of the event's bytes.
pub uninterp spec fn raw_attrs_of(e: quick_xml::events::BytesStart) -> Seq<AttrReadSpec>;

/// Relies on quick_xml's `BytesStart::attributes` iterator: it yields,
/// in source order, each attribute's name and raw (still escaped) value,
/// or an error item where the attribute syntax is malformed.
#[verifier::external_body]
pub(crate) fn read_attrs(e: &quick_xml::events::BytesStart) -> (r: Vec<AttrRead>)
    ensures
        r@.map_values(|a: AttrRead| a@) == raw_attrs_of(*e),
{
    let mut out: Vec<AttrRead> = Vec::new();
    for a in e.attributes() {
        match a {
            Ok(at) => out.push(
                AttrRead::Pair {
                    key: at.key.as_ref().as_bytes().to_vec(),
                    value: at.value.as_bytes().to_vec(),
                },
            ),
            Err(_) => out.push(AttrRead::Fault),
        }
    }
    out
}

/// What entity unescaping makes of a raw value, if anything; a
/// deterministic function of the bytes alone.
pub uninterp spec fn unescaped_of(raw: Seq<u8>) -> Option<Seq<u8>>;

/// Relies on quick_xml's `escape::unescape`: it resolves `&...;` entity
/// and character references, fails on malformed or unknown ones, and
/// returns the input unchanged when no ampersand occurs (so in
/// particular for ASCII input without `&`).  Input that is not valid
/// UTF-8 is rejected before unescaping.
#[verifier::external_body]
pub(crate) fn unescape_bytes(raw: &[u8]) -> (r: Option<Vec<u8>>)
    ensures
        match r {
            Some(u) => unescaped_of(raw@) == Some(u@) && ((forall|i: int|
                0 <= i < raw@.len() ==> raw@[i] < 0x80 && raw@[i] != 0x26) ==> u@ == raw@),
            None => unescaped_of(raw@) is None && !(forall|i: int|
                0 <= i < raw@.len() ==> raw@[i] < 0x80 && raw@[i] != 0x26),
        },
{
    match core::str::from_utf8(raw) {
        Ok(s) => match quick_xml::escape::unescape(s) {
            Ok(c) => Some(c.into_owned().into_bytes()),
            Err(_) => None,
        },
        Err(_) => None,
    }
}

} // verus!
