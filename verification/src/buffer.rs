//! The tagged record buffer: one reusable byte sequence holding, for the
//! element being processed, one record per successfully coerced attribute.
//!
//! Record layout, fixed and self-describing given the shared tag registry:
//! one attribute-tag byte, then a payload whose shape the tag alone
//! implies — text is a 4-byte little-endian length plus the raw bytes, a
//! number is the 8-byte little-endian bit pattern of a binary64 value,
//! and a flag is a single 0-or-1 byte.

use vstd::prelude::*;
use vstd::bytes::{spec_u32_to_le_bytes, spec_u32_from_le_bytes, spec_u64_to_le_bytes,
    spec_u64_from_le_bytes, lemma_auto_spec_u32_to_from_le_bytes,
    lemma_auto_spec_u64_to_from_le_bytes, u32_to_le_bytes, u64_to_le_bytes, u32_from_le_bytes,
    u64_from_le_bytes};
use vstd::slice::{slice_subrange, slice_to_vec};
use crate::tags::{AttributeName, TagName, PayloadShape, spec_attr_code, spec_attr_of_code,
    spec_shape_of, lemma_attr_code_inverse};
use crate::errors::ParsingError;
use crate::coerce::{spec_parse_u64, spec_parse_bool, spec_parse_u64_or_bool, spec_parse_float,
    parse_u64, parse_bool, parse_u64_or_bool, parse_float, lemma_float_parts_bounds};
use crate::duration::{spec_parse_duration, parse_duration, lemma_dur_frac_bound};
use crate::binary64::{spec_f64_bits, f64_bits_of_u64, f64_bits_from_parts, pow10, pow10_u64,
    lemma_pow10_monotone, lemma_pow10_values};
use crate::xml::unescaped_of;

verus! {

/// A successfully coerced attribute value, as it sits in a record.
/// Numbers carry the bit pattern of the IEEE 754 binary64 value.
#[derive(Debug, PartialEq, Eq)]
pub enum CoercedValue {
    Str(Vec<u8>),
    Num(u64),
    Flag(bool),
}

/// The mathematical form of a coerced value.
pub ghost enum RecVal {
    Str(Seq<u8>),
    Num(u64),
    Flag(bool),
}

impl View for CoercedValue {
    type V = RecVal;

    open spec fn view(&self) -> RecVal {
        match self {
            CoercedValue::Str(s) => RecVal::Str(s@),
            CoercedValue::Num(b) => RecVal::Num(*b),
            CoercedValue::Flag(b) => RecVal::Flag(*b),
        }
    }
}

/// The payload shape a value occupies.
pub open spec fn value_shape(v: RecVal) -> PayloadShape {
    match v {
        RecVal::Str(_) => PayloadShape::Text,
        RecVal::Num(_) => PayloadShape::Number,
        RecVal::Flag(_) => PayloadShape::Flag,
    }
}

/// A text payload must fit its 4-byte length prefix.
pub open spec fn wf_value(v: RecVal) -> bool {
    match v {
        RecVal::Str(s) => s.len() < 0x100000000,
        _ => true,
    }
}

/// The payload bytes of a value.
pub open spec fn payload_bytes(v: RecVal) -> Seq<u8> {
    match v {
        RecVal::Str(s) => spec_u32_to_le_bytes(s.len() as u32) + s,
        RecVal::Num(b) => spec_u64_to_le_bytes(b),
        RecVal::Flag(b) => seq![
            if b {
                1u8
            } else {
                0u8
            },
        ],
    }
}

/// One whole record: the tag's code byte followed by the payload.
pub open spec fn record_bytes(t: AttributeName, v: RecVal) -> Seq<u8> {
    seq![spec_attr_code(t)] + payload_bytes(v)
}

/// Decodes the first record of `s`: the tag, the value, and how many
/// bytes the record occupied.
pub open spec fn decode_record(s: Seq<u8>) -> Option<(AttributeName, RecVal, int)> {
    if s.len() < 1 {
        None
    } else {
        match spec_attr_of_code(s[0]) {
            None => None,
            Some(t) => match spec_shape_of(t) {
                PayloadShape::Text => if s.len() >= 5 {
                    let l = spec_u32_from_le_bytes(s.subrange(1, 5)) as int;
                    if s.len() >= 5 + l {
                        Some((t, RecVal::Str(s.subrange(5, 5 + l)), 5 + l))
                    } else {
                        None
                    }
                } else {
                    None
                },
                PayloadShape::Number => if s.len() >= 9 {
                    Some((t, RecVal::Num(spec_u64_from_le_bytes(s.subrange(1, 9))), 9))
                } else {
                    None
                },
                PayloadShape::Flag => if s.len() >= 2 && (s[1] == 0 || s[1] == 1) {
                    Some((t, RecVal::Flag(s[1] == 1), 2))
                } else {
                    None
                },
            },
        }
    }
}

/// Decodes a whole buffer into its sequence of records.
pub open spec fn decode_records(s: Seq<u8>) -> Option<Seq<(AttributeName, RecVal)>>
    decreases s.len(),
{
    if s.len() == 0 {
        Some(Seq::empty())
    } else {
        match decode_record(s) {
            None => None,
            Some((t, v, used)) => if 0 < used <= s.len() {
                match decode_records(s.skip(used)) {
                    None => None,
                    Some(rest) => Some(seq![(t, v)] + rest),
                }
            } else {
                None
            },
        }
    }
}

/// The concatenated records of a tag/value sequence.
pub open spec fn records_bytes(rs: Seq<(AttributeName, RecVal)>) -> Seq<u8>
    decreases rs.len(),
{
    if rs.len() == 0 {
        Seq::empty()
    } else {
        record_bytes(rs[0].0, rs[0].1) + records_bytes(rs.drop_first())
    }
}

/// Every pair carries a well-formed value whose shape is the one its tag
/// implies; what a correct coercion pass emits.
pub open spec fn wf_records(rs: Seq<(AttributeName, RecVal)>) -> bool {
    forall|i: int|
        0 <= i < rs.len() ==> wf_value(#[trigger] rs[i].1) && value_shape(rs[i].1)
            == spec_shape_of(rs[i].0)
}

/// Round-trip of a single record: decoding what was encoded for a tag of
/// the matching shape yields the same tag and value and consumes exactly
/// the record, whatever follows it.
pub proof fn lemma_record_round_trip(t: AttributeName, v: RecVal, rest: Seq<u8>)
    requires
        wf_value(v),
        value_shape(v) == spec_shape_of(t),
    ensures
        decode_record(record_bytes(t, v) + rest) == Some(
            (t, v, record_bytes(t, v).len() as int),
        ),
{
    lemma_attr_code_inverse(t);
    lemma_auto_spec_u32_to_from_le_bytes();
    lemma_auto_spec_u64_to_from_le_bytes();
    let s = record_bytes(t, v) + rest;
    assert(s[0] == spec_attr_code(t));
    match v {
        RecVal::Str(str0) => {
            let lb = spec_u32_to_le_bytes(str0.len() as u32);
            assert(lb.len() == 4);
            assert(s.subrange(1, 5) =~= lb);
            assert(spec_u32_from_le_bytes(s.subrange(1, 5)) == str0.len() as u32);
            assert(s.subrange(5, 5 + str0.len() as int) =~= str0);
        },
        RecVal::Num(b) => {
            assert(s.subrange(1, 9) =~= spec_u64_to_le_bytes(b));
        },
        RecVal::Flag(b) => {
            assert(s[1] == payload_bytes(v)[0]);
        },
    }
}

/// Round-trip of a whole buffer: a concatenation of well-formed records
/// decodes to exactly the tag/value pairs it was built from, in order.
pub proof fn lemma_records_round_trip(rs: Seq<(AttributeName, RecVal)>)
    requires
        wf_records(rs),
    ensures
        decode_records(records_bytes(rs)) == Some(rs),
    decreases rs.len(),
{
    if rs.len() == 0 {
        assert(records_bytes(rs) =~= Seq::<u8>::empty());
        assert(rs =~= Seq::<(AttributeName, RecVal)>::empty());
    } else {
        let t = rs[0].0;
        let v = rs[0].1;
        let tail = rs.drop_first();
        assert(wf_records(tail)) by {
            assert(forall|i: int| 0 <= i < tail.len() ==> tail[i] == rs[i + 1]);
        }
        lemma_records_round_trip(tail);
        lemma_record_round_trip(t, v, records_bytes(tail));
        let s = records_bytes(rs);
        let used = record_bytes(t, v).len() as int;
        assert(s.len() >= used);
        assert(s.skip(used) =~= records_bytes(tail));
        assert(seq![(t, v)] + tail =~= rs);
    }
}

/// Decodes the record starting at `pos`; mirrors `decode_record` on the
/// remaining bytes and reports the position just past the record.
pub fn decode_record_at(buf: &[u8], pos: usize) -> (r: Option<(AttributeName, CoercedValue, usize)>)
    requires
        pos <= buf.len(),
    ensures
        match decode_record(buf@.skip(pos as int)) {
            None => r is None,
            Some((t, v, used)) => r matches Some(x) && x.0 == t && x.1@ == v && x.2 == pos
                + used,
        },
{
    let n = buf.len();
    if pos >= n {
        return None;
    }
    let code = buf[pos];
    match AttributeName::of_code(code) {
        None => None,
        Some(t) => match t.shape() {
            PayloadShape::Text => {
                if n - pos >= 5 {
                    let lb = slice_subrange(buf, pos + 1, pos + 5);
                    proof {
                        assert(lb@ =~= buf@.skip(pos as int).subrange(1, 5));
                    }
                    let l = u32_from_le_bytes(lb);
                    let l_us = l as usize;
                    if n - pos - 5 >= l_us {
                        let sb = slice_subrange(buf, pos + 5, pos + 5 + l_us);
                        proof {
                            assert(sb@ =~= buf@.skip(pos as int).subrange(5, 5 + l as int));
                        }
                        Some((t, CoercedValue::Str(slice_to_vec(sb)), pos + 5 + l_us))
                    } else {
                        None
                    }
                } else {
                    None
                }
            },
            PayloadShape::Number => {
                if n - pos >= 9 {
                    let nb = slice_subrange(buf, pos + 1, pos + 9);
                    proof {
                        assert(nb@ =~= buf@.skip(pos as int).subrange(1, 9));
                    }
                    Some((t, CoercedValue::Num(u64_from_le_bytes(nb)), pos + 9))
                } else {
                    None
                }
            },
            PayloadShape::Flag => {
                if n - pos >= 2 {
                    let b = buf[pos + 1];
                    if b == 0 || b == 1 {
                        Some((t, CoercedValue::Flag(b == 1), pos + 2))
                    } else {
                        None
                    }
                } else {
                    None
                }
            },
        },
    }
}

/// Decodes a whole buffer into its records; mirrors `decode_records`.
pub fn decode_all(buf: &[u8]) -> (r: Option<Vec<(AttributeName, CoercedValue)>>)
    ensures
        match decode_records(buf@) {
            None => r is None,
            Some(rs) => r matches Some(out) && out@.map_values(
                |p: (AttributeName, CoercedValue)| (p.0, p.1@),
            ) == rs,
        },
{
    let mut out: Vec<(AttributeName, CoercedValue)> = Vec::new();
    let mut pos: usize = 0;
    proof {
        assert(buf@.skip(0) =~= buf@);
        assert(out@.map_values(|p: (AttributeName, CoercedValue)| (p.0, p.1@)) =~= Seq::<
            (AttributeName, RecVal),
        >::empty());
    }
    while pos < buf.len()
        invariant
            pos <= buf.len(),
            decode_records(buf@) == (match decode_records(buf@.skip(pos as int)) {
                Some(rest) => Some(
                    out@.map_values(|p: (AttributeName, CoercedValue)| (p.0, p.1@)) + rest,
                ),
                None => None::<Seq<(AttributeName, RecVal)>>,
            }),
        decreases buf.len() - pos,
    {
        let ghost pre = out@.map_values(|p: (AttributeName, CoercedValue)| (p.0, p.1@));
        match decode_record_at(buf, pos) {
            None => {
                return None;
            },
            Some((t, v, next)) => {
                proof {
                    let s = buf@.skip(pos as int);
                    let used = (next - pos) as int;
                    assert(s.skip(used) =~= buf@.skip(next as int));
                }
                out.push((t, v));
                proof {
                    assert(out@.map_values(|p: (AttributeName, CoercedValue)| (p.0, p.1@))
                        =~= pre + seq![(t, v@)]);
                    if decode_records(buf@.skip(next as int)) is Some {
                        let rest = decode_records(buf@.skip(next as int))->Some_0;
                        assert(pre + (seq![(t, v@)] + rest) =~= (pre + seq![(t, v@)]) + rest);
                    }
                }
                pos = next;
            },
        }
    }
    proof {
        assert(buf@.skip(pos as int) =~= Seq::<u8>::empty());
        assert(out@.map_values(|p: (AttributeName, CoercedValue)| (p.0, p.1@)) + Seq::<
            (AttributeName, RecVal),
        >::empty() =~= out@.map_values(|p: (AttributeName, CoercedValue)| (p.0, p.1@)));
    }
    Some(out)
}

/// What a flushed buffer hands to the consumer: the element kind and the
/// records of its recognized attributes.
pub struct Emission {
    /// Which element kind the records belong to.
    pub element: TagName,
    /// The record bytes, in source attribute order.
    pub payload: Vec<u8>,
}

/// Appends the bytes of a slice to a vector.
fn push_bytes(dst: &mut Vec<u8>, src: &[u8])
    ensures
        final(dst)@ == old(dst)@ + src@,
{
    let mut i: usize = 0;
    while i < src.len()
        invariant
            i <= src.len(),
            dst@ == old(dst)@ + src@.take(i as int),
        decreases src.len() - i,
    {
        dst.push(src[i]);
        proof {
            assert(old(dst)@ + src@.take(i + 1) =~= (old(dst)@ + src@.take(i as int)).push(
                src@[i as int],
            ));
        }
        i = i + 1;
    }
    proof {
        assert(src@.take(src@.len() as int) =~= src@);
    }
}

/// The append-only byte buffer for the element currently being
/// processed.  Its view is the raw record bytes.
pub struct AttributeList {
    inner: Vec<u8>,
}

impl View for AttributeList {
    type V = Seq<u8>;

    closed spec fn view(&self) -> Seq<u8> {
        self.inner@
    }
}

impl AttributeList {
    /// An empty buffer.
    pub fn new() -> (r: Self)
        ensures
            r@ == Seq::<u8>::empty(),
    {
        AttributeList { inner: Vec::new() }
    }

    /// How many bytes the buffer currently holds.
    pub fn len(&self) -> (n: usize)
        ensures
            n == self@.len(),
    {
        self.inner.len()
    }

    /// The accumulated record bytes.
    pub fn as_bytes(&self) -> (s: &[u8])
        ensures
            s@ == self@,
    {
        self.inner.as_slice()
    }

    /// Empties the buffer in place, keeping its allocation for reuse.
    pub fn clear(&mut self)
        ensures
            final(self)@ == Seq::<u8>::empty(),
    {
        self.inner.clear();
    }

    /// Appends one whole record.
    fn push_record(&mut self, attr_name: AttributeName, value: &CoercedValue)
        requires
            wf_value(value@),
        ensures
            final(self)@ == old(self)@ + record_bytes(attr_name, value@),
    {
        self.inner.push(attr_name.code());
        match value {
            CoercedValue::Str(s) => {
                let mut lb = u32_to_le_bytes(s.len() as u32);
                self.inner.append(&mut lb);
                push_bytes(&mut self.inner, s.as_slice());
            },
            CoercedValue::Num(b) => {
                let mut nb = u64_to_le_bytes(*b);
                self.inner.append(&mut nb);
            },
            CoercedValue::Flag(b) => {
                self.inner.push(
                    if *b {
                        1
                    } else {
                        0
                    },
                );
            },
        }
        proof {
            assert(final(self)@ =~= old(self)@ + record_bytes(attr_name, value@));
        }
    }

    /// Runs the string coercion (entity unescaping) on the raw value and
    /// appends a text record on success; the buffer is untouched on
    /// failure.  A value whose unescaped form cannot carry a 4-byte
    /// length prefix is rejected the same way.
    pub fn add_string(&mut self, attr_name: AttributeName, value: &[u8]) -> (r: Result<
        (),
        ParsingError,
    >)
        ensures
            match unescaped_of(value@) {
                Some(u) => if u.len() < 0x100000000 {
                    r is Ok && final(self)@ == old(self)@ + record_bytes(
                        attr_name,
                        RecVal::Str(u),
                    )
                } else {
                    r == Err::<(), ParsingError>(ParsingError::AttributeUnescapeError)
                        && final(self)@ == old(self)@
                },
                None => r == Err::<(), ParsingError>(ParsingError::AttributeUnescapeError)
                    && final(self)@ == old(self)@,
            },
    {
        match crate::xml::unescape_bytes(value) {
            Some(u) => {
                if (u.len() as u64) < 0x100000000 {
                    let cv = CoercedValue::Str(u);
                    self.push_record(attr_name, &cv);
                    Ok(())
                } else {
                    Err(ParsingError::AttributeUnescapeError)
                }
            },
            None => Err(ParsingError::AttributeUnescapeError),
        }
    }

    /// Runs the unsigned-integer coercion and appends a numeric record
    /// carrying the value widened to binary64; untouched on failure.
    pub fn add_u64(&mut self, attr_name: AttributeName, value: &[u8]) -> (r: Result<
        (),
        ParsingError,
    >)
        ensures
            match spec_parse_u64(value@) {
                Some(n) => r is Ok && final(self)@ == old(self)@ + record_bytes(
                    attr_name,
                    RecVal::Num(spec_f64_bits(false, n as nat, 0, 1)),
                ),
                None => r == Err::<(), ParsingError>(ParsingError::IntegerFormatError)
                    && final(self)@ == old(self)@,
            },
    {
        match parse_u64(value) {
            Some(n) => {
                let cv = CoercedValue::Num(f64_bits_of_u64(n));
                self.push_record(attr_name, &cv);
                Ok(())
            },
            None => Err(ParsingError::IntegerFormatError),
        }
    }

    /// Runs the integer-or-boolean coercion; both meanings land in the
    /// same numeric payload (a boolean as 1 or 0), the tag disambiguates.
    pub fn add_u64_or_bool(&mut self, attr_name: AttributeName, value: &[u8]) -> (r: Result<
        (),
        ParsingError,
    >)
        ensures
            match spec_parse_u64_or_bool(value@) {
                Some(n) => r is Ok && final(self)@ == old(self)@ + record_bytes(
                    attr_name,
                    RecVal::Num(spec_f64_bits(false, n as nat, 0, 1)),
                ),
                None => r == Err::<(), ParsingError>(ParsingError::IntegerFormatError)
                    && final(self)@ == old(self)@,
            },
    {
        match parse_u64_or_bool(value) {
            Some(n) => {
                let cv = CoercedValue::Num(f64_bits_of_u64(n));
                self.push_record(attr_name, &cv);
                Ok(())
            },
            None => Err(ParsingError::IntegerFormatError),
        }
    }

    /// Runs the boolean coercion and appends a flag record.
    pub fn add_bool(&mut self, attr_name: AttributeName, value: &[u8]) -> (r: Result<
        (),
        ParsingError,
    >)
        ensures
            match spec_parse_bool(value@) {
                Some(b) => r is Ok && final(self)@ == old(self)@ + record_bytes(
                    attr_name,
                    RecVal::Flag(b),
                ),
                None => r == Err::<(), ParsingError>(ParsingError::BooleanFormatError)
                    && final(self)@ == old(self)@,
            },
    {
        match parse_bool(value) {
            Some(b) => {
                let cv = CoercedValue::Flag(b);
                self.push_record(attr_name, &cv);
                Ok(())
            },
            None => Err(ParsingError::BooleanFormatError),
        }
    }

    /// Runs the ISO-8601 duration coercion and appends a numeric record
    /// carrying the total seconds as a binary64 value.
    pub fn add_iso_8601_duration(&mut self, attr_name: AttributeName, value: &[u8]) -> (r: Result<
        (),
        ParsingError,
    >)
        ensures
            match spec_parse_duration(value@) {
                Some((i, f, k)) => r is Ok && final(self)@ == old(self)@ + record_bytes(
                    attr_name,
                    RecVal::Num(spec_f64_bits(false, i as nat, f as nat, pow10(k as nat))),
                ),
                None => r == Err::<(), ParsingError>(ParsingError::DurationFormatError)
                    && final(self)@ == old(self)@,
            },
    {
        match parse_duration(value) {
            Some((i, f, k)) => {
                proof {
                    lemma_dur_frac_bound(value@, 1, 0, false);
                    lemma_pow10_monotone(k as nat, 9);
                    lemma_pow10_values();
                }
                let den = pow10_u64(k);
                let cv = CoercedValue::Num(f64_bits_from_parts(false, i, f, den));
                self.push_record(attr_name, &cv);
                Ok(())
            },
            None => Err(ParsingError::DurationFormatError),
        }
    }

    /// Runs the float coercion and appends a numeric record.
    pub fn add_f64(&mut self, attr_name: AttributeName, value: &[u8]) -> (r: Result<
        (),
        ParsingError,
    >)
        ensures
            match spec_parse_float(value@) {
                Some((neg, i, f, k)) => r is Ok && final(self)@ == old(self)@ + record_bytes(
                    attr_name,
                    RecVal::Num(spec_f64_bits(neg, i as nat, f as nat, pow10(k as nat))),
                ),
                None => r == Err::<(), ParsingError>(ParsingError::FloatFormatError)
                    && final(self)@ == old(self)@,
            },
    {
        match parse_float(value) {
            Some((neg, i, f, k)) => {
                proof {
                    lemma_float_parts_bounds(value@);
                    lemma_pow10_monotone(k as nat, 18);
                    lemma_pow10_values();
                }
                let den = pow10_u64(k);
                let cv = CoercedValue::Num(f64_bits_from_parts(neg, i, f, den));
                self.push_record(attr_name, &cv);
                Ok(())
            },
            None => Err(ParsingError::FloatFormatError),
        }
    }

    /// Appends a numeric record carrying an already chosen binary64 bit
    /// pattern; how dispatch writes the literal-infinity override.
    pub fn add_raw_f64(&mut self, attr_name: AttributeName, bits: u64)
        ensures
            final(self)@ == old(self)@ + record_bytes(attr_name, RecVal::Num(bits)),
    {
        let cv = CoercedValue::Num(bits);
        self.push_record(attr_name, &cv);
    }

    /// Flushes: hands the buffer contents and the element kind over as
    /// one emission and empties the buffer for the next element.
    pub fn send_as(&mut self, tag_name: TagName) -> (em: Emission)
        ensures
            em.element == tag_name,
            em.payload@ == old(self)@,
            final(self)@ == Seq::<u8>::empty(),
    {
        let payload = slice_to_vec(self.inner.as_slice());
        self.inner.clear();
        Emission { element: tag_name, payload }
    }
}

} // verus!
