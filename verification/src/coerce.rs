//! Value coercion: raw attribute bytes to typed values.
//!
//! Each function is total over arbitrary byte strings and returns `None`
//! exactly on the inputs its specification rejects, so callers can promise
//! a diagnostic for every dropped attribute.

use vstd::prelude::*;
use vstd::string::StringSliceAdditionalSpecFns;
use vstd::arithmetic::div_mod::lemma_fundamental_div_mod;
use crate::binary64::{pow10, pow10_u128, lemma_pow10_pos, lemma_pow10_monotone,
    lemma_pow10_values};

verus! {

/// ASCII decimal digit.
pub open spec fn is_dec_digit(b: u8) -> bool {
    0x30 <= b <= 0x39
}

/// Every byte of `s` is a decimal digit.
pub open spec fn all_digits(s: Seq<u8>) -> bool {
    forall|i: int| 0 <= i < s.len() ==> is_dec_digit(#[trigger] s[i])
}

/// The number written by a digit string, most significant digit first.
pub open spec fn dec_val(s: Seq<u8>) -> nat
    recommends
        all_digits(s),
    decreases s.len(),
{
    if s.len() == 0 {
        0
    } else {
        (10 * dec_val(s.drop_last()) + (s.last() - 0x30)) as nat
    }
}

/// Unfolds `dec_val` along a prefix: one more digit multiplies by ten.
pub proof fn lemma_dec_val_take_step(s: Seq<u8>, j: int)
    requires
        0 <= j < s.len(),
        is_dec_digit(s[j]),
    ensures
        dec_val(s.take(j + 1)) == 10 * dec_val(s.take(j)) + (s[j] - 0x30),
{
    assert(s.take(j + 1).drop_last() =~= s.take(j));
    assert(s.take(j + 1).last() == s[j]);
}

/// A digit string is at least as large as any of its prefixes.
pub proof fn lemma_dec_val_prefix_le(s: Seq<u8>, m: int)
    requires
        0 <= m <= s.len(),
        all_digits(s),
    ensures
        dec_val(s.take(m)) <= dec_val(s),
    decreases s.len() - m,
{
    if m == s.len() {
        assert(s.take(m) =~= s);
    } else {
        lemma_dec_val_take_step(s, m);
        lemma_dec_val_prefix_le(s, m + 1);
    }
}

/// Exact byte equality of two slices.
pub fn bytes_eq(a: &[u8], b: &[u8]) -> (r: bool)
    ensures
        r == (a@ == b@),
{
    if a.len() != b.len() {
        proof {
            if a@ == b@ {
                assert(a@.len() == b@.len());
            }
        }
        return false;
    }
    let mut i: usize = 0;
    while i < a.len()
        invariant
            i <= a.len() == b.len(),
            forall|j: int| 0 <= j < i ==> a@[j] == b@[j],
        decreases a.len() - i,
    {
        if a[i] != b[i] {
            proof {
                if a@ == b@ {
                    assert(a@[i as int] == b@[i as int]);
                }
            }
            return false;
        }
        i = i + 1;
    }
    proof {
        assert(a@ =~= b@);
    }
    true
}

/// The value of the digit run `v[from..to]`, unless it reaches `cap`.
///
/// Returns `Some(x)` with the exact value when it is below `cap`, and
/// `None` exactly when the written number is `cap` or more.
pub fn dec_val_capped(v: &[u8], from: usize, to: usize, cap: u128) -> (r: Option<u128>)
    requires
        from <= to <= v.len(),
        all_digits(v@.subrange(from as int, to as int)),
        cap >= 10,
    ensures
        match r {
            Some(x) => x < cap && x as nat == dec_val(v@.subrange(from as int, to as int)),
            None => dec_val(v@.subrange(from as int, to as int)) >= cap,
        },
{
    let ghost s = v@.subrange(from as int, to as int);
    let mut acc: u128 = 0;
    let mut j: usize = from;
    while j < to
        invariant
            from <= j <= to <= v.len(),
            all_digits(s),
            s == v@.subrange(from as int, to as int),
            cap >= 10,
            acc < cap,
            acc as nat == dec_val(s.take(j - from)),
        decreases to - j,
    {
        let b = v[j];
        proof {
            assert(s[j - from] == v@[j as int]);
            lemma_dec_val_take_step(s, j - from);
        }
        let d: u128 = (b - 0x30) as u128;
        if acc > (cap - 1 - d) / 10 {
            proof {
                let q = (cap - 1 - d) as int / 10;
                lemma_fundamental_div_mod((cap - 1 - d) as int, 10);
                assert(10 * (acc as int) + d >= cap);
                lemma_dec_val_prefix_le(s, j - from + 1);
            }
            return None;
        }
        proof {
            let q = (cap - 1 - d) as int / 10;
            lemma_fundamental_div_mod((cap - 1 - d) as int, 10);
            assert(10 * (acc as int) + d <= cap - 1);
        }
        acc = acc * 10 + d;
        j = j + 1;
    }
    proof {
        assert(s.take(to - from) =~= s);
    }
    Some(acc)
}

/// Checks that every byte of `v[from..to]` is a decimal digit.
pub fn check_digits(v: &[u8], from: usize, to: usize) -> (r: bool)
    requires
        from <= to <= v.len(),
    ensures
        r == all_digits(v@.subrange(from as int, to as int)),
{
    let mut j: usize = from;
    while j < to
        invariant
            from <= j <= to <= v.len(),
            forall|i: int| from <= i < j ==> is_dec_digit(#[trigger] v@[i]),
        decreases to - j,
    {
        let b = v[j];
        if b < 0x30 || b > 0x39 {
            proof {
                assert(v@.subrange(from as int, to as int)[j - from] == v@[j as int]);
            }
            return false;
        }
        j = j + 1;
    }
    proof {
        assert forall|i: int| 0 <= i < to - from implies is_dec_digit(
            #[trigger] v@.subrange(from as int, to as int)[i],
        ) by {
            assert(v@.subrange(from as int, to as int)[i] == v@[i + from]);
        }
    }
    true
}

/// The unsigned 64-bit integer coercion: a non-empty string of decimal
/// digits whose value fits 64 bits; anything else is rejected.
pub open spec fn spec_parse_u64(s: Seq<u8>) -> Option<u64> {
    if s.len() > 0 && all_digits(s) && dec_val(s) < 0x10000000000000000 {
        Some(dec_val(s) as u64)
    } else {
        None
    }
}

/// Parses a strict decimal digit sequence into a `u64`.
pub fn parse_u64(v: &[u8]) -> (r: Option<u64>)
    ensures
        r == spec_parse_u64(v@),
{
    if v.len() == 0 {
        return None;
    }
    if !check_digits(v, 0, v.len()) {
        proof {
            assert(v@.subrange(0, v@.len() as int) =~= v@);
        }
        return None;
    }
    proof {
        assert(v@.subrange(0, v@.len() as int) =~= v@);
    }
    match dec_val_capped(v, 0, v.len(), 0x10000000000000000) {
        Some(x) => Some(x as u64),
        None => None,
    }
}

/// The boolean coercion: exactly the lower-case literal tokens.
pub open spec fn spec_parse_bool(s: Seq<u8>) -> Option<bool> {
    if s == "true".spec_bytes() {
        Some(true)
    } else if s == "false".spec_bytes() {
        Some(false)
    } else {
        None
    }
}

/// Parses the boolean tokens `true` and `false`.
pub fn parse_bool(v: &[u8]) -> (r: Option<bool>)
    ensures
        r == spec_parse_bool(v@),
{
    if bytes_eq(v, "true".as_bytes()) {
        Some(true)
    } else if bytes_eq(v, "false".as_bytes()) {
        Some(false)
    } else {
        None
    }
}

/// The integer-or-boolean coercion: a boolean token becomes 1 or 0, any
/// other input must be a 64-bit decimal integer.  Both land in the same
/// numeric wire payload; the tag alone disambiguates the meaning.
pub open spec fn spec_parse_u64_or_bool(s: Seq<u8>) -> Option<u64> {
    match spec_parse_bool(s) {
        Some(b) => Some(if b { 1u64 } else { 0u64 }),
        None => spec_parse_u64(s),
    }
}

/// Parses a boolean token first, then falls back to a decimal integer.
pub fn parse_u64_or_bool(v: &[u8]) -> (r: Option<u64>)
    ensures
        r == spec_parse_u64_or_bool(v@),
{
    match parse_bool(v) {
        Some(b) => Some(if b { 1 } else { 0 }),
        None => parse_u64(v),
    }
}

/// First index at or after `pos` that does not hold a decimal digit.
pub open spec fn scan_digits(s: Seq<u8>, pos: int) -> int
    decreases s.len() - pos,
        when 0 <= pos <= s.len()
{
    if pos == s.len() || !is_dec_digit(s[pos]) {
        pos
    } else {
        scan_digits(s, pos + 1)
    }
}

/// What the digit scan guarantees: it stops at the first non-digit, and
/// everything it passed over is a digit.
pub proof fn lemma_scan_digits(s: Seq<u8>, pos: int)
    requires
        0 <= pos <= s.len(),
    ensures
        pos <= scan_digits(s, pos) <= s.len(),
        all_digits(s.subrange(pos, scan_digits(s, pos))),
        scan_digits(s, pos) < s.len() ==> !is_dec_digit(s[scan_digits(s, pos)]),
    decreases s.len() - pos,
{
    if pos == s.len() || !is_dec_digit(s[pos]) {
    } else {
        lemma_scan_digits(s, pos + 1);
        let r = scan_digits(s, pos);
        assert forall|i: int| 0 <= i < r - pos implies is_dec_digit(
            #[trigger] s.subrange(pos, r)[i],
        ) by {
            if i == 0 {
            } else {
                assert(s.subrange(pos + 1, r)[i - 1] == s[pos + i]);
            }
        }
    }
}

/// Exec digit scan.
pub fn scan_digits_run(v: &[u8], pos: usize) -> (r: usize)
    requires
        pos <= v.len(),
    ensures
        r as int == scan_digits(v@, pos as int),
        pos <= r <= v.len(),
{
    let mut i: usize = pos;
    while i < v.len() && 0x30 <= v[i] && v[i] <= 0x39
        invariant
            pos <= i <= v.len(),
            scan_digits(v@, pos as int) == scan_digits(v@, i as int),
        decreases v.len() - i,
    {
        i = i + 1;
    }
    proof {
        lemma_scan_digits(v@, pos as int);
    }
    i
}

/// The exponent suffix of a float literal: an optional sign and a digit
/// run that must reach the end of the input.
pub open spec fn spec_exp_val(s: Seq<u8>, pos: int) -> Option<int>
    recommends
        0 <= pos <= s.len(),
{
    let signed = pos < s.len() && (s[pos] == 0x2B || s[pos] == 0x2D);
    let eneg = pos < s.len() && s[pos] == 0x2D;
    let q0 = if signed {
        pos + 1
    } else {
        pos
    };
    let q1 = scan_digits(s, q0);
    if q1 == q0 || q1 != s.len() {
        None
    } else {
        let ev = dec_val(s.subrange(q0, q1)) as int;
        Some(
            if eneg {
                -ev
            } else {
                ev
            },
        )
    }
}

/// The syntax of a float literal: optional sign, an integer digit run,
/// an optional fraction with at least one digit, an optional exponent.
/// Yields the sign, the mantissa read as one integer, and the power of
/// ten it must be scaled by.
pub open spec fn spec_float_syntax(s: Seq<u8>) -> Option<(bool, nat, int)> {
    let signed = s.len() > 0 && (s[0] == 0x2B || s[0] == 0x2D);
    let neg = s.len() > 0 && s[0] == 0x2D;
    let p0: int = if signed {
        1
    } else {
        0
    };
    let p1 = scan_digits(s, p0);
    if p1 == p0 {
        None
    } else {
        let ival = dec_val(s.subrange(p0, p1));
        if p1 == s.len() {
            Some((neg, ival, 0))
        } else if s[p1] == 0x2E {
            let p2 = scan_digits(s, p1 + 1);
            if p2 == p1 + 1 {
                None
            } else {
                let fl = p2 - (p1 + 1);
                let m = ival * pow10(fl as nat) + dec_val(s.subrange(p1 + 1, p2));
                if p2 == s.len() {
                    Some((neg, m, -fl))
                } else if s[p2] == 0x65 || s[p2] == 0x45 {
                    match spec_exp_val(s, p2 + 1) {
                        Some(ev) => Some((neg, m, ev - fl)),
                        None => None,
                    }
                } else {
                    None
                }
            }
        } else if s[p1] == 0x65 || s[p1] == 0x45 {
            match spec_exp_val(s, p1 + 1) {
                Some(ev) => Some((neg, ival, ev)),
                None => None,
            }
        } else {
            None
        }
    }
}

/// Scales a mantissa by its power of ten into exact parts
/// `(-1)^neg * (int_part + frac_num / 10^frac_scale)`.
///
/// Values outside the supported window are rejected: more than 38
/// significant digits, an integer part at or above 2^64, or more than 18
/// fractional decimal places after scaling.
pub open spec fn spec_float_value(neg: bool, m: nat, e: int) -> Option<(bool, u64, u64, u32)> {
    if m == 0 {
        Some((neg, 0u64, 0u64, 0u32))
    } else if m >= pow10(38) {
        None
    } else if e >= 0 {
        if m * pow10(e as nat) < 0x10000000000000000 {
            Some((neg, (m * pow10(e as nat)) as u64, 0u64, 0u32))
        } else {
            None
        }
    } else if e < -18 {
        None
    } else {
        let k = (-e) as nat;
        if m / pow10(k) < 0x10000000000000000 {
            Some((neg, (m / pow10(k)) as u64, (m % pow10(k)) as u64, k as u32))
        } else {
            None
        }
    }
}

/// The float coercion: a decimal or exponential literal, reduced to exact
/// decimal parts.
pub open spec fn spec_parse_float(s: Seq<u8>) -> Option<(bool, u64, u64, u32)> {
    match spec_float_syntax(s) {
        Some((neg, m, e)) => spec_float_value(neg, m, e),
        None => None,
    }
}

/// Parses the exponent suffix.  The reported magnitude is exact below
/// 10^30 and saturates there: any saturated exponent is far beyond what a
/// representable value could carry.
fn exp_val_run(v: &[u8], pos: usize) -> (r: Option<(bool, u128)>)
    requires
        pos <= v.len(),
    ensures
        match r {
            Some((eneg, ev)) => {
                &&& spec_exp_val(v@, pos as int) matches Some(x)
                &&& ev <= 1000000000000000000000000000000
                &&& (ev < 1000000000000000000000000000000 ==> (spec_exp_val(v@, pos as int)
                    == Some(
                    if eneg {
                        -(ev as int)
                    } else {
                        ev as int
                    },
                )))
                &&& (ev == 1000000000000000000000000000000 ==> (spec_exp_val(v@, pos as int)
                    matches Some(x) && (if eneg {
                    x <= -1000000000000000000000000000000
                } else {
                    x >= 1000000000000000000000000000000
                })))
            },
            None => spec_exp_val(v@, pos as int) is None,
        },
{
    let n = v.len();
    let signed = pos < n && (v[pos] == 0x2B || v[pos] == 0x2D);
    let eneg = pos < n && v[pos] == 0x2D;
    let q0: usize = if signed {
        pos + 1
    } else {
        pos
    };
    let q1 = scan_digits_run(v, q0);
    if q1 == q0 || q1 != n {
        return None;
    }
    proof {
        lemma_scan_digits(v@, q0 as int);
    }
    match dec_val_capped(v, q0, q1, 1000000000000000000000000000000) {
        Some(ev) => Some((eneg, ev)),
        None => Some((eneg, 1000000000000000000000000000000)),
    }
}

/// Combines the integer and fraction digit runs into the mantissa
/// `gi * 10^fl + gf`, or reports that it reaches 10^38.
fn combine_mantissa(
    iv: Option<u128>,
    fv: Option<u128>,
    fl: usize,
    Ghost(gi): Ghost<nat>,
    Ghost(gf): Ghost<nat>,
) -> (r: Option<u128>)
    requires
        match iv {
            Some(x) => x as nat == gi && gi < pow10(38),
            None => gi >= pow10(38),
        },
        match fv {
            Some(x) => x as nat == gf && gf < pow10(38),
            None => gf >= pow10(38),
        },
    ensures
        match r {
            Some(m) => m as nat == gi * pow10(fl as nat) + gf && (m as nat) < pow10(38),
            None => gi * pow10(fl as nat) + gf >= pow10(38),
        },
{
    proof {
        lemma_pow10_values();
        lemma_pow10_pos(fl as nat);
    }
    let i0 = match iv {
        Some(x) => x,
        None => {
            proof {
                assert(gi * pow10(fl as nat) >= gi * 1) by (nonlinear_arith)
                    requires pow10(fl as nat) >= 1;
            }
            return None;
        },
    };
    let f0 = match fv {
        Some(x) => x,
        None => {
            return None;
        },
    };
    if i0 == 0 {
        return Some(f0);
    }
    if fl >= 39 {
        proof {
            lemma_pow10_monotone(39, fl as nat);
            assert(gi * pow10(fl as nat) >= 1 * pow10(fl as nat)) by (nonlinear_arith)
                requires gi >= 1, pow10(fl as nat) >= 0;
        }
        return None;
    }
    let p = pow10_u128(fl as u32);
    let cap: u128 = 100000000000000000000000000000000000000;
    if i0 > (cap - 1) / p {
        proof {
            let q = (cap - 1) as int / (p as int);
            let rr = (cap - 1) as int % (p as int);
            lemma_fundamental_div_mod((cap - 1) as int, p as int);
            assert((gi as int) * (p as int) >= (q + 1) * (p as int)) by (nonlinear_arith)
                requires gi as int >= q + 1, p as int >= 1;
            assert((q + 1) * (p as int) > (cap - 1) as int) by (nonlinear_arith)
                requires
                    (cap - 1) as int == p as int * q + rr,
                    0 <= rr < p as int;
        }
        return None;
    }
    proof {
        let q = (cap - 1) as int / (p as int);
        let rr = (cap - 1) as int % (p as int);
        lemma_fundamental_div_mod((cap - 1) as int, p as int);
        assert((i0 as int) * (p as int) <= q * (p as int)) by (nonlinear_arith)
            requires i0 as int <= q, p as int >= 1;
        assert(q * (p as int) <= (cap - 1) as int) by (nonlinear_arith)
            requires
                (cap - 1) as int == p as int * q + rr,
                0 <= rr;
    }
    let mm = i0 * p;
    let m = mm + f0;
    if m >= cap {
        return None;
    }
    Some(m)
}

/// Scales an exact mantissa into the final parts; mirrors
/// `spec_float_value` for the ghost mantissa and exponent.
fn float_finish(
    neg: bool,
    m_opt: Option<u128>,
    e: i128,
    e_sat: bool,
    Ghost(gm): Ghost<nat>,
    Ghost(ge): Ghost<int>,
) -> (r: Option<(bool, u64, u64, u32)>)
    requires
        match m_opt {
            Some(m) => m as nat == gm && gm < pow10(38),
            None => gm >= pow10(38),
        },
        !e_sat ==> e as int == ge,
        e_sat ==> (ge >= 20 || ge < -18),
    ensures
        r == spec_float_value(neg, gm, ge),
{
    proof {
        lemma_pow10_values();
    }
    let m = match m_opt {
        Some(m) => m,
        None => {
            proof {
                lemma_pow10_pos(38);
            }
            return None;
        },
    };
    if m == 0 {
        return Some((neg, 0, 0, 0));
    }
    if e_sat {
        proof {
            if ge >= 20 {
                lemma_pow10_monotone(20, ge as nat);
                assert(gm * pow10(ge as nat) >= 1 * pow10(ge as nat)) by (nonlinear_arith)
                    requires gm >= 1, pow10(ge as nat) >= 0;
            }
        }
        return None;
    }
    if e >= 0 {
        if e >= 39 {
            proof {
                lemma_pow10_monotone(39, e as nat);
                assert(gm * pow10(e as nat) >= 1 * pow10(e as nat)) by (nonlinear_arith)
                    requires gm >= 1, pow10(e as nat) >= 0;
            }
            return None;
        }
        let p = pow10_u128(e as u32);
        let umax: u128 = 0xFFFFFFFFFFFFFFFF;
        if m > umax / p {
            proof {
                lemma_fundamental_div_mod(umax as int, p as int);
                assert(gm * (p as nat) >= (umax / p + 1) * (p as nat)) by (nonlinear_arith)
                    requires gm >= umax / p + 1, p >= 1;
                assert((umax / p + 1) * (p as nat) > umax as nat) by (nonlinear_arith)
                    requires
                        umax as int == p as int * (umax as int / (p as int)) + umax as int % (
                        p as int),
                        0 <= umax as int % (p as int) < p as int,
                        p >= 1;
            }
            return None;
        }
        proof {
            lemma_fundamental_div_mod(umax as int, p as int);
            assert(m as nat * (p as nat) <= (umax / p) as nat * (p as nat)) by (nonlinear_arith)
                requires m as nat <= (umax / p) as nat, p >= 1;
            assert((umax / p) as nat * (p as nat) <= umax as nat) by (nonlinear_arith)
                requires
                    umax as int == p as int * (umax as int / (p as int)) + umax as int % (
                    p as int),
                    0 <= umax as int % (p as int),
                    p >= 1;
        }
        let prod = m * p;
        return Some((neg, prod as u64, 0, 0));
    }
    if e < -18 {
        return None;
    }
    let k: u32 = (-e) as u32;
    let p = pow10_u128(k);
    let i0 = m / p;
    let f0 = m % p;
    proof {
        lemma_pow10_monotone(k as nat, 18);
    }
    if i0 >= 0x10000000000000000 {
        return None;
    }
    Some((neg, i0 as u64, f0 as u64, k))
}

/// Whatever the float coercion accepts, its fraction numerator is below
/// its scale and the scale stays within 18 decimal places.
pub proof fn lemma_float_parts_bounds(s: Seq<u8>)
    ensures
        match spec_parse_float(s) {
            Some((neg, i, f, k)) => k <= 18 && (f as nat) < pow10(k as nat),
            None => true,
        },
{
    lemma_pow10_pos(0);
    match spec_float_syntax(s) {
        Some((n0, m0, e0)) => {
            if m0 == 0 {
            } else if m0 >= pow10(38) {
            } else if e0 >= 0 {
            } else if e0 < -18 {
            } else {
                lemma_pow10_pos((-e0) as nat);
            }
        },
        None => {},
    }
}

/// Parses a decimal or exponential float literal into exact parts:
/// sign, integer part, fraction numerator and the count of its decimal
/// places (the fraction is `frac_num / 10^frac_scale`).
pub fn parse_float(v: &[u8]) -> (r: Option<(bool, u64, u64, u32)>)
    ensures
        r == spec_parse_float(v@),
{
    let n = v.len();
    let signed = n > 0 && (v[0] == 0x2B || v[0] == 0x2D);
    let neg = n > 0 && v[0] == 0x2D;
    let p0: usize = if signed {
        1
    } else {
        0
    };
    let p1 = scan_digits_run(v, p0);
    if p1 == p0 {
        return None;
    }
    proof {
        lemma_scan_digits(v@, p0 as int);
    }
    let cap38: u128 = 100000000000000000000000000000000000000;
    proof {
        lemma_pow10_values();
    }
    let ghost gi = dec_val(v@.subrange(p0 as int, p1 as int));
    let iv = dec_val_capped(v, p0, p1, cap38);
    if p1 == n {
        return float_finish(neg, iv, 0, false, Ghost(gi), Ghost(0));
    }
    if v[p1] == 0x2E {
        let p2 = scan_digits_run(v, p1 + 1);
        if p2 == p1 + 1 {
            return None;
        }
        proof {
            lemma_scan_digits(v@, p1 + 1 as int);
        }
        let ghost gf = dec_val(v@.subrange(p1 + 1 as int, p2 as int));
        let fv = dec_val_capped(v, p1 + 1, p2, cap38);
        let fl = p2 - (p1 + 1);
        let m_opt = combine_mantissa(iv, fv, fl, Ghost(gi), Ghost(gf));
        let ghost gm = gi * pow10(fl as nat) + gf;
        if p2 == n {
            return float_finish(neg, m_opt, -(fl as i128), false, Ghost(gm), Ghost(-(fl as int)));
        }
        if v[p2] == 0x65 || v[p2] == 0x45 {
            match exp_val_run(v, p2 + 1) {
                None => {
                    return None;
                },
                Some((eneg, ev)) => {
                    let ghost gev = spec_exp_val(v@, p2 + 1 as int)->Some_0;
                    let sat = ev == 1000000000000000000000000000000;
                    let e: i128 = if sat {
                        0
                    } else if eneg {
                        -(ev as i128) - (fl as i128)
                    } else {
                        (ev as i128) - (fl as i128)
                    };
                    return float_finish(neg, m_opt, e, sat, Ghost(gm), Ghost(gev - fl));
                },
            }
        }
        return None;
    }
    if v[p1] == 0x65 || v[p1] == 0x45 {
        match exp_val_run(v, p1 + 1) {
            None => {
                return None;
            },
            Some((eneg, ev)) => {
                let ghost gev = spec_exp_val(v@, p1 + 1 as int)->Some_0;
                let sat = ev == 1000000000000000000000000000000;
                let e: i128 = if sat {
                    0
                } else if eneg {
                    -(ev as i128)
                } else {
                    ev as i128
                };
                return float_finish(neg, iv, e, sat, Ghost(gi), Ghost(gev));
            },
        }
    }
    None
}

} // verus!
