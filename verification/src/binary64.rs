//! Construction of IEEE 754 binary64 bit patterns from exact decimal parts,
//! carried out entirely in integer arithmetic.
//!
//! A coerced numeric attribute value is an exact rational
//! `(-1)^neg * (int_part + frac_num / frac_den)` with `frac_num < frac_den`.
//! Its binary64 encoding is defined here the way the binary expansion itself
//! is defined: the fractional bits come from binary long division (double the
//! remainder, compare against the denominator), the significand keeps 53 bits
//! and one guard bit, and ties round to even.  The result is returned as the
//! 64-bit pattern `sign | biased exponent | significand`, never as a float,
//! so every step is plain integer arithmetic that the verifier checks.
//!
//! Every value this module is asked to encode lies strictly between the
//! subnormal range and overflow (the exponent stays within [-63, 64]), so
//! the encoding is always a normal number or a signed zero.

use vstd::prelude::*;
use vstd::arithmetic::power2::{pow2, lemma2_to64, lemma2_to64_rest, lemma_pow2_adds,
    lemma_pow2_strictly_increases, lemma_pow2_pos};
use vstd::arithmetic::mul::lemma_mul_inequality;
use vstd::arithmetic::div_mod::{lemma_fundamental_div_mod, lemma_fundamental_div_mod_converse,
    lemma_small_mod};

verus! {

/// Bit pattern of positive infinity.
pub const INFINITY_BITS: u64 = 0x7FF0000000000000;

/// `10^k`.
pub open spec fn pow10(k: nat) -> nat
    decreases k,
{
    if k == 0 {
        1
    } else {
        10 * pow10((k - 1) as nat)
    }
}

/// `n` bits of the binary long division of `rem / den`, pushed onto the
/// accumulator: each step doubles the remainder and emits 1 exactly when the
/// doubled remainder reaches the denominator.  Returns the new accumulator
/// and the remainder left after the last emitted bit.
pub open spec fn take_bits(rem: nat, den: nat, acc: nat, n: nat) -> (nat, nat)
    decreases n,
{
    if n == 0 {
        (acc, rem)
    } else if 2 * rem >= den {
        take_bits((2 * rem - den) as nat, den, 2 * acc + 1, (n - 1) as nat)
    } else {
        take_bits(2 * rem, den, 2 * acc, (n - 1) as nat)
    }
}

/// Doubles `rem` until it reaches `den`: finds the position `t` of the
/// leading 1 bit of the binary expansion of `rem / den` (a value in (0, 1)),
/// and the remainder left once that bit is emitted.
pub open spec fn lead_bit(rem: nat, den: nat, t: nat) -> (nat, nat)
    decreases den - rem,
        when 0 < rem < den
{
    if 2 * rem >= den {
        ((t + 1) as nat, (2 * rem - den) as nat)
    } else {
        lead_bit(2 * rem, den, (t + 1) as nat)
    }
}

/// Position of the highest set bit: `pow2(floor_log2(i)) <= i < pow2(floor_log2(i) + 1)`
/// for `i >= 1`.
pub open spec fn floor_log2(i: nat) -> nat
    decreases i,
{
    if i < 2 {
        0
    } else {
        1 + floor_log2(i / 2)
    }
}

/// Assembles the final bit pattern from a 54-bit scaled significand `m2`
/// (53 significand bits plus the guard bit as its lowest bit), the exponent
/// `e` of the value (so the value is `m2 / 2 * 2^(e - 52)`, up to the guard),
/// and the sticky flag saying whether any nonzero tail was discarded after
/// the guard bit.  Rounds to nearest, ties to even.
pub open spec fn assemble_bits(neg: bool, m2: nat, e: int, sticky: bool) -> u64
    recommends
        pow2(53) <= m2 < pow2(54),
        -1000 <= e <= 1000,
{
    let mant = m2 / 2;
    let round_up = m2 % 2 == 1 && (sticky || mant % 2 == 1);
    let rounded = if round_up { mant + 1 } else { mant };
    let m_final: nat = if rounded == pow2(53) { pow2(52) } else { rounded };
    let e_final: int = if rounded == pow2(53) { e + 1 } else { e };
    let sign: nat = if neg { pow2(63) } else { 0 };
    (sign + (e_final + 1023) * pow2(52) + (m_final - pow2(52))) as u64
}

/// The binary64 bit pattern of `(-1)^neg * (i + f / den)`, rounded to
/// nearest with ties to even.  `den` is positive and `f < den`; both zero
/// parts give a signed zero.
pub open spec fn spec_f64_bits(neg: bool, i: nat, f: nat, den: nat) -> u64
    recommends
        0 < den < pow2(63),
        f < den,
{
    if i == 0 && f == 0 {
        if neg {
            0x8000000000000000u64
        } else {
            0u64
        }
    } else if i == 0 {
        let (t0, rem1) = lead_bit(f, den, 0);
        let (m2, rem2) = take_bits(rem1, den, 1, 53);
        assemble_bits(neg, m2, -(t0 as int), rem2 != 0)
    } else {
        let p = floor_log2(i);
        if p <= 52 {
            let (fr, rem) = take_bits(f, den, 0, (53 - p) as nat);
            assemble_bits(neg, i * pow2((53 - p) as nat) + fr, p as int, rem != 0)
        } else {
            let sh = (p - 53) as nat;
            assemble_bits(neg, i / pow2(sh), p as int, i % pow2(sh) != 0 || f != 0)
        }
    }
}

/// `pow10` is positive.
pub proof fn lemma_pow10_pos(k: nat)
    ensures
        pow10(k) >= 1,
    decreases k,
{
    if k > 0 {
        lemma_pow10_pos((k - 1) as nat);
    }
}

/// `pow10` is monotone.
pub proof fn lemma_pow10_monotone(a: nat, b: nat)
    requires
        a <= b,
    ensures
        pow10(a) <= pow10(b),
    decreases b,
{
    if a < b {
        lemma_pow10_monotone(a, (b - 1) as nat);
        lemma_pow10_pos((b - 1) as nat);
    }
}

/// Concrete values of `pow10` that the coercions compare against.
pub proof fn lemma_pow10_values()
    ensures
        pow10(0) == 1,
        pow10(1) == 10,
        pow10(9) == 0x3B9ACA00,
        pow10(18) == 1000000000000000000,
        pow10(19) == 10000000000000000000,
        pow10(20) == 100000000000000000000,
        pow10(30) == 1000000000000000000000000000000,
        pow10(37) == 10000000000000000000000000000000000000,
        pow10(38) == 100000000000000000000000000000000000000,
        pow10(39) == 1000000000000000000000000000000000000000,
{
    reveal_with_fuel(pow10, 41);
}

/// `pow10` for exponents that fit a `u128`.
pub fn pow10_u128(k: u32) -> (r: u128)
    requires
        k <= 38,
    ensures
        r as nat == pow10(k as nat),
        r >= 1,
{
    let mut acc: u128 = 1;
    let mut j: u32 = 0;
    proof {
        lemma_pow10_values();
    }
    while j < k
        invariant
            j <= k <= 38,
            acc as nat == pow10(j as nat),
        decreases k - j,
    {
        proof {
            lemma_pow10_monotone(j as nat, 37);
            lemma_pow10_values();
        }
        acc = acc * 10;
        j = j + 1;
    }
    proof {
        lemma_pow10_pos(k as nat);
    }
    acc
}

/// `pow2` for exponents that fit a `u64`.
pub fn pow2_u64(k: u32) -> (r: u64)
    requires
        k <= 63,
    ensures
        r as nat == pow2(k as nat),
        r >= 1,
{
    let mut acc: u64 = 1;
    let mut j: u32 = 0;
    proof {
        lemma2_to64();
        lemma2_to64_rest();
    }
    while j < k
        invariant
            j <= k <= 63,
            acc as nat == pow2(j as nat),
        decreases k - j,
    {
        proof {
            lemma_pow2_strictly_increases(j as nat, 63);
            lemma2_to64_rest();
            assert(pow2((j + 1) as nat) == 2 * pow2(j as nat)) by {
                lemma_pow2_adds(j as nat, 1);
                lemma2_to64();
            }
        }
        acc = acc * 2;
        j = j + 1;
    }
    proof {
        lemma_pow2_pos(k as nat);
    }
    acc
}

/// `pow10` for the exponents a coercion can produce.
pub fn pow10_u64(k: u32) -> (r: u64)
    requires
        k <= 19,
    ensures
        r as nat == pow10(k as nat),
        r >= 1,
{
    proof {
        reveal_with_fuel(pow10, 21);
    }
    match k {
        0 => 1,
        1 => 10,
        2 => 100,
        3 => 1000,
        4 => 10000,
        5 => 100000,
        6 => 1000000,
        7 => 10000000,
        8 => 100000000,
        9 => 1000000000,
        10 => 10000000000,
        11 => 100000000000,
        12 => 1000000000000,
        13 => 10000000000000,
        14 => 100000000000000,
        15 => 1000000000000000,
        16 => 10000000000000000,
        17 => 100000000000000000,
        18 => 1000000000000000000,
        _ => 10000000000000000000,
    }
}

/// `pow2(floor_log2(i)) <= i < pow2(floor_log2(i) + 1)` for `i >= 1`.
pub proof fn lemma_floor_log2_bounds(i: nat)
    requires
        i >= 1,
    ensures
        pow2(floor_log2(i)) <= i < pow2(floor_log2(i) + 1),
    decreases i,
{
    lemma2_to64();
    if i < 2 {
    } else {
        lemma_floor_log2_bounds(i / 2);
        lemma_pow2_adds(floor_log2(i / 2), 1);
        lemma_pow2_adds(floor_log2(i / 2) + 1, 1);
    }
}

/// A power of two that fits a `u64` has exponent at most 63.
pub proof fn lemma_pow2_fits_u64(p: nat)
    requires
        pow2(p) < 0x10000000000000000,
    ensures
        p <= 63,
{
    if p > 63 {
        if p > 64 {
            lemma_pow2_strictly_increases(64, p);
        }
        lemma2_to64_rest();
    }
}

/// Helper for `floor_log2_u64`: a strict step still ahead means twice the
/// current power of two is within `i`.
proof fn lemma_pow2_two_le(p: nat, t: nat, i: nat)
    requires
        t >= 2,
        floor_log2(i) == p + floor_log2(t),
        i >= 1,
    ensures
        2 * pow2(p) <= i,
{
    assert(floor_log2(t) >= 1);
    lemma_floor_log2_bounds(i);
    lemma_pow2_adds(p, 1);
    lemma2_to64();
    if floor_log2(i) > p + 1 {
        lemma_pow2_strictly_increases(p + 1, floor_log2(i));
    }
}

/// Exec computation of `floor_log2`.
fn floor_log2_u64(i: u64) -> (p: u32)
    requires
        i >= 1,
    ensures
        p as nat == floor_log2(i as nat),
        p <= 63,
{
    let mut t: u64 = i;
    let mut p: u32 = 0;
    proof {
        lemma2_to64();
    }
    while t >= 2
        invariant
            t >= 1,
            i >= 1,
            floor_log2(i as nat) == p + floor_log2(t as nat),
            pow2(p as nat) <= i as nat,
            p <= 63,
        decreases t,
    {
        proof {
            assert(floor_log2(t as nat) == 1 + floor_log2((t / 2) as nat));
            lemma_pow2_two_le(p as nat, t as nat, i as nat);
            lemma_pow2_adds(p as nat, 1);
            lemma2_to64();
            lemma_pow2_fits_u64((p + 1) as nat);
        }
        t = t / 2;
        p = p + 1;
    }
    p
}

/// Exec search for the leading fraction bit of `f / den`.
fn lead_bit_u64(f: u64, den: u64) -> (r: (u32, u64))
    requires
        0 < f < den,
        den < 0x8000000000000000,
    ensures
        (r.0 as nat, r.1 as nat) == lead_bit(f as nat, den as nat, 0),
        r.0 <= 63,
        r.1 < den,
{
    let mut rem: u64 = f;
    let mut t: u32 = 0;
    proof {
        lemma2_to64();
    }
    loop
        invariant
            0 < rem < den < 0x8000000000000000,
            rem as nat == f as nat * pow2(t as nat),
            t <= 62,
            lead_bit(f as nat, den as nat, 0) == lead_bit(rem as nat, den as nat, t as nat),
        decreases den - rem,
    {
        let rem2: u64 = 2 * rem;
        if rem2 >= den {
            return (t + 1, rem2 - den);
        }
        proof {
            lemma_pow2_adds(t as nat, 1);
            lemma2_to64();
            assert(f as nat * pow2((t + 1) as nat) == 2 * (f as nat * pow2(t as nat)))
                by (nonlinear_arith)
                requires pow2((t + 1) as nat) == 2 * pow2(t as nat);
            lemma_mul_inequality(1, f as int, pow2((t + 1) as nat) as int);
            lemma_pow2_pos((t + 1) as nat);
            if t + 1 > 62 {
                if t + 1 > 63 {
                    lemma_pow2_strictly_increases(63, (t + 1) as nat);
                }
                lemma2_to64_rest();
            }
        }
        rem = rem2;
        t = t + 1;
    }
}

/// Exec binary long division: `n` more bits of `rem0 / den` onto `acc0`.
fn take_bits_u64(rem0: u64, den: u64, acc0: u64, n: u32) -> (r: (u64, u64))
    requires
        0 < den < 0x8000000000000000,
        rem0 < den,
        acc0 <= 1,
        n <= 53,
    ensures
        (r.0 as nat, r.1 as nat) == take_bits(rem0 as nat, den as nat, acc0 as nat, n as nat),
        acc0 as nat * pow2(n as nat) <= r.0 as nat,
        (r.0 as nat) < (acc0 + 1) as nat * pow2(n as nat),
        r.1 < den,
{
    let mut rem: u64 = rem0;
    let mut acc: u64 = acc0;
    let mut j: u32 = 0;
    proof {
        lemma2_to64();
        lemma2_to64_rest();
    }
    while j < n
        invariant
            0 < den < 0x8000000000000000,
            rem < den,
            j <= n <= 53,
            acc0 <= 1,
            acc0 as nat * pow2(j as nat) <= acc as nat,
            (acc as nat) < (acc0 + 1) as nat * pow2(j as nat),
            acc < 0x40000000000000,
            take_bits(rem0 as nat, den as nat, acc0 as nat, n as nat)
                == take_bits(rem as nat, den as nat, acc as nat, (n - j) as nat),
        decreases n - j,
    {
        proof {
            lemma_pow2_adds(j as nat, 1);
            lemma2_to64();
            assert((acc0 + 1) as nat * pow2((j + 1) as nat)
                == 2 * ((acc0 + 1) as nat * pow2(j as nat))) by (nonlinear_arith)
                requires pow2((j + 1) as nat) == 2 * pow2(j as nat);
            assert(acc0 as nat * pow2((j + 1) as nat)
                == 2 * (acc0 as nat * pow2(j as nat))) by (nonlinear_arith)
                requires pow2((j + 1) as nat) == 2 * pow2(j as nat);
            if j + 1 <= 53 {
                lemma_pow2_strictly_increases((j + 1) as nat, 54);
                lemma2_to64_rest();
            }
            assert((acc0 + 1) as nat * pow2((j + 1) as nat) <= 2 * pow2((j + 1) as nat))
                by (nonlinear_arith)
                requires acc0 <= 1;
        }
        let rem2: u64 = 2 * rem;
        if rem2 >= den {
            acc = 2 * acc + 1;
            rem = rem2 - den;
        } else {
            acc = 2 * acc;
            rem = rem2;
        }
        j = j + 1;
    }
    (acc, rem)
}

/// Exec assembly of the final bit pattern; mirrors `assemble_bits`.
fn assemble_u64(neg: bool, m2: u64, e: i32, sticky: bool) -> (bits: u64)
    requires
        0x20000000000000 <= m2 < 0x40000000000000,
        -63 <= e <= 64,
    ensures
        bits == assemble_bits(neg, m2 as nat, e as int, sticky),
{
    proof {
        lemma2_to64_rest();
    }
    let mant: u64 = m2 / 2;
    let round_up: bool = (m2 % 2 == 1) && (sticky || mant % 2 == 1);
    let rounded: u64 = if round_up { mant + 1 } else { mant };
    let m_final: u64 = if rounded == 0x20000000000000 { 0x10000000000000 } else { rounded };
    let e_final: i32 = if rounded == 0x20000000000000 { e + 1 } else { e };
    let sign: u64 = if neg { 0x8000000000000000 } else { 0 };
    let biased: u64 = (e_final + 1023) as u64;
    sign + biased * 0x10000000000000 + (m_final - 0x10000000000000)
}

/// The binary64 bit pattern of `(-1)^neg * (int_part + frac_num / frac_den)`,
/// rounded to nearest with ties to even, computed in integer arithmetic.
pub fn f64_bits_from_parts(neg: bool, int_part: u64, frac_num: u64, frac_den: u64) -> (bits: u64)
    requires
        0 < frac_den < 0x8000000000000000,
        frac_num < frac_den,
    ensures
        bits == spec_f64_bits(neg, int_part as nat, frac_num as nat, frac_den as nat),
{
    proof {
        lemma2_to64();
        lemma2_to64_rest();
    }
    if int_part == 0 && frac_num == 0 {
        if neg {
            0x8000000000000000
        } else {
            0
        }
    } else if int_part == 0 {
        let (t0, rem1) = lead_bit_u64(frac_num, frac_den);
        let (m2, rem2) = take_bits_u64(rem1, frac_den, 1, 53);
        assemble_u64(neg, m2, -(t0 as i32), rem2 != 0)
    } else {
        let p: u32 = floor_log2_u64(int_part);
        proof {
            lemma_floor_log2_bounds(int_part as nat);
        }
        if p <= 52 {
            let sh: u32 = 53 - p;
            let scale: u64 = pow2_u64(sh);
            proof {
                lemma_pow2_adds((p + 1) as nat, sh as nat);
                assert(int_part as nat * pow2(sh as nat) < pow2((p + 1) as nat) * pow2(sh as nat))
                    by (nonlinear_arith)
                    requires
                        (int_part as nat) < pow2((p + 1) as nat),
                        pow2(sh as nat) > 0;
                assert(pow2(p as nat) * pow2(sh as nat) <= int_part as nat * pow2(sh as nat))
                    by (nonlinear_arith)
                    requires
                        pow2(p as nat) <= int_part as nat,
                        pow2(sh as nat) > 0;
                lemma_pow2_adds(p as nat, sh as nat);
            }
            let hi: u64 = int_part * scale;
            let (fr, rem) = take_bits_u64(frac_num, frac_den, 0, sh);
            proof {
                assert((fr as nat) < 1 * pow2(sh as nat));
                assert((int_part as nat * pow2(sh as nat) + fr as nat)
                    < pow2((p + 1) as nat) * pow2(sh as nat)) by (nonlinear_arith)
                    requires
                        (int_part as nat) < pow2((p + 1) as nat),
                        (fr as nat) < pow2(sh as nat),
                        pow2(sh as nat) > 0;
            }
            assemble_u64(neg, hi + fr, p as i32, rem != 0)
        } else {
            let sh: u32 = p - 53;
            let scale: u64 = pow2_u64(sh);
            let m2: u64 = int_part / scale;
            proof {
                lemma_pow2_adds(53, sh as nat);
                lemma_pow2_adds(54, sh as nat);
                lemma_fundamental_div_mod(int_part as int, scale as int);
                assert(pow2(53) <= (int_part as nat) / pow2(sh as nat)) by (nonlinear_arith)
                    requires
                        pow2(53) * pow2(sh as nat) <= int_part as nat,
                        pow2(sh as nat) > 0,
                        pow2(p as nat) == pow2(53) * pow2(sh as nat);
                assert((int_part as nat) / pow2(sh as nat) < pow2(54)) by (nonlinear_arith)
                    requires
                        (int_part as nat) < pow2(54) * pow2(sh as nat),
                        pow2(sh as nat) > 0;
            }
            let sticky: bool = (int_part % scale != 0) || frac_num != 0;
            assemble_u64(neg, m2, p as i32, sticky)
        }
    }
}

/// The bit pattern of an unsigned 64-bit integer widened to binary64
/// (rounded to nearest even when above 2^53).
pub fn f64_bits_of_u64(n: u64) -> (bits: u64)
    ensures
        bits == spec_f64_bits(false, n as nat, 0, 1),
{
    f64_bits_from_parts(false, n, 0, 1)
}

/// The significand a finite bit pattern encodes, with the implied
/// leading one restored.
pub open spec fn bits_mantissa(bits: u64) -> nat {
    (bits as nat) % pow2(52) + pow2(52)
}

/// The unbiased exponent a finite bit pattern encodes.
pub open spec fn bits_exponent(bits: u64) -> int {
    ((bits as nat) / pow2(52)) % pow2(11) - 1023
}

/// Long division of a zero remainder only shifts the accumulator.
proof fn lemma_take_bits_zero(den: nat, acc: nat, n: nat)
    requires
        den >= 1,
    ensures
        take_bits(0, den, acc, n) == (acc * pow2(n), 0nat),
    decreases n,
{
    lemma2_to64();
    if n == 0 {
        assert(acc * pow2(0) == acc);
    } else {
        lemma_take_bits_zero(den, 2 * acc, (n - 1) as nat);
        lemma_pow2_adds(1, (n - 1) as nat);
        assert((2 * acc) * pow2((n - 1) as nat) == acc * (2 * pow2((n - 1) as nat)))
            by (nonlinear_arith);
    }
}

/// Exactness on whole numbers: a positive integer below 2^53 encodes as
/// a positive normal number whose significand, scaled back by its
/// exponent, is exactly the integer — the decoded value
/// `bits_mantissa / 2^(52 - bits_exponent)` equals `n`, with no rounding.
pub proof fn lemma_small_int_exact(n: u64)
    requires
        1 <= n < 0x20000000000000,
    ensures
        ({
            let bits = spec_f64_bits(false, n as nat, 0, 1);
            let e = floor_log2(n as nat) as int;
            &&& bits_exponent(bits) == e
            &&& bits_mantissa(bits) == n as nat * pow2((52 - e) as nat)
            &&& bits < 0x8000000000000000
        }),
{
    lemma2_to64();
    lemma2_to64_rest();
    let p = floor_log2(n as nat);
    lemma_floor_log2_bounds(n as nat);
    if p > 52 {
        lemma_pow2_strictly_increases(53, p);
    }
    let sh = (53 - p) as nat;
    lemma_take_bits_zero(1, 0, sh);
    assert(take_bits(0, 1, 0, sh) == (0nat * pow2(sh), 0nat));
    let m2 = n as nat * pow2(sh);
    assert(spec_f64_bits(false, n as nat, 0, 1) == assemble_bits(false, m2 + 0, p as int, false));
    // m2 is even, so the guard bit is clear and nothing rounds.
    lemma_pow2_adds(1, (52 - p) as nat);
    let mant = n as nat * pow2((52 - p) as nat);
    assert(m2 == 2 * mant) by (nonlinear_arith)
        requires
            pow2(sh) == 2 * pow2((52 - p) as nat),
            m2 == n as nat * pow2(sh),
            mant == n as nat * pow2((52 - p) as nat),
    ;
    assert(m2 % 2 == 0) by (nonlinear_arith)
        requires m2 == 2 * mant;
    assert(m2 / 2 == mant) by (nonlinear_arith)
        requires m2 == 2 * mant;
    // The significand stays inside [2^52, 2^53), so no carry happens.
    lemma_pow2_adds(p, (52 - p) as nat);
    lemma_pow2_adds(p + 1, (52 - p) as nat);
    assert(pow2(p) * pow2((52 - p) as nat) <= mant) by (nonlinear_arith)
        requires
            pow2(p) <= n as nat,
            pow2((52 - p) as nat) > 0,
            mant == n as nat * pow2((52 - p) as nat),
    ;
    assert(mant < pow2(p + 1) * pow2((52 - p) as nat)) by (nonlinear_arith)
        requires
            (n as nat) < pow2(p + 1),
            pow2((52 - p) as nat) > 0,
            mant == n as nat * pow2((52 - p) as nat),
    ;
    let bits = assemble_bits(false, m2, p as int, false);
    assert(bits == ((p + 1023) * pow2(52) + (mant - pow2(52))) as u64);
    let r = (mant - pow2(52)) as nat;
    lemma_fundamental_div_mod_converse(
        ((p + 1023) * pow2(52) + r) as int,
        pow2(52) as int,
        (p + 1023) as int,
        r as int,
    );
    assert((bits as nat) % pow2(52) == r);
    assert((bits as nat) / pow2(52) == p + 1023);
    lemma_small_mod((p + 1023) as nat, pow2(11));
}

} // verus!
