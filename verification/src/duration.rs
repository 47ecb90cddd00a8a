//! The ISO-8601 duration coercion: `P[nY][nM][nD][T[nH][nM][nS]]`.
//!
//! Components appear in order, each an unsigned decimal count followed by
//! its unit letter; a fraction is allowed only on the last (smallest
//! present) component.  The total is the exact rational number of seconds
//! `whole + frac_num / 10^frac_scale`, with a year counted as 365 days and
//! a month as 30 days.  Totals whose whole seconds do not fit 64 bits, or
//! whose fraction carries more than nine decimal places, are rejected.

use vstd::prelude::*;
use crate::binary64::{pow10, pow10_u64};
use crate::coerce::{all_digits, dec_val, is_dec_digit, scan_digits, lemma_scan_digits,
    scan_digits_run, dec_val_capped};

verus! {

/// Seconds per unit, and the parser stage that follows the unit.
///
/// Stages: 0 start; 1 after years; 2 after months; 3 after days; 4 after
/// the time designator; 5 after hours; 6 after minutes; 7 after seconds.
/// `M` means months before the time designator and minutes after it.
pub open spec fn unit_mult(b: u8, stage: int) -> Option<(nat, int)> {
    if b == 0x59 && stage == 0 {
        Some(((31536000 as nat, 1)))
    } else if b == 0x4D && stage <= 1 {
        Some(((2592000 as nat, 2)))
    } else if b == 0x44 && stage <= 2 {
        Some(((86400 as nat, 3)))
    } else if b == 0x48 && stage == 4 {
        Some(((3600 as nat, 5)))
    } else if b == 0x4D && 4 <= stage <= 5 {
        Some(((60 as nat, 6)))
    } else if b == 0x53 && 4 <= stage <= 6 {
        Some(((1 as nat, 7)))
    } else {
        None
    }
}

/// The components of a duration from `pos` on: the exact total they
/// write, as whole seconds, a fraction numerator and its decimal scale.
/// `any` records whether a component was already consumed.
pub open spec fn dur_components(s: Seq<u8>, pos: int, stage: int, any: bool) -> Option<
    (nat, nat, nat),
>
    decreases s.len() - pos,
        when 0 <= pos <= s.len()
        via dur_components_dec
{
    if pos == s.len() {
        if any {
            Some(((0 as nat, 0 as nat, 0 as nat)))
        } else {
            None
        }
    } else if s[pos] == 0x54 {
        if stage <= 3 && pos + 1 < s.len() {
            dur_components(s, pos + 1, 4, any)
        } else {
            None
        }
    } else {
        let p1 = scan_digits(s, pos);
        if p1 == pos || p1 == s.len() {
            None
        } else {
            let n = dec_val(s.subrange(pos, p1));
            if s[p1] == 0x2E {
                let p2 = scan_digits(s, p1 + 1);
                if p2 == p1 + 1 || p2 == s.len() {
                    None
                } else {
                    let k = (p2 - (p1 + 1)) as nat;
                    let fd = dec_val(s.subrange(p1 + 1, p2));
                    match unit_mult(s[p2], stage) {
                        Some((mult, _)) => if p2 + 1 == s.len() {
                            Some(
                                ((
                                n * mult + fd * mult / pow10(k),
                                fd * mult % pow10(k),
                                k,
                                )),
                            )
                        } else {
                            None
                        },
                        None => None,
                    }
                }
            } else {
                match unit_mult(s[p1], stage) {
                    Some((mult, next_stage)) => match dur_components(
                        s,
                        p1 + 1,
                        next_stage,
                        true,
                    ) {
                        Some((i, f, k)) => Some(((n * mult + i, f, k))),
                        None => None,
                    },
                    None => None,
                }
            }
        }
    }
}

#[via_fn]
proof fn dur_components_dec(s: Seq<u8>, pos: int, stage: int, any: bool) {
    if 0 <= pos <= s.len() && pos < s.len() && s[pos] != 0x54 {
        lemma_scan_digits(s, pos);
    }
}

/// The duration coercion: `P` followed by at least one component; the
/// whole seconds must fit 64 bits and the fraction at most nine decimal
/// places.
pub open spec fn spec_parse_duration(s: Seq<u8>) -> Option<(u64, u64, u32)> {
    if s.len() == 0 || s[0] != 0x50 {
        None
    } else {
        match dur_components(s, 1, 0, false) {
            Some((i, f, k)) => if i < 0x10000000000000000 && k <= 9 {
                Some(((i as u64, f as u64, k as u32)))
            } else {
                None
            },
            None => None,
        }
    }
}

/// A digit string of length `l` writes a number below `10^l`.
pub proof fn lemma_dec_val_upper(s: Seq<u8>)
    requires
        all_digits(s),
    ensures
        dec_val(s) < pow10(s.len()),
    decreases s.len(),
{
    if s.len() == 0 {
    } else {
        assert(all_digits(s.drop_last())) by {
            assert(forall|i: int|
                0 <= i < s.len() - 1 ==> s.drop_last()[i] == #[trigger] s[i]);
        }
        lemma_dec_val_upper(s.drop_last());
        assert(is_dec_digit(s.last()));
    }
}

/// The fraction numerator a component walk yields is below its scale.
pub proof fn lemma_dur_frac_bound(s: Seq<u8>, pos: int, stage: int, any: bool)
    requires
        0 <= pos <= s.len(),
    ensures
        match dur_components(s, pos, stage, any) {
            Some((i, f, k)) => f < pow10(k),
            None => true,
        },
    decreases s.len() - pos,
{
    crate::binary64::lemma_pow10_pos(0);
    if pos == s.len() {
    } else if s[pos] == 0x54 {
        if stage <= 3 && pos + 1 < s.len() {
            lemma_dur_frac_bound(s, pos + 1, 4, any);
        }
    } else {
        lemma_scan_digits(s, pos);
        let p1 = scan_digits(s, pos);
        if p1 == pos || p1 == s.len() {
        } else if s[p1] == 0x2E {
            let p2 = scan_digits(s, p1 + 1);
            if p2 == p1 + 1 || p2 == s.len() {
            } else {
                crate::binary64::lemma_pow10_pos((p2 - (p1 + 1)) as nat);
            }
        } else {
            match unit_mult(s[p1], stage) {
                Some((mult, next_stage)) => {
                    lemma_scan_digits(s, p1);
                    lemma_dur_frac_bound(s, p1 + 1, next_stage, true);
                },
                None => {},
            }
        }
    }
}

/// Exec unit lookup; mirrors `unit_mult`.
fn unit_mult_run(b: u8, stage: u8) -> (r: Option<(u64, u8)>)
    ensures
        match r {
            Some((mult, ns)) => unit_mult(b, stage as int) == Some(
                ((mult as nat, ns as int)),
            ) && 1 <= mult <= 31536000 && ns <= 7,
            None => unit_mult(b, stage as int) is None,
        },
{
    if b == 0x59 && stage == 0 {
        Some((31536000, 1))
    } else if b == 0x4D && stage <= 1 {
        Some((2592000, 2))
    } else if b == 0x44 && stage <= 2 {
        Some((86400, 3))
    } else if b == 0x48 && stage == 4 {
        Some((3600, 5))
    } else if b == 0x4D && 4 <= stage && stage <= 5 {
        Some((60, 6))
    } else if b == 0x53 && 4 <= stage && stage <= 6 {
        Some((1, 7))
    } else {
        None
    }
}

/// Exec walk over the components; the whole-seconds accumulator
/// saturates at 2^64, above which the top level rejects anyway.
fn dur_components_run(v: &[u8], pos: usize, stage: u8, any: bool) -> (r: Option<
    (u128, u64, u32),
>)
    requires
        pos <= v.len(),
    ensures
        match dur_components(v@, pos as int, stage as int, any) {
            None => r is None,
            Some((i, f, k)) => match r {
                Some((ei, ef, ek)) => {
                    &&& k <= 9
                    &&& ek as nat == k
                    &&& ef as nat == f
                    &&& if i < 0x10000000000000000 {
                        ei as nat == i
                    } else {
                        ei == 0x10000000000000000u128
                    }
                },
                None => k > 9,
            },
        },
    decreases v.len() - pos,
{
    let n = v.len();
    if pos == n {
        if any {
            return Some((0, 0, 0));
        }
        return None;
    }
    if v[pos] == 0x54 {
        if stage <= 3 && pos + 1 < n {
            return dur_components_run(v, pos + 1, 4, any);
        }
        return None;
    }
    let p1 = scan_digits_run(v, pos);
    if p1 == pos || p1 == n {
        return None;
    }
    proof {
        lemma_scan_digits(v@, pos as int);
    }
    let ghost gn = dec_val(v@.subrange(pos as int, p1 as int));
    let n_opt = dec_val_capped(v, pos, p1, 0x10000000000000000);
    let n128: u128 = match n_opt {
        Some(x) => x,
        None => 0x10000000000000000,
    };
    if v[p1] == 0x2E {
        let p2 = scan_digits_run(v, p1 + 1);
        if p2 == p1 + 1 || p2 == n {
            return None;
        }
        proof {
            lemma_scan_digits(v@, p1 + 1 as int);
        }
        let k = p2 - (p1 + 1);
        let ghost gfd = dec_val(v@.subrange(p1 + 1 as int, p2 as int));
        match unit_mult_run(v[p2], stage) {
            None => {
                return None;
            },
            Some((mult, _)) => {
                if p2 + 1 != n {
                    return None;
                }
                if k > 9 {
                    return None;
                }
                let fd_opt = dec_val_capped(v, p1 + 1, p2, 0x10000000000000000);
                let fd: u64 = match fd_opt {
                    Some(x) => x as u64,
                    None => {
                        proof {
                            lemma_dec_val_upper(v@.subrange(p1 + 1 as int, p2 as int));
                            crate::binary64::lemma_pow10_monotone(k as nat, 9);
                            crate::binary64::lemma_pow10_values();
                        }
                        0
                    },
                };
                proof {
                    lemma_dec_val_upper(v@.subrange(p1 + 1 as int, p2 as int));
                    crate::binary64::lemma_pow10_monotone(k as nat, 9);
                    crate::binary64::lemma_pow10_values();
                }
                let p10k = pow10_u64(k as u32);
                proof {
                    assert(fd as nat * (mult as nat) <= 1000000000nat * 31536000nat)
                        by (nonlinear_arith)
                        requires
                            fd <= 1000000000,
                            mult <= 31536000,
                    ;
                }
                let scaled: u64 = fd * mult;
                let q: u64 = scaled / p10k;
                let rem: u64 = scaled % p10k;
                proof {
                    assert(n128 as nat * (mult as nat) <= 0x10000000000000000nat * 31536000nat)
                        by (nonlinear_arith)
                        requires
                            n128 <= 0x10000000000000000u128,
                            1 <= mult <= 31536000,
                    ;
                }
                let base: u128 = n128 * (mult as u128);
                let total: u128 = if base >= 0x10000000000000000 {
                    0x10000000000000000
                } else if base + (q as u128) >= 0x10000000000000000 {
                    0x10000000000000000
                } else {
                    base + (q as u128)
                };
                proof {
                    if gn >= 0x10000000000000000 {
                        assert(gn * (mult as nat) >= gn * 1) by (nonlinear_arith)
                            requires mult >= 1, gn >= 0;
                        assert(n128 as nat * (mult as nat) >= 0x10000000000000000nat * 1)
                            by (nonlinear_arith)
                            requires n128 == 0x10000000000000000u128, mult >= 1;
                    }
                }
                return Some((total, rem, k as u32));
            },
        }
    }
    match unit_mult_run(v[p1], stage) {
        None => {
            return None;
        },
        Some((mult, next_stage)) => {
            match dur_components_run(v, p1 + 1, next_stage, true) {
                None => {
                    return None;
                },
                Some((ri, rf, rk)) => {
                    proof {
                        assert(n128 as nat * (mult as nat) <= 0x10000000000000000nat
                            * 31536000nat) by (nonlinear_arith)
                            requires
                                n128 <= 0x10000000000000000u128,
                                1 <= mult <= 31536000,
                        ;
                        if gn >= 0x10000000000000000 {
                            assert(gn * (mult as nat) >= gn * 1) by (nonlinear_arith)
                                requires mult >= 1, gn >= 0;
                        }
                    }
                    let base: u128 = n128 * (mult as u128);
                    let total: u128 = if base >= 0x10000000000000000 {
                        0x10000000000000000
                    } else if base + (ri as u128) >= 0x10000000000000000 {
                        0x10000000000000000
                    } else {
                        base + (ri as u128)
                    };
                    proof {
                        if gn >= 0x10000000000000000 {
                            assert(gn * (mult as nat) + ri as nat >= gn) by (nonlinear_arith)
                                requires mult >= 1, gn >= 0, ri >= 0;
                        } else {
                            assert(gn * (mult as nat) == n128 as nat * (mult as nat));
                        }
                    }
                    return Some((total, rf, rk));
                },
            }
        },
    }
}

/// Parses an ISO-8601 duration into exact seconds parts: whole seconds,
/// fraction numerator, and the fraction's decimal scale.
pub fn parse_duration(v: &[u8]) -> (r: Option<(u64, u64, u32)>)
    ensures
        r == spec_parse_duration(v@),
{
    if v.len() == 0 {
        return None;
    }
    if v[0] != 0x50 {
        return None;
    }
    match dur_components_run(v, 1, 0, false) {
        None => None,
        Some((ei, ef, ek)) => {
            if ei < 0x10000000000000000 {
                Some((ei as u64, ef, ek))
            } else {
                None
            }
        },
    }
}

} // verus!
