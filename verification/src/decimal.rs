//! Decoding decimal strings into scaled integer units.
//!
//! A book created with price precision `p` holds prices as integer counts of
//! `10^-p` (and likewise quantities). Incoming values arrive as decimal
//! strings; rust_decimal parses them exactly and rounds them half-to-even to
//! the book's scale, and the verified code below turns the resulting
//! mantissa into units at exactly that scale, rejecting negative values and
//! values beyond the unit type's capacity.

use vstd::prelude::*;

verus! {

/// `10^n`.
pub open spec fn pow10(n: nat) -> int
    decreases n,
{
    if n == 0 {
        1
    } else {
        10 * pow10((n - 1) as nat)
    }
}

pub proof fn lemma_pow10_pos(n: nat)
    ensures
        pow10(n) >= 1,
    decreases n,
{
    if n > 0 {
        lemma_pow10_pos((n - 1) as nat);
    }
}

pub proof fn lemma_pow10_add(a: nat, b: nat)
    ensures
        pow10(a + b) == pow10(a) * pow10(b),
    decreases a,
{
    if a == 0 {
    } else {
        lemma_pow10_add((a - 1) as nat, b);
        assert(pow10(a + b) == 10 * pow10((a + b - 1) as nat));
        assert(10 * (pow10((a - 1) as nat) * pow10(b)) == (10 * pow10((a - 1) as nat)) * pow10(b))
            by (nonlinear_arith);
    }
}

/// Name for what rust_decimal makes of a decimal string at a given scale:
/// `None` when the string is not an exact decimal within the crate's
/// capacity, otherwise the mantissa and scale after rounding half-to-even
/// to at most `scale` fractional digits.
pub uninterp spec fn rounded_decimal(s: Seq<char>, scale: u32) -> Option<(i128, u32)>;

/// Relies on rust_decimal: `Decimal::from_str_exact` parses a decimal string
/// exactly, failing on invalid input, overflow and underflow;
/// `round_dp_with_strategy` with `MidpointNearestEven` is banker's rounding
/// to at most `scale` fractional digits, keeping a smaller scale as it
/// stands; `mantissa` and `scale` expose the signed 96-bit representation.
/// The result depends on the arguments alone.
#[verifier::external_body]
fn parse_rounded(s: &str, scale: u32) -> (r: Option<(i128, u32)>)
    ensures
        r == rounded_decimal(s@, scale),
        r matches Some(p) ==> p.1 <= scale && -0x1000000000000000000000000 < p.0
            < 0x1000000000000000000000000,
{
    match rust_decimal::Decimal::from_str_exact(s) {
        Ok(d) => {
            let rounded = d.round_dp_with_strategy(
                scale,
                rust_decimal::RoundingStrategy::MidpointNearestEven,
            );
            Some((rounded.mantissa(), rounded.scale()))
        },
        Err(_) => None,
    }
}

/// The scaled integer units a decimal string denotes at `scale`: the parsed
/// and rounded value times `10^scale`, or `None` when the string does not
/// decode, is negative, or does not fit the unit type.
pub open spec fn units_of(s: Seq<char>, scale: u32) -> Option<u64> {
    match rounded_decimal(s, scale) {
        None => None,
        Some(p) => {
            if p.0 < 0 || p.1 > scale {
                None
            } else {
                let u = p.0 * pow10((scale - p.1) as nat);
                if u > u64::MAX {
                    None
                } else {
                    Some(u as u64)
                }
            }
        },
    }
}

/// Decodes a decimal string into units at `scale`, rounding half-to-even.
pub fn parse_units(s: &str, scale: u32) -> (r: Option<u64>)
    ensures
        r == units_of(s@, scale),
{
    match parse_rounded(s, scale) {
        None => None,
        Some((m, s0)) => {
            if m < 0 {
                return None;
            }
            let mut acc: u128 = m as u128;
            let mut k: u32 = s0;
            let mut overflow: bool = false;
            while k < scale
                invariant_except_break
                    !overflow,
                invariant
                    s0 <= k <= scale,
                    m >= 0,
                    m < 0x1000000000000000000000000,
                    acc == m * pow10((k - s0) as nat),
                ensures
                    s0 <= k <= scale,
                    overflow ==> acc == m * pow10((k - s0) as nat) && acc > u64::MAX && k < scale,
                    !overflow ==> k == scale && acc == m * pow10((k - s0) as nat),
                decreases scale - k,
            {
                if acc > u64::MAX as u128 {
                    overflow = true;
                    break ;
                }
                proof {
                    lemma_pow10_add((k - s0) as nat, 1);
                    assert(m * (pow10((k - s0) as nat) * 10) == (m * pow10((k - s0) as nat)) * 10)
                        by (nonlinear_arith);
                }
                acc = acc * 10;
                k += 1;
            }
            proof {
                if overflow {
                    // further scaling only grows the value, so the final
                    // units would not fit either
                    lemma_pow10_add((k - s0) as nat, (scale - k) as nat);
                    lemma_pow10_pos((scale - k) as nat);
                    lemma_pow10_pos((k - s0) as nat);
                    assert(m * pow10((scale - s0) as nat) >= m * pow10((k - s0) as nat)) by {
                        let a = pow10((k - s0) as nat);
                        let b = pow10((scale - k) as nat);
                        assert(m * (a * b) >= m * a) by (nonlinear_arith)
                            requires
                                m >= 0,
                                a >= 0,
                                b >= 1,
                        ;
                    }
                }
            }
            if overflow || acc > u64::MAX as u128 {
                None
            } else {
                Some(acc as u64)
            }
        },
    }
}

} // verus!