//! Percentages as they stand in a snapshot: single-precision numbers, held
//! by their bit patterns.
//!
//! A pattern holds a sign, an exponent field of eight bits and a fraction of
//! twenty-three. Unless the exponent field is all ones (an infinity, or no
//! number at all), the pattern stands for its significand times a power of
//! two, with the sign. For thresholds and scores a percentage is read in
//! thousandths of a percent, rounded down, so that every comparison with a
//! whole percent comes out as it does on the number itself.

use vstd::prelude::*;
use vstd::arithmetic::div_mod::{lemma_basic_div, lemma_fundamental_div_mod};
use vstd::arithmetic::power2::{lemma2_to64, lemma2_to64_rest, lemma_pow2_pos};
use vstd::arithmetic::power2::{lemma_pow2_strictly_increases, lemma_pow2_unfold, pow2};

verus! {

/// The number of units in which one percent is read.
pub const UNITS_PER_PERCENT: i32 = 1000;

/// The sign bit is set.
pub open spec fn is_negative(bits: u32) -> bool {
    bits >= 0x8000_0000
}

/// The exponent field.
pub open spec fn exponent_field(bits: u32) -> int {
    ((bits as int) / 0x80_0000) % 0x100
}

/// The fraction field.
pub open spec fn fraction_field(bits: u32) -> int {
    (bits as int) % 0x80_0000
}

/// The pattern stands for no number.
pub open spec fn is_nan(bits: u32) -> bool {
    exponent_field(bits) == 0xff && fraction_field(bits) != 0
}

/// The pattern stands for an infinity.
pub open spec fn is_infinite(bits: u32) -> bool {
    exponent_field(bits) == 0xff && fraction_field(bits) == 0
}

/// The significand of a finite pattern: the fraction, with the leading one
/// unless the exponent field is zero.
pub open spec fn significand(bits: u32) -> int {
    if exponent_field(bits) == 0 {
        fraction_field(bits)
    } else {
        0x80_0000 + fraction_field(bits)
    }
}

/// The power of two by which the significand of a finite pattern is scaled.
pub open spec fn power(bits: u32) -> int {
    if exponent_field(bits) == 0 {
        -149
    } else {
        exponent_field(bits) - 150
    }
}

/// A thousand times the number of a finite pattern, rounded down to a whole
/// number.
pub open spec fn thousandths(bits: u32) -> int {
    let scaled = significand(bits) * UNITS_PER_PERCENT;
    if power(bits) >= 0 {
        let whole = scaled * pow2(power(bits) as nat);
        if is_negative(bits) {
            -whole
        } else {
            whole
        }
    } else {
        let divisor = pow2((-power(bits)) as nat);
        if is_negative(bits) {
            -((scaled + divisor - 1) / (divisor as int))
        } else {
            scaled / (divisor as int)
        }
    }
}

/// A percentage in units: its thousandths, held to the range of `i32`. An
/// infinity reads as the end of the range on its side, and what is no
/// number reads as zero.
pub open spec fn units_of(bits: u32) -> int {
    if is_nan(bits) {
        0
    } else if is_infinite(bits) {
        if is_negative(bits) {
            i32::MIN as int
        } else {
            i32::MAX as int
        }
    } else if thousandths(bits) < i32::MIN {
        i32::MIN as int
    } else if thousandths(bits) > i32::MAX {
        i32::MAX as int
    } else {
        thousandths(bits)
    }
}

/// The percentage is a number and is at least `threshold` units.
pub open spec fn at_least(bits: u32, threshold: int) -> bool {
    !is_nan(bits) && units_of(bits) >= threshold
}

/// The percentage is a number and is less than `limit` units.
pub open spec fn below(bits: u32, limit: int) -> bool {
    !is_nan(bits) && units_of(bits) < limit
}

/// Where the power is negative, so that the number is `x / d` with `d` a
/// power of two, the thousandths never exceed a thousand times the number
/// and come within one of it: they are the whole `t` with `t * d <= 1000 * x
/// < (t + 1) * d`. (With a power of zero or more nothing is rounded.)
pub proof fn lemma_thousandths_round_down(bits: u32)
    requires
        !is_nan(bits),
        !is_infinite(bits),
        power(bits) < 0,
    ensures
        ({
            let divisor = pow2((-power(bits)) as nat) as int;
            let scaled = if is_negative(bits) {
                -(significand(bits) * UNITS_PER_PERCENT)
            } else {
                significand(bits) * UNITS_PER_PERCENT
            };
            thousandths(bits) * divisor <= scaled < (thousandths(bits) + 1) * divisor
        }),
{
    let divisor = pow2((-power(bits)) as nat) as int;
    let scaled = significand(bits) * UNITS_PER_PERCENT;
    lemma_pow2_pos((-power(bits)) as nat);
    if is_negative(bits) {
        let up = scaled + divisor - 1;
        lemma_fundamental_div_mod(up, divisor);
        assert(0 <= up % divisor < divisor) by (nonlinear_arith)
            requires
                divisor > 0,
        ;
        assert(divisor * (up / divisor) == (up / divisor) * divisor) by (nonlinear_arith);
        assert((-(up / divisor) + 1) * divisor == -((up / divisor) * divisor) + divisor)
            by (nonlinear_arith);
        assert((-(up / divisor)) * divisor == -((up / divisor) * divisor)) by (nonlinear_arith);
    } else {
        lemma_fundamental_div_mod(scaled, divisor);
        assert(0 <= scaled % divisor < divisor) by (nonlinear_arith)
            requires
                divisor > 0,
        ;
        assert(divisor * (scaled / divisor) == (scaled / divisor) * divisor) by (nonlinear_arith);
        assert((scaled / divisor + 1) * divisor == (scaled / divisor) * divisor + divisor)
            by (nonlinear_arith);
    }
}

/// Comparing the thousandths with a whole number of percents comes out as
/// comparing the number itself with it: where the number is `x / d`, the
/// thousandths are at least `1000 * k` exactly when `x >= k * d`.
pub proof fn lemma_whole_percents_compare_exactly(bits: u32, k: int)
    requires
        !is_nan(bits),
        !is_infinite(bits),
        power(bits) < 0,
    ensures
        ({
            let divisor = pow2((-power(bits)) as nat) as int;
            let number = if is_negative(bits) {
                -significand(bits)
            } else {
                significand(bits)
            };
            thousandths(bits) >= UNITS_PER_PERCENT * k <==> number >= k * divisor
        }),
{
    let divisor = pow2((-power(bits)) as nat) as int;
    let number = if is_negative(bits) {
        -significand(bits)
    } else {
        significand(bits)
    };
    let t = thousandths(bits);
    lemma_thousandths_round_down(bits);
    lemma_pow2_pos((-power(bits)) as nat);
    assert(t * divisor <= 1000 * number < (t + 1) * divisor);
    if t >= 1000 * k {
        assert(number >= k * divisor) by (nonlinear_arith)
            requires
                t >= 1000 * k,
                t * divisor <= 1000 * number,
                divisor > 0,
        ;
    }
    if number >= k * divisor {
        assert(t >= 1000 * k) by (nonlinear_arith)
            requires
                number >= k * divisor,
                1000 * number < (t + 1) * divisor,
                divisor > 0,
        ;
    }
}

/// True when the pattern stands for no number.
pub fn not_a_number(bits: u32) -> (r: bool)
    ensures
        r == is_nan(bits),
{
    (bits / 0x80_0000) % 0x100 == 0xff && bits % 0x80_0000 != 0
}

/// Reads a percentage in units.
pub fn units(bits: u32) -> (u: i32)
    ensures
        u == units_of(bits),
{
    let negative = bits >= 0x8000_0000;
    let exponent: u32 = (bits / 0x80_0000) % 0x100;
    let fraction: u32 = bits % 0x80_0000;
    if exponent == 0xff {
        return if fraction != 0 {
            0
        } else if negative {
            i32::MIN
        } else {
            i32::MAX
        };
    }
    let leading: u64 = if exponent == 0 {
        0
    } else {
        0x80_0000
    };
    let scaled: u64 = (leading + fraction as u64) * 1000;
    assert(scaled == significand(bits) * UNITS_PER_PERCENT);
    if exponent >= 150 {
        proof {
            let factor = pow2(power(bits) as nat) as int;
            lemma_pow2_pos(power(bits) as nat);
            assert(scaled * factor >= scaled) by (nonlinear_arith)
                requires
                    scaled >= 0,
                    factor >= 1,
            ;
        }
        return if negative {
            i32::MIN
        } else {
            i32::MAX
        };
    }
    let shift: u32 = if exponent == 0 {
        149
    } else {
        150 - exponent
    };
    assert(shift == -power(bits));
    proof {
        lemma2_to64();
        lemma2_to64_rest();
    }
    if shift >= 34 {
        proof {
            let divisor = pow2(shift as nat) as int;
            if shift > 34 {
                lemma_pow2_strictly_increases(34, shift as nat);
            }
            lemma_basic_div(scaled as int, divisor);
            if scaled > 0 {
                let up = scaled + divisor - 1;
                lemma_fundamental_div_mod(up, divisor);
                assert(0 <= up % divisor < divisor) by (nonlinear_arith)
                    requires
                        divisor > 0,
                ;
                assert(up / divisor == 1) by (nonlinear_arith)
                    requires
                        divisor <= up < 2 * divisor,
                        up == divisor * (up / divisor) + up % divisor,
                        0 <= up % divisor < divisor,
                ;
            } else {
                lemma_basic_div(divisor - 1, divisor);
            }
        }
        return if negative && scaled > 0 {
            -1
        } else {
            0
        };
    }
    let mut divisor: u64 = 1;
    let mut i: u32 = 0;
    while i < shift
        invariant
            i <= shift < 34,
            divisor == pow2(i as nat),
            divisor <= 0x4_0000_0000,
            pow2(34) == 0x4_0000_0000,
        decreases shift - i,
    {
        proof {
            lemma_pow2_unfold((i + 1) as nat);
            lemma_pow2_strictly_increases((i + 1) as nat, 34);
        }
        divisor = divisor * 2;
        i += 1;
    }
    if negative {
        let quotient: u64 = (scaled + divisor - 1) / divisor;
        if quotient >= 0x8000_0000 {
            i32::MIN
        } else {
            -(quotient as i32)
        }
    } else {
        let quotient: u64 = scaled / divisor;
        if quotient > 0x7fff_ffff {
            i32::MAX
        } else {
            quotient as i32
        }
    }
}

} // verus!
