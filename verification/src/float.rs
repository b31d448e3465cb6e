//! Floats as bit patterns: widening a binary32 float to the binary64 float of the same value.
use vstd::prelude::*;
use vstd::arithmetic::power2::{lemma2_to64, lemma_pow2_adds, lemma_pow2_unfold, pow2};

verus! {

/// The sign bit of a binary32 pattern.
pub open spec fn sign32(bits: u32) -> int {
    bits as int / 0x8000_0000
}

/// The exponent field of a binary32 pattern.
pub open spec fn exponent32(bits: u32) -> int {
    bits as int / 0x80_0000 % 0x100
}

/// The fraction field of a binary32 pattern.
pub open spec fn fraction32(bits: u32) -> int {
    bits as int % 0x80_0000
}

/// The sign bit of a binary64 pattern.
pub open spec fn sign64(bits: u64) -> int {
    bits as int / 0x8000_0000_0000_0000
}

/// The exponent field of a binary64 pattern.
pub open spec fn exponent64(bits: u64) -> int {
    bits as int / 0x10_0000_0000_0000 % 0x800
}

/// The fraction field of a binary64 pattern.
pub open spec fn fraction64(bits: u64) -> int {
    bits as int % 0x10_0000_0000_0000
}

/// The significand of a finite binary32 number, as a whole number: the number itself is the
/// significand times two to the power [`scale32`], with the sign of [`sign32`].
pub open spec fn significand32(bits: u32) -> int {
    if exponent32(bits) == 0 {
        fraction32(bits)
    } else {
        fraction32(bits) + 0x80_0000
    }
}

/// The power of two by which the significand of a finite binary32 number is scaled.
pub open spec fn scale32(bits: u32) -> int {
    if exponent32(bits) == 0 {
        -149
    } else {
        exponent32(bits) - 150
    }
}

/// The significand of a finite binary64 number, as a whole number.
pub open spec fn significand64(bits: u64) -> int {
    if exponent64(bits) == 0 {
        fraction64(bits)
    } else {
        fraction64(bits) + 0x10_0000_0000_0000
    }
}

/// The power of two by which the significand of a finite binary64 number is scaled.
pub open spec fn scale64(bits: u64) -> int {
    if exponent64(bits) == 0 {
        -1074
    } else {
        exponent64(bits) - 1075
    }
}

/// The binary64 exponent and fraction fields, packed, of the number `fraction * 2^(exponent -
/// 1098)`, where `fraction` is positive and below 2^24: the fraction is doubled, and the
/// exponent lowered, until the leading bit of the fraction stands at 2^23.
pub open spec fn normalized64(fraction: int, exponent: int) -> int
    decreases 0x100_0000 - fraction,
{
    if 0 < fraction < 0x80_0000 {
        normalized64(fraction * 2, exponent - 1)
    } else {
        exponent * 0x10_0000_0000_0000 + (fraction - 0x80_0000) * 0x2000_0000
    }
}

/// The binary64 pattern of the number that a binary32 pattern stands for.
///
/// Zeros and infinities keep their sign; a NaN stays a NaN, quiet, with its sign and its
/// payload; every other number, a subnormal one too, becomes a normal binary64 number.
pub open spec fn widened(bits: u32) -> u64 {
    let exponent = exponent32(bits);
    let fraction = fraction32(bits);
    let magnitude = if exponent == 0xFF {
        if fraction == 0 {
            0x7FF0_0000_0000_0000
        } else if fraction >= 0x40_0000 {
            0x7FF0_0000_0000_0000 + fraction * 0x2000_0000
        } else {
            0x7FF8_0000_0000_0000 + fraction * 0x2000_0000
        }
    } else if exponent == 0 {
        if fraction == 0 {
            0
        } else {
            normalized64(fraction, 897)
        }
    } else {
        (exponent + 896) * 0x10_0000_0000_0000 + fraction * 0x2000_0000
    };
    (sign32(bits) * 0x8000_0000_0000_0000 + magnitude) as u64
}

/// What normalising gives: the fields of a normal number, whose significand and scale stand
/// for the number that went in. `doublings` bounds how often the fraction is still doubled.
proof fn lemma_normalized64(fraction: int, exponent: int, doublings: nat)
    requires
        0 < fraction < 0x100_0000,
        fraction * pow2(doublings) >= 0x80_0000,
        doublings < exponent < 0x7FF,
    ensures
        ({
            let packed = normalized64(fraction, exponent);
            let field = packed / 0x10_0000_0000_0000;
            let rest = packed % 0x10_0000_0000_0000;
            &&& 1 <= field <= exponent
            &&& 0x10_0000_0000_0000 <= packed < 0x7FF0_0000_0000_0000
            &&& (rest + 0x10_0000_0000_0000) * pow2((field - 1) as nat) == fraction * 0x2000_0000
                * pow2((exponent - 1) as nat)
        }),
    decreases 0x100_0000 - fraction,
{
    if 0 < fraction < 0x80_0000 {
        assert(doublings >= 1) by {
            if doublings == 0 {
                lemma2_to64();
            }
        }
        lemma_pow2_unfold(doublings);
        assert(fraction * 2 * pow2((doublings - 1) as nat) == fraction * pow2(doublings))
            by (nonlinear_arith)
            requires
                pow2(doublings) == 2 * pow2((doublings - 1) as nat),
        ;
        lemma_normalized64(fraction * 2, exponent - 1, (doublings - 1) as nat);
        lemma_pow2_unfold((exponent - 1) as nat);
        assert(fraction * 2 * 0x2000_0000 * pow2((exponent - 2) as nat) == fraction * 0x2000_0000
            * pow2((exponent - 1) as nat)) by (nonlinear_arith)
            requires
                pow2((exponent - 1) as nat) == 2 * pow2((exponent - 2) as nat),
        ;
    } else {
        let packed = normalized64(fraction, exponent);
        let rest = (fraction - 0x80_0000) * 0x2000_0000;
        assert(0 <= rest < 0x10_0000_0000_0000);
        assert(packed / 0x10_0000_0000_0000 == exponent && packed % 0x10_0000_0000_0000 == rest);
        assert((rest + 0x10_0000_0000_0000) * pow2((exponent - 1) as nat) == fraction
            * 0x2000_0000 * pow2((exponent - 1) as nat)) by (nonlinear_arith)
            requires
                rest + 0x10_0000_0000_0000 == fraction * 0x2000_0000,
        ;
    }
}

/// Widens the bit pattern of a binary32 float to that of the binary64 float of the same value.
pub fn widen(bits: u32) -> (r: u64)
    ensures
        r == widened(bits),
{
    let sign: u64 = (bits / 0x8000_0000) as u64;
    let exponent: u64 = (bits / 0x80_0000 % 0x100) as u64;
    let fraction: u64 = (bits % 0x80_0000) as u64;
    let magnitude: u64 = if exponent == 0xFF {
        if fraction == 0 {
            0x7FF0_0000_0000_0000
        } else if fraction >= 0x40_0000 {
            0x7FF0_0000_0000_0000 + fraction * 0x2000_0000
        } else {
            0x7FF8_0000_0000_0000 + fraction * 0x2000_0000
        }
    } else if exponent == 0 {
        if fraction == 0 {
            0
        } else {
            let mut scaled: u64 = fraction;
            let mut field: u64 = 897;
            let ghost mut doublings: nat = 23;
            proof {
                lemma2_to64();
                assert(fraction as int * pow2(23) >= 0x80_0000) by (nonlinear_arith)
                    requires
                        fraction >= 1,
                        pow2(23) == 0x80_0000,
                ;
                lemma_normalized64(fraction as int, 897, 23);
            }
            while scaled < 0x80_0000
                invariant
                    0 < scaled < 0x100_0000,
                    doublings < field <= 897,
                    scaled as int * pow2(doublings) >= 0x80_0000,
                    normalized64(scaled as int, field as int) == normalized64(fraction as int, 897),
                decreases 0x100_0000 - scaled,
            {
                proof {
                    if doublings == 0 {
                        lemma2_to64();
                    }
                    lemma_pow2_unfold(doublings);
                    assert(scaled as int * 2 * pow2((doublings - 1) as nat) == scaled as int
                        * pow2(doublings)) by (nonlinear_arith)
                        requires
                            pow2(doublings) == 2 * pow2((doublings - 1) as nat),
                    ;
                    doublings = (doublings - 1) as nat;
                }
                scaled = scaled * 2;
                field = field - 1;
            }
            field * 0x10_0000_0000_0000 + (scaled - 0x80_0000) * 0x2000_0000
        }
    } else {
        (exponent + 896) * 0x10_0000_0000_0000 + fraction * 0x2000_0000
    };
    sign * 0x8000_0000_0000_0000 + magnitude
}

/// Widening keeps the number: a finite binary32 pattern and its widening have the same sign
/// and stand for the same multiple of 2^-1074, the smallest step of binary64; an infinity stays
/// an infinity of its sign, and a NaN stays a NaN.
pub proof fn law_widening_keeps_the_number(bits: u32)
    ensures
        sign64(widened(bits)) == sign32(bits),
        exponent32(bits) != 0xFF ==> exponent64(widened(bits)) != 0x7FF && significand64(
            widened(bits),
        ) * pow2((scale64(widened(bits)) + 1074) as nat) == significand32(bits) * pow2(
            (scale32(bits) + 1074) as nat,
        ),
        exponent32(bits) == 0xFF ==> exponent64(widened(bits)) == 0x7FF && (fraction64(
            widened(bits),
        ) == 0 <==> fraction32(bits) == 0),
{
    let sign = sign32(bits);
    let exponent = exponent32(bits);
    let fraction = fraction32(bits);
    let wide = widened(bits);
    assert(0 <= sign <= 1 && 0 <= exponent <= 0xFF && 0 <= fraction < 0x80_0000);
    if exponent == 0xFF {
    } else if exponent == 0 {
        if fraction != 0 {
            lemma2_to64();
            assert(fraction * pow2(23) >= 0x80_0000) by (nonlinear_arith)
                requires
                    fraction >= 1,
                    pow2(23) == 0x80_0000,
            ;
            lemma_normalized64(fraction, 897, 23);
            let packed = normalized64(fraction, 897);
            let field = packed / 0x10_0000_0000_0000;
            let rest = packed % 0x10_0000_0000_0000;
            assert(wide == sign * 0x8000_0000_0000_0000 + packed);
            assert(exponent64(wide) == field && fraction64(wide) == rest);
            lemma_pow2_adds(29, 896);
            assert(pow2(29) == 0x2000_0000);
            assert(fraction * 0x2000_0000 * pow2(896) == fraction * pow2(925)) by (nonlinear_arith)
                requires
                    pow2(925) == 0x2000_0000 * pow2(896),
            ;
            assert(significand64(wide) * pow2((scale64(wide) + 1074) as nat) == significand32(bits)
                * pow2((scale32(bits) + 1074) as nat));
        } else {
            assert(wide == sign * 0x8000_0000_0000_0000);
            assert(exponent64(wide) == 0 && fraction64(wide) == 0);
            assert(significand64(wide) * pow2(0) == 0 && significand32(bits) * pow2(925) == 0)
                by (nonlinear_arith)
                requires
                    significand64(wide) == 0,
                    significand32(bits) == 0,
            ;
        }
    } else {
        let packed = (exponent + 896) * 0x10_0000_0000_0000 + fraction * 0x2000_0000;
        assert(wide == sign * 0x8000_0000_0000_0000 + packed);
        assert(0 <= fraction * 0x2000_0000 < 0x10_0000_0000_0000);
        assert(exponent64(wide) == exponent + 896 && fraction64(wide) == fraction * 0x2000_0000);
        lemma2_to64();
        lemma_pow2_adds(29, (exponent + 895) as nat);
        assert((fraction * 0x2000_0000 + 0x10_0000_0000_0000) * pow2((exponent + 895) as nat) == (
        fraction + 0x80_0000) * pow2((exponent + 924) as nat)) by (nonlinear_arith)
            requires
                pow2((exponent + 924) as nat) == 0x2000_0000 * pow2((exponent + 895) as nat),
        ;
        assert(significand64(wide) * pow2((scale64(wide) + 1074) as nat) == significand32(bits)
            * pow2((scale32(bits) + 1074) as nat));
    }
}

} // verus!
