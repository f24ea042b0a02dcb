//! Decisions on IEEE 754 binary32 values given by their bit patterns.
//!
//! A pattern has a sign bit, eight bits of biased exponent and twenty-three
//! bits of fraction. The functions here classify, order and floor such
//! patterns with integer arithmetic only, and their contracts are stated
//! over the number a pattern encodes.

use vstd::arithmetic::div_mod::lemma_fundamental_div_mod;
use vstd::arithmetic::div_mod::lemma_fundamental_div_mod_converse;
use vstd::arithmetic::mul::lemma_mul_inequality;
use vstd::arithmetic::mul::lemma_mul_strict_inequality;
use vstd::arithmetic::mul::lemma_mul_unary_negation;
use vstd::arithmetic::power2::lemma2_to64;
use vstd::arithmetic::power2::lemma2_to64_rest;
use vstd::arithmetic::power2::lemma_pow2_adds;
use vstd::arithmetic::power2::lemma_pow2_pos;
use vstd::arithmetic::power2::lemma_pow2_strictly_increases;
use vstd::arithmetic::power2::lemma_pow2_unfold;
use vstd::arithmetic::power2::pow2;
use vstd::bits::lemma_u64_shl_is_mul;
use vstd::prelude::*;

verus! {

/// The pattern of positive zero.
pub const ZERO: u32 = 0;

/// The pattern of positive infinity; every larger magnitude is a NaN.
pub const INFINITY: u32 = 0x7f80_0000;

/// The sign bit.
pub const SIGN: u32 = 0x8000_0000;

/// Whether the sign bit of the pattern is set.
pub open spec fn is_negative(bits: u32) -> bool {
    bits >= SIGN
}

/// The pattern without its sign bit.
pub open spec fn magnitude(bits: u32) -> int {
    if bits >= SIGN {
        bits - SIGN
    } else {
        bits as int
    }
}

/// Whether the pattern encodes a NaN.
pub open spec fn is_nan(bits: u32) -> bool {
    magnitude(bits) > INFINITY
}

/// Whether the pattern encodes a number: neither an infinity nor a NaN.
pub open spec fn is_finite(bits: u32) -> bool {
    magnitude(bits) < INFINITY
}

/// The eight exponent bits of the pattern.
pub open spec fn biased_exponent(bits: u32) -> int {
    magnitude(bits) / 0x80_0000
}

/// The twenty-three fraction bits of the pattern.
pub open spec fn fraction(bits: u32) -> int {
    magnitude(bits) % 0x80_0000
}

/// The signed integer `m` of the decomposition `m * 2^e` of the encoded
/// value: the fraction, with the implicit leading bit of a normal number,
/// negated where the sign bit is set.
pub open spec fn significand(bits: u32) -> int {
    let m = if biased_exponent(bits) == 0 {
        fraction(bits)
    } else {
        fraction(bits) + 0x80_0000
    };
    if is_negative(bits) {
        -m
    } else {
        m
    }
}

/// The power of two `e` of the decomposition `m * 2^e` of the encoded value,
/// never below -149.
pub open spec fn exponent(bits: u32) -> int {
    if biased_exponent(bits) == 0 {
        -149
    } else {
        biased_exponent(bits) - 150
    }
}

/// The encoded value `m * 2^e` in units of 2^-149, in which every binary32
/// value is a whole number. An infinity is given the value that the same
/// formula gives its pattern, which lies beyond every finite value.
/// Meaningless for a NaN.
pub open spec fn scaled_value(bits: u32) -> int {
    significand(bits) * pow2((exponent(bits) + 149) as nat)
}

/// The IEEE 754 relation `a < b`: false whenever either side is a NaN, and
/// the order of the encoded values otherwise.
pub open spec fn less(a: u32, b: u32) -> bool {
    !is_nan(a) && !is_nan(b) && scaled_value(a) < scaled_value(b)
}

/// The place of the pattern in the order of the encoded values: the
/// magnitude bits, counted downwards from zero where the sign bit is set.
pub open spec fn rank(bits: u32) -> int {
    if is_negative(bits) {
        -magnitude(bits)
    } else {
        magnitude(bits)
    }
}

/// Among patterns without a sign bit, the larger pattern encodes the larger
/// value.
proof fn lemma_magnitudes_ordered(x: u32, y: u32)
    requires
        x < y <= INFINITY,
    ensures
        0 <= scaled_value(x) < scaled_value(y),
{
    let bx = biased_exponent(x);
    let by = biased_exponent(y);
    let mx = significand(x);
    let my = significand(y);
    let sx = (exponent(x) + 149) as nat;
    let sy = (exponent(y) + 149) as nat;
    lemma_pow2_pos(sx);
    lemma_pow2_pos(sy);
    assert(0 <= mx * pow2(sx)) by (nonlinear_arith)
        requires
            0 <= mx,
            0 < pow2(sx),
    ;
    if bx == by {
        assert(mx * pow2(sx) < my * pow2(sy)) by (nonlinear_arith)
            requires
                mx < my,
                sx == sy,
                0 < pow2(sx),
        ;
    } else if bx == 0 {
        lemma2_to64();
        assert(mx * pow2(sx) < my * pow2(sy)) by (nonlinear_arith)
            requires
                0 <= mx < 0x80_0000,
                pow2(sx) == 1,
                0x80_0000 <= my,
                1 <= pow2(sy),
        ;
    } else {
        if sx + 1 < sy {
            lemma_pow2_strictly_increases(sx + 1, sy);
        }
        lemma_pow2_unfold(sx + 1);
        assert(mx * pow2(sx) < my * pow2(sy)) by (nonlinear_arith)
            requires
                0 <= mx < 0x100_0000,
                0x80_0000 <= my,
                0 < pow2(sx),
                pow2(sx + 1) == 2 * pow2(sx),
                pow2(sx + 1) <= pow2(sy),
        ;
    }
}

/// Among patterns without a sign bit, the order of the patterns is the
/// order of the encoded values.
proof fn lemma_magnitudes_compare(x: u32, y: u32)
    requires
        x <= INFINITY,
        y <= INFINITY,
    ensures
        x < y <==> scaled_value(x) < scaled_value(y),
        x == y <==> scaled_value(x) == scaled_value(y),
        0 <= scaled_value(x),
{
    if x < y {
        lemma_magnitudes_ordered(x, y);
    } else if y < x {
        lemma_magnitudes_ordered(y, x);
    } else {
        lemma_pow2_pos((exponent(x) + 149) as nat);
        assert(0 <= significand(x) * pow2((exponent(x) + 149) as nat)) by (nonlinear_arith)
            requires
                0 <= significand(x),
                0 < pow2((exponent(x) + 149) as nat),
        ;
    }
}

/// The order of the encoded values can be read off the patterns: of two
/// patterns that are not NaNs, the one of lower rank encodes the lower
/// value, and both zeros encode the same.
pub proof fn lemma_rank_orders_values(a: u32, b: u32)
    requires
        !is_nan(a),
        !is_nan(b),
    ensures
        rank(a) < rank(b) <==> scaled_value(a) < scaled_value(b),
        rank(a) == rank(b) <==> scaled_value(a) == scaled_value(b),
{
    let x = magnitude(a) as u32;
    let y = magnitude(b) as u32;
    lemma_magnitudes_compare(x, y);
    lemma_magnitudes_compare(y, x);
    lemma_magnitudes_compare(0, x);
    lemma_magnitudes_compare(0, y);
    lemma_mul_unary_negation(significand(x), pow2((exponent(x) + 149) as nat) as int);
    lemma_mul_unary_negation(significand(y), pow2((exponent(y) + 149) as nat) as int);
    assert(scaled_value(a) == if is_negative(a) { -scaled_value(x) } else { scaled_value(x) });
    assert(scaled_value(b) == if is_negative(b) { -scaled_value(y) } else { scaled_value(y) });
    assert(scaled_value(0) == 0) by {
        assert(0 * pow2(0) == 0) by (nonlinear_arith);
    }
}

/// Returns whether the pattern encodes a NaN.
pub fn nan(bits: u32) -> (r: bool)
    ensures
        r == is_nan(bits),
{
    let mag: u32 = if bits >= SIGN { bits - SIGN } else { bits };
    mag > INFINITY
}

/// Returns whether the pattern encodes a finite number.
pub fn finite(bits: u32) -> (r: bool)
    ensures
        r == is_finite(bits),
{
    let mag: u32 = if bits >= SIGN { bits - SIGN } else { bits };
    mag < INFINITY
}

/// Compares two patterns as the numbers they encode, as `<` on binary32
/// does.
pub fn less_than(a: u32, b: u32) -> (r: bool)
    ensures
        r == less(a, b),
{
    if nan(a) || nan(b) {
        return false;
    }
    proof {
        lemma_rank_orders_values(a, b);
    }
    let ra: i64 = if a >= SIGN { -((a - SIGN) as i64) } else { a as i64 };
    let rb: i64 = if b >= SIGN { -((b - SIGN) as i64) } else { b as i64 };
    ra < rb
}

/// The largest integer that is not above the finite value `m * 2^e` that the
/// pattern encodes.
pub open spec fn floor_value(bits: u32) -> int {
    let e = exponent(bits);
    if e >= 0 {
        significand(bits) * pow2(e as nat)
    } else {
        significand(bits) / (pow2((-e) as nat) as int)
    }
}

/// Whether the pattern encodes a finite value whose floor is an `i64`.
pub open spec fn has_floor(bits: u32) -> bool {
    is_finite(bits) && i64::MIN <= floor_value(bits) <= i64::MAX
}

/// `floor_value` is the floor: in units of 2^-149, the floor of a finite
/// value is not above the value, and the next integer is.
pub proof fn lemma_floor_brackets_value(bits: u32)
    requires
        is_finite(bits),
    ensures
        floor_value(bits) * pow2(149) <= scaled_value(bits) < (floor_value(bits) + 1) * pow2(149),
{
    let m = significand(bits);
    let e = exponent(bits);
    if e >= 0 {
        lemma_pow2_adds(e as nat, 149);
        lemma_pow2_pos(149);
        assert(m * pow2(e as nat) * pow2(149) == m * pow2((e + 149) as nat)
            && m * pow2(e as nat) * pow2(149) < (m * pow2(e as nat) + 1) * pow2(149))
            by (nonlinear_arith)
            requires
                pow2((e + 149) as nat) == pow2(e as nat) * pow2(149),
                0 < pow2(149),
        ;
    } else {
        let k = (-e) as nat;
        let rest = (149 - k) as nat;
        let p = pow2(k) as int;
        lemma_pow2_adds(k, rest);
        lemma_pow2_pos(k);
        lemma_pow2_pos(rest);
        lemma_fundamental_div_mod(m, p);
        let q = m / p;
        let r = m % p;
        assert(q * pow2(149) <= m * pow2(rest) < (q + 1) * pow2(149)) by (nonlinear_arith)
            requires
                pow2(149) == p * pow2(rest),
                m == p * q + r,
                0 <= r < p,
                0 < pow2(rest),
        ;
    }
}

/// The quotient of a negated dividend, rounded down, from the quotient and
/// remainder of the dividend itself.
proof fn lemma_floor_of_negation(m: int, p: int)
    requires
        0 <= m,
        0 < p,
    ensures
        (-m) / p == if m % p == 0 { -(m / p) } else { -(m / p) - 1 },
{
    let q = m / p;
    let r = m % p;
    lemma_fundamental_div_mod(m, p);
    assert(m == p * q + r);
    if r == 0 {
        assert(-m == (-q) * p + 0) by (nonlinear_arith)
            requires
                m == p * q + r,
                r == 0,
        ;
        lemma_fundamental_div_mod_converse(-m, p, -q, 0);
    } else {
        assert(-m == (-q - 1) * p + (p - r)) by (nonlinear_arith)
            requires
                m == p * q + r,
        ;
        lemma_fundamental_div_mod_converse(-m, p, -q - 1, p - r);
    }
}

/// A value below one in magnitude floors to 0, or to -1 where it is negative.
proof fn lemma_floor_of_small(m: int, p: int)
    requires
        0 <= m < p,
    ensures
        m / p == 0,
        (-m) / p == if m == 0 { 0int } else { -1int },
{
    lemma_fundamental_div_mod_converse(m, p, 0, m);
    lemma_floor_of_negation(m, p);
}

/// Floors the encoded value to an integer.
///
/// The result is `None` for an infinity or a NaN and for a finite value
/// whose floor does not fit in an `i64`; otherwise it is the floor, exactly.
pub fn floor(bits: u32) -> (r: Option<i64>)
    ensures
        r == (if has_floor(bits) {
            Some(floor_value(bits) as i64)
        } else {
            None::<i64>
        }),
{
    let negative = bits >= SIGN;
    let mag: u32 = if negative { bits - SIGN } else { bits };
    let biased: u32 = mag / 0x80_0000;
    let frac: u32 = mag % 0x80_0000;
    proof {
        lemma2_to64();
        lemma2_to64_rest();
    }
    if biased == 255 {
        return None;
    }
    if biased == 0 {
        proof {
            lemma_pow2_strictly_increases(24, 149);
            lemma_floor_of_small(frac as int, pow2(149) as int);
        }
        return Some(if negative && frac != 0 { -1 } else { 0 });
    }
    let m: u64 = (frac + 0x80_0000) as u64;
    if biased >= 150 {
        let e: u32 = biased - 150;
        proof {
            lemma_pow2_pos(e as nat);
            lemma_mul_unary_negation(m as int, pow2(e as nat) as int);
        }
        if e <= 39 {
            proof {
                if e < 39 {
                    lemma_pow2_strictly_increases(e as nat, 39);
                }
                lemma_mul_inequality(pow2(e as nat) as int, pow2(39) as int, m as int);
                assert(m * pow2(e as nat) <= m * pow2(39)) by (nonlinear_arith)
                    requires
                        pow2(e as nat) * m <= pow2(39) * m,
                ;
                lemma_u64_shl_is_mul(m, e as u64);
            }
            let v: u64 = m << (e as u64);
            Some(if negative { -(v as i64) } else { v as i64 })
        } else if negative && e == 40 && frac == 0 {
            Some(i64::MIN)
        } else {
            proof {
                if e > 40 {
                    lemma_pow2_strictly_increases(40, e as nat);
                    lemma_mul_strict_inequality(pow2(40) as int, pow2(e as nat) as int, m as int);
                    assert(m * pow2(e as nat) > m * pow2(40)) by (nonlinear_arith)
                        requires
                            pow2(40) * m < pow2(e as nat) * m,
                    ;
                }
            }
            None
        }
    } else {
        let k: u32 = 150 - biased;
        if k >= 24 {
            proof {
                if k > 24 {
                    lemma_pow2_strictly_increases(24, k as nat);
                }
                lemma_floor_of_small(m as int, pow2(k as nat) as int);
            }
            Some(if negative { -1 } else { 0 })
        } else {
            proof {
                lemma_pow2_strictly_increases(k as nat, 24);
                lemma_u64_shl_is_mul(1, k as u64);
                lemma_floor_of_negation(m as int, pow2(k as nat) as int);
            }
            let p: u64 = 1u64 << (k as u64);
            let q: u64 = m / p;
            let rest: u64 = m % p;
            Some(if !negative { q as i64 } else if rest == 0 { -(q as i64) } else { -(q as i64) - 1 })
        }
    }
}

} // verus!
