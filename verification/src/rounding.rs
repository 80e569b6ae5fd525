//! Exact integer model of the single-precision arithmetic Herdr performs on
//! split ratios. A ratio travels as the 32-bit pattern of an IEEE 754 binary32
//! value; the functions here compute, with integers only, the results that the
//! binary32 operations give on such patterns.

use vstd::arithmetic::div_mod::*;
use vstd::arithmetic::mul::*;
use vstd::arithmetic::power2::*;
use vstd::prelude::*;

verus! {

/// Two to the 24th: a binary32 significand holds fewer bits than this.
pub const SIGNIFICAND_LIMIT: u128 = 0x100_0000;

/// The number of low bits of `p` that do not fit in a 24-bit significand.
pub open spec fn excess_bits(p: nat) -> nat
    decreases p,
{
    if p < 0x100_0000 {
        0
    } else {
        1 + excess_bits(p / 2)
    }
}

/// `p` rounded to 24 significant bits, ties to even: the value that a
/// binary32 operation stores when its exact result is the integer `p`
/// (scaled by any power of two that stays above the subnormal range).
pub open spec fn round_to_precision(p: nat) -> nat {
    let unit = pow2(excess_bits(p));
    let q = p / unit;
    let r = p % unit;
    if 2 * r > unit || (2 * r == unit && q % 2 == 1) {
        ((q + 1) * unit) as nat
    } else {
        (q * unit) as nat
    }
}

proof fn lemma_excess_step(p: nat, unit: nat, s: nat)
    requires
        unit == pow2(s),
        p / unit >= 0x100_0000,
    ensures
        excess_bits(p / unit) == 1 + excess_bits(p / (unit * 2)),
        unit * 2 == pow2(s + 1),
{
    lemma_pow2_pos(s);
    lemma_pow2_unfold(s + 1);
    lemma_div_denominator(p as int, unit as int, 2);
}

/// Rounds `p` to 24 significant bits, ties to even.
pub fn round_to_precision_exec(p: u128) -> (rounded: u128)
    requires
        p < 0x4_0000_0000_0000_0000,
    ensures
        rounded == round_to_precision(p as nat),
        rounded <= 2 * p,
{
    let mut unit: u128 = 1;
    let ghost mut s: nat = 0;
    proof {
        lemma2_to64();
    }
    while p / unit >= SIGNIFICAND_LIMIT
        invariant
            unit == pow2(s),
            unit >= 1,
            excess_bits(p as nat) == s + excess_bits((p / unit) as nat),
            unit == 1 || unit * 0x80_0000 <= p,
            p < 0x4_0000_0000_0000_0000,
        decreases p / unit,
    {
        proof {
            lemma_excess_step(p as nat, unit as nat, s);
            lemma_fundamental_div_mod(p as int, unit as int);
            lemma_div_denominator(p as int, unit as int, 2);
            assert(unit * 0x100_0000 <= p) by (nonlinear_arith)
                requires
                    p / unit >= 0x100_0000,
                    unit >= 1,
                    p == unit * (p / unit) + p % unit,
                    p % unit >= 0,
            ;
            lemma_div_is_strictly_smaller((p / unit) as int, 2);
        }
        unit = unit * 2;
        proof {
            s = s + 1;
        }
    }
    assert(excess_bits((p / unit) as nat) == 0);
    let q = p / unit;
    let r = p % unit;
    proof {
        lemma_fundamental_div_mod(p as int, unit as int);
        lemma_mod_bound(p as int, unit as int);
    }
    if 2 * r > unit || (2 * r == unit && q % 2 == 1) {
        proof {
            assert(unit == 1 || unit * 0x80_0000 <= p);
            assert((q + 1) * unit == q * unit + unit) by (nonlinear_arith);
            assert(q * unit <= p) by (nonlinear_arith)
                requires
                    p == unit * q + r,
                    r >= 0,
            ;
            if unit == 1 {
                assert(r == 0);
            }
        }
        (q + 1) * unit
    } else {
        proof {
            assert(q * unit <= p) by (nonlinear_arith)
                requires
                    p == unit * q + r,
                    r >= 0,
            ;
        }
        q * unit
    }
}


proof fn lemma_excess_monotone(a: nat, b: nat)
    requires
        a <= b,
    ensures
        excess_bits(a) <= excess_bits(b),
    decreases b,
{
    if a >= 0x100_0000 {
        lemma_excess_monotone(a / 2, b / 2);
    }
}

proof fn lemma_excess_bound(x: nat, j: nat)
    requires
        x < pow2(24 + j),
    ensures
        excess_bits(x) <= j,
    decreases j,
{
    lemma2_to64();
    if x >= 0x100_0000 {
        if j == 0 {
            assert(false);
        } else {
            lemma_pow2_unfold(24 + j);
            assert(x / 2 < pow2((24 + j - 1) as nat));
            lemma_excess_bound(x / 2, (j - 1) as nat);
        }
    }
}

/// Rounding never passes a bound that lies on the rounding grid.
proof fn lemma_round_at_most(p: nat, bound: nat)
    requires
        p <= bound,
        bound % pow2(excess_bits(p)) == 0,
    ensures
        round_to_precision(p) <= bound,
{
    let unit = pow2(excess_bits(p));
    lemma_pow2_pos(excess_bits(p));
    let q = p / unit;
    let r = p % unit;
    lemma_fundamental_div_mod(p as int, unit as int);
    lemma_fundamental_div_mod(bound as int, unit as int);
    lemma_mod_bound(p as int, unit as int);
    lemma_div_is_ordered(p as int, bound as int, unit as int);
    let top = bound / unit;
    assert(bound == top * unit) by (nonlinear_arith)
        requires
            bound == unit * top + bound % unit,
            bound % unit == 0,
    ;
    assert(p == q * unit + r) by (nonlinear_arith)
        requires
            p == unit * q + p % unit,
            r == p % unit,
    ;
    if q < top {
        assert((q + 1) * unit <= top * unit) by (nonlinear_arith)
            requires
                q + 1 <= top,
                unit > 0,
        ;
        assert(q * unit <= (q + 1) * unit) by (nonlinear_arith)
            requires
                unit > 0,
        ;
    } else {
        assert(q == top);
        assert(r == 0);
        assert(2 * r < unit);
    }
}

/// True when `bits` encodes a finite binary32 value in `0.0..=1.0`,
/// with either sign of zero.
pub open spec fn is_unit_interval(bits: u32) -> bool {
    bits <= 0x3F80_0000 || bits == 0x8000_0000
}

/// The biased exponent field of the binary32 pattern `bits`.
pub open spec fn exponent_field(bits: u32) -> nat {
    ((bits % 0x8000_0000) / 0x80_0000) as nat
}

/// The integer significand of `bits`, hidden bit included.
pub open spec fn significand(bits: u32) -> nat {
    if exponent_field(bits) == 0 {
        (bits % 0x80_0000) as nat
    } else {
        (bits % 0x80_0000) as nat + 0x80_0000
    }
}

/// The power of two that divides the significand: for a pattern in the unit
/// interval, its value is `significand(bits) / 2^scale(bits)`.
pub open spec fn scale(bits: u32) -> nat {
    if exponent_field(bits) == 0 {
        149
    } else {
        (150 - exponent_field(bits)) as nat
    }
}

/// `round(length * r)` as Herdr computes it in single precision for the ratio
/// whose pattern is `bits`: the product is rounded to the binary32 grid, then
/// rounded half away from zero to a whole number of cells.
pub open spec fn scaled_extent(length: nat, bits: u32) -> nat {
    let k = scale(bits);
    ((round_to_precision(length * significand(bits)) + pow2((k - 1) as nat)) / pow2(k)) as nat
}

proof fn lemma_unit_interval_parts(bits: u32)
    requires
        is_unit_interval(bits),
    ensures
        23 <= scale(bits) <= 149,
        significand(bits) <= pow2(scale(bits)),
        significand(bits) < 0x100_0000,
{
    lemma2_to64();
    let e = exponent_field(bits);
    assert(e <= 127);
    if e == 127 {
        assert(bits == 0x3F80_0000);
        assert(significand(bits) == 0x80_0000);
    } else if e == 0 {
        lemma_pow2_strictly_increases(23, 149);
    } else {
        if scale(bits) > 24 {
            lemma_pow2_strictly_increases(24, scale(bits));
        }
    }
}

/// For a ratio in the unit interval, the scaled extent never exceeds the length.
proof fn lemma_extent_at_most_length(length: nat, bits: u32)
    requires
        is_unit_interval(bits),
        length < 0x1_0000,
    ensures
        scaled_extent(length, bits) <= length,
{
    lemma2_to64();
    lemma_unit_interval_parts(bits);
    let k = scale(bits);
    let sig = significand(bits);
    let p = length * sig;
    lemma_pow2_pos(k);
    let bound = length * pow2(k);
    assert(p <= bound) by (nonlinear_arith)
        requires
            sig <= pow2(k),
            p == length * sig,
            bound == length * pow2(k),
    ;
    lemma_pow2_adds(16, k);
    assert(bound < pow2(16) * pow2(k)) by (nonlinear_arith)
        requires
            length < pow2(16),
            pow2(k) > 0,
            bound == length * pow2(k),
    ;
    assert(24 + (k - 8) == 16 + k);
    lemma_excess_monotone(p, bound);
    lemma_excess_bound(bound, (k - 8) as nat);
    let s = excess_bits(p);
    lemma_pow2_adds(s, (k - s) as nat);
    lemma_pow2_pos(s);
    lemma_pow2_pos((k - s) as nat);
    assert(bound == (length * pow2((k - s) as nat)) * pow2(s)) by (nonlinear_arith)
        requires
            bound == length * pow2(k),
            pow2(k) == pow2(s) * pow2((k - s) as nat),
    ;
    lemma_mod_multiples_basic((length * pow2((k - s) as nat)) as int, pow2(s) as int);
    lemma_round_at_most(p, bound);
    let half = pow2((k - 1) as nat);
    lemma_pow2_unfold(k);
    lemma_div_is_ordered(
        (round_to_precision(p) + half) as int,
        (bound + half) as int,
        pow2(k) as int,
    );
    lemma_div_multiples_vanish_fancy(length as int, half as int, pow2(k) as int);
    assert(pow2(k) * length == bound) by (nonlinear_arith)
        requires
            bound == length * pow2(k),
    ;
}

proof fn lemma_small_quotient(x: nat, k: nat)
    requires
        x < pow2(k),
    ensures
        x / pow2(k) == 0,
{
    lemma_pow2_pos(k);
    lemma_basic_div(x as int, pow2(k) as int);
}

/// The number of cells that the first part of a split of `length` cells
/// takes when Herdr applies the ratio whose pattern is `bits`.
pub fn scaled_extent_exec(length: u16, bits: u32) -> (extent: u16)
    requires
        is_unit_interval(bits),
    ensures
        extent == scaled_extent(length as nat, bits),
        extent <= length,
{
    proof {
        lemma2_to64();
        lemma2_to64_rest();
        lemma_unit_interval_parts(bits);
        lemma_extent_at_most_length(length as nat, bits);
    }
    let magnitude = bits % 0x8000_0000;
    let exponent = magnitude / 0x80_0000;
    let fraction = bits % 0x80_0000;
    let sig: u128 = if exponent == 0 {
        fraction as u128
    } else {
        fraction as u128 + 0x80_0000
    };
    let k: u32 = if exponent == 0 {
        149
    } else {
        150 - exponent
    };
    assert(sig == significand(bits));
    assert(k == scale(bits));
    assert((length as u128) * sig < 0x100_0000_0000) by (nonlinear_arith)
        requires
            length < 0x1_0000,
            sig < 0x100_0000,
    ;
    let product: u128 = (length as u128) * sig;
    assert(product < 0x100_0000_0000) by (nonlinear_arith)
        requires
            product == length * sig,
            length < 0x1_0000,
            sig < 0x100_0000,
    ;
    let rounded = round_to_precision_exec(product);
    if k >= 42 {
        proof {
            lemma2_to64_rest();
            if k - 1 > 41 {
                lemma_pow2_strictly_increases(41, (k - 1) as nat);
            }
            lemma_pow2_unfold(k as nat);
            lemma_small_quotient(rounded as nat + pow2((k - 1) as nat), k as nat);
        }
        return 0;
    }
    let mut unit: u128 = 1;
    let mut i: u32 = 0;
    while i < k
        invariant
            i <= k,
            k < 42,
            unit == pow2(i as nat),
        decreases k - i,
    {
        proof {
            lemma_pow2_unfold((i + 1) as nat);
            if i + 1 < 41 {
                lemma_pow2_strictly_increases((i + 1) as nat, 41);
            }
            lemma2_to64_rest();
        }
        unit = unit * 2;
        i = i + 1;
    }
    proof {
        lemma_pow2_unfold(k as nat);
    }
    let half = unit / 2;
    let extent = (rounded + half) / unit;
    extent as u16
}


/// The smallest `s` with `a * 2^s >= b`, for a positive `a`.
pub open spec fn lift(a: nat, b: nat) -> nat
    decreases (if a < b { (b - a) as nat } else { 0nat }),
{
    if a == 0 || a >= b {
        0
    } else {
        1 + lift(2 * a, b)
    }
}

/// The pattern of the binary32 value nearest to `a / b` (ties to even), for
/// `0 < a <= b`. With `s = lift(a, b)` the quotient lies in `[2^-s, 2^(1-s))`;
/// its 24-bit significand is `a * 2^(s + 23) / b` rounded to nearest, even on
/// a tie, and a carry out of the significand moves to the exponent.
pub open spec fn quotient_pattern(a: nat, b: nat) -> nat {
    if a >= b {
        0x3F80_0000
    } else {
        let s = lift(a, b);
        let n = a * pow2(s + 23);
        let q = n / b;
        let r = n % b;
        let rounded = if 2 * r > b || (2 * r == b && q % 2 == 1) {
            q + 1
        } else {
            q
        };
        ((127 - s) * 0x80_0000 + rounded - 0x80_0000) as nat
    }
}

proof fn lemma_lift_step(a: nat, b: nat)
    requires
        0 < a < b,
    ensures
        lift(a, b) == 1 + lift(2 * a, b),
{
}

/// Divides `a` by `b` as single precision does, for `0 < a <= b < 2^65`.
pub fn quotient_pattern_exec(a: u128, b: u128) -> (bits: u32)
    requires
        0 < a <= b,
        b <= 0x2_0000_0000_0000_0000,
    ensures
        bits == quotient_pattern(a as nat, b as nat),
        bits <= 0x3F80_0000,
        bits > 0,
{
    proof {
        lemma2_to64();
        lemma2_to64_rest();
    }
    if a >= b {
        return 0x3F80_0000;
    }
    let mut m: u128 = a;
    let mut s: u32 = 0;
    while m < b
        invariant
            0 < a < b,
            b <= 0x2_0000_0000_0000_0000,
            m == a * pow2(s as nat),
            m > 0,
            s == 0 || m < 2 * b,
            s <= 66,
            m < b ==> lift(a as nat, b as nat) == s + lift(m as nat, b as nat),
            m >= b ==> lift(a as nat, b as nat) == s,
        decreases 66 - s,
    {
        proof {
            lemma_lift_step(m as nat, b as nat);
            lemma_pow2_unfold((s + 1) as nat);
            assert(a * pow2((s + 1) as nat) == 2 * m) by (nonlinear_arith)
                requires
                    m == a * pow2(s as nat),
                    pow2((s + 1) as nat) == 2 * pow2(s as nat),
            ;
            if s >= 65 {
                lemma2_to64();
                lemma_pow2_unfold(65);
                if s > 65 {
                    lemma_pow2_strictly_increases(65, s as nat);
                }
                assert(a * pow2(s as nat) >= pow2(s as nat)) by (nonlinear_arith)
                    requires
                        a >= 1,
                ;
                assert(false);
            }
        }
        m = m * 2;
        s = s + 1;
    }
    assert(lift(a as nat, b as nat) == s);
    assert(s >= 1);
    // b <= m < 2b, so the 24-bit quotient lies in [2^23, 2^24).
    let n: u128 = m * 0x80_0000;
    proof {
        lemma_pow2_adds(s as nat, 23);
        assert(n == a * pow2((s + 23) as nat)) by (nonlinear_arith)
            requires
                n == m * 0x80_0000,
                m == a * pow2(s as nat),
                pow2((s + 23) as nat) == pow2(s as nat) * 0x80_0000,
        ;
    }
    let q = n / b;
    let r = n % b;
    proof {
        lemma_fundamental_div_mod(n as int, b as int);
        lemma_mod_bound(n as int, b as int);
        assert(0x80_0000 <= q < 0x100_0000) by (nonlinear_arith)
            requires
                b <= m < 2 * b,
                n == m * 0x80_0000,
                n == b * q + r,
                0 <= r < b,
        ;
    }
    let rounded = if 2 * r > b || (2 * r == b && q % 2 == 1) {
        q + 1
    } else {
        q
    };
    let pattern = (127 - s as u128) * 0x80_0000 + rounded - 0x80_0000;
    pattern as u32
}

/// Rounding to 24 significant bits is monotone.
proof fn lemma_round_monotone(a: nat, b: nat)
    requires
        a <= b,
    ensures
        round_to_precision(a) <= round_to_precision(b),
{
    let sa = excess_bits(a);
    let sb = excess_bits(b);
    lemma_excess_monotone(a, b);
    lemma_pow2_pos(sa);
    lemma_pow2_pos(sb);
    let ua = pow2(sa);
    let ub = pow2(sb);
    lemma_fundamental_div_mod(a as int, ua as int);
    lemma_fundamental_div_mod(b as int, ub as int);
    lemma_mod_bound(a as int, ua as int);
    lemma_mod_bound(b as int, ub as int);
    lemma_round_bounds(a);
    lemma_round_bounds(b);
    if sa < sb {
        // a stays below 2^(24 + sa) after rounding, b stays at or above 2^(23 + sb).
        assert(b >= 0x100_0000);
        if sa + 24 < sb + 23 {
            lemma_pow2_strictly_increases(sa + 24, sb + 23);
        }
        assert(round_to_precision(a) <= pow2(24 + sa));
        assert(pow2(24 + sa) <= pow2(23 + sb));
        assert(round_to_precision(b) >= pow2(23 + sb));
    } else {
        assert(sa == sb);
        let q_a = a / ua;
        let q_b = b / ua;
        lemma_div_is_ordered(a as int, b as int, ua as int);
        if q_a < q_b {
            assert((q_a + 1) * ua <= q_b * ua) by (nonlinear_arith)
                requires
                    q_a + 1 <= q_b,
                    ua > 0,
            ;
            assert(q_a * ua <= (q_a + 1) * ua) by (nonlinear_arith)
                requires
                    ua > 0,
            ;
            assert(q_b * ua <= (q_b + 1) * ua) by (nonlinear_arith)
                requires
                    ua > 0,
            ;
        } else {
            assert(q_a == q_b);
            assert(ua * q_a == ua * q_b);
            let ra = a % ua;
            let rb = b % ua;
            assert(ra <= rb);
            if 2 * ra > ua || (2 * ra == ua && q_a % 2 == 1) {
                assert(2 * rb > ua || (2 * rb == ua && q_b % 2 == 1));
            }
            assert(q_a * ua <= (q_a + 1) * ua) by (nonlinear_arith)
                requires
                    ua > 0,
            ;
        }
    }
}

/// The rounded value stays within `2^(24 + excess)` and keeps the
/// grid's lower bound.
proof fn lemma_round_bounds(p: nat)
    ensures
        round_to_precision(p) <= pow2(24 + excess_bits(p)),
        p >= 0x100_0000 ==> round_to_precision(p) >= pow2(23 + excess_bits(p)),
{
    lemma2_to64();
    let s = excess_bits(p);
    let unit = pow2(s);
    lemma_pow2_pos(s);
    lemma_pow2_adds(24, s);
    lemma_pow2_adds(23, s);
    lemma_excess_low(p);
    let q = p / unit;
    lemma_fundamental_div_mod(p as int, unit as int);
    lemma_mod_bound(p as int, unit as int);
    assert(q < 0x100_0000);
    assert((q + 1) * unit <= 0x100_0000 * unit) by (nonlinear_arith)
        requires
            q + 1 <= 0x100_0000,
            unit > 0,
    ;
    assert(q * unit <= (q + 1) * unit) by (nonlinear_arith)
        requires
            unit > 0,
    ;
    if p >= 0x100_0000 {
        lemma_excess_floor(p);
        assert(q >= 0x80_0000);
        assert(q * unit >= 0x80_0000 * unit) by (nonlinear_arith)
            requires
                q >= 0x80_0000,
                unit > 0,
        ;
    }
}

/// After dropping the excess bits, fewer than 24 bits remain.
proof fn lemma_excess_low(p: nat)
    ensures
        p / pow2(excess_bits(p)) < 0x100_0000,
    decreases p,
{
    lemma2_to64();
    if p >= 0x100_0000 {
        lemma_excess_low(p / 2);
        let s = excess_bits(p / 2);
        lemma_pow2_pos(s);
        lemma_pow2_unfold(s + 1);
        lemma_div_denominator(p as int, 2, pow2(s) as int);
    }
}

/// A value with excess bits keeps at least 24 bits after dropping them.
proof fn lemma_excess_floor(p: nat)
    requires
        p >= 0x100_0000,
    ensures
        p / pow2(excess_bits(p)) >= 0x80_0000,
        p >= pow2(23 + excess_bits(p)),
    decreases p,
{
    lemma2_to64();
    let s = excess_bits(p / 2);
    lemma_pow2_pos(s);
    lemma_pow2_unfold(s + 1);
    lemma_div_denominator(p as int, 2, pow2(s) as int);
    if p / 2 >= 0x100_0000 {
        lemma_excess_floor(p / 2);
    } else {
        assert(s == 0);
    }
    lemma_pow2_adds(23, s + 1);
    lemma_fundamental_div_mod(p as int, pow2(s + 1) as int);
    lemma_mod_bound(p as int, pow2(s + 1) as int);
    assert(p >= 0x80_0000 * pow2(s + 1)) by (nonlinear_arith)
        requires
            p == pow2(s + 1) * (p / pow2(s + 1)) + p % pow2(s + 1),
            p / pow2(s + 1) >= 0x80_0000,
            p % pow2(s + 1) >= 0,
    ;
}

/// The nearest single-precision value to the count `n`, as a whole number:
/// what `n as f32` holds.
pub open spec fn nearest_representable(n: nat) -> nat {
    round_to_precision(n)
}

/// The pattern of `first as f32 / total as f32` for counts `0 < first <= total`:
/// both counts are rounded to single precision, then divided.
pub open spec fn count_ratio_pattern(first: nat, total: nat) -> nat {
    quotient_pattern(nearest_representable(first), nearest_representable(total))
}

/// The single-precision share `first / total` of two counts, as a bit pattern
/// in the unit interval.
pub fn count_ratio_exec(first: usize, total: usize) -> (bits: u32)
    requires
        0 < first <= total,
    ensures
        bits == count_ratio_pattern(first as nat, total as nat),
        is_unit_interval(bits),
        bits > 0,
{
    proof {
        lemma2_to64();
        lemma_round_monotone(first as nat, total as nat);
        lemma_round_bounds(first as nat);
        lemma_round_positive(first as nat);
    }
    let a = round_to_precision_exec(first as u128);
    let b = round_to_precision_exec(total as u128);
    quotient_pattern_exec(a, b)
}

proof fn lemma_round_positive(p: nat)
    requires
        p > 0,
    ensures
        round_to_precision(p) > 0,
{
    lemma2_to64();
    if p >= 0x100_0000 {
        lemma_round_bounds(p);
        lemma_pow2_pos(23 + excess_bits(p));
    } else {
        assert(excess_bits(p) == 0);
        assert(pow2(0) == 1);
        assert(p / 1 == p);
        assert(p % 1 == 0);
    }
}

} // verus!

verus! {

/// Counts below `2^24` are single-precision values already.
proof fn lemma_small_counts_exact(p: nat)
    requires
        p < 0x100_0000,
    ensures
        nearest_representable(p) == p,
{
    lemma2_to64();
    assert(excess_bits(p) == 0);
    assert(p / 1 == p);
    assert(p % 1 == 0);
}

/// The share `first / total` of two counts below `2^24` whose quotient lies
/// in `[1/2, 2/3]` has a pattern between those of `0.5` and of `2/3`.
pub proof fn lemma_count_ratio_between_half_and_two_thirds(first: nat, total: nat)
    requires
        0 < first < total < 0x100_0000,
        2 * first >= total,
        3 * first <= 2 * total,
    ensures
        0x3F00_0000 <= count_ratio_pattern(first, total) <= 0x3F2A_AAAB,
{
    lemma_small_counts_exact(first);
    lemma_small_counts_exact(total);
    lemma2_to64();
    lemma_lift_step(first, total);
    assert(lift(2 * first, total) == 0);
    assert(lift(first, total) == 1);
    let n = first * pow2(24);
    assert(pow2(24) == 0x100_0000);
    let q = n / total;
    assert(n >= total * 0x80_0000) by (nonlinear_arith)
        requires
            n == first * 0x100_0000,
            2 * first >= total,
    ;
    assert(3 * n <= total * 0x200_0000) by (nonlinear_arith)
        requires
            n == first * 0x100_0000,
            3 * first <= 2 * total,
    ;
    lemma_fundamental_div_mod(n as int, total as int);
    lemma_mod_bound(n as int, total as int);
    assert(q >= 0x80_0000) by (nonlinear_arith)
        requires
            n == total * q + n % total,
            0 <= n % total < total,
            n >= total * 0x80_0000,
            total > 0,
    ;
    assert(q <= 11_184_810) by (nonlinear_arith)
        requires
            n == total * q + n % total,
            0 <= n % total < total,
            3 * n <= total * 0x200_0000,
            total > 0,
    ;
}

} // verus!
