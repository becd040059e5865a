//! Whole numbers as double-precision numbers hold them.
//!
//! Durations and request counts are kept in double precision. Here such a number is an
//! integer: the one that is nearest to the number it was made from.

use vstd::arithmetic::div_mod::*;
use vstd::arithmetic::power2::*;
use vstd::prelude::*;

verus! {

/// 2 to the 53rd: below it every whole number is a double.
pub const EXACT: u128 = 0x20_0000_0000_0000;

/// 2 to the 52nd.
pub const HALF: u128 = 0x10_0000_0000_0000;

/// 2 to the 64th.
pub const LIMIT: i128 = 0x1_0000_0000_0000_0000;

/// The distance between the doubles around `a`, for whole `a`.
pub open spec fn spacing(a: nat) -> nat
    decreases a,
{
    if a < EXACT {
        1
    } else {
        2 * spacing(a / 2)
    }
}

/// The double nearest to `a`; halfway between two, the one with the even significand.
pub open spec fn nearest_above_zero(a: nat) -> nat {
    let unit = spacing(a);
    let low = a / unit;
    let rest = a % unit;
    if 2 * rest < unit || (2 * rest == unit && low % 2 == 0) {
        low * unit
    } else {
        (low + 1) * unit
    }
}

/// The double nearest to the whole number `v`.
pub open spec fn nearest_double(v: int) -> int {
    if v >= 0 {
        nearest_above_zero(v as nat) as int
    } else {
        -nearest_above_zero((-v) as nat)
    }
}

/// `v` brought into the range of `u64`.
pub open spec fn clamped_u64(v: int) -> u64 {
    if v < 0 {
        0
    } else if v > u64::MAX {
        u64::MAX
    } else {
        v as u64
    }
}

/// `v` brought into the range of `i64`.
pub open spec fn clamped_i64(v: int) -> i64 {
    if v < i64::MIN {
        i64::MIN
    } else if v > i64::MAX {
        i64::MAX
    } else {
        v as i64
    }
}

proof fn lemma_spacing_bounds(a: nat)
    ensures
        spacing(a) >= 1,
        a < spacing(a) * EXACT,
        a >= EXACT ==> spacing(a) * HALF <= a,
        spacing(a) <= a + 1,
    decreases a,
{
    if a >= EXACT {
        lemma_spacing_bounds(a / 2);
        if a / 2 < EXACT {
            assert(spacing(a / 2) == 1);
        }
    }
}

/// The double nearest to `v`.
pub fn to_double(v: i128) -> (r: i128)
    requires
        -LIMIT <= v <= LIMIT,
    ensures
        r == nearest_double(v as int),
        -2 * LIMIT <= r <= 2 * LIMIT,
{
    let a: u128 = if v >= 0 {
        v as u128
    } else {
        (-v) as u128
    };
    let mut unit: u128 = 1;
    let mut rest: u128 = a;
    while rest >= EXACT
        invariant
            spacing(a as nat) == unit * spacing(rest as nat),
            unit >= 1,
            unit * rest <= a,
            a <= LIMIT,
        decreases rest,
    {
        let ghost u: int = unit as int;
        let ghost b: int = rest as int;
        proof {
            let half: int = b / 2;
            let tail: int = spacing((b / 2) as nat) as int;
            assert(u * (2 * tail) == (2 * u) * tail) by (nonlinear_arith);
            assert((2 * u) * half <= u * b) by (nonlinear_arith)
                requires
                    u >= 1,
                    2 * half <= b,
            ;
            assert(2 * u <= (2 * u) * half) by (nonlinear_arith)
                requires
                    u >= 1,
                    half >= 1,
            ;
        }
        unit = 2 * unit;
        rest = rest / 2;
    }
    proof {
        assert(unit * 1 == unit) by (nonlinear_arith);
        lemma_spacing_bounds(a as nat);
    }
    let low: u128 = a / unit;
    let over: u128 = a % unit;
    proof {
        let x: int = a as int;
        let u: int = unit as int;
        assert((x / u) * u <= x) by (nonlinear_arith)
            requires
                x >= 0,
                u >= 1,
        ;
        assert((x / u + 1) * u == (x / u) * u + u) by (nonlinear_arith);
        assert(0 <= (x / u) * u) by (nonlinear_arith)
            requires
                x >= 0,
                u >= 1,
        ;
    }
    let size: u128 = if 2 * over < unit || (2 * over == unit && low % 2 == 0) {
        low * unit
    } else {
        (low + 1) * unit
    };
    if v >= 0 {
        size as i128
    } else {
        -(size as i128)
    }
}

/// `v` brought into the range of `u64`.
pub fn clamp_u64(v: i128) -> (r: u64)
    ensures
        r == clamped_u64(v as int),
{
    if v < 0 {
        0
    } else if v > u64::MAX as i128 {
        u64::MAX
    } else {
        v as u64
    }
}

/// `v` brought into the range of `i64`.
pub fn clamp_i64(v: i128) -> (r: i64)
    ensures
        r == clamped_i64(v as int),
{
    if v < i64::MIN as i128 {
        i64::MIN
    } else if v > i64::MAX as i128 {
        i64::MAX
    } else {
        v as i64
    }
}

proof fn lemma_spacing_of_multiple(b: nat, k: nat)
    requires
        HALF <= k < EXACT,
    ensures
        spacing(k * spacing(b)) == spacing(b),
    decreases b,
{
    if b < EXACT {
        assert(k * 1 == k);
    } else {
        let half = spacing(b / 2);
        lemma_spacing_of_multiple(b / 2, k);
        lemma_spacing_bounds(b / 2);
        assert(k * (2 * half) == 2 * (k * half)) by (nonlinear_arith);
        assert(k * half >= k) by (nonlinear_arith)
            requires
                half >= 1,
                k >= 0,
        ;
        assert((2 * (k * half)) / 2 == k * half);
    }
}

proof fn lemma_multiple_is_double(u: nat, a: nat)
    requires
        spacing(a) == u,
        a % u == 0,
        u >= 1,
    ensures
        nearest_above_zero(a) == a,
{
    let ai = a as int;
    let ui = u as int;
    assert((ai / ui) * ui == ai) by (nonlinear_arith)
        requires
            ai % ui == 0,
            ui >= 1,
    ;
}

proof fn lemma_nearest_above_zero_stable(a: nat)
    ensures
        nearest_above_zero(nearest_above_zero(a)) == nearest_above_zero(a),
{
    let unit = spacing(a);
    lemma_spacing_bounds(a);
    if a < EXACT {
        assert(a / 1 == a && a % 1 == 0);
        assert(a * 1 == a);
    } else {
        let low = a / unit;
        assert(HALF <= low < EXACT) by (nonlinear_arith)
            requires
                low == a / unit,
                unit >= 1,
                a < unit * EXACT,
                unit * HALF <= a,
        ;
        if nearest_above_zero(a) == low * unit {
            lemma_spacing_of_multiple(a, low);
            lemma_mod_multiples_basic(low as int, unit as int);
            lemma_multiple_is_double(unit, low * unit);
        } else if low + 1 < EXACT {
            lemma_spacing_of_multiple(a, low + 1);
            lemma_mod_multiples_basic((low + 1) as int, unit as int);
            lemma_multiple_is_double(unit, (low + 1) * unit);
        } else {
            let half = HALF as nat;
            let value = (low + 1) * unit;
            lemma_spacing_of_multiple(a, half);
            assert(value == 2 * (half * unit)) by (nonlinear_arith)
                requires
                    value == (low + 1) * unit,
                    low + 1 == 2 * half,
            ;
            assert(half * unit >= half) by (nonlinear_arith)
                requires
                    unit >= 1,
            ;
            assert(value / 2 == half * unit);
            assert(spacing(value) == 2 * unit);
            assert(value == half * (2 * unit)) by (nonlinear_arith)
                requires
                    value == 2 * (half * unit),
            ;
            lemma_mod_multiples_basic(half as int, (2 * unit) as int);
            lemma_multiple_is_double(2 * unit, value);
        }
    }
}

/// The double nearest to a double is that double.
pub proof fn lemma_nearest_double_stable(v: int)
    ensures
        nearest_double(nearest_double(v)) == nearest_double(v),
{
    if v >= 0 {
        lemma_nearest_above_zero_stable(v as nat);
    } else {
        lemma_nearest_above_zero_stable((-v) as nat);
        if nearest_above_zero((-v) as nat) == 0 {
            assert(spacing(0) == 1);
            assert(nearest_above_zero(0) == 0);
        }
    }
}

proof fn lemma_spacing_divides(a: nat, j: nat) -> (q: nat)
    requires
        a < EXACT * pow2(j),
    ensures
        q * spacing(a) == pow2(j),
    decreases j,
{
    if a < EXACT {
        assert(pow2(j) * 1 == pow2(j));
        pow2(j)
    } else {
        if j == 0 {
            lemma2_to64();
        }
        lemma_pow2_unfold(j);
        let q = lemma_spacing_divides(a / 2, (j - 1) as nat);
        let half = spacing(a / 2);
        assert(q * (2 * half) == 2 * (q * half)) by (nonlinear_arith);
        q
    }
}

/// The double nearest to a number of at most 2 to the 63rd is at most that.
pub proof fn lemma_nearest_in_range(v: int)
    requires
        0 <= v <= 0x8000_0000_0000_0000,
    ensures
        0 <= nearest_double(v) <= 0x8000_0000_0000_0000,
{
    let a = v as nat;
    let unit = spacing(a) as int;
    lemma_spacing_bounds(a);
    lemma2_to64();
    let q = lemma_spacing_divides(a, 11);
    let top: int = HALF * q;
    assert(top * unit == 0x8000_0000_0000_0000) by (nonlinear_arith)
        requires
            q * unit == 2048,
            top == 0x10_0000_0000_0000 * q,
    ;
    if v == top * unit {
        lemma_mod_multiples_basic(top, unit);
        lemma_multiple_is_double(unit as nat, a);
    } else {
        let low = v / unit;
        assert(low < top && 0 <= low) by (nonlinear_arith)
            requires
                0 <= v < top * unit,
                low == v / unit,
                unit >= 1,
        ;
        assert((low + 1) * unit <= top * unit && 0 <= low * unit <= (low + 1) * unit)
            by (nonlinear_arith)
            requires
                0 <= low < top,
                unit >= 1,
        ;
    }
}

/// A double of at least zero and at most 2 to the 63rd keeps its value when it is stored in
/// 64 bits with a sign and read back.
pub proof fn lemma_stored_double(v: int)
    requires
        nearest_double(v) == v,
        0 <= v <= 0x8000_0000_0000_0000,
    ensures
        nearest_double(clamped_i64(v) as int) == v,
{
    if v == 0x8000_0000_0000_0000 {
        reveal_with_fuel(spacing, 12);
        assert(spacing(0x7fff_ffff_ffff_ffff) == 1024);
    }
}

/// The double nearest to a whole number is that number below 2 to the 53rd; from there on it
/// is off by no more than half a unit in the last place of 53 bits. It has the sign of the
/// number.
pub proof fn lemma_nearest_close(v: int)
    ensures
        -0x20_0000_0000_0000 < v < 0x20_0000_0000_0000 ==> nearest_double(v) == v,
        v >= 0 ==> 2 * 0x10_0000_0000_0000 * (nearest_double(v) - v) <= v,
        v >= 0 ==> 2 * 0x10_0000_0000_0000 * (v - nearest_double(v)) <= v,
        nearest_double(-v) == -nearest_double(v),
{
    if v >= 0 {
        lemma_nearest_above_zero_close(v as nat);
    } else {
        lemma_nearest_above_zero_close((-v) as nat);
    }
    if v == 0 {
        assert(nearest_above_zero(0) == 0);
    }
}

proof fn lemma_nearest_above_zero_close(a: nat)
    ensures
        a < EXACT ==> nearest_above_zero(a) == a,
        2 * HALF * (nearest_above_zero(a) - a) <= a,
        2 * HALF * (a - nearest_above_zero(a)) <= a,
{
    let unit = spacing(a) as int;
    let low = a as int / unit;
    let rest = a as int % unit;
    lemma_spacing_bounds(a);
    if a < EXACT {
        assert(low == a && rest == 0) by (nonlinear_arith)
            requires
                unit == 1,
                low == a as int / unit,
                rest == a as int % unit,
        ;
        assert(low * unit == a) by (nonlinear_arith)
            requires
                unit == 1,
                low == a,
        ;
    } else {
        assert(a == low * unit + rest && 0 <= rest < unit && (low + 1) * unit == low * unit + unit)
            by (nonlinear_arith)
            requires
                unit >= 1,
                low == a as int / unit,
                rest == a as int % unit,
        ;
    }
}

} // verus!
