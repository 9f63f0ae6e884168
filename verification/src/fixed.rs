//! Q32.32 signed fixed-point arithmetic.
//!
//! Every scalar of the noise computation is an `i64` holding a Q32.32
//! fixed-point number: the value `v` stands for the rational `v / 2^32`.
//! Products round toward minus infinity, so each operation is a total
//! function on integers and the whole pipeline is exact arithmetic.

use vstd::arithmetic::div_mod::{
    lemma_div_by_multiple, lemma_div_is_ordered, lemma_div_multiples_vanish, lemma_div_of0,
    lemma_div_plus_one, lemma_div_pos_is_pos, lemma_fundamental_div_mod,
    lemma_fundamental_div_mod_converse, lemma_hoist_over_denominator,
    lemma_mod_division_less_than_divisor,
};
use vstd::arithmetic::mul::{
    lemma_mul_inequality, lemma_mul_inequality_converse, lemma_mul_is_associative,
    lemma_mul_is_commutative, lemma_mul_is_distributive_add,
    lemma_mul_is_distributive_add_other_way,
};
use vstd::prelude::*;

verus! {

/// One in Q32.32: the fixed-point scale factor, `2^32`.
pub const FIX_ONE: i64 = 0x1_0000_0000;

/// Largest factor magnitude that `fix_mul` accepts, `2^37`.
pub const FIX_MUL_BOUND: i64 = 0x20_0000_0000;

/// The Q32.32 product of `a` and `b`, rounded toward minus infinity.
pub open spec fn fx_mul(a: int, b: int) -> int {
    (a * b) / (FIX_ONE as int)
}

/// Linear interpolation from `a` to `b` by a weight `w` in `[0, FIX_ONE]`.
pub open spec fn fx_lerp(a: int, b: int, w: int) -> int {
    a + fx_mul(b - a, w)
}

/// The quintic fade `6t^5 - 15t^4 + 10t^3` on `[0, 1]`, evaluated in
/// fixed point exactly as `fix_fade` computes it.
pub open spec fn fx_fade(t: int) -> int {
    let t2 = fx_mul(t, t);
    let t3 = fx_mul(t2, t);
    fx_mul(t3, 6 * t2 - 15 * t + 10 * (FIX_ONE as int))
}

/// Floor division of `-p` by `d` in terms of the division of `p` by `d`.
pub(crate) proof fn lemma_neg_div(p: int, d: int)
    requires
        p >= 0,
        d > 0,
    ensures
        (-p) / d == if p % d == 0 {
            -(p / d)
        } else {
            -(p / d) - 1
        },
{
    let q = p / d;
    let m = p % d;
    lemma_fundamental_div_mod(p, d);
    lemma_mod_division_less_than_divisor(p, d);
    if m == 0 {
        assert(-p == (-q) * d + 0) by (nonlinear_arith)
            requires
                p == d * q + m,
                m == 0,
        ;
        lemma_fundamental_div_mod_converse(-p, d, -q, 0);
    } else {
        assert(-p == (-q - 1) * d + (d - m)) by (nonlinear_arith)
            requires
                p == d * q + m,
        ;
        lemma_fundamental_div_mod_converse(-p, d, -q - 1, d - m);
    }
}

/// A symmetric range bound on the rounded product: factors bounded in
/// magnitude by `ba` and `bb` give a product in `[-(ba*bb)/2^32 - 1, (ba*bb)/2^32]`.
pub proof fn lemma_fx_mul_range(a: int, b: int, ba: int, bb: int)
    requires
        -ba <= a <= ba,
        -bb <= b <= bb,
    ensures
        -((ba * bb) / (FIX_ONE as int)) - 1 <= fx_mul(a, b) <= (ba * bb) / (FIX_ONE as int),
{
    let one = FIX_ONE as int;
    let top = ba * bb;
    assert(-top <= a * b <= top) by (nonlinear_arith)
        requires
            -ba <= a <= ba,
            -bb <= b <= bb,
            top == ba * bb,
    ;
    lemma_div_is_ordered(a * b, top, one);
    lemma_div_is_ordered(-top, a * b, one);
    lemma_neg_div(top, one);
    lemma_mod_division_less_than_divisor(top, one);
}

/// The Q32.32 product of `a` and `b`: `fix_mul(a, b) == fx_mul(a, b)`,
/// rounding toward minus infinity.
pub fn fix_mul(a: i64, b: i64) -> (r: i64)
    requires
        -FIX_MUL_BOUND <= a <= FIX_MUL_BOUND,
        -FIX_MUL_BOUND <= b <= FIX_MUL_BOUND,
    ensures
        r == fx_mul(a as int, b as int),
{
    let neg: bool = (a < 0) != (b < 0);
    let am: u64 = if a < 0 {
        (-a) as u64
    } else {
        a as u64
    };
    let bm: u64 = if b < 0 {
        (-b) as u64
    } else {
        b as u64
    };
    proof {
        assert(am as nat * bm as nat <= 0x400_0000_0000_0000_0000nat) by (nonlinear_arith)
            requires
                am <= 0x20_0000_0000u64,
                bm <= 0x20_0000_0000u64,
        ;
    }
    let p: u128 = (am as u128) * (bm as u128);
    proof {
        assert(p == am as int * bm as int && p <= 0x400_0000_0000_0000_0000int && (a as int) * (
        b as int) == if !neg {
            p as int
        } else {
            -(p as int)
        }) by (nonlinear_arith)
            requires
                am == if a < 0 {
                    -(a as int)
                } else {
                    a as int
                },
                bm == if b < 0 {
                    -(b as int)
                } else {
                    b as int
                },
                neg == ((a < 0) != (b < 0)),
                p == am as nat * bm as nat,
                -FIX_MUL_BOUND <= a <= FIX_MUL_BOUND,
                -FIX_MUL_BOUND <= b <= FIX_MUL_BOUND,
        ;
    }
    let q0: u128 = p / 0x1_0000_0000u128;
    let rem: u128 = p % 0x1_0000_0000u128;
    proof {
        lemma_div_is_ordered(p as int, 0x400_0000_0000_0000_0000int, FIX_ONE as int);
    }
    if neg {
        proof {
            lemma_neg_div(p as int, FIX_ONE as int);
        }
        if rem == 0 {
            -(q0 as i64)
        } else {
            -(q0 as i64) - 1
        }
    } else {
        q0 as i64
    }
}

/// The interpolation result lies between its endpoints whenever the
/// weight lies in `[0, FIX_ONE]`.
pub proof fn lemma_fx_lerp_in_range(a: int, b: int, w: int)
    requires
        0 <= w <= FIX_ONE,
    ensures
        a <= b ==> a <= fx_lerp(a, b, w) <= b,
        b <= a ==> b <= fx_lerp(a, b, w) <= a,
{
    let one = FIX_ONE as int;
    let d = b - a;
    if d >= 0 {
        assert(0 <= d * w <= d * one) by (nonlinear_arith)
            requires
                d >= 0,
                0 <= w <= one,
        ;
        lemma_div_is_ordered(0, d * w, one);
        lemma_div_is_ordered(d * w, d * one, one);
        lemma_div_multiples_vanish(d, one);
        assert(d * one == one * d) by (nonlinear_arith);
    } else {
        assert(d * one <= d * w <= 0) by (nonlinear_arith)
            requires
                d < 0,
                0 <= w <= one,
        ;
        lemma_div_is_ordered(d * one, d * w, one);
        lemma_div_is_ordered(d * w, 0, one);
        lemma_div_multiples_vanish(d, one);
        assert(d * one == one * d) by (nonlinear_arith);
    }
}

/// Linear interpolation from `a` to `b` by weight `w`:
/// `fix_lerp(a, b, w) == fx_lerp(a, b, w)`, and the result lies between
/// `a` and `b`. This is the single interpolation routine of the library.
pub fn fix_lerp(a: i64, b: i64, w: i64) -> (r: i64)
    requires
        0 <= w <= FIX_ONE,
        -0x10_0000_0000 <= a <= 0x10_0000_0000,
        -0x10_0000_0000 <= b <= 0x10_0000_0000,
    ensures
        r == fx_lerp(a as int, b as int, w as int),
        a <= b ==> a <= r <= b,
        b <= a ==> b <= r <= a,
{
    proof {
        lemma_fx_lerp_in_range(a as int, b as int, w as int);
    }
    let d: i64 = b - a;
    let m: i64 = fix_mul(d, w);
    a + m
}

/// The binomial expansion of `(t + r)^2`.
proof fn lemma_square_expand(t: int, r: int)
    by (nonlinear_arith)
    ensures
        (t + r) * (t + r) == t * t + 2 * (t * r) + r * r,
{
}

/// The binomial expansion of `(t + r)^4`, assembled one distribution
/// at a time so that each step stays small.
proof fn lemma_fourth_power_expand(t: int, r: int)
    ensures
        ((t + r) * (t + r)) * ((t + r) * (t + r)) == (t * t) * (t * t) + 4 * (((t * t) * t) * r) + 6
            * ((t * t) * (r * r)) + 4 * (t * ((r * r) * r)) + (r * r) * (r * r),
{
    let o2 = (t + r) * (t + r);
    lemma_square_expand(t, r);
    lemma_mul_is_distributive_add_other_way(o2, t * t + 2 * (t * r), r * r);
    lemma_mul_is_distributive_add_other_way(o2, t * t, 2 * (t * r));
    lemma_mul_is_associative(2, t * r, o2);
    assert((t * t) * o2 == (t * t) * (t * t) + 2 * (((t * t) * t) * r) + (t * t) * (r * r))
        by (nonlinear_arith)
        requires
            o2 == (t + r) * (t + r),
    ;
    assert((t * r) * o2 == ((t * t) * t) * r + 2 * ((t * t) * (r * r)) + t * ((r * r) * r))
        by (nonlinear_arith)
        requires
            o2 == (t + r) * (t + r),
    ;
    assert((r * r) * o2 == (t * t) * (r * r) + 2 * (t * ((r * r) * r)) + (r * r) * (r * r))
        by (nonlinear_arith)
        requires
            o2 == (t + r) * (t + r),
    ;
}

/// The binomial expansion of `(t + r)^5`.
proof fn lemma_fifth_power_expand(t: int, r: int)
    ensures
        (((t + r) * (t + r)) * ((t + r) * (t + r))) * (t + r) == (((t * t) * (t * t)) * t) + 5 * (((
        t * t) * (t * t)) * r) + 10 * (((t * t) * t) * (r * r)) + 10 * ((t * t) * ((r * r) * r)) + 5
            * (t * ((r * r) * (r * r))) + ((r * r) * (r * r)) * r,
{
    let o = t + r;
    let b40 = (t * t) * (t * t);
    let b31 = ((t * t) * t) * r;
    let b22 = (t * t) * (r * r);
    let b13 = t * ((r * r) * r);
    let b04 = (r * r) * (r * r);
    lemma_fourth_power_expand(t, r);
    lemma_mul_is_distributive_add_other_way(o, b40 + 4 * b31 + 6 * b22 + 4 * b13, b04);
    lemma_mul_is_distributive_add_other_way(o, b40 + 4 * b31 + 6 * b22, 4 * b13);
    lemma_mul_is_distributive_add_other_way(o, b40 + 4 * b31, 6 * b22);
    lemma_mul_is_distributive_add_other_way(o, b40, 4 * b31);
    lemma_mul_is_associative(4, b31, o);
    lemma_mul_is_associative(6, b22, o);
    lemma_mul_is_associative(4, b13, o);
    lemma_mul_is_distributive_add(b40, t, r);
    lemma_mul_is_distributive_add(b31, t, r);
    lemma_mul_is_distributive_add(b22, t, r);
    lemma_mul_is_distributive_add(b13, t, r);
    lemma_mul_is_distributive_add(b04, t, r);
    assert(b31 * t == ((t * t) * (t * t)) * r && b31 * r == ((t * t) * t) * (r * r))
        by (nonlinear_arith)
        requires
            b31 == ((t * t) * t) * r,
    ;
    assert(b22 * t == ((t * t) * t) * (r * r) && b22 * r == (t * t) * ((r * r) * r))
        by (nonlinear_arith)
        requires
            b22 == (t * t) * (r * r),
    ;
    assert(b13 * t == (t * t) * ((r * r) * r) && b13 * r == t * ((r * r) * (r * r)))
        by (nonlinear_arith)
        requires
            b13 == t * ((r * r) * r),
    ;
    assert(b40 * t == ((t * t) * (t * t)) * t && b04 * t == t * ((r * r) * (r * r)) && b04 * r == ((
    r * r) * (r * r)) * r) by (nonlinear_arith)
        requires
            b40 == (t * t) * (t * t),
            b04 == (r * r) * (r * r),
    ;
}

/// The homogenized numerator of the fade, `(6t^2 - 15t + 10) t^3`, never
/// exceeds `one^5` on `[0, one]`: substituting `one == t + r` turns the
/// difference into a sum of plainly nonnegative terms,
/// `r^3 (10t^2 + 5tr + r^2)`.
proof fn lemma_fade_numerator_bound(one: int, t: int)
    requires
        0 <= t <= one,
    ensures
        (6 * (t * t) - 15 * (t * one) + 10 * (one * one)) * ((t * t) * t) <= ((one * one) * (one
            * one)) * one,
{
    let r = one - t;
    let mid = 6 * (t * t) - 15 * (t * one) + 10 * (one * one);
    assert(mid == t * t + 5 * (t * r) + 10 * (r * r)) by (nonlinear_arith)
        requires
            r == one - t,
            mid == 6 * (t * t) - 15 * (t * one) + 10 * (one * one),
    ;
    lemma_fifth_power_expand(t, r);
    assert((t * t + 5 * (t * r) + 10 * (r * r)) * ((t * t) * t) == (((t * t) * (t * t)) * t) + 5 * (
    ((t * t) * (t * t)) * r) + 10 * (((t * t) * t) * (r * r))) by (nonlinear_arith)
    ;
    assert(((r * r) * r) * (10 * (t * t) + 5 * (t * r) + r * r) == 10 * ((t * t) * ((r * r) * r))
        + 5 * (t * ((r * r) * (r * r))) + ((r * r) * (r * r)) * r) by (nonlinear_arith)
    ;
    assert(((r * r) * r) * (10 * (t * t) + 5 * (t * r) + r * r) >= 0) by (nonlinear_arith)
        requires
            t >= 0,
            r >= 0,
    ;
    assert(((one * one) * (one * one)) * one == (((t + r) * (t + r)) * ((t + r) * (t + r))) * (t
        + r));
}

/// The fixed-point fade stays inside `[0, FIX_ONE]` on `[0, FIX_ONE]`,
/// as the real quintic does on `[0, 1]`.
pub proof fn lemma_fx_fade_bounds(t: int)
    requires
        0 <= t <= FIX_ONE,
    ensures
        0 <= fx_fade(t) <= FIX_ONE,
{
    let one = FIX_ONE as int;
    let t2 = fx_mul(t, t);
    let t3 = fx_mul(t2, t);
    let u = 6 * t2 - 15 * t + 10 * one;

    assert(t * t >= 0) by (nonlinear_arith)
        requires
            t >= 0,
    ;
    lemma_fundamental_div_mod(t * t, one);
    lemma_mod_division_less_than_divisor(t * t, one);
    lemma_div_pos_is_pos(t * t, one);
    assert(t * t <= one * one) by (nonlinear_arith)
        requires
            0 <= t <= one,
    ;
    lemma_div_is_ordered(t * t, one * one, one);
    lemma_div_multiples_vanish(one, one);
    assert(0 <= t2 <= one);

    assert(t2 * t >= 0) by (nonlinear_arith)
        requires
            t2 >= 0,
            t >= 0,
    ;
    lemma_fundamental_div_mod(t2 * t, one);
    lemma_mod_division_less_than_divisor(t2 * t, one);
    lemma_div_pos_is_pos(t2 * t, one);
    assert(t3 >= 0);

    // The middle factor `6t^2 - 15t + 10` of the fade is at least 5/8
    // on all of `[0, 1]`: eight times it differs from `5` by a square.
    let mid = 6 * (t * t) - 15 * (t * one) + 10 * (one * one);
    assert(8 * mid - 5 * (one * one) == 3 * ((4 * t - 5 * one) * (4 * t - 5 * one)) && 3 * ((4 * t
        - 5 * one) * (4 * t - 5 * one)) >= 0) by (nonlinear_arith)
        requires
            mid == 6 * (t * t) - 15 * (t * one) + 10 * (one * one),
    ;
    assert(u * one >= mid - 6 * one + 6) by (nonlinear_arith)
        requires
            u == 6 * t2 - 15 * t + 10 * one,
            one * t2 >= t * t - one + 1,
            mid == 6 * (t * t) - 15 * (t * one) + 10 * (one * one),
    ;
    assert(u > 0) by (nonlinear_arith)
        requires
            8 * (u * one) >= 5 * (one * one) - 48 * one + 48,
            one == 0x1_0000_0000,
    ;

    assert(t3 * u >= 0) by (nonlinear_arith)
        requires
            t3 >= 0,
            u >= 0,
    ;
    lemma_div_pos_is_pos(t3 * u, one);
    assert(fx_fade(t) >= 0);

    assert(t3 * (one * one) <= (t * t) * t) by (nonlinear_arith)
        requires
            one * t3 <= t2 * t,
            one * t2 <= t * t,
            t >= 0,
            one > 0,
            t2 >= 0,
    ;
    assert(u * one <= mid) by (nonlinear_arith)
        requires
            u == 6 * t2 - 15 * t + 10 * one,
            one * t2 <= t * t,
            mid == 6 * (t * t) - 15 * (t * one) + 10 * (one * one),
    ;
    assert(u * one >= 0) by (nonlinear_arith)
        requires
            u >= 0,
            one >= 0,
    ;
    assert((t * t) * t >= 0) by (nonlinear_arith)
        requires
            t >= 0,
    ;
    // (t3 * one^2) * (u * one) <= t^3 * (u * one) <= mid * t^3
    lemma_mul_inequality(t3 * (one * one), (t * t) * t, u * one);
    lemma_mul_inequality(u * one, mid, (t * t) * t);
    assert((t3 * (one * one)) * (u * one) == (t3 * u) * ((one * one) * one) && ((t * t) * t) * (u
        * one) == (u * one) * ((t * t) * t)) by (nonlinear_arith)
    ;
    assert((t3 * u) * ((one * one) * one) <= mid * ((t * t) * t));

    lemma_fade_numerator_bound(one, t);
    assert(mid * ((t * t) * t) <= (((one * one) * (one * one)) * one));
    assert((((one * one) * (one * one)) * one) == (one * one) * ((one * one) * one))
        by (nonlinear_arith)
    ;
    lemma_mul_inequality_converse(t3 * u, one * one, (one * one) * one);
    assert(t3 * u <= one * one);
    lemma_div_is_ordered(t3 * u, one * one, one);
    assert(fx_fade(t) <= one);
}

/// Floor divisions of numerators at most `dv` apart lie at most
/// `dv / m + 1` apart.
pub(crate) proof fn lemma_div_diff(a: int, b: int, m: int, dv: int)
    requires
        m > 0,
        -dv <= a - b <= dv,
    ensures
        -(dv / m) - 1 <= a / m - b / m <= dv / m + 1,
{
    let qb = b / m;
    let rb = b % m;
    lemma_fundamental_div_mod(b, m);
    lemma_mod_division_less_than_divisor(b, m);
    let delta = a - b;
    lemma_hoist_over_denominator(rb + delta, qb, m as nat);
    lemma_mul_is_commutative(qb, m);
    assert(a == rb + delta + qb * m);
    assert(a / m == (rb + delta) / m + qb);
    lemma_div_is_ordered(-dv, rb + delta, m);
    lemma_div_is_ordered(rb + delta, dv + m - 1, m);
    lemma_neg_div(dv, m);
    lemma_mod_division_less_than_divisor(dv, m);
    lemma_div_is_ordered(dv + m - 1, dv + m, m);
    lemma_div_plus_one(dv, m);
}

/// The rounded product does not depend on the order of its factors.
pub proof fn lemma_fx_mul_comm(a: int, b: int)
    ensures
        fx_mul(a, b) == fx_mul(b, a),
{
    lemma_mul_is_commutative(a, b);
}

/// Nearby first factors give nearby rounded products: moving `a` by at
/// most `da` moves `fx_mul(a, g)` by at most `da*bg / 2^32 + 1` when
/// `g` is bounded by `bg`.
pub proof fn lemma_fx_mul_diff(a1: int, a2: int, g: int, da: int, bg: int)
    requires
        -bg <= g <= bg,
        -da <= a1 - a2 <= da,
    ensures
        -((da * bg) / (FIX_ONE as int)) - 1 <= fx_mul(a1, g) - fx_mul(a2, g) <= (da * bg) / (
        FIX_ONE as int) + 1,
{
    assert(-(da * bg) <= a1 * g - a2 * g <= da * bg) by (nonlinear_arith)
        requires
            -bg <= g <= bg,
            -da <= a1 - a2 <= da,
    ;
    lemma_div_diff(a1 * g, a2 * g, FIX_ONE as int, da * bg);
}

/// The rounded product of two values of `[0, FIX_ONE]` is nonnegative
/// and at most the first factor.
pub proof fn lemma_fx_mul_nonneg_le(a: int, b: int)
    requires
        0 <= a <= FIX_ONE,
        0 <= b <= FIX_ONE,
    ensures
        0 <= fx_mul(a, b) <= a,
{
    let one = FIX_ONE as int;
    assert(a * b >= 0 && a * b <= a * one) by (nonlinear_arith)
        requires
            0 <= a,
            0 <= b <= one,
    ;
    lemma_div_pos_is_pos(a * b, one);
    lemma_div_is_ordered(a * b, a * one, one);
    lemma_div_by_multiple(a, one);
}

/// Nearby arguments give nearby fades: the fixed-point fade moves by
/// at most `75 e + 78` when its argument moves by at most `e`.
pub proof fn lemma_fx_fade_diff(t1: int, t2: int, e: int)
    requires
        0 <= t1 <= FIX_ONE,
        0 <= t2 <= FIX_ONE,
        -e <= t1 - t2 <= e,
    ensures
        -(75 * e + 78) <= fx_fade(t1) - fx_fade(t2) <= 75 * e + 78,
{
    let one = FIX_ONE as int;
    let a2 = fx_mul(t1, t1);
    let b2 = fx_mul(t2, t2);
    let a3 = fx_mul(a2, t1);
    let b3 = fx_mul(b2, t2);
    let au = 6 * a2 - 15 * t1 + 10 * one;
    let bu = 6 * b2 - 15 * t2 + 10 * one;
    lemma_fx_mul_nonneg_le(t1, t1);
    lemma_fx_mul_nonneg_le(t2, t2);
    lemma_fx_mul_nonneg_le(a2, t1);
    lemma_fx_mul_nonneg_le(b2, t2);

    // The squares lie at most `2e + 2` apart.
    lemma_fx_mul_diff(t1, t2, t1, e, one);
    lemma_fx_mul_comm(t2, t1);
    lemma_fx_mul_diff(t1, t2, t2, e, one);
    lemma_div_by_multiple(e, one);
    assert(-(2 * e + 2) <= a2 - b2 <= 2 * e + 2);

    // The cubes lie at most `3e + 4` apart.
    lemma_fx_mul_diff(a2, b2, t1, 2 * e + 2, one);
    lemma_div_by_multiple(2 * e + 2, one);
    lemma_fx_mul_comm(b2, t1);
    lemma_fx_mul_comm(b2, t2);
    lemma_fx_mul_diff(t1, t2, b2, e, one);
    assert(-(3 * e + 4) <= a3 - b3 <= 3 * e + 4);

    // The middle factors lie at most `27e + 12` apart, and are bounded
    // by `16` in magnitude.
    assert(-(27 * e + 12) <= au - bu <= 27 * e + 12);
    assert(-(16 * one) <= au <= 16 * one);
    assert(-(16 * one) <= bu <= 16 * one);

    lemma_fx_mul_diff(a3, b3, au, 3 * e + 4, 16 * one);
    assert((3 * e + 4) * (16 * one) == (48 * e + 64) * one) by (nonlinear_arith);
    lemma_div_by_multiple(48 * e + 64, one);
    lemma_fx_mul_comm(b3, au);
    lemma_fx_mul_comm(b3, bu);
    lemma_fx_mul_diff(au, bu, b3, 27 * e + 12, one);
    lemma_div_by_multiple(27 * e + 12, one);
}

/// Nearby endpoints and weights give nearby interpolants: for
/// endpoints bounded by `m`, endpoint motion `dab` and weight motion
/// `dw` move the interpolant by at most
/// `3*dab + dw*(2m)/2^32 + 3`.
pub proof fn lemma_fx_lerp_diff(
    a1: int,
    b1: int,
    w1: int,
    a2: int,
    b2: int,
    w2: int,
    dab: int,
    dw: int,
    m: int,
)
    requires
        -m <= a1 <= m,
        -m <= b1 <= m,
        -m <= a2 <= m,
        -m <= b2 <= m,
        0 <= w1 <= FIX_ONE,
        0 <= w2 <= FIX_ONE,
        -dab <= a1 - a2 <= dab,
        -dab <= b1 - b2 <= dab,
        -dw <= w1 - w2 <= dw,
    ensures
        -(3 * dab + (dw * (2 * m)) / (FIX_ONE as int) + 3) <= fx_lerp(a1, b1, w1) - fx_lerp(
            a2,
            b2,
            w2,
        ) <= 3 * dab + (dw * (2 * m)) / (FIX_ONE as int) + 3,
{
    let one = FIX_ONE as int;
    lemma_fx_mul_diff(b1 - a1, b2 - a2, w1, 2 * dab, one);
    lemma_div_by_multiple(2 * dab, one);
    lemma_fx_mul_comm(b2 - a2, w1);
    lemma_fx_mul_comm(b2 - a2, w2);
    lemma_fx_mul_diff(w1, w2, b2 - a2, dw, 2 * m);
    assert(dw * (2 * m) >= 0) by (nonlinear_arith)
        requires
            dw >= 0,
            m >= 0,
    ;
    lemma_div_pos_is_pos(dw * (2 * m), one);
}

/// The fade fixes both endpoints exactly: `fade(0) == 0` and
/// `fade(1) == 1` in Q32.32.
pub proof fn lemma_fx_fade_endpoints()
    ensures
        fx_fade(0) == 0,
        fx_fade(FIX_ONE as int) == FIX_ONE as int,
{
    let one = FIX_ONE as int;
    lemma_div_of0(one);
    assert(fx_mul(0, 0) == 0);
    assert(fx_mul(0, 10 * one) == 0);
    assert(fx_fade(0) == 0);
    lemma_div_multiples_vanish(one, one);
    assert(fx_mul(one, one) == one);
    assert(fx_fade(one) == one);
}

/// The quintic fade in fixed point: `fix_fade(t) == fx_fade(t)`, and the
/// result stays in `[0, FIX_ONE]`.
pub fn fix_fade(t: i64) -> (r: i64)
    requires
        0 <= t <= FIX_ONE,
    ensures
        r == fx_fade(t as int),
        0 <= r <= FIX_ONE,
{
    proof {
        lemma_fx_fade_bounds(t as int);
    }
    let t2 = fix_mul(t, t);
    proof {
        lemma_fx_mul_range(t as int, t as int, FIX_ONE as int, FIX_ONE as int);
        lemma_div_multiples_vanish(FIX_ONE as int, FIX_ONE as int);
    }
    let t3 = fix_mul(t2, t);
    proof {
        lemma_fx_mul_range(t2 as int, t as int, 0x1_0000_0001int, FIX_ONE as int);
        lemma_div_by_multiple(0x1_0000_0001int, FIX_ONE as int);
    }
    let u = 6 * t2 - 15 * t + 10 * FIX_ONE;
    fix_mul(t3, u)
}

} // verus!
