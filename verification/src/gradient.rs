//! Near-unit gradient vectors from 64-bit words.
//!
//! One word of the seed stream fixes one gradient, through the rational
//! parametrization of the unit circle: for a parameter `t` in `[-1, 1)`
//! the point `((1 - t^2)/(1 + t^2), 2t/(1 + t^2))` lies exactly on the
//! circle, covering the right half, and the two low bits of the word
//! then rotate it by quarter turns so the gradients cover the whole
//! circle. The top 33 bits of the word choose `t`. Evaluated in Q32.32
//! with floor rounding, the squared magnitude differs from one by at
//! most `4/2^32 + 2/2^64` ([`lemma_gradient_unit`]), far inside a
//! `1e-5` tolerance on the magnitude itself.

use crate::fixed::{fx_mul, FIX_ONE};
use vstd::arithmetic::div_mod::{
    lemma_div_is_ordered, lemma_div_multiples_vanish, lemma_div_pos_is_pos,
    lemma_fundamental_div_mod, lemma_mod_division_less_than_divisor,
};
use vstd::arithmetic::mul::{
    lemma_mul_inequality, lemma_mul_inequality_converse, lemma_mul_is_distributive_add_other_way,
    lemma_mul_is_distributive_sub_other_way, lemma_mul_left_inequality, lemma_mul_nonnegative,
    lemma_mul_upper_bound,
};
use vstd::prelude::*;

verus! {

/// A 2D vector in Q32.32 fixed point.
#[derive(Clone, Copy, Debug, PartialEq, Eq, Structural)]
pub struct Vector2 {
    pub x: i64,
    pub y: i64,
}

/// The circle parameter held in the top 33 bits of a word, shifted to
/// `[-FIX_ONE, FIX_ONE)`.
pub open spec fn word_param(w: u64) -> int {
    (w >> 31) - (FIX_ONE as int)
}

/// The denominator `1 + t^2` of the rational circle point, in Q32.32
/// squared scale.
pub open spec fn grad_den(t: int) -> int {
    (FIX_ONE as int) * (FIX_ONE as int) + t * t
}

/// The x component `(1 - t^2)/(1 + t^2)` of the base circle point.
pub open spec fn base_x(t: int) -> int {
    (((FIX_ONE as int) * (FIX_ONE as int) - t * t) * (FIX_ONE as int)) / grad_den(t)
}

/// The y component `2t/(1 + t^2)` of the base circle point.
pub open spec fn base_y(t: int) -> int {
    ((2 * (t * (FIX_ONE as int))) * (FIX_ONE as int)) / grad_den(t)
}

/// The x component of the gradient a word stands for: the base point
/// rotated by a quarter turn for each of the word's two low bits.
pub open spec fn grad_x(w: u64) -> int {
    let t = word_param(w);
    if w & 3 == 0 {
        base_x(t)
    } else if w & 3 == 1 {
        -base_y(t)
    } else if w & 3 == 2 {
        -base_x(t)
    } else {
        base_y(t)
    }
}

/// The y component of the gradient a word stands for.
pub open spec fn grad_y(w: u64) -> int {
    let t = word_param(w);
    if w & 3 == 0 {
        base_y(t)
    } else if w & 3 == 1 {
        base_x(t)
    } else if w & 3 == 2 {
        -base_y(t)
    } else {
        -base_x(t)
    }
}

/// The word's parameter lies in `[-FIX_ONE, FIX_ONE)`.
pub proof fn lemma_word_param_range(w: u64)
    ensures
        -(FIX_ONE as int) <= word_param(w) < FIX_ONE as int,
{
    assert(w >> 31 < 0x2_0000_0000u64) by (bit_vector);
}

/// Both base components are bounded by one in magnitude, and the
/// denominator is positive.
pub proof fn lemma_base_range(t: int)
    requires
        -(FIX_ONE as int) <= t <= FIX_ONE as int,
    ensures
        grad_den(t) > 0,
        0 <= base_x(t) <= FIX_ONE as int,
        -(FIX_ONE as int) <= base_y(t) <= FIX_ONE as int,
{
    let one = FIX_ONE as int;
    let den = grad_den(t);
    let numx = one * one - t * t;
    let numy = 2 * (t * one);
    assert(t * t >= 0 && t * t <= one * one) by (nonlinear_arith)
        requires
            -one <= t <= one,
    ;
    assert(den > 0 && 0 <= numx <= den);
    assert(numy <= den && -den <= numy) by (nonlinear_arith)
        requires
            numy == 2 * (t * one),
            den == one * one + t * t,
    ;

    lemma_mul_nonnegative(numx, one);
    lemma_div_pos_is_pos(numx * one, den);
    lemma_mul_inequality(numx, den, one);
    lemma_div_is_ordered(numx * one, den * one, den);
    lemma_div_multiples_vanish(one, den);
    assert(base_x(t) <= one);

    lemma_mul_inequality(numy, den, one);
    lemma_div_is_ordered(numy * one, den * one, den);
    assert(base_y(t) <= one);
    lemma_mul_inequality(-den, numy, one);
    lemma_div_is_ordered((-den) * one, numy * one, den);
    assert((-den) * one == den * (-one)) by (nonlinear_arith);
    lemma_div_multiples_vanish(-one, den);
    assert(base_y(t) >= -one);
}

/// The squared magnitude of the base circle point differs from one by
/// at most `4*FIX_ONE + 2`, in Q32.32 squared scale: the rational point
/// lies exactly on the circle, and each floor loses less than one unit.
pub proof fn lemma_base_unit(t: int)
    requires
        -(FIX_ONE as int) <= t <= FIX_ONE as int,
    ensures
        -(4 * (FIX_ONE as int) + 2) <= base_x(t) * base_x(t) + base_y(t) * base_y(t) - (FIX_ONE
            as int) * (FIX_ONE as int) <= 4 * (FIX_ONE as int) + 2,
{
    let one = FIX_ONE as int;
    let den = grad_den(t);
    let numx = one * one - t * t;
    let numy = 2 * (t * one);
    let bx = base_x(t);
    let by = base_y(t);
    lemma_base_range(t);
    assert(t * t >= 0 && t * t <= one * one) by (nonlinear_arith)
        requires
            -one <= t <= one,
    ;
    assert(numy <= den && -den <= numy) by (nonlinear_arith)
        requires
            numy == 2 * (t * one),
            den == one * one + t * t,
    ;

    lemma_mul_nonnegative(numx, one);
    lemma_fundamental_div_mod(numx * one, den);
    lemma_mod_division_less_than_divisor(numx * one, den);
    let r1 = (numx * one) % den;
    lemma_fundamental_div_mod(numy * one, den);
    lemma_mod_division_less_than_divisor(numy * one, den);
    let r2 = (numy * one) % den;
    assert(den * bx == numx * one - r1);
    assert(den * by == numy * one - r2);

    // The rational point lies exactly on the circle:
    // `numx^2 + numy^2 == den^2`.
    assert(numy * numy == 4 * ((t * t) * (one * one))) by (nonlinear_arith)
        requires
            numy == 2 * (t * one),
    ;
    assert(numx * numx + numy * numy == den * den) by (nonlinear_arith)
        requires
            numx == one * one - t * t,
            den == one * one + t * t,
            numy * numy == 4 * ((t * t) * (one * one)),
    ;

    // Squaring both floor identities and summing.
    assert((den * bx) * (den * bx) == (den * den) * (bx * bx) && (den * by) * (den * by) == (den
        * den) * (by * by)) by (nonlinear_arith)
    ;
    assert((numx * one - r1) * (numx * one - r1) == (numx * numx) * (one * one) - 2 * (one * (numx
        * r1)) + r1 * r1) by (nonlinear_arith)
    ;
    assert((numy * one - r2) * (numy * one - r2) == (numy * numy) * (one * one) - 2 * (one * (numy
        * r2)) + r2 * r2) by (nonlinear_arith)
    ;
    assert((numx * numx) * (one * one) + (numy * numy) * (one * one) == (den * den) * (one * one))
        by (nonlinear_arith)
        requires
            numx * numx + numy * numy == den * den,
    ;
    let e = r1 * r1 + r2 * r2 - 2 * (one * (numx * r1)) - 2 * (one * (numy * r2));
    assert((den * den) * (bx * bx) + (den * den) * (by * by) == (den * den) * (one * one) + e);

    // Bounding every piece of `e` by `den^2`.
    lemma_mul_nonnegative(numx, r1);
    lemma_mul_upper_bound(numx, den, r1, den);
    lemma_mul_upper_bound(r1, den, r1, den);
    lemma_mul_upper_bound(r2, den, r2, den);
    lemma_mul_nonnegative(r1, r1);
    lemma_mul_nonnegative(r2, r2);
    lemma_mul_inequality(numy, den, r2);
    lemma_mul_inequality(-den, numy, r2);
    lemma_mul_left_inequality(den, r2, den);
    assert((-den) * r2 == -(den * r2)) by (nonlinear_arith);
    assert(den * r2 <= den * den);
    assert(-(den * den) <= numy * r2 <= den * den);
    lemma_mul_left_inequality(one, numx * r1, den * den);
    lemma_mul_left_inequality(one, numy * r2, den * den);
    lemma_mul_left_inequality(one, -(den * den), numy * r2);
    lemma_mul_nonnegative(one, numx * r1);
    assert(one * (-(den * den)) == -(one * (den * den))) by (nonlinear_arith);
    assert(e <= 2 * (den * den) + 2 * (one * (den * den)));
    assert(e >= -(4 * (one * (den * den))));

    // Dividing the sandwich by `den^2`.
    let s = bx * bx + by * by - one * one;
    assert(s * (den * den) == e) by (nonlinear_arith)
        requires
            s == bx * bx + by * by - one * one,
            (den * den) * (bx * bx) + (den * den) * (by * by) == (den * den) * (one * one) + e,
    ;
    assert((4 * one + 2) * (den * den) == 4 * (one * (den * den)) + 2 * (den * den))
        by (nonlinear_arith)
    ;
    assert((-(4 * one + 2)) * (den * den) == -(4 * (one * (den * den))) - 2 * (den * den))
        by (nonlinear_arith)
    ;
    lemma_mul_nonnegative(den, den);
    lemma_mul_nonnegative(one, den * den);
    assert(den * den > 0) by (nonlinear_arith)
        requires
            den > 0,
    ;
    lemma_mul_inequality_converse(s, 4 * one + 2, den * den);
    lemma_mul_inequality_converse(-(4 * one + 2), s, den * den);
}

/// Every gradient has both components bounded by one and a squared
/// magnitude within `4*FIX_ONE + 2` of one, in Q32.32 squared scale:
/// on the magnitude itself that is a relative error below `1e-9`.
pub proof fn lemma_gradient_unit(w: u64)
    ensures
        -(FIX_ONE as int) <= grad_x(w) <= FIX_ONE as int,
        -(FIX_ONE as int) <= grad_y(w) <= FIX_ONE as int,
        -(4 * (FIX_ONE as int) + 2) <= grad_x(w) * grad_x(w) + grad_y(w) * grad_y(w) - (FIX_ONE
            as int) * (FIX_ONE as int) <= 4 * (FIX_ONE as int) + 2,
{
    let t = word_param(w);
    lemma_word_param_range(w);
    lemma_base_range(t);
    lemma_base_unit(t);
    let bx = base_x(t);
    let by = base_y(t);
    assert((-bx) * (-bx) == bx * bx && (-by) * (-by) == by * by) by (nonlinear_arith);
}

/// The gradient that one word of the seed stream stands for:
/// `gradient_from_word(w)` is `(grad_x(w), grad_y(w))`, a near-unit
/// vector.
pub fn gradient_from_word(w: u64) -> (v: Vector2)
    ensures
        v.x == grad_x(w),
        v.y == grad_y(w),
{
    proof {
        lemma_word_param_range(w);
        lemma_base_range(word_param(w));
    }
    let tr: u64 = w >> 31;
    proof {
        assert(w >> 31 < 0x2_0000_0000u64) by (bit_vector);
    }
    let t: i64 = (tr as i64) - FIX_ONE;
    let tm: u64 = if t < 0 {
        (-t) as u64
    } else {
        t as u64
    };
    proof {
        assert(tm as nat * tm as nat <= 0x1_0000_0000_0000_0000nat) by (nonlinear_arith)
            requires
                tm <= 0x1_0000_0000u64,
        ;
        assert(tm as int * tm as int == t as int * t as int) by (nonlinear_arith)
            requires
                tm == if t < 0 {
                    -(t as int)
                } else {
                    t as int
                },
        ;
    }
    let tm2: u128 = (tm as u128) * (tm as u128);
    let one2: u128 = 0x1_0000_0000_0000_0000u128;
    let den: u128 = one2 + tm2;
    let numx: u128 = one2 - tm2;
    let bxq: u128 = (numx * 0x1_0000_0000u128) / den;
    let numym: u128 = 2 * (tm as u128) * 0x1_0000_0000u128;
    let q: u128 = (numym * 0x1_0000_0000u128) / den;
    let rm: u128 = (numym * 0x1_0000_0000u128) % den;
    proof {
        let one = FIX_ONE as int;
        let ti = t as int;
        assert(ti == word_param(w));
        assert(one * one == 0x1_0000_0000_0000_0000int) by (nonlinear_arith)
            requires
                one == 0x1_0000_0000,
        ;
        assert(numx as int == one * one - ti * ti && den as int == grad_den(ti));
        assert(bxq as int == base_x(ti));
        assert(numym as int <= den as int) by (nonlinear_arith)
            requires
                numym == 2 * (tm as nat) * 0x1_0000_0000nat,
                den == 0x1_0000_0000_0000_0000nat + tm as nat * tm as nat,
                tm <= 0x1_0000_0000u64,
        ;
        lemma_mul_inequality(numym as int, den as int, one);
        lemma_div_is_ordered(numym as int * one, den as int * one, den as int);
        lemma_div_multiples_vanish(one, den as int);
        assert(q <= 0x1_0000_0000u128);
        if t >= 0 {
            assert(numym as int == 2 * (ti * one)) by (nonlinear_arith)
                requires
                    numym == 2 * (tm as nat) * 0x1_0000_0000nat,
                    tm == t as int,
                    one == 0x1_0000_0000,
                    ti == t as int,
            ;
            assert(q as int == base_y(ti));
        } else {
            assert(numym as int == -(2 * (ti * one))) by (nonlinear_arith)
                requires
                    numym == 2 * (tm as nat) * 0x1_0000_0000nat,
                    tm == -(t as int),
                    one == 0x1_0000_0000,
                    ti == t as int,
            ;
            crate::fixed::lemma_neg_div(numym as int * one, den as int);
            assert((2 * (ti * one)) * one == -(numym as int * one)) by (nonlinear_arith)
                requires
                    numym as int == -(2 * (ti * one)),
            ;
            assert(rm == 0 ==> -(q as int) == base_y(ti));
            assert(rm != 0 ==> -(q as int) - 1 == base_y(ti));
        }
    }
    let bx: i64 = bxq as i64;
    let by: i64 = if t >= 0 {
        q as i64
    } else if rm == 0 {
        -(q as i64)
    } else {
        -(q as i64) - 1
    };
    let quad: u64 = w & 3;
    if quad == 0 {
        Vector2 { x: bx, y: by }
    } else if quad == 1 {
        Vector2 { x: -by, y: bx }
    } else if quad == 2 {
        Vector2 { x: -bx, y: -by }
    } else {
        Vector2 { x: by, y: -bx }
    }
}

/// The dot product of a displacement with a gradient, both Q32.32,
/// as the noise evaluation uses it.
pub open spec fn fx_dot(dx: int, dy: int, gx: int, gy: int) -> int {
    fx_mul(dx, gx) + fx_mul(dy, gy)
}

} // verus!
