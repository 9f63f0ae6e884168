use gradient_noise::fixed::{fix_fade, fix_lerp, fix_mul, FIX_ONE};

const ONE_F: f64 = 4294967296.0;

#[test]
fn products_of_whole_numbers_are_exact() {
    assert_eq!(fix_mul(3 * FIX_ONE, 5 * FIX_ONE), 15 * FIX_ONE);
    assert_eq!(fix_mul(FIX_ONE / 2, FIX_ONE / 2), FIX_ONE / 4);
    assert_eq!(fix_mul(-2 * FIX_ONE, 3 * FIX_ONE), -6 * FIX_ONE);
    assert_eq!(fix_mul(0, 7 * FIX_ONE), 0);
}

#[test]
fn products_round_toward_minus_infinity() {
    // 1 and -1 are the smallest representable magnitudes; their
    // products land strictly between 0 and +/- one ulp.
    assert_eq!(fix_mul(1, 1), 0);
    assert_eq!(fix_mul(-1, 1), -1);
    assert_eq!(fix_mul(1, -1), -1);
    assert_eq!(fix_mul(-1, -1), 0);
}

#[test]
fn lerp_fixes_endpoints_and_midpoint() {
    let a = 10 * FIX_ONE;
    let b = 20 * FIX_ONE;
    assert_eq!(fix_lerp(a, b, 0), a);
    assert_eq!(fix_lerp(a, b, FIX_ONE), b);
    assert_eq!(fix_lerp(a, b, FIX_ONE / 2), 15 * FIX_ONE);
    assert_eq!(fix_lerp(b, a, FIX_ONE / 2), 15 * FIX_ONE);
}

#[test]
fn fade_fixes_endpoints_and_midpoint() {
    assert_eq!(fix_fade(0), 0);
    assert_eq!(fix_fade(FIX_ONE), FIX_ONE);
    // fade(1/2) = 6/32 - 15/16 + 10/8 = 1/2 exactly.
    assert_eq!(fix_fade(FIX_ONE / 2), FIX_ONE / 2);
}

#[test]
fn fade_matches_the_quintic() {
    for &t in &[0.125f64, 0.25, 0.375, 0.625, 0.875] {
        let tq = (t * ONE_F) as i64;
        let got = fix_fade(tq) as f64 / ONE_F;
        let want = 6.0 * t.powi(5) - 15.0 * t.powi(4) + 10.0 * t.powi(3);
        assert!((got - want).abs() < 1e-6, "fade({t}): {got} vs {want}");
    }
}

#[test]
fn fade_stays_inside_the_unit_interval() {
    let mut t: i64 = 0;
    while t <= FIX_ONE {
        let f = fix_fade(t);
        assert!(0 <= f && f <= FIX_ONE);
        t += FIX_ONE / 64;
    }
}
