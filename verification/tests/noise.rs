use gradient_noise::field::NoiseField;
use gradient_noise::fixed::FIX_ONE;
use gradient_noise::lattice::GradientLattice;
use gradient_noise::NoiseError;

const ONE_F: f64 = 4294967296.0;

/// The normalized value of a raw zero: the mid-scale constant that
/// every exact lattice corner evaluates to.
const CORNER_VALUE: i64 = 2147483647;

fn build(cols: usize, rows: usize, seed: u64) -> GradientLattice {
    GradientLattice::new(cols, rows, seed).unwrap()
}

#[test]
fn same_seed_yields_identical_lattices() {
    let a = build(5, 4, 42);
    let b = build(5, 4, 42);
    for cy in 0..=4 {
        for cx in 0..=5 {
            assert_eq!(a.gradient_at(cx, cy).unwrap(), b.gradient_at(cx, cy).unwrap());
        }
    }
}

#[test]
fn gradients_have_unit_length() {
    let l = build(6, 6, 123456789);
    for cy in 0..=6 {
        for cx in 0..=6 {
            let v = l.gradient_at(cx, cy).unwrap();
            let x = v.x as f64 / ONE_F;
            let y = v.y as f64 / ONE_F;
            let mag = (x * x + y * y).sqrt();
            assert!((mag - 1.0).abs() <= 1e-5, "corner ({cx},{cy}): |v| = {mag}");
        }
    }
}

#[test]
fn lattice_has_one_vector_per_corner() {
    let l = build(3, 3, 7);
    assert_eq!(l.cols(), 3);
    assert_eq!(l.rows(), 3);
    let mut corners = 0;
    for cy in 0..=3 {
        for cx in 0..=3 {
            assert!(l.gradient_at(cx, cy).is_ok());
            corners += 1;
        }
    }
    assert_eq!(corners, (3 + 1) * (3 + 1));
    assert_eq!(l.gradient_at(4, 0), Err(NoiseError::OutOfBounds));
    assert_eq!(l.gradient_at(0, 4), Err(NoiseError::OutOfBounds));
}

#[test]
fn sample_agrees_with_grid_at_pixel_coordinates() {
    let l = build(3, 3, 99);
    let f = NoiseField::new(&l, 10);
    let grid = f.evaluate_all();
    for &(px, py) in &[(0usize, 0usize), (5, 7), (13, 25), (29, 29), (17, 2)] {
        let x = (px as i64) << 32;
        let y = (py as i64) << 32;
        assert_eq!(f.sample(x, y).unwrap(), grid[py][px], "pixel ({px},{py})");
    }
}

#[test]
fn nearby_points_in_one_cell_have_nearby_values() {
    let l = build(3, 3, 5);
    let f = NoiseField::new(&l, 100);
    // Two points 1e-6 pixels apart, well inside one cell.
    let x1: i64 = (50i64 << 32) + 123_456;
    let y1: i64 = (42i64 << 32) + 654_321;
    let delta: i64 = 4295;
    let v1 = f.sample(x1, y1).unwrap();
    let v2 = f.sample(x1 + delta, y1 + delta).unwrap();
    let diff = ((v1 - v2).abs() as f64) / ONE_F;
    assert!(diff < 1e-3, "values {v1} and {v2} differ by {diff}");
}

#[test]
fn exact_corners_evaluate_to_the_mid_constant() {
    let l = build(3, 3, 42);
    let f = NoiseField::new(&l, 100);
    let grid = f.evaluate_all();
    assert_eq!(grid[0][0], CORNER_VALUE);
    assert_eq!(grid[100][100], CORNER_VALUE);
    assert_eq!(grid[200][0], CORNER_VALUE);
    assert_eq!(f.sample(100i64 << 32, 200i64 << 32).unwrap(), CORNER_VALUE);
}

#[test]
fn all_values_lie_in_unit_range() {
    let l = build(4, 2, 31337);
    let f = NoiseField::new(&l, 25);
    let grid = f.evaluate_all();
    assert_eq!(grid.len(), 50);
    for row in grid {
        assert_eq!(row.len(), 100);
        for &v in row {
            assert!(0 <= v && v <= FIX_ONE);
            let b = v as f64 / ONE_F;
            assert!((0.0..=1.0).contains(&b));
        }
    }
}

#[test]
fn scenario_three_by_three_seed_42() {
    let l = build(3, 3, 42);
    assert_eq!(l.seed(), 42);
    let f = NoiseField::new(&l, 100);
    assert_eq!(f.width(), 300);
    assert_eq!(f.height(), 300);
    let grid = f.evaluate_all();
    assert_eq!(grid.len(), 300);
    for row in grid {
        assert_eq!(row.len(), 300);
    }
    // The top-left pixel sits on the lattice corner (0, 0), whose own
    // dot product is zero, so its value is the corner constant.
    assert_eq!(grid[0][0], CORNER_VALUE);

    // The same seed reproduces the array exactly.
    let l2 = build(3, 3, 42);
    let f2 = NoiseField::new(&l2, 100);
    assert_eq!(f.evaluate_all(), f2.evaluate_all());

    // Another seed produces a different array.
    let l3 = build(3, 3, 43);
    let f3 = NoiseField::new(&l3, 100);
    assert_ne!(f.evaluate_all(), f3.evaluate_all());
}

#[test]
fn zero_dimensions_are_rejected() {
    assert!(matches!(GradientLattice::new(0, 3, 1), Err(NoiseError::InvalidDimensions)));
    assert!(matches!(GradientLattice::new(3, 0, 1), Err(NoiseError::InvalidDimensions)));
    assert!(matches!(GradientLattice::new(0, 0, 1), Err(NoiseError::InvalidDimensions)));
}

#[test]
fn samples_outside_the_domain_are_rejected() {
    let l = build(3, 3, 8);
    let f = NoiseField::new(&l, 100);
    assert_eq!(f.sample(-1, 0), Err(NoiseError::OutOfDomain));
    assert_eq!(f.sample(0, -1), Err(NoiseError::OutOfDomain));
    assert_eq!(f.sample(300i64 << 32, 0), Err(NoiseError::OutOfDomain));
    assert_eq!(f.sample(0, 300i64 << 32), Err(NoiseError::OutOfDomain));
    assert!(f.sample((300i64 << 32) - 1, (300i64 << 32) - 1).is_ok());
}

#[test]
fn different_seeds_give_different_gradients() {
    // Guards the seeding itself: a generator that ignored its seed, or
    // a stream that repeated one word, would fail here.
    let a = build(3, 3, 42);
    let b = build(3, 3, 43);
    let mut some_corner_differs = false;
    let mut some_pair_differs = false;
    let first = a.gradient_at(0, 0).unwrap();
    for cy in 0..=3 {
        for cx in 0..=3 {
            if a.gradient_at(cx, cy).unwrap() != b.gradient_at(cx, cy).unwrap() {
                some_corner_differs = true;
            }
            if a.gradient_at(cx, cy).unwrap() != first {
                some_pair_differs = true;
            }
        }
    }
    assert!(some_corner_differs);
    assert!(some_pair_differs);
}
