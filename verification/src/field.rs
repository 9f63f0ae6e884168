//! The noise field: a smooth scalar field evaluated over a gradient
//! lattice.
//!
//! Every pixel `(px, py)` of the field lies in one lattice cell. Its
//! value blends the dot products of the four corner gradients with the
//! displacements from those corners, through the quintic fade — steps
//! that [`spec_sample`] states exactly, in Q32.32 arithmetic. The raw
//! blend lies in `[-sqrt(2)/2, sqrt(2)/2]` for unit gradients, and is
//! mapped affinely onto `[0, FIX_ONE]` and clamped, so every stored
//! value is a brightness in `[0, 1]`.
//!
//! One routine, `sample_at`, performs the evaluation for both the bulk
//! grid fill and the point query, so the two cannot diverge.

use crate::fixed::{
    fix_fade, fix_lerp, fix_mul, fx_fade, fx_lerp, fx_mul, lemma_div_diff, lemma_fx_fade_bounds,
    lemma_fx_fade_diff, lemma_fx_lerp_diff, lemma_fx_lerp_in_range, lemma_fx_mul_diff,
    lemma_fx_mul_range, lemma_neg_div, FIX_ONE,
};
use crate::gradient::{fx_dot, Vector2};
use crate::lattice::GradientLattice;
use crate::NoiseError;
use vstd::arithmetic::div_mod::{
    lemma_div_by_multiple, lemma_div_is_ordered, lemma_div_is_ordered_by_denominator,
    lemma_div_multiples_vanish, lemma_div_pos_is_pos, lemma_fundamental_div_mod,
    lemma_hoist_over_denominator, lemma_mod_division_less_than_divisor, lemma_multiply_divide_lt,
};
use vstd::prelude::*;

verus! {

/// `sqrt(2)` in Q32.32, rounded down.
pub const SQRT2_Q32: i64 = 6074000999;

/// `sqrt(2)/2` in Q32.32, rounded down: the magnitude bound of the raw
/// noise value over exactly-unit gradients.
pub const HALF_SQRT2_Q32: i64 = 3037000499;

/// Largest pixel extent accepted along either axis.
pub const MAX_FIELD_PIXELS: u64 = 0x7FFF_FFFF;

/// The cell that the Q32.32 coordinate `x` falls in, for `cell_size`
/// pixels per cell.
pub open spec fn spec_cell(x: int, cs: int) -> int {
    x / (cs * (FIX_ONE as int))
}

/// The fractional position of `x` within its cell, in `[0, FIX_ONE)`.
pub open spec fn spec_frac(x: int, cs: int) -> int {
    (x % (cs * (FIX_ONE as int))) / cs
}

/// The raw (unnormalized) noise value of one cell at fractional offset
/// `(fx, fy)`: the four corner dot products blended by the faded
/// weights, interpolating along x and then along y.
pub open spec fn cell_raw(
    tl: Vector2,
    tr: Vector2,
    bl: Vector2,
    br: Vector2,
    fx: int,
    fy: int,
) -> int {
    let one = FIX_ONE as int;
    let d_tl = fx_dot(fx, fy, tl.x as int, tl.y as int);
    let d_tr = fx_dot(fx - one, fy, tr.x as int, tr.y as int);
    let d_bl = fx_dot(fx, fy - one, bl.x as int, bl.y as int);
    let d_br = fx_dot(fx - one, fy - one, br.x as int, br.y as int);
    let top = fx_lerp(d_tl, d_tr, fx_fade(fx));
    let bottom = fx_lerp(d_bl, d_br, fx_fade(fx));
    fx_lerp(top, bottom, fx_fade(fy))
}

/// Mapping a raw value onto `[0, FIX_ONE]`: shift by `sqrt(2)/2`, scale
/// by `1/sqrt(2)`, clamp.
pub open spec fn spec_normalize(raw: int) -> int {
    let one = FIX_ONE as int;
    let scaled = ((raw + HALF_SQRT2_Q32 as int) * one) / (SQRT2_Q32 as int);
    if scaled < 0 {
        0
    } else if scaled > one {
        one
    } else {
        scaled
    }
}

/// The normalized noise value of the lattice `l` at the continuous
/// Q32.32 point `(x, y)`, for `cs` pixels per cell: the single model
/// that both the grid fill and the point query satisfy.
pub open spec fn spec_sample(l: GradientLattice, cs: int, x: int, y: int) -> int {
    let cx = spec_cell(x, cs);
    let cy = spec_cell(y, cs);
    let fx = spec_frac(x, cs);
    let fy = spec_frac(y, cs);
    cell_raw(
        l.corner(cx, cy),
        l.corner(cx + 1, cy),
        l.corner(cx, cy + 1),
        l.corner(cx + 1, cy + 1),
        fx,
        fy,
    )
}

/// The normalized value at `(x, y)`: `spec_sample` pushed through
/// `spec_normalize`.
pub open spec fn spec_value(l: GradientLattice, cs: int, x: int, y: int) -> int {
    spec_normalize(spec_sample(l, cs, x, y))
}

/// The dot product of the displacement `(dx, dy)` with the gradient
/// `g`, all Q32.32 with components bounded by one.
fn fix_dot(dx: i64, dy: i64, g: Vector2) -> (r: i64)
    requires
        -FIX_ONE <= dx <= FIX_ONE,
        -FIX_ONE <= dy <= FIX_ONE,
        -FIX_ONE <= g.x <= FIX_ONE,
        -FIX_ONE <= g.y <= FIX_ONE,
    ensures
        r == fx_dot(dx as int, dy as int, g.x as int, g.y as int),
        -(2 * FIX_ONE + 2) <= r <= 2 * FIX_ONE,
{
    proof {
        lemma_fx_mul_range(dx as int, g.x as int, FIX_ONE as int, FIX_ONE as int);
        lemma_fx_mul_range(dy as int, g.y as int, FIX_ONE as int, FIX_ONE as int);
        lemma_div_multiples_vanish(FIX_ONE as int, FIX_ONE as int);
    }
    let a = fix_mul(dx, g.x);
    let b = fix_mul(dy, g.y);
    a + b
}

/// The normalization onto `[0, FIX_ONE]`:
/// `normalize_fixed(raw) == spec_normalize(raw)`.
fn normalize_fixed(raw: i64) -> (n: i64)
    requires
        -0x4_0000_0000 <= raw <= 0x4_0000_0000,
    ensures
        n == spec_normalize(raw as int),
        0 <= n <= FIX_ONE,
{
    let shifted: i64 = raw + HALF_SQRT2_Q32;
    if shifted < 0 {
        proof {
            let one = FIX_ONE as int;
            let p = -(shifted as int);
            lemma_neg_div(p * one, SQRT2_Q32 as int);
            lemma_mod_division_less_than_divisor(p * one, SQRT2_Q32 as int);
            lemma_div_pos_is_pos(p * one, SQRT2_Q32 as int);
            assert(p * one >= one) by (nonlinear_arith)
                requires
                    p >= 1,
                    one == 0x1_0000_0000,
            ;
            assert((shifted as int) * one == -(p * one)) by (nonlinear_arith)
                requires
                    p == -(shifted as int),
            ;
            if (p * one) % (SQRT2_Q32 as int) == 0 {
                assert((p * one) / (SQRT2_Q32 as int) >= 1) by {
                    if (p * one) / (SQRT2_Q32 as int) == 0 {
                        assert(p * one == (SQRT2_Q32 as int) * ((p * one) / (SQRT2_Q32 as int)) + (p
                            * one) % (SQRT2_Q32 as int)) by {
                            vstd::arithmetic::div_mod::lemma_fundamental_div_mod(
                                p * one,
                                SQRT2_Q32 as int,
                            );
                        }
                    }
                }
            }
            assert(spec_normalize(raw as int) == 0);
        }
        return 0;
    }
    let prod: u128 = (shifted as u128) * 0x1_0000_0000u128;
    let q: u128 = prod / 6074000999u128;
    proof {
        lemma_div_is_ordered(
            prod as int,
            (0x4_0000_0000 + HALF_SQRT2_Q32 as int) * (FIX_ONE as int),
            SQRT2_Q32 as int,
        );
        lemma_div_pos_is_pos(prod as int, SQRT2_Q32 as int);
    }
    if q > 0x1_0000_0000u128 {
        FIX_ONE
    } else {
        q as i64
    }
}

/// The shared evaluation routine: the normalized noise value at the
/// in-domain Q32.32 point `(x, y)`. Both the bulk grid fill and the
/// public point query go through this one function.
fn sample_at(lattice: &GradientLattice, cell_size: u64, x: i64, y: i64) -> (r: i64)
    requires
        lattice.wf(),
        1 <= cell_size,
        lattice.spec_cols() * cell_size <= MAX_FIELD_PIXELS,
        lattice.spec_rows() * cell_size <= MAX_FIELD_PIXELS,
        0 <= x < (lattice.spec_cols() * cell_size) * (FIX_ONE as int),
        0 <= y < (lattice.spec_rows() * cell_size) * (FIX_ONE as int),
    ensures
        r == spec_value(*lattice, cell_size as int, x as int, y as int),
        0 <= r <= FIX_ONE,
{
    let cols = lattice.cols();
    let rows = lattice.rows();
    proof {
        crate::lattice::lemma_wf_dims(*lattice);
        assert(cell_size <= MAX_FIELD_PIXELS) by (nonlinear_arith)
            requires
                cols >= 1,
                cols * cell_size <= MAX_FIELD_PIXELS,
                cell_size >= 1,
        ;
    }
    let csw: u64 = cell_size * 0x1_0000_0000u64;
    let cs = cell_size;
    proof {
        let one = FIX_ONE as int;
        assert((cols * cs) * one == (csw as int) * (cols as int)) by (nonlinear_arith)
            requires
                csw == cs * one,
                cols >= 0,
                cs >= 0,
        ;
        assert((rows * cs) * one == (csw as int) * (rows as int)) by (nonlinear_arith)
            requires
                csw == cs * one,
                rows >= 0,
                cs >= 0,
        ;
        lemma_multiply_divide_lt(x as int, csw as int, cols as int);
        lemma_multiply_divide_lt(y as int, csw as int, rows as int);
        lemma_div_pos_is_pos(x as int, csw as int);
        lemma_div_pos_is_pos(y as int, csw as int);
    }
    let cx64: u64 = (x as u64) / csw;
    let cy64: u64 = (y as u64) / csw;
    let cx: usize = cx64 as usize;
    let cy: usize = cy64 as usize;
    let remx: u64 = (x as u64) % csw;
    let remy: u64 = (y as u64) % csw;
    proof {
        let one = FIX_ONE as int;
        lemma_mod_division_less_than_divisor(x as int, csw as int);
        lemma_mod_division_less_than_divisor(y as int, csw as int);
        assert(csw as int == (cs as int) * one);
        lemma_multiply_divide_lt(remx as int, cs as int, one);
        lemma_multiply_divide_lt(remy as int, cs as int, one);
        lemma_div_pos_is_pos(remx as int, cs as int);
        lemma_div_pos_is_pos(remy as int, cs as int);
    }
    let fx: i64 = (remx / cs) as i64;
    let fy: i64 = (remy / cs) as i64;
    let tl = lattice.corner_at(cx, cy);
    let tr = lattice.corner_at(cx + 1, cy);
    let bl = lattice.corner_at(cx, cy + 1);
    let br = lattice.corner_at(cx + 1, cy + 1);
    let d_tl = fix_dot(fx, fy, tl);
    let d_tr = fix_dot(fx - FIX_ONE, fy, tr);
    let d_bl = fix_dot(fx, fy - FIX_ONE, bl);
    let d_br = fix_dot(fx - FIX_ONE, fy - FIX_ONE, br);
    let wx = fix_fade(fx);
    let wy = fix_fade(fy);
    let top = fix_lerp(d_tl, d_tr, wx);
    let bottom = fix_lerp(d_bl, d_br, wx);
    let raw = fix_lerp(top, bottom, wy);
    normalize_fixed(raw)
}

/// A noise field: a gradient lattice together with a sampling geometry
/// and the grid of normalized values evaluated over it. The field
/// borrows its lattice and never changes it.
pub struct NoiseField<'a> {
    lattice: &'a GradientLattice,
    cell_size: u64,
    sample_width: usize,
    sample_height: usize,
    values: Vec<Vec<i64>>,
}

impl<'a> NoiseField<'a> {
    /// The lattice the field evaluates.
    pub closed spec fn spec_lattice(self) -> GradientLattice {
        *self.lattice
    }

    /// Pixels per lattice cell edge.
    pub closed spec fn spec_cell_size(self) -> int {
        self.cell_size as int
    }

    /// Pixel width of the evaluated field, `cols * cell_size`.
    pub closed spec fn spec_width(self) -> int {
        self.sample_width as int
    }

    /// Pixel height of the evaluated field, `rows * cell_size`.
    pub closed spec fn spec_height(self) -> int {
        self.sample_height as int
    }

    /// The evaluated grid, row by row: `spec_values()[py][px]`.
    pub closed spec fn spec_values(self) -> Seq<Seq<i64>> {
        Seq::new(self.values@.len(), |j: int| self.values@[j]@)
    }

    /// Well-formedness: the geometry covers the lattice exactly — no
    /// pixel ever addresses a corner beyond `cols` or `rows` — and
    /// every stored value is the model's value at that pixel's
    /// coordinate.
    pub closed spec fn wf(self) -> bool {
        &&& self.lattice.wf()
        &&& 1 <= self.cell_size
        &&& self.lattice.spec_cols() * self.cell_size <= MAX_FIELD_PIXELS
        &&& self.lattice.spec_rows() * self.cell_size <= MAX_FIELD_PIXELS
        &&& self.sample_width == self.lattice.spec_cols() * self.cell_size
        &&& self.sample_height == self.lattice.spec_rows() * self.cell_size
        &&& self.values@.len() == self.sample_height
        &&& forall|j: int|
            0 <= j < self.sample_height ==> (#[trigger] self.values@[j])@.len()
                == self.sample_width
        &&& forall|j: int, i: int|
            #![trigger self.values@[j]@[i]]
            0 <= j < self.sample_height && 0 <= i < self.sample_width ==> self.values@[j]@[i]
                == spec_value(
                *self.lattice,
                self.cell_size as int,
                i * (FIX_ONE as int),
                j * (FIX_ONE as int),
            )
    }

    /// Builds the field over `lattice` with `cell_size` pixels per cell
    /// and evaluates every pixel of the `cols*cell_size` by
    /// `rows*cell_size` grid: afterwards each entry of the grid is the
    /// model's value at that pixel's coordinate, in `[0, FIX_ONE]`.
    pub fn new(lattice: &'a GradientLattice, cell_size: u64) -> (r: NoiseField<'a>)
        requires
            lattice.wf(),
            1 <= cell_size,
            lattice.spec_cols() * cell_size <= MAX_FIELD_PIXELS,
            lattice.spec_rows() * cell_size <= MAX_FIELD_PIXELS,
        ensures
            r.wf(),
            r.spec_lattice() == *lattice,
            r.spec_cell_size() == cell_size,
            r.spec_width() == lattice.spec_cols() * cell_size,
            r.spec_height() == lattice.spec_rows() * cell_size,
    {
        proof {
            crate::lattice::lemma_wf_dims(*lattice);
        }
        let cols = lattice.cols();
        let rows = lattice.rows();
        let width: usize = ((cols as u64) * cell_size) as usize;
        let height: usize = ((rows as u64) * cell_size) as usize;
        let mut values: Vec<Vec<i64>> = Vec::new();
        let mut py: usize = 0;
        while py < height
            invariant
                lattice.wf(),
                1 <= cell_size,
                lattice.spec_cols() * cell_size <= MAX_FIELD_PIXELS,
                lattice.spec_rows() * cell_size <= MAX_FIELD_PIXELS,
                width == lattice.spec_cols() * cell_size,
                height == lattice.spec_rows() * cell_size,
                py <= height,
                values@.len() == py,
                forall|j: int| 0 <= j < py ==> (#[trigger] values@[j])@.len() == width,
                forall|j: int, i: int|
                    #![trigger values@[j]@[i]]
                    0 <= j < py && 0 <= i < width ==> values@[j]@[i] == spec_value(
                        *lattice,
                        cell_size as int,
                        i * (FIX_ONE as int),
                        j * (FIX_ONE as int),
                    ),
            decreases height - py,
        {
            let y: i64 = (py as i64) * 0x1_0000_0000i64;
            let mut row: Vec<i64> = Vec::new();
            let mut px: usize = 0;
            while px < width
                invariant
                    lattice.wf(),
                    1 <= cell_size,
                    lattice.spec_cols() * cell_size <= MAX_FIELD_PIXELS,
                    lattice.spec_rows() * cell_size <= MAX_FIELD_PIXELS,
                    width == lattice.spec_cols() * cell_size,
                    height == lattice.spec_rows() * cell_size,
                    py < height,
                    y == py * (FIX_ONE as int),
                    px <= width,
                    row@.len() == px,
                    forall|i: int|
                        #![trigger row@[i]]
                        0 <= i < px ==> row@[i] == spec_value(
                            *lattice,
                            cell_size as int,
                            i * (FIX_ONE as int),
                            py * (FIX_ONE as int),
                        ),
                decreases width - px,
            {
                let x: i64 = (px as i64) * 0x1_0000_0000i64;
                let v = sample_at(lattice, cell_size, x, y);
                row.push(v);
                px = px + 1;
            }
            values.push(row);
            py = py + 1;
        }
        NoiseField { lattice, cell_size, sample_width: width, sample_height: height, values }
    }

    /// The evaluated grid: `sample_height` rows of `sample_width`
    /// normalized values, each in `[0, FIX_ONE]`, each the model's
    /// value at its pixel's coordinate.
    pub fn evaluate_all(&self) -> (v: &Vec<Vec<i64>>)
        requires
            self.wf(),
        ensures
            v@.len() == self.spec_height(),
            forall|j: int|
                0 <= j < self.spec_height() ==> (#[trigger] v@[j])@.len() == self.spec_width(),
            forall|j: int, i: int|
                #![trigger v@[j]@[i]]
                0 <= j < self.spec_height() && 0 <= i < self.spec_width() ==> v@[j]@[i]
                    == spec_value(
                    self.spec_lattice(),
                    self.spec_cell_size(),
                    i * (FIX_ONE as int),
                    j * (FIX_ONE as int),
                ) && 0 <= v@[j]@[i] <= FIX_ONE,
    {
        proof {
            assert forall|j: int, i: int|
                0 <= j < self.spec_height() && 0 <= i < self.spec_width() implies 0 <= (
            #[trigger] self.values@[j]@[i]) <= FIX_ONE by {
                lemma_value_in_range(
                    *self.lattice,
                    self.cell_size as int,
                    i * (FIX_ONE as int),
                    j * (FIX_ONE as int),
                );
            }
        }
        &self.values
    }

    /// The normalized noise value at the continuous Q32.32 point
    /// `(x, y)`: `Ok` exactly on the covered region
    /// `[0, cols*cell_size) x [0, rows*cell_size)`, `OutOfDomain`
    /// outside it. The value returned is the same model value that
    /// `evaluate_all` stores, computed by the same routine.
    pub fn sample(&self, x: i64, y: i64) -> (r: Result<i64, NoiseError>)
        requires
            self.wf(),
        ensures
            r is Ok <==> (0 <= x < self.spec_width() * (FIX_ONE as int) && 0 <= y
                < self.spec_height() * (FIX_ONE as int)),
            !(0 <= x < self.spec_width() * (FIX_ONE as int) && 0 <= y < self.spec_height() * (
            FIX_ONE as int)) ==> r === Err(NoiseError::OutOfDomain),
            r matches Ok(v) ==> v == spec_value(
                self.spec_lattice(),
                self.spec_cell_size(),
                x as int,
                y as int,
            ) && 0 <= v <= FIX_ONE,
    {
        let wq: i64 = (self.sample_width as i64) * 0x1_0000_0000i64;
        let hq: i64 = (self.sample_height as i64) * 0x1_0000_0000i64;
        if x < 0 || y < 0 || x >= wq || y >= hq {
            return Err(NoiseError::OutOfDomain);
        }
        proof {
            assert((self.lattice.spec_cols() * self.cell_size) * (FIX_ONE as int) == self.spec_width() * (FIX_ONE as int));
        }
        Ok(sample_at(self.lattice, self.cell_size, x, y))
    }

    /// Pixels per lattice cell edge.
    pub fn cell_size(&self) -> (c: u64)
        ensures
            c == self.spec_cell_size(),
    {
        self.cell_size
    }

    /// Pixel width of the evaluated field.
    pub fn width(&self) -> (w: usize)
        ensures
            w == self.spec_width(),
    {
        self.sample_width
    }

    /// Pixel height of the evaluated field.
    pub fn height(&self) -> (h: usize)
        ensures
            h == self.spec_height(),
    {
        self.sample_height
    }
}

/// Every normalized value lies in `[0, FIX_ONE]`: the affine map is
/// clamped there, whatever the raw blend was.
pub proof fn lemma_value_in_range(l: GradientLattice, cs: int, x: int, y: int)
    ensures
        0 <= spec_value(l, cs, x, y) <= FIX_ONE,
{
}

/// Boundary agreement: the entry that `evaluate_all` stores for pixel
/// `(px, py)` is the model's value at that pixel's sample coordinate —
/// the very value `sample` returns there, since both go through one
/// shared routine.
pub proof fn lemma_grid_matches_sample(f: NoiseField, px: int, py: int)
    requires
        f.wf(),
        0 <= px < f.spec_width(),
        0 <= py < f.spec_height(),
    ensures
        f.spec_values()[py][px] == spec_value(
            f.spec_lattice(),
            f.spec_cell_size(),
            px * (FIX_ONE as int),
            py * (FIX_ONE as int),
        ),
{
}

/// Nearby fractional offsets within one cell give nearby raw blends:
/// each coordinate of the offset moving by at most `e` moves the raw
/// value by at most `1518 e + 1590`.
proof fn lemma_cell_raw_diff(
    tl: Vector2,
    tr: Vector2,
    bl: Vector2,
    br: Vector2,
    fx1: int,
    fy1: int,
    fx2: int,
    fy2: int,
    e: int,
)
    requires
        -(FIX_ONE as int) <= tl.x <= FIX_ONE as int,
        -(FIX_ONE as int) <= tl.y <= FIX_ONE as int,
        -(FIX_ONE as int) <= tr.x <= FIX_ONE as int,
        -(FIX_ONE as int) <= tr.y <= FIX_ONE as int,
        -(FIX_ONE as int) <= bl.x <= FIX_ONE as int,
        -(FIX_ONE as int) <= bl.y <= FIX_ONE as int,
        -(FIX_ONE as int) <= br.x <= FIX_ONE as int,
        -(FIX_ONE as int) <= br.y <= FIX_ONE as int,
        0 <= fx1 <= FIX_ONE as int,
        0 <= fy1 <= FIX_ONE as int,
        0 <= fx2 <= FIX_ONE as int,
        0 <= fy2 <= FIX_ONE as int,
        -e <= fx1 - fx2 <= e,
        -e <= fy1 - fy2 <= e,
    ensures
        -(1518 * e + 1590) <= cell_raw(tl, tr, bl, br, fx1, fy1) - cell_raw(
            tl,
            tr,
            bl,
            br,
            fx2,
            fy2,
        ) <= 1518 * e + 1590,
{
    let one = FIX_ONE as int;
    let m = 2 * one + 2;

    // Each corner's dot product moves by at most `2e + 2`.
    lemma_div_by_multiple(e, one);
    lemma_fx_mul_diff(fx1, fx2, tl.x as int, e, one);
    lemma_fx_mul_diff(fy1, fy2, tl.y as int, e, one);
    lemma_fx_mul_diff(fx1 - one, fx2 - one, tr.x as int, e, one);
    lemma_fx_mul_diff(fy1, fy2, tr.y as int, e, one);
    lemma_fx_mul_diff(fx1, fx2, bl.x as int, e, one);
    lemma_fx_mul_diff(fy1 - one, fy2 - one, bl.y as int, e, one);
    lemma_fx_mul_diff(fx1 - one, fx2 - one, br.x as int, e, one);
    lemma_fx_mul_diff(fy1 - one, fy2 - one, br.y as int, e, one);

    // Each dot product is bounded by `m` in magnitude.
    lemma_div_multiples_vanish(one, one);
    lemma_fx_mul_range(fx1, tl.x as int, one, one);
    lemma_fx_mul_range(fy1, tl.y as int, one, one);
    lemma_fx_mul_range(fx1 - one, tr.x as int, one, one);
    lemma_fx_mul_range(fy1, tr.y as int, one, one);
    lemma_fx_mul_range(fx1, bl.x as int, one, one);
    lemma_fx_mul_range(fy1 - one, bl.y as int, one, one);
    lemma_fx_mul_range(fx1 - one, br.x as int, one, one);
    lemma_fx_mul_range(fy1 - one, br.y as int, one, one);
    lemma_fx_mul_range(fx2, tl.x as int, one, one);
    lemma_fx_mul_range(fy2, tl.y as int, one, one);
    lemma_fx_mul_range(fx2 - one, tr.x as int, one, one);
    lemma_fx_mul_range(fy2, tr.y as int, one, one);
    lemma_fx_mul_range(fx2, bl.x as int, one, one);
    lemma_fx_mul_range(fy2 - one, bl.y as int, one, one);
    lemma_fx_mul_range(fx2 - one, br.x as int, one, one);
    lemma_fx_mul_range(fy2 - one, br.y as int, one, one);

    // The faded weights move by at most `dw`, and stay in `[0, one]`.
    let dw = 75 * e + 78;
    lemma_fx_fade_bounds(fx1);
    lemma_fx_fade_bounds(fy1);
    lemma_fx_fade_bounds(fx2);
    lemma_fx_fade_bounds(fy2);
    lemma_fx_fade_diff(fx1, fx2, e);
    lemma_fx_fade_diff(fy1, fy2, e);

    // The weighted-motion term of the interpolation bound reduces to
    // `5 dw`.
    assert(dw * (2 * m) == (4 * dw) * one + 4 * dw) by (nonlinear_arith)
        requires
            m == 2 * one + 2,
    ;
    lemma_hoist_over_denominator(4 * dw, 4 * dw, one as nat);
    lemma_div_is_ordered(4 * dw, dw * one, one);
    lemma_div_by_multiple(dw, one);
    lemma_div_pos_is_pos(4 * dw, one);

    let d_tl1 = fx_dot(fx1, fy1, tl.x as int, tl.y as int);
    let d_tr1 = fx_dot(fx1 - one, fy1, tr.x as int, tr.y as int);
    let d_bl1 = fx_dot(fx1, fy1 - one, bl.x as int, bl.y as int);
    let d_br1 = fx_dot(fx1 - one, fy1 - one, br.x as int, br.y as int);
    let d_tl2 = fx_dot(fx2, fy2, tl.x as int, tl.y as int);
    let d_tr2 = fx_dot(fx2 - one, fy2, tr.x as int, tr.y as int);
    let d_bl2 = fx_dot(fx2, fy2 - one, bl.x as int, bl.y as int);
    let d_br2 = fx_dot(fx2 - one, fy2 - one, br.x as int, br.y as int);
    lemma_fx_lerp_diff(d_tl1, d_tr1, fx_fade(fx1), d_tl2, d_tr2, fx_fade(fx2), 2 * e + 2, dw, m);
    lemma_fx_lerp_diff(d_bl1, d_br1, fx_fade(fx1), d_bl2, d_br2, fx_fade(fx2), 2 * e + 2, dw, m);

    // Both intermediate interpolants stay between their endpoints.
    let dl = 381 * e + 399;
    lemma_fx_lerp_in_range(d_tl1, d_tr1, fx_fade(fx1));
    lemma_fx_lerp_in_range(d_bl1, d_br1, fx_fade(fx1));
    lemma_fx_lerp_in_range(d_tl2, d_tr2, fx_fade(fx2));
    lemma_fx_lerp_in_range(d_bl2, d_br2, fx_fade(fx2));
    lemma_fx_lerp_diff(
        fx_lerp(d_tl1, d_tr1, fx_fade(fx1)),
        fx_lerp(d_bl1, d_br1, fx_fade(fx1)),
        fx_fade(fy1),
        fx_lerp(d_tl2, d_tr2, fx_fade(fx2)),
        fx_lerp(d_bl2, d_br2, fx_fade(fx2)),
        fx_fade(fy2),
        dl,
        dw,
        m,
    );
}

/// Nearby raw blends give nearby normalized values: the affine map
/// adds at most one unit of rounding, and the clamp never widens a
/// difference.
proof fn lemma_normalize_diff(r1: int, r2: int, dr: int)
    requires
        -dr <= r1 - r2 <= dr,
    ensures
        -(dr + 1) <= spec_normalize(r1) - spec_normalize(r2) <= dr + 1,
{
    let one = FIX_ONE as int;
    let s2 = SQRT2_Q32 as int;
    let n1 = (r1 + HALF_SQRT2_Q32 as int) * one;
    let n2 = (r2 + HALF_SQRT2_Q32 as int) * one;
    assert(-(dr * one) <= n1 - n2 <= dr * one) by (nonlinear_arith)
        requires
            n1 == (r1 + HALF_SQRT2_Q32 as int) * one,
            n2 == (r2 + HALF_SQRT2_Q32 as int) * one,
            -dr <= r1 - r2 <= dr,
            one > 0,
    ;
    lemma_div_diff(n1, n2, s2, dr * one);
    assert(dr * one >= 0) by (nonlinear_arith)
        requires
            dr >= 0,
            one > 0,
    ;
    lemma_div_is_ordered_by_denominator(dr * one, one, s2);
    lemma_div_by_multiple(dr, one);
    lemma_div_pos_is_pos(dr * one, s2);
}

/// Continuity: two points of the same cell at most `d` apart in each
/// Q32.32 coordinate get values at most `1518 * (d / cs) + 3109`
/// apart — on the unit scale, a bound proportional to `d / cs` plus a
/// fixed few-thousand ulps of rounding.
pub proof fn lemma_continuity(
    l: GradientLattice,
    cs: int,
    x1: int,
    y1: int,
    x2: int,
    y2: int,
    d: int,
)
    requires
        l.wf(),
        1 <= cs,
        0 <= x1 && 0 <= y1 && 0 <= x2 && 0 <= y2,
        spec_cell(x1, cs) == spec_cell(x2, cs),
        spec_cell(y1, cs) == spec_cell(y2, cs),
        0 <= spec_cell(x1, cs) < l.spec_cols(),
        0 <= spec_cell(y1, cs) < l.spec_rows(),
        -d <= x1 - x2 <= d,
        -d <= y1 - y2 <= d,
    ensures
        -(1518 * (d / cs) + 3109) <= spec_value(l, cs, x1, y1) - spec_value(l, cs, x2, y2) <= 1518
            * (d / cs) + 3109,
{
    let one = FIX_ONE as int;
    let csw = cs * one;
    let cx = spec_cell(x1, cs);
    let cy = spec_cell(y1, cs);
    lemma_fundamental_div_mod(x1, csw);
    lemma_fundamental_div_mod(x2, csw);
    lemma_fundamental_div_mod(y1, csw);
    lemma_fundamental_div_mod(y2, csw);
    lemma_mod_division_less_than_divisor(x1, csw);
    lemma_mod_division_less_than_divisor(x2, csw);
    lemma_mod_division_less_than_divisor(y1, csw);
    lemma_mod_division_less_than_divisor(y2, csw);
    assert(x1 % csw - x2 % csw == x1 - x2);
    assert(y1 % csw - y2 % csw == y1 - y2);
    let e = d / cs + 1;
    lemma_div_diff(x1 % csw, x2 % csw, cs, d);
    lemma_div_diff(y1 % csw, y2 % csw, cs, d);

    // Every fractional offset lies in `[0, one)`.
    lemma_div_pos_is_pos(x1 % csw, cs);
    lemma_div_pos_is_pos(x2 % csw, cs);
    lemma_div_pos_is_pos(y1 % csw, cs);
    lemma_div_pos_is_pos(y2 % csw, cs);
    lemma_multiply_divide_lt(x1 % csw, cs, one);
    lemma_multiply_divide_lt(x2 % csw, cs, one);
    lemma_multiply_divide_lt(y1 % csw, cs, one);
    lemma_multiply_divide_lt(y2 % csw, cs, one);

    crate::lattice::lemma_corner_bounds(l, cx, cy);
    crate::lattice::lemma_corner_bounds(l, cx + 1, cy);
    crate::lattice::lemma_corner_bounds(l, cx, cy + 1);
    crate::lattice::lemma_corner_bounds(l, cx + 1, cy + 1);

    lemma_cell_raw_diff(
        l.corner(cx, cy),
        l.corner(cx + 1, cy),
        l.corner(cx, cy + 1),
        l.corner(cx + 1, cy + 1),
        spec_frac(x1, cs),
        spec_frac(y1, cs),
        spec_frac(x2, cs),
        spec_frac(y2, cs),
        e,
    );
    lemma_normalize_diff(spec_sample(l, cs, x1, y1), spec_sample(l, cs, x2, y2), 1518 * e + 1590);
}

/// Grid-point zero: at an exact lattice corner both fractional offsets
/// are zero, the corner's own dot product vanishes, and the fade wipes
/// out the three other contributions, so the raw blend is exactly zero
/// and the normalized value is the fixed mid-scale constant
/// `spec_normalize(0)`.
pub proof fn lemma_corner_value(l: GradientLattice, cs: int, cx: int, cy: int)
    requires
        l.wf(),
        1 <= cs,
        0 <= cx < l.spec_cols(),
        0 <= cy < l.spec_rows(),
    ensures
        spec_sample(l, cs, (cx * cs) * (FIX_ONE as int), (cy * cs) * (FIX_ONE as int)) == 0,
        spec_value(l, cs, (cx * cs) * (FIX_ONE as int), (cy * cs) * (FIX_ONE as int))
            == spec_normalize(0),
{
    let one = FIX_ONE as int;
    let x = (cx * cs) * one;
    let y = (cy * cs) * one;
    assert(x == cx * (cs * one) && y == cy * (cs * one)) by (nonlinear_arith)
        requires
            x == (cx * cs) * one,
            y == (cy * cs) * one,
    ;
    vstd::arithmetic::div_mod::lemma_div_by_multiple(cx, cs * one);
    vstd::arithmetic::div_mod::lemma_div_by_multiple(cy, cs * one);
    vstd::arithmetic::div_mod::lemma_mod_multiples_basic(cx, cs * one);
    vstd::arithmetic::div_mod::lemma_mod_multiples_basic(cy, cs * one);
    assert(spec_cell(x, cs) == cx && spec_cell(y, cs) == cy);
    vstd::arithmetic::div_mod::lemma_div_of0(cs);
    assert(spec_frac(x, cs) == 0 && spec_frac(y, cs) == 0);
    vstd::arithmetic::div_mod::lemma_div_of0(one);
    crate::fixed::lemma_fx_fade_endpoints();
    assert(fx_mul(0, 0) == 0);
    let tl = l.corner(cx, cy);
    let tr = l.corner(cx + 1, cy);
    let bl = l.corner(cx, cy + 1);
    let br = l.corner(cx + 1, cy + 1);
    assert(fx_dot(0, 0, tl.x as int, tl.y as int) == 0);
    let d_tr = fx_dot(0 - one, 0, tr.x as int, tr.y as int);
    let d_bl = fx_dot(0, 0 - one, bl.x as int, bl.y as int);
    let d_br = fx_dot(0 - one, 0 - one, br.x as int, br.y as int);
    assert(fx_lerp(0, d_tr, 0) == 0);
    let bottom = fx_lerp(d_bl, d_br, 0);
    assert(fx_lerp(0, bottom, 0) == 0);
}

} // verus!
