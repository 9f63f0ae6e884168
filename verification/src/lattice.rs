//! The gradient lattice: a rectangular grid of near-unit gradient
//! vectors, generated once from a 64-bit seed and immutable afterwards.
//!
//! A lattice with `cols` columns and `rows` rows of cells owns one
//! vector per lattice *corner*, `(rows + 1) * (cols + 1)` in all.
//! Corners are filled row by row — `cy` outer, `cx` inner — so corner
//! `(cx, cy)` takes the word at index `cy * (cols + 1) + cx` of the
//! seed's stream. That fixed order is part of the reproducibility
//! contract: the same seed always yields the same lattice.

use crate::gradient::{grad_x, grad_y, gradient_from_word, lemma_gradient_unit, Vector2};
use crate::rng::{rng_word, SeedStream};
use crate::NoiseError;
use vstd::prelude::*;

verus! {

/// Largest number of cells accepted along either axis, so that every
/// index computation fits the machine's integers.
pub const MAX_CELLS: usize = 0xFFFF;

/// The index into the seed's word stream that feeds corner `(cx, cy)`.
pub open spec fn corner_index(cols: int, cx: int, cy: int) -> int {
    cy * (cols + 1) + cx
}

/// A grid of near-unit gradient vectors, one per lattice corner.
pub struct GradientLattice {
    cols: usize,
    rows: usize,
    seed: u64,
    vectors: Vec<Vec<Vector2>>,
}

impl GradientLattice {
    /// Number of cells along x.
    pub closed spec fn spec_cols(self) -> int {
        self.cols as int
    }

    /// Number of cells along y.
    pub closed spec fn spec_rows(self) -> int {
        self.rows as int
    }

    /// The seed the lattice was generated from.
    pub closed spec fn spec_seed(self) -> u64 {
        self.seed
    }

    /// The grid of gradients, row by row: `spec_grid()[cy][cx]` is the
    /// corner `(cx, cy)`.
    pub closed spec fn spec_grid(self) -> Seq<Seq<Vector2>> {
        Seq::new(self.vectors@.len(), |j: int| self.vectors@[j]@)
    }

    /// Well-formedness: the dimensions are positive and bounded, the
    /// grid is rectangular with one row and one column of corners more
    /// than of cells, and every corner holds exactly the gradient that
    /// the seed's word stream assigns to it.
    pub closed spec fn wf(self) -> bool {
        &&& 1 <= self.cols <= MAX_CELLS
        &&& 1 <= self.rows <= MAX_CELLS
        &&& self.vectors@.len() == self.rows + 1
        &&& forall|j: int|
            0 <= j <= self.rows ==> (#[trigger] self.vectors@[j])@.len() == self.cols + 1
        &&& forall|j: int, i: int|
            #![trigger self.vectors@[j]@[i]]
            0 <= j <= self.rows && 0 <= i <= self.cols ==> {
                let w = rng_word(self.seed, corner_index(self.cols as int, i, j) as nat);
                self.vectors@[j]@[i].x == grad_x(w) && self.vectors@[j]@[i].y == grad_y(w)
            }
    }

    /// The gradient at corner `(cx, cy)` of a well-formed lattice, as
    /// the model states it.
    pub open spec fn corner(self, cx: int, cy: int) -> Vector2 {
        self.spec_grid()[cy][cx]
    }

    /// Builds the lattice for `cols * rows` cells from `seed`: `Ok`
    /// exactly when both dimensions are nonzero, `InvalidDimensions`
    /// otherwise. The result is well formed, so every corner holds the
    /// gradient that the seed assigns to it — the whole lattice is a
    /// function of `(cols, rows, seed)`.
    pub fn new(cols: usize, rows: usize, seed: u64) -> (r: Result<GradientLattice, NoiseError>)
        requires
            cols <= MAX_CELLS,
            rows <= MAX_CELLS,
        ensures
            r is Ok <==> (cols >= 1 && rows >= 1),
            !(cols >= 1 && rows >= 1) ==> r === Err(NoiseError::InvalidDimensions),
            r matches Ok(l) ==> l.wf() && l.spec_cols() == cols && l.spec_rows() == rows
                && l.spec_seed() == seed,
    {
        if cols == 0 || rows == 0 {
            return Err(NoiseError::InvalidDimensions);
        }
        let mut stream = SeedStream::new(seed);
        let mut vectors: Vec<Vec<Vector2>> = Vec::new();
        let mut cy: usize = 0;
        while cy <= rows
            invariant
                1 <= cols <= MAX_CELLS,
                1 <= rows <= MAX_CELLS,
                cy <= rows + 1,
                stream.seed() == seed,
                stream.drawn() == cy * (cols + 1),
                vectors@.len() == cy,
                forall|j: int| 0 <= j < cy ==> (#[trigger] vectors@[j])@.len() == cols + 1,
                forall|j: int, i: int|
                    #![trigger vectors@[j]@[i]]
                    0 <= j < cy && 0 <= i <= cols ==> {
                        let w = rng_word(seed, corner_index(cols as int, i, j) as nat);
                        vectors@[j]@[i].x == grad_x(w) && vectors@[j]@[i].y == grad_y(w)
                    },
            decreases rows + 1 - cy,
        {
            let mut row: Vec<Vector2> = Vec::new();
            let mut cx: usize = 0;
            while cx <= cols
                invariant
                    1 <= cols <= MAX_CELLS,
                    1 <= rows <= MAX_CELLS,
                    cy <= rows,
                    cx <= cols + 1,
                    stream.seed() == seed,
                    stream.drawn() == cy * (cols + 1) + cx,
                    row@.len() == cx,
                    forall|i: int|
                        #![trigger row@[i]]
                        0 <= i < cx ==> {
                            let w = rng_word(seed, corner_index(cols as int, i, cy as int) as nat);
                            row@[i].x == grad_x(w) && row@[i].y == grad_y(w)
                        },
                decreases cols + 1 - cx,
            {
                proof {
                    assert(cy * (cols + 1) + cx < 0x1_0000_0000_0000int) by (nonlinear_arith)
                        requires
                            cy <= 0xFFFFusize,
                            cols <= 0xFFFFusize,
                            cx <= cols + 1,
                    ;
                }
                let w = stream.next_word();
                row.push(gradient_from_word(w));
                cx = cx + 1;
            }
            vectors.push(row);
            cy = cy + 1;
            proof {
                assert((cy - 1) * (cols + 1) + (cols + 1) == cy * (cols + 1)) by (nonlinear_arith);
            }
        }
        let lattice = GradientLattice { cols, rows, seed, vectors };
        proof {
            assert forall|j: int, i: int|
                0 <= j <= lattice.rows && 0 <= i <= lattice.cols implies {
                let w = rng_word(lattice.seed, corner_index(lattice.cols as int, i, j) as nat);
                (#[trigger] lattice.vectors@[j]@[i]).x == grad_x(w) && lattice.vectors@[j]@[i].y
                    == grad_y(w)
            } by {
                assert(lattice.vectors@[j]@[i] == vectors@[j]@[i]);
            }
        }
        Ok(lattice)
    }

    /// The gradient at corner `(cx, cy)`: `Ok` exactly when the corner
    /// exists, `OutOfBounds` otherwise.
    pub fn gradient_at(&self, cx: usize, cy: usize) -> (r: Result<Vector2, NoiseError>)
        requires
            self.wf(),
        ensures
            r is Ok <==> (cx <= self.spec_cols() && cy <= self.spec_rows()),
            !(cx <= self.spec_cols() && cy <= self.spec_rows()) ==> r === Err(
                NoiseError::OutOfBounds,
            ),
            r matches Ok(v) ==> v == self.corner(cx as int, cy as int),
    {
        if cx > self.cols || cy > self.rows {
            return Err(NoiseError::OutOfBounds);
        }
        let v = self.vectors[cy][cx];
        proof {
            assert(v == self.corner(cx as int, cy as int));
        }
        Ok(v)
    }

    /// The gradient at a corner known to exist, with the component
    /// bounds that every generated gradient satisfies.
    pub(crate) fn corner_at(&self, cx: usize, cy: usize) -> (v: Vector2)
        requires
            self.wf(),
            cx <= self.spec_cols(),
            cy <= self.spec_rows(),
        ensures
            v == self.corner(cx as int, cy as int),
            -(crate::fixed::FIX_ONE as int) <= v.x <= crate::fixed::FIX_ONE as int,
            -(crate::fixed::FIX_ONE as int) <= v.y <= crate::fixed::FIX_ONE as int,
    {
        let v = self.vectors[cy][cx];
        proof {
            assert(v == self.corner(cx as int, cy as int));
            lemma_gradient_unit(
                rng_word(self.seed, corner_index(self.cols as int, cx as int, cy as int) as nat),
            );
        }
        v
    }

    /// Number of cells along x.
    pub fn cols(&self) -> (c: usize)
        ensures
            c == self.spec_cols(),
    {
        self.cols
    }

    /// Number of cells along y.
    pub fn rows(&self) -> (r: usize)
        ensures
            r == self.spec_rows(),
    {
        self.rows
    }

    /// The seed, exposed read-only so a run can be reproduced exactly.
    pub fn seed(&self) -> (s: u64)
        ensures
            s == self.spec_seed(),
    {
        self.seed
    }
}

/// Every corner gradient of a well-formed lattice has both components
/// bounded by one in magnitude.
pub proof fn lemma_corner_bounds(l: GradientLattice, cx: int, cy: int)
    requires
        l.wf(),
        0 <= cx <= l.spec_cols(),
        0 <= cy <= l.spec_rows(),
    ensures
        -(crate::fixed::FIX_ONE as int) <= l.corner(cx, cy).x <= crate::fixed::FIX_ONE as int,
        -(crate::fixed::FIX_ONE as int) <= l.corner(cx, cy).y <= crate::fixed::FIX_ONE as int,
{
    lemma_gradient_unit(rng_word(l.spec_seed(), corner_index(l.spec_cols(), cx, cy) as nat));
}

/// What well-formedness says about the dimensions and the grid shape,
/// exported for the modules that build on a lattice.
pub proof fn lemma_wf_dims(l: GradientLattice)
    requires
        l.wf(),
    ensures
        1 <= l.spec_cols() <= MAX_CELLS,
        1 <= l.spec_rows() <= MAX_CELLS,
        l.spec_grid().len() == l.spec_rows() + 1,
        forall|j: int|
            0 <= j < l.spec_grid().len() ==> (#[trigger] l.spec_grid()[j]).len() == l.spec_cols()
                + 1,
{
}

/// Two well-formed lattices built for the same dimensions from the
/// same seed hold identical grids: generation is deterministic.
pub proof fn lemma_lattice_deterministic(a: GradientLattice, b: GradientLattice)
    requires
        a.wf(),
        b.wf(),
        a.spec_seed() == b.spec_seed(),
        a.spec_cols() == b.spec_cols(),
        a.spec_rows() == b.spec_rows(),
    ensures
        a.spec_grid() == b.spec_grid(),
{
    assert forall|j: int| 0 <= j < a.spec_grid().len() implies #[trigger] a.spec_grid()[j]
        =~= b.spec_grid()[j] by {
        assert forall|i: int| 0 <= i < a.spec_grid()[j].len() implies #[trigger] a.spec_grid()[j][i]
            == b.spec_grid()[j][i] by {
            assert(a.spec_grid()[j][i].x == b.spec_grid()[j][i].x);
            assert(a.spec_grid()[j][i].y == b.spec_grid()[j][i].y);
        }
    }
    assert(a.spec_grid() =~~= b.spec_grid());
}

/// The length of a flattened sequence of rows of one common width.
proof fn lemma_uniform_flatten_len(s: Seq<Seq<Vector2>>, w: nat)
    requires
        forall|j: int| 0 <= j < s.len() ==> (#[trigger] s[j]).len() == w,
    ensures
        s.flatten().len() == s.len() * w,
    decreases s.len(),
{
    if s.len() == 0 {
        assert(s.flatten().len() == 0);
    } else {
        lemma_uniform_flatten_len(s.drop_first(), w);
        assert(s.flatten() == s.first().add(s.drop_first().flatten()));
        assert(w + (s.len() - 1) * w == s.len() * w) by (nonlinear_arith);
    }
}

/// A well-formed lattice holds exactly `(rows + 1) * (cols + 1)`
/// gradient vectors: one per corner, not one per cell.
pub proof fn lemma_lattice_corner_count(l: GradientLattice)
    requires
        l.wf(),
    ensures
        l.spec_grid().len() == l.spec_rows() + 1,
        forall|j: int|
            0 <= j < l.spec_grid().len() ==> (#[trigger] l.spec_grid()[j]).len() == l.spec_cols()
                + 1,
        l.spec_grid().flatten().len() == (l.spec_rows() + 1) * (l.spec_cols() + 1),
{
    lemma_uniform_flatten_len(l.spec_grid(), (l.spec_cols() + 1) as nat);
}

/// Every gradient of a well-formed lattice is a near-unit vector: its
/// squared Q32.32 magnitude differs from one by at most `4*FIX_ONE + 2`
/// in squared scale, a relative error below `1e-9` on the magnitude.
pub proof fn lemma_lattice_unit_vectors(l: GradientLattice)
    requires
        l.wf(),
    ensures
        forall|j: int, i: int|
            #![trigger l.corner(i, j)]
            0 <= j <= l.spec_rows() && 0 <= i <= l.spec_cols() ==> {
                let v = l.corner(i, j);
                -(4 * (crate::fixed::FIX_ONE as int) + 2) <= v.x * v.x + v.y * v.y - (
                crate::fixed::FIX_ONE as int) * (crate::fixed::FIX_ONE as int) <= 4 * (
                crate::fixed::FIX_ONE as int) + 2
            },
{
    assert forall|j: int, i: int|
        0 <= j <= l.spec_rows() && 0 <= i <= l.spec_cols() implies {
        let v = #[trigger] l.corner(i, j);
        -(4 * (crate::fixed::FIX_ONE as int) + 2) <= v.x * v.x + v.y * v.y - (crate::fixed::FIX_ONE
            as int) * (crate::fixed::FIX_ONE as int) <= 4 * (crate::fixed::FIX_ONE as int) + 2
    } by {
        lemma_gradient_unit(rng_word(l.spec_seed(), corner_index(l.spec_cols(), i, j) as nat));
    }
}

} // verus!
