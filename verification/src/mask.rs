use vstd::prelude::*;

verus! {

/// A grid index `(i, j)`: `i` runs along x, `j` along y.
pub type Idx = (isize, isize);

/// Fluid classification of the Cartesian points of an `nx` by `ny` grid,
/// extended by `margin` points on every side.
///
/// `cells` is laid out over the extended box
/// `[-margin, nx + margin) x [-margin, ny + margin)`, x-major:
/// the point `(i, j)` sits at `(i + margin) * (ny + 2 margin) + (j + margin)`.
/// Points beyond the extended box are never fluid.
pub struct FluidMask {
    pub nx: usize,
    pub ny: usize,
    pub margin: usize,
    pub cells: Vec<bool>,
}

/// Exact nonlinear facts about row-major addressing.
pub proof fn lemma_row_major(a: int, b: int, w: int, h: int)
    requires
        0 <= a < w,
        0 <= b < h,
    ensures
        0 <= a * h + b < w * h,
        (a * h + b) / h == a,
        (a * h + b) % h == b,
{
    assert(0 <= a * h + b < w * h) by (nonlinear_arith)
        requires
            0 <= a < w,
            0 <= b < h,
    ;
    vstd::arithmetic::div_mod::lemma_fundamental_div_mod_converse(a * h + b, h, a, b);
}

impl FluidMask {
    /// Width of the extended box (number of x positions).
    pub open spec fn box_w(&self) -> int {
        self.nx + 2 * self.margin
    }

    /// Height of the extended box (number of y positions).
    pub open spec fn box_h(&self) -> int {
        self.ny + 2 * self.margin
    }

    /// Well-formedness: a non-empty grid whose extended box is fully
    /// covered by `cells` and small enough for signed index arithmetic.
    pub open spec fn wf(&self) -> bool {
        &&& self.nx > 0
        &&& self.ny > 0
        &&& self.box_w() * self.box_h() == self.cells@.len()
        &&& self.box_w() * self.box_h() <= isize::MAX
    }

    /// Number of grid cells.
    pub open spec fn n_cells(&self) -> int {
        self.nx * self.ny
    }

    /// `(i, j)` is a point of the physical grid.
    pub open spec fn in_grid(&self, i: int, j: int) -> bool {
        0 <= i < self.nx && 0 <= j < self.ny
    }

    /// `(i, j)` lies in the extended box.
    pub open spec fn in_box(&self, i: int, j: int) -> bool {
        -self.margin <= i < self.nx + self.margin && -self.margin <= j < self.ny + self.margin
    }

    /// Position of a point of the extended box in `cells`.
    pub open spec fn box_index(&self, i: int, j: int) -> int {
        (i + self.margin) * self.box_h() + (j + self.margin)
    }

    /// `(i, j)` is a fluid point.
    pub open spec fn fluid(&self, i: int, j: int) -> bool {
        self.in_box(i, j) && self.cells@[self.box_index(i, j)]
    }

    /// `(i, j)` is a fluid point of the physical grid.
    pub open spec fn fluid_cell(&self, i: int, j: int) -> bool {
        self.in_grid(i, j) && self.fluid(i, j)
    }

    /// Flattened index of a grid cell: `i * ny + j`.
    pub open spec fn grid_index(&self, i: int, j: int) -> int {
        i * self.ny + j
    }

    /// Grid cell of a flattened index.
    pub open spec fn cell_of(&self, l: int) -> (int, int) {
        (l / self.ny as int, l % self.ny as int)
    }

    pub proof fn lemma_box_index(&self, i: int, j: int)
        requires
            self.wf(),
            self.in_box(i, j),
        ensures
            0 <= self.box_index(i, j) < self.cells@.len(),
    {
        lemma_row_major(i + self.margin, j + self.margin, self.box_w(), self.box_h());
    }

    /// Flattening and unflattening are inverse on the grid.
    pub proof fn lemma_grid_index(&self, i: int, j: int)
        requires
            self.wf(),
            self.in_grid(i, j),
        ensures
            0 <= self.grid_index(i, j) < self.n_cells(),
            self.cell_of(self.grid_index(i, j)) == (i, j),
    {
        lemma_row_major(i, j, self.nx as int, self.ny as int);
    }

    pub proof fn lemma_cell_of(&self, l: int)
        requires
            self.wf(),
            0 <= l < self.n_cells(),
        ensures
            self.in_grid(self.cell_of(l).0, self.cell_of(l).1),
            self.grid_index(self.cell_of(l).0, self.cell_of(l).1) == l,
    {
        let ny = self.ny as int;
        vstd::arithmetic::div_mod::lemma_fundamental_div_mod(l, ny);
        vstd::arithmetic::div_mod::lemma_div_pos_is_pos(l, ny);
        vstd::arithmetic::div_mod::lemma_mod_bound(l, ny);
        let q = l / ny;
        let rem = l % ny;
        assert(q < self.nx as int) by (nonlinear_arith)
            requires
                l == ny * q + rem,
                0 <= rem,
                l < self.nx * ny,
                ny > 0,
        ;
        assert(q * ny + rem == l) by (nonlinear_arith)
            requires
                l == ny * q + rem,
        ;
    }

    /// Bounds implied by well-formedness.
    pub proof fn lemma_sizes(&self)
        requires
            self.wf(),
        ensures
            self.box_w() <= isize::MAX,
            self.box_h() <= isize::MAX,
            self.n_cells() <= self.box_w() * self.box_h(),
            self.n_cells() <= isize::MAX,
    {
        assert(self.box_w() <= self.box_w() * self.box_h()) by (nonlinear_arith)
            requires
                self.box_h() >= 1,
                self.box_w() >= 0,
        ;
        assert(self.box_h() <= self.box_w() * self.box_h()) by (nonlinear_arith)
            requires
                self.box_w() >= 1,
                self.box_h() >= 0,
        ;
        assert(self.nx * self.ny <= self.box_w() * self.box_h()) by (nonlinear_arith)
            requires
                self.nx <= self.box_w(),
                self.ny <= self.box_h(),
                self.nx >= 0,
                self.ny >= 0,
        ;
    }

    /// Builds a mask from its extended-box cells; `None` unless the grid is
    /// non-empty and `cells` covers exactly the extended box, whose size
    /// must fit the signed index range.
    pub fn new(nx: usize, ny: usize, margin: usize, cells: Vec<bool>) -> (r: Option<FluidMask>)
        ensures
            r.is_some() <==> (nx > 0 && ny > 0 && (nx + 2 * margin) * (ny + 2 * margin)
                == cells@.len() && (nx + 2 * margin) * (ny + 2 * margin) <= isize::MAX),
            r matches Some(m) ==> m.wf() && m.nx == nx && m.ny == ny && m.margin == margin
                && m.cells@ == cells@,
    {
        if nx == 0 || ny == 0 {
            return None;
        }
        let two_m = match margin.checked_add(margin) {
            Some(v) => v,
            None => {
                assert((nx + 2 * margin) * (ny + 2 * margin) > isize::MAX) by (nonlinear_arith)
                    requires
                        margin + margin > usize::MAX,
                        nx >= 1,
                        ny >= 1,
                ;
                return None;
            },
        };
        let w = match nx.checked_add(two_m) {
            Some(v) => v,
            None => {
                assert((nx + 2 * margin) * (ny + 2 * margin) > isize::MAX) by (nonlinear_arith)
                    requires
                        nx + 2 * margin > usize::MAX,
                        ny >= 1,
                ;
                return None;
            },
        };
        let h = match ny.checked_add(two_m) {
            Some(v) => v,
            None => {
                assert((nx + 2 * margin) * (ny + 2 * margin) > isize::MAX) by (nonlinear_arith)
                    requires
                        ny + 2 * margin > usize::MAX,
                        nx >= 1,
                ;
                return None;
            },
        };
        let total = match w.checked_mul(h) {
            Some(v) => v,
            None => {
                return None;
            },
        };
        if total != cells.len() || total > isize::MAX as usize {
            return None;
        }
        Some(FluidMask { nx, ny, margin, cells })
    }

    /// Number of grid cells, `nx * ny`.
    pub fn len(&self) -> (r: usize)
        requires
            self.wf(),
        ensures
            r == self.n_cells(),
    {
        proof {
            self.lemma_sizes();
        }
        self.nx * self.ny
    }

    /// True if `idx` is a point of the physical grid.
    pub fn is_in_grid(&self, idx: Idx) -> (r: bool)
        requires
            self.wf(),
        ensures
            r == self.in_grid(idx.0 as int, idx.1 as int),
    {
        proof {
            self.lemma_sizes();
        }
        idx.0 >= 0 && idx.0 < self.nx as isize && idx.1 >= 0 && idx.1 < self.ny as isize
    }

    /// True if `idx` is a fluid point (inside or outside the physical grid).
    pub fn is_in_domain(&self, idx: Idx) -> (r: bool)
        requires
            self.wf(),
        ensures
            r == self.fluid(idx.0 as int, idx.1 as int),
    {
        proof {
            self.lemma_sizes();
        }
        let m = self.margin as isize;
        let (i, j) = idx;
        if i < -m || j < -m {
            return false;
        }
        if i >= self.nx as isize + m || j >= self.ny as isize + m {
            return false;
        }
        let h = self.ny + 2 * self.margin;
        let a = (i + m) as usize;
        let b = (j + m) as usize;
        proof {
            self.lemma_box_index(i as int, j as int);
            assert(a * h + b == self.box_index(i as int, j as int));
        }
        self.cells[a * h + b]
    }

    /// Flattened index `i * ny + j` of a grid cell.
    pub fn linear_index(&self, idx: Idx) -> (r: usize)
        requires
            self.wf(),
            self.in_grid(idx.0 as int, idx.1 as int),
        ensures
            r == self.grid_index(idx.0 as int, idx.1 as int),
            r < self.n_cells(),
            self.cell_of(r as int) == (idx.0 as int, idx.1 as int),
    {
        proof {
            self.lemma_sizes();
            self.lemma_grid_index(idx.0 as int, idx.1 as int);
        }
        idx.0 as usize * self.ny + idx.1 as usize
    }

    /// Grid cell of a flattened index (inverse of `linear_index`).
    pub fn coords(&self, linear: usize) -> (r: Idx)
        requires
            self.wf(),
            linear < self.n_cells(),
        ensures
            (r.0 as int, r.1 as int) == self.cell_of(linear as int),
            self.in_grid(r.0 as int, r.1 as int),
            self.grid_index(r.0 as int, r.1 as int) == linear,
    {
        proof {
            self.lemma_sizes();
            self.lemma_cell_of(linear as int);
        }
        ((linear / self.ny) as isize, (linear % self.ny) as isize)
    }

    /// True if the grid cell with flattened index `linear` is fluid.
    pub fn is_fluid_cell(&self, linear: usize) -> (r: bool)
        requires
            self.wf(),
            linear < self.n_cells(),
        ensures
            r == self.fluid(self.cell_of(linear as int).0, self.cell_of(linear as int).1),
            r == self.fluid_cell(self.cell_of(linear as int).0, self.cell_of(linear as int).1),
    {
        let c = self.coords(linear);
        self.is_in_domain(c)
    }
}

} // verus!
