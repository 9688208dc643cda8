use vstd::prelude::*;

use crate::ghost::{lemma_index_of_unique, GhostGrid};
use crate::mask::{FluidMask, Idx};
use crate::state::Direction;

verus! {

// ============================================================================
// Reading values through the ghost access table
// ============================================================================

/// Value of point `p`: the stored grid value for a fluid grid cell,
/// otherwise the cached value of the ghost at `p`.
pub open spec fn point_value<T>(
    mask: FluidMask,
    g: GhostGrid,
    field: Seq<T>,
    ghost_values: Seq<T>,
    p: (int, int),
) -> T {
    if mask.fluid_cell(p.0, p.1) {
        field[mask.grid_index(p.0, p.1)]
    } else {
        ghost_values[g.ghosts@.index_of((p.0 as isize, p.1 as isize))]
    }
}

/// Point `d` steps from cell `c` along `dir`.
pub open spec fn stencil_point(c: (int, int), dir: Direction, d: int) -> (int, int) {
    match dir {
        Direction::X => (c.0 + d, c.1),
        Direction::Y => (c.0, c.1 + d),
    }
}

/// Stencil offset of `d` steps along `dir`.
pub open spec fn dir_offset(dir: Direction, d: int) -> (isize, isize) {
    match dir {
        Direction::X => (d as isize, 0isize),
        Direction::Y => (0isize, d as isize),
    }
}

/// Value designated by access-table target `t`: grid value `t` if
/// `t < field.len()`, otherwise ghost value `t - field.len()`.
pub fn v_at<T: Copy>(field: &[T], ghost_values: &[T], t: u32) -> (r: T)
    requires
        t < field@.len() + ghost_values@.len(),
    ensures
        r == if (t as int) < field@.len() {
            field@[t as int]
        } else {
            ghost_values@[t - field@.len()]
        },
{
    let t = t as usize;
    if t < field.len() {
        field[t]
    } else {
        ghost_values[t - field.len()]
    }
}

/// Values at the `n` points `anchor + di0`, ..., `anchor + di0 + n - 1`
/// along `dir`, read through the access table of fluid cell `anchor`.
pub fn gather<T: Copy>(
    mask: &FluidMask,
    g: &GhostGrid,
    field: &[T],
    ghost_values: &[T],
    anchor: usize,
    di0: isize,
    n: usize,
    dir: Direction,
) -> (r: Vec<T>)
    requires
        mask.wf(),
        g.wf(),
        g.n_cells == mask.n_cells(),
        g.resolves(*mask),
        field@.len() == mask.n_cells(),
        ghost_values@.len() == g.ghosts@.len(),
        anchor < mask.n_cells(),
        mask.fluid_cell(mask.cell_of(anchor as int).0, mask.cell_of(anchor as int).1),
        -4 <= di0,
        di0 + n <= 5,
        forall|q: int| 0 <= q < n ==> g.offsets@.contains(#[trigger] dir_offset(dir, di0 + q)),
    ensures
        r@.len() == n,
        forall|q: int|
            0 <= q < n ==> #[trigger] r@[q] == point_value(
                *mask,
                *g,
                field@,
                ghost_values@,
                stencil_point(mask.cell_of(anchor as int), dir, di0 + q),
            ),
{
    let mut r: Vec<T> = Vec::new();
    let mut q: usize = 0;
    while q < n
        invariant
            mask.wf(),
            g.wf(),
            g.n_cells == mask.n_cells(),
            g.resolves(*mask),
            field@.len() == mask.n_cells(),
            ghost_values@.len() == g.ghosts@.len(),
            anchor < mask.n_cells(),
            mask.fluid_cell(mask.cell_of(anchor as int).0, mask.cell_of(anchor as int).1),
            -4 <= di0,
            di0 + n <= 5,
            forall|q2: int|
                0 <= q2 < n ==> g.offsets@.contains(#[trigger] dir_offset(dir, di0 + q2)),
            q <= n,
            r@.len() == q,
            forall|q2: int|
                0 <= q2 < q ==> #[trigger] r@[q2] == point_value(
                    *mask,
                    *g,
                    field@,
                    ghost_values@,
                    stencil_point(mask.cell_of(anchor as int), dir, di0 + q2),
                ),
        decreases n - q,
    {
        let d: isize = di0 + q as isize;
        assert(g.offsets@.contains(dir_offset(dir, di0 + q)));
        let k = match dir {
            Direction::X => g.k_for(d, 0),
            Direction::Y => g.k_for(0, d),
        };
        let t = g.target(anchor, k);
        let ghost c = mask.cell_of(anchor as int);
        let ghost p = stencil_point(c, dir, d as int);
        let ghost nc = mask.n_cells();
        proof {
            assert(g.offsets@[k as int] == dir_offset(dir, d as int));
            assert(p == (c.0 + g.offsets@[k as int].0, c.1 + g.offsets@[k as int].1));
            let tt = g.entry(anchor as int, k as int);
            assert(tt == t);
            if tt < nc {
                assert(mask.cell_of(tt) == p);
                mask.lemma_cell_of(tt);
            } else {
                let pos = tt - nc;
                assert(pos < g.ghosts@.len());
                lemma_index_of_unique(g.ghosts@, pos);
                assert(g.ghosts@[pos] == (p.0 as isize, p.1 as isize));
            }
        }
        let v = v_at(field, ghost_values, t);
        r.push(v);
        q = q + 1;
    }
    r
}

/// The six-point interface stencil of `gather`, as an array.
pub fn gather6<T: Copy>(
    mask: &FluidMask,
    g: &GhostGrid,
    field: &[T],
    ghost_values: &[T],
    anchor: usize,
    di0: isize,
    dir: Direction,
) -> (r: [T; 6])
    requires
        mask.wf(),
        g.wf(),
        g.n_cells == mask.n_cells(),
        g.resolves(*mask),
        field@.len() == mask.n_cells(),
        ghost_values@.len() == g.ghosts@.len(),
        anchor < mask.n_cells(),
        mask.fluid_cell(mask.cell_of(anchor as int).0, mask.cell_of(anchor as int).1),
        -4 <= di0 <= -1,
        forall|q: int| 0 <= q < 6 ==> g.offsets@.contains(#[trigger] dir_offset(dir, di0 + q)),
    ensures
        forall|q: int|
            0 <= q < 6 ==> #[trigger] r@[q] == point_value(
                *mask,
                *g,
                field@,
                ghost_values@,
                stencil_point(mask.cell_of(anchor as int), dir, di0 + q),
            ),
{
    let v = gather(mask, g, field, ghost_values, anchor, di0, 6, dir);
    let r = [v[0], v[1], v[2], v[3], v[4], v[5]];
    assert(forall|q: int| 0 <= q < 6 ==> r@[q] == v@[q]);
    r
}

/// The nine-point stencil `anchor - 4 .. anchor + 4` along `dir` of the
/// non-conservative term, as an array.
pub fn gather9<T: Copy>(
    mask: &FluidMask,
    g: &GhostGrid,
    field: &[T],
    ghost_values: &[T],
    anchor: usize,
    dir: Direction,
) -> (r: [T; 9])
    requires
        mask.wf(),
        g.wf(),
        g.n_cells == mask.n_cells(),
        g.resolves(*mask),
        field@.len() == mask.n_cells(),
        ghost_values@.len() == g.ghosts@.len(),
        anchor < mask.n_cells(),
        mask.fluid_cell(mask.cell_of(anchor as int).0, mask.cell_of(anchor as int).1),
        forall|q: int| 0 <= q < 9 ==> g.offsets@.contains(#[trigger] dir_offset(dir, q - 4)),
    ensures
        forall|q: int|
            0 <= q < 9 ==> #[trigger] r@[q] == point_value(
                *mask,
                *g,
                field@,
                ghost_values@,
                stencil_point(mask.cell_of(anchor as int), dir, q - 4),
            ),
{
    assert forall|q: int| 0 <= q < 9 implies g.offsets@.contains(
        #[trigger] dir_offset(dir, -4 + q),
    ) by {
        assert(-4 + q == q - 4);
        assert(g.offsets@.contains(dir_offset(dir, q - 4)));
    }
    let v = gather(mask, g, field, ghost_values, anchor, -4, 9, dir);
    let r = [v[0], v[1], v[2], v[3], v[4], v[5], v[6], v[7], v[8]];
    assert(forall|q: int| 0 <= q < 9 ==> r@[q] == v@[q]);
    r
}

// ============================================================================
// Interface layout of the flux buffers
// ============================================================================

/// The x-interface `i - 1/2` at row `j` (stored at `lin = i * ny + j`,
/// `0 <= i <= nx`) is reconstructed from a fluid neighbour: the cell
/// `(i, j)` to its right when that is fluid (stencil starting 3 cells
/// before it), else the cell `(i - 1, j)` to its left (stencil starting 2
/// cells before it). `None` when both neighbours are solid or missing.
pub open spec fn x_anchor_spec(mask: FluidMask, lin: int) -> Option<(int, int)> {
    let i = lin / mask.ny as int;
    let j = lin % mask.ny as int;
    if i < mask.nx && mask.fluid_cell(i, j) {
        Some((mask.grid_index(i, j), -3))
    } else if i >= 1 && mask.fluid_cell(i - 1, j) {
        Some((mask.grid_index(i - 1, j), -2))
    } else {
        None
    }
}

/// The y-interface `j - 1/2` at column `i` (stored at `lin = j * nx + i`,
/// `0 <= j <= ny`) is reconstructed from the cell `(i, j)` above it when
/// fluid, else from the cell `(i, j - 1)` below it.
pub open spec fn y_anchor_spec(mask: FluidMask, lin: int) -> Option<(int, int)> {
    let j = lin / mask.nx as int;
    let i = lin % mask.nx as int;
    if j < mask.ny && mask.fluid_cell(i, j) {
        Some((mask.grid_index(i, j), -3))
    } else if j >= 1 && mask.fluid_cell(i, j - 1) {
        Some((mask.grid_index(i, j - 1), -2))
    } else {
        None
    }
}

/// Anchor cell and first stencil offset of the x-interface stored at
/// `lin` (see `x_anchor_spec`).
pub fn x_interface_anchor(mask: &FluidMask, lin: usize) -> (r: Option<(usize, isize)>)
    requires
        mask.wf(),
        lin < (mask.nx + 1) * mask.ny,
    ensures
        r matches Some(a) ==> x_anchor_spec(*mask, lin as int) == Some((a.0 as int, a.1 as int))
            && a.0 < mask.n_cells(),
        r is None ==> x_anchor_spec(*mask, lin as int) is None,
{
    proof {
        mask.lemma_sizes();
    }
    let ny = mask.ny;
    let nx = mask.nx;
    let i = lin / ny;
    let j = lin % ny;
    proof {
        let ii = i as int;
        let jj = j as int;
        vstd::arithmetic::div_mod::lemma_fundamental_div_mod(lin as int, ny as int);
        assert(lin == ny * ii + jj);
        assert(ii <= nx) by (nonlinear_arith)
            requires
                lin == ny * ii + jj,
                0 <= jj,
                lin < (nx + 1) * ny,
                ny > 0,
        ;
        assert(ii * ny + jj == lin) by (nonlinear_arith)
            requires
                lin == ny * ii + jj,
        ;
    }
    if i < nx {
        let c: Idx = (i as isize, j as isize);
        proof {
            mask.lemma_grid_index(i as int, j as int);
        }
        if mask.is_in_domain(c) {
            return Some((lin, -3));
        }
    }
    if i >= 1 {
        let c: Idx = ((i - 1) as isize, j as isize);
        proof {
            mask.lemma_grid_index(i - 1, j as int);
            assert((i - 1) * ny + j == lin - ny) by (nonlinear_arith)
                requires
                    i * ny + j == lin,
            ;
        }
        if mask.is_in_domain(c) {
            return Some((lin - ny, -2));
        }
    }
    None
}

/// Anchor cell and first stencil offset of the y-interface stored at
/// `lin` (see `y_anchor_spec`).
pub fn y_interface_anchor(mask: &FluidMask, lin: usize) -> (r: Option<(usize, isize)>)
    requires
        mask.wf(),
        lin < mask.nx * (mask.ny + 1),
    ensures
        r matches Some(a) ==> y_anchor_spec(*mask, lin as int) == Some((a.0 as int, a.1 as int))
            && a.0 < mask.n_cells(),
        r is None ==> y_anchor_spec(*mask, lin as int) is None,
{
    proof {
        mask.lemma_sizes();
    }
    let ny = mask.ny;
    let nx = mask.nx;
    let j = lin / nx;
    let i = lin % nx;
    proof {
        let ii = i as int;
        let jj = j as int;
        vstd::arithmetic::div_mod::lemma_fundamental_div_mod(lin as int, nx as int);
        assert(lin == nx * jj + ii);
        assert(jj <= ny) by (nonlinear_arith)
            requires
                lin == nx * jj + ii,
                0 <= ii,
                lin < nx * (ny + 1),
                nx > 0,
        ;
    }
    if j < ny {
        let c: Idx = (i as isize, j as isize);
        proof {
            mask.lemma_grid_index(i as int, j as int);
        }
        if mask.is_in_domain(c) {
            let cell = i * ny + j;
            return Some((cell, -3));
        }
    }
    if j >= 1 {
        let c: Idx = (i as isize, (j - 1) as isize);
        proof {
            mask.lemma_grid_index(i as int, j - 1);
        }
        if mask.is_in_domain(c) {
            let cell = i * ny + (j - 1);
            return Some((cell, -2));
        }
    }
    None
}

/// Positions of the four faces of grid cell `lin = i * ny + j` in the
/// interface buffers: left `i - 1/2` and right `i + 1/2` in the x-buffer
/// (`i * ny + j`, `(i + 1) * ny + j`), bottom `j - 1/2` and top `j + 1/2`
/// in the y-buffer (`j * nx + i`, `(j + 1) * nx + i`).
pub fn cell_faces(mask: &FluidMask, lin: usize) -> (r: (usize, usize, usize, usize))
    requires
        mask.wf(),
        lin < mask.n_cells(),
    ensures
        ({
            let (i, j) = mask.cell_of(lin as int);
            &&& r.0 == i * mask.ny + j
            &&& r.1 == (i + 1) * mask.ny + j
            &&& r.2 == j * mask.nx + i
            &&& r.3 == (j + 1) * mask.nx + i
            &&& r.1 < (mask.nx + 1) * mask.ny
            &&& r.3 < mask.nx * (mask.ny + 1)
        }),
{
    let c = mask.coords(lin);
    let i = c.0 as usize;
    let j = c.1 as usize;
    let nx = mask.nx;
    let ny = mask.ny;
    proof {
        mask.lemma_sizes();
        crate::mask::lemma_row_major(i + 1, j as int, nx + 1, ny as int);
        crate::mask::lemma_row_major(j + 1, i as int, ny + 1, nx as int);
        assert((nx + 1) * ny <= 2 * (nx * ny)) by (nonlinear_arith)
            requires
                nx >= 1,
                ny >= 1,
        ;
        assert(nx * (ny + 1) <= 2 * (nx * ny)) by (nonlinear_arith)
            requires
                nx >= 1,
                ny >= 1,
        ;
        assert(nx * ny <= mask.box_w() * mask.box_h());
        assert((ny + 1) * nx == nx * (ny + 1)) by (nonlinear_arith);
        assert(j * nx + i < (j + 1) * nx + i) by (nonlinear_arith)
            requires
                nx >= 1,
        ;
        assert(i * ny + j < (i + 1) * ny + j) by (nonlinear_arith)
            requires
                ny >= 1,
        ;
    }
    (lin, (i + 1) * ny + j, j * nx + i, (j + 1) * nx + i)
}

} // verus!
