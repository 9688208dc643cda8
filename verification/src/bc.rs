use vstd::prelude::*;

use crate::mask::Idx;

verus! {

/// Side of a rectangular grid on which an out-of-range index lies.
#[derive(Copy, Clone, Debug, PartialEq, Eq)]
pub enum BoundLoc {
    Bottom,
    Top,
    Left,
    Right,
}

/// Slot of each side in a boundary-condition array laid out as
/// `[Bottom, Right, Top, Left]`.
pub open spec fn bound_slot(b: BoundLoc) -> nat {
    match b {
        BoundLoc::Bottom => 0,
        BoundLoc::Right => 1,
        BoundLoc::Top => 2,
        BoundLoc::Left => 3,
    }
}

impl BoundLoc {
    /// Boundary-condition array layout: `[Bottom, Right, Top, Left]`.
    pub fn boundloc2idx(self) -> (r: usize)
        ensures
            r == bound_slot(self),
    {
        match self {
            BoundLoc::Bottom => 0,
            BoundLoc::Right => 1,
            BoundLoc::Top => 2,
            BoundLoc::Left => 3,
        }
    }
}

// ============================================================================
// Ghost cells of a rectangular grid
// ============================================================================

/// Side of the rectangle `[0, nx) x [0, ny)` that an outside index is
/// attributed to: `Left` if `i < 0`, else `Right` if `i >= nx`, else
/// `Bottom` if `j < 0`, else `Top`.
pub open spec fn side_of(i: int, j: int, nx: int, ny: int) -> BoundLoc {
    if i < 0 {
        BoundLoc::Left
    } else if i >= nx {
        BoundLoc::Right
    } else if j < 0 {
        BoundLoc::Bottom
    } else {
        BoundLoc::Top
    }
}

/// Mirror image of `(i, j)` across side `b` of the rectangle.
pub open spec fn mirror_of(i: int, j: int, nx: int, ny: int, b: BoundLoc) -> (int, int) {
    match b {
        BoundLoc::Left => (-i - 1, j),
        BoundLoc::Right => (2 * nx - 1 - i, j),
        BoundLoc::Bottom => (i, -j - 1),
        BoundLoc::Top => (i, 2 * ny - 1 - j),
    }
}

/// Side of the rectangle `[0, nx) x [0, ny)` that the outside index `idx`
/// belongs to (see `side_of`).
pub fn boundary_location(idx: Idx, nx: usize, ny: usize) -> (b: BoundLoc)
    requires
        nx <= isize::MAX,
    ensures
        b == side_of(idx.0 as int, idx.1 as int, nx as int, ny as int),
{
    if idx.0 < 0 {
        BoundLoc::Left
    } else if idx.0 >= nx as isize {
        BoundLoc::Right
    } else if idx.1 < 0 {
        BoundLoc::Bottom
    } else {
        BoundLoc::Top
    }
}

/// Mirror image of `idx` across side `boundary` of the rectangle
/// `[0, nx) x [0, ny)`.
pub fn mirrored_index(idx: Idx, nx: usize, ny: usize, boundary: BoundLoc) -> (r: Idx)
    requires
        nx <= isize::MAX / 4,
        ny <= isize::MAX / 4,
        -(isize::MAX / 4) <= idx.0 <= isize::MAX / 4,
        -(isize::MAX / 4) <= idx.1 <= isize::MAX / 4,
    ensures
        (r.0 as int, r.1 as int) == mirror_of(
            idx.0 as int,
            idx.1 as int,
            nx as int,
            ny as int,
            boundary,
        ),
{
    match boundary {
        BoundLoc::Left => (-idx.0 - 1, idx.1),
        BoundLoc::Right => (2 * nx as isize - 1 - idx.0, idx.1),
        BoundLoc::Bottom => (idx.0, -idx.1 - 1),
        BoundLoc::Top => (idx.0, 2 * ny as isize - 1 - idx.1),
    }
}

/// Mirroring across a side twice gives back the original index.
pub proof fn lemma_mirror_involution(i: int, j: int, nx: int, ny: int, b: BoundLoc)
    ensures
        ({
            let m = mirror_of(i, j, nx, ny, b);
            mirror_of(m.0, m.1, nx, ny, b) == (i, j)
        }),
{
}

/// A ghost index at most one grid width beyond a side, and within the
/// rectangle along that side, mirrors to a grid cell.
pub proof fn lemma_mirror_lands_inside(i: int, j: int, nx: int, ny: int)
    requires
        nx > 0,
        ny > 0,
        -nx <= i < 2 * nx,
        -ny <= j < 2 * ny,
        !(0 <= i < nx && 0 <= j < ny),
        (0 <= i < nx) || (0 <= j < ny),
    ensures
        ({
            let m = mirror_of(i, j, nx, ny, side_of(i, j, nx, ny));
            0 <= m.0 < nx && 0 <= m.1 < ny
        }),
{
}

/// Boundary condition on one side of a rectangular grid.
#[derive(Copy, Clone, Debug)]
pub enum BCType<T> {
    /// Mirror the state without changing momentum.
    Symmetry,
    /// Mirror the state and reverse the momentum normal to the side.
    Wall,
    /// Wrap around to the opposite side.
    Periodic,
    /// A fixed state.
    Constant(T),
}

/// Where the value of a ghost cell comes from.
#[derive(Copy, Clone, Debug, PartialEq, Eq)]
pub enum GhostSource<T> {
    /// The grid cell with this flattened index (`i * ny + j`).
    Cell(usize),
    /// The grid cell with this flattened index, with the momentum normal to
    /// the given side reversed.
    Reflected(usize, BoundLoc),
    /// A fixed value.
    Value(T),
}

/// Source of the ghost cell `(i, j)` under boundary condition `bc`.
pub open spec fn ghost_source_spec<T>(bc: BCType<T>, i: int, j: int, nx: int, ny: int) -> GhostSource<T> {
    let b = side_of(i, j, nx, ny);
    let m = mirror_of(i, j, nx, ny, b);
    match bc {
        BCType::Periodic => GhostSource::Cell(((i % nx) * ny + (j % ny)) as usize),
        BCType::Constant(v) => GhostSource::Value(v),
        BCType::Symmetry => GhostSource::Cell((m.0 * ny + m.1) as usize),
        BCType::Wall => GhostSource::Reflected((m.0 * ny + m.1) as usize, b),
    }
}

/// Walls and symmetry planes read the mirror cell across the side the
/// ghost lies beyond, on every side: for a ghost `(i, j)` left of the grid
/// the cell `(-i - 1, j)`, right of it `(2 nx - 1 - i, j)`, below it
/// `(i, -j - 1)`, above it `(i, 2 ny - 1 - j)`. A symmetry plane copies
/// that cell; a wall reads the same cell and reverses the momentum normal
/// to that side.
pub proof fn lemma_mirroring_conditions<T>(i: int, j: int, nx: int, ny: int)
    requires
        nx > 0,
        ny > 0,
        !(0 <= i < nx && 0 <= j < ny),
    ensures
        i < 0 ==> ghost_source_spec(BCType::<T>::Wall, i, j, nx, ny) == GhostSource::<T>::Reflected(
            ((-i - 1) * ny + j) as usize,
            BoundLoc::Left,
        ) && ghost_source_spec(BCType::<T>::Symmetry, i, j, nx, ny) == GhostSource::<T>::Cell(
            ((-i - 1) * ny + j) as usize,
        ),
        i >= nx ==> ghost_source_spec(BCType::<T>::Wall, i, j, nx, ny)
            == GhostSource::<T>::Reflected(((2 * nx - 1 - i) * ny + j) as usize, BoundLoc::Right)
            && ghost_source_spec(BCType::<T>::Symmetry, i, j, nx, ny) == GhostSource::<T>::Cell(
            ((2 * nx - 1 - i) * ny + j) as usize,
        ),
        0 <= i < nx && j < 0 ==> ghost_source_spec(BCType::<T>::Wall, i, j, nx, ny)
            == GhostSource::<T>::Reflected((i * ny + (-j - 1)) as usize, BoundLoc::Bottom)
            && ghost_source_spec(BCType::<T>::Symmetry, i, j, nx, ny) == GhostSource::<T>::Cell(
            (i * ny + (-j - 1)) as usize,
        ),
        0 <= i < nx && j >= ny ==> ghost_source_spec(BCType::<T>::Wall, i, j, nx, ny)
            == GhostSource::<T>::Reflected((i * ny + (2 * ny - 1 - j)) as usize, BoundLoc::Top)
            && ghost_source_spec(BCType::<T>::Symmetry, i, j, nx, ny) == GhostSource::<T>::Cell(
            (i * ny + (2 * ny - 1 - j)) as usize,
        ),
{
}

/// A wall and a symmetry plane on the same side read the same cell for
/// every ghost; the wall always reverses a momentum component, the
/// symmetry plane never does.
pub proof fn lemma_wall_is_reflected_symmetry<T>(i: int, j: int, nx: int, ny: int)
    requires
        nx > 0,
        ny > 0,
        !(0 <= i < nx && 0 <= j < ny),
    ensures
        ghost_source_spec(BCType::<T>::Wall, i, j, nx, ny) is Reflected,
        ghost_source_spec(BCType::<T>::Symmetry, i, j, nx, ny) is Cell,
        ghost_source_spec(BCType::<T>::Wall, i, j, nx, ny)->Reflected_0 == ghost_source_spec(
            BCType::<T>::Symmetry,
            i,
            j,
            nx,
            ny,
        )->Cell_0,
{
    lemma_mirroring_conditions::<T>(i, j, nx, ny);
}

/// A periodic condition reads the grid cell congruent to the ghost in both
/// directions (its indices differ from the ghost's by whole periods `nx`
/// and `ny`); a constant condition gives its value.
pub proof fn lemma_periodic_and_constant<T>(i: int, j: int, nx: int, ny: int, v: T)
    requires
        nx > 0,
        ny > 0,
        nx * ny <= usize::MAX,
    ensures
        ghost_source_spec(BCType::<T>::Constant(v), i, j, nx, ny) == GhostSource::<T>::Value(v),
        ghost_source_spec(BCType::<T>::Periodic, i, j, nx, ny) is Cell,
        ({
            let l = ghost_source_spec(BCType::<T>::Periodic, i, j, nx, ny)->Cell_0 as int;
            &&& 0 <= l < nx * ny
            &&& 0 <= l / ny < nx
            &&& (l / ny - i) % nx == 0
            &&& (l % ny - j) % ny == 0
        }),
{
    let pi = i % nx;
    let pj = j % ny;
    vstd::arithmetic::div_mod::lemma_fundamental_div_mod(i, nx);
    vstd::arithmetic::div_mod::lemma_fundamental_div_mod(j, ny);
    assert(0 <= pi * ny + pj < nx * ny) by (nonlinear_arith)
        requires
            0 <= pi < nx,
            0 <= pj < ny,
    ;
    let l = pi * ny + pj;
    vstd::arithmetic::div_mod::lemma_fundamental_div_mod_converse(l, ny, pi, pj);
    assert(ghost_source_spec(BCType::<T>::Periodic, i, j, nx, ny)->Cell_0 as int == l);
    let k1 = -(i / nx);
    let k2 = -(j / ny);
    assert(nx * (i / nx) == (i / nx) * nx) by (nonlinear_arith);
    assert(ny * (j / ny) == (j / ny) * ny) by (nonlinear_arith);
    assert(-(i / nx) * nx == -((i / nx) * nx)) by (nonlinear_arith);
    assert(-(j / ny) * ny == -((j / ny) * ny)) by (nonlinear_arith);
    assert(l / ny - i == k1 * nx && l % ny - j == k2 * ny);
    vstd::arithmetic::div_mod::lemma_mod_multiples_basic(k1, nx);
    vstd::arithmetic::div_mod::lemma_mod_multiples_basic(k2, ny);
}

impl<T: Copy> BCType<T> {
    /// Source of the value of the ghost cell `idx` outside the rectangle
    /// `[0, nx) x [0, ny)`: periodic conditions wrap both indices around
    /// (Euclidean remainder), symmetry and wall conditions mirror the index
    /// across the side it belongs to (walls also reverse the normal
    /// momentum), constant conditions give their value.
    ///
    /// For mirroring conditions the mirror image must be a grid cell.
    pub fn get_ghost(&self, idx: Idx, nx: usize, ny: usize) -> (r: GhostSource<T>)
        requires
            0 < nx <= isize::MAX / 4,
            0 < ny <= isize::MAX / 4,
            nx * ny <= isize::MAX,
            -(isize::MAX / 4) <= idx.0 <= isize::MAX / 4,
            -(isize::MAX / 4) <= idx.1 <= isize::MAX / 4,
            match *self {
                BCType::Symmetry | BCType::Wall => {
                    let m = mirror_of(
                        idx.0 as int,
                        idx.1 as int,
                        nx as int,
                        ny as int,
                        side_of(idx.0 as int, idx.1 as int, nx as int, ny as int),
                    );
                    0 <= m.0 < nx && 0 <= m.1 < ny
                },
                _ => true,
            },
        ensures
            r == ghost_source_spec(*self, idx.0 as int, idx.1 as int, nx as int, ny as int),
            r matches GhostSource::Cell(l) ==> l < nx * ny,
            r matches GhostSource::Reflected(l, _) ==> l < nx * ny,
    {
        let boundary = boundary_location(idx, nx, ny);
        match self {
            BCType::Periodic => {
                let pi = match idx.0.checked_rem_euclid(nx as isize) {
                    Some(v) => v,
                    None => {
                        assert(false);
                        0
                    },
                };
                let pj = match idx.1.checked_rem_euclid(ny as isize) {
                    Some(v) => v,
                    None => {
                        assert(false);
                        0
                    },
                };
                proof {
                    crate::mask::lemma_row_major(pi as int, pj as int, nx as int, ny as int);
                }
                GhostSource::Cell(pi as usize * ny + pj as usize)
            },
            BCType::Constant(value) => GhostSource::Value(*value),
            BCType::Symmetry => {
                let m = mirrored_index(idx, nx, ny, boundary);
                proof {
                    crate::mask::lemma_row_major(m.0 as int, m.1 as int, nx as int, ny as int);
                }
                GhostSource::Cell(m.0 as usize * ny + m.1 as usize)
            },
            BCType::Wall => {
                let m = mirrored_index(idx, nx, ny, boundary);
                proof {
                    crate::mask::lemma_row_major(m.0 as int, m.1 as int, nx as int, ny as int);
                }
                GhostSource::Reflected(m.0 as usize * ny + m.1 as usize, boundary)
            },
        }
    }
}

} // verus!
