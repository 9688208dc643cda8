use vstd::prelude::*;

use crate::bc::{bound_slot, ghost_source_spec, mirror_of, side_of, BCType, BoundLoc, GhostSource};
use crate::mask::Idx;

verus! {

/// A value read from a rectangular field.
#[derive(Copy, Clone, Debug, PartialEq, Eq)]
pub enum Sample<T> {
    /// The value as stored (or fixed by a boundary condition).
    Value(T),
    /// A stored value whose momentum normal to the given side must be
    /// reversed (wall reflection).
    Reflected(T, BoundLoc),
}

/// Values on the cells of a rectangular `nx` by `ny` grid, flattened as
/// `i * ny + j`, with one boundary condition per side, in the order
/// `[Bottom, Right, Top, Left]`.
pub struct Field<T> {
    pub nx: usize,
    pub ny: usize,
    pub value: Vec<T>,
    pub bc: [BCType<T>; 4],
}

impl<T: Copy> Field<T> {
    /// Well-formedness: a non-empty grid, small enough for signed index
    /// arithmetic, with one value per cell.
    pub open spec fn wf(&self) -> bool {
        &&& 0 < self.nx <= isize::MAX / 4
        &&& 0 < self.ny <= isize::MAX / 4
        &&& self.nx * self.ny <= isize::MAX
        &&& self.value@.len() == self.nx * self.ny
    }

    pub open spec fn in_domain(&self, i: int, j: int) -> bool {
        0 <= i < self.nx && 0 <= j < self.ny
    }

    /// `(i, j)` can be read: a cell, or a ghost whose side's condition does
    /// not mirror, or mirrors it onto a cell.
    pub open spec fn readable(&self, i: int, j: int) -> bool {
        &&& -(isize::MAX / 4) <= i <= isize::MAX / 4
        &&& -(isize::MAX / 4) <= j <= isize::MAX / 4
        &&& !self.in_domain(i, j) ==> match self.bc[bound_slot(
            side_of(i, j, self.nx as int, self.ny as int),
        ) as int] {
            BCType::Symmetry | BCType::Wall => {
                let m = mirror_of(
                    i,
                    j,
                    self.nx as int,
                    self.ny as int,
                    side_of(i, j, self.nx as int, self.ny as int),
                );
                self.in_domain(m.0, m.1)
            },
            _ => true,
        }
    }

    /// What `get` reads at `(i, j)`.
    pub open spec fn sample_spec(&self, i: int, j: int) -> Sample<T> {
        if self.in_domain(i, j) {
            Sample::Value(self.value@[i * self.ny + j])
        } else {
            match ghost_source_spec(
                self.bc[bound_slot(side_of(i, j, self.nx as int, self.ny as int)) as int],
                i,
                j,
                self.nx as int,
                self.ny as int,
            ) {
                GhostSource::Cell(l) => Sample::Value(self.value@[l as int]),
                GhostSource::Reflected(l, b) => Sample::Reflected(self.value@[l as int], b),
                GhostSource::Value(v) => Sample::Value(v),
            }
        }
    }

    /// A field with every cell set to `value`.
    pub fn filled(nx: usize, ny: usize, bc: [BCType<T>; 4], value: T) -> (f: Field<T>)
        requires
            0 < nx <= isize::MAX / 4,
            0 < ny <= isize::MAX / 4,
            nx * ny <= isize::MAX,
        ensures
            f.wf(),
            f.nx == nx,
            f.ny == ny,
            f.bc == bc,
            forall|l: int| 0 <= l < nx * ny ==> #[trigger] f.value@[l] == value,
    {
        let n = nx * ny;
        let mut v: Vec<T> = Vec::new();
        let mut l: usize = 0;
        while l < n
            invariant
                l <= n,
                v@.len() == l,
                forall|q: int| 0 <= q < l ==> #[trigger] v@[q] == value,
            decreases n - l,
        {
            v.push(value);
            l = l + 1;
        }
        Field { nx, ny, value: v, bc }
    }

    pub fn nx(&self) -> (r: usize)
        ensures
            r == self.nx,
    {
        self.nx
    }

    pub fn ny(&self) -> (r: usize)
        ensures
            r == self.ny,
    {
        self.ny
    }

    /// True if `idx` is a cell of the grid.
    pub fn is_in_domain(&self, idx: Idx) -> (r: bool)
        requires
            self.wf(),
        ensures
            r == self.in_domain(idx.0 as int, idx.1 as int),
    {
        idx.0 >= 0 && idx.0 < self.nx as isize && idx.1 >= 0 && idx.1 < self.ny as isize
    }

    fn linear_index(&self, idx: Idx) -> (r: usize)
        requires
            self.wf(),
            self.in_domain(idx.0 as int, idx.1 as int),
        ensures
            r == idx.0 * self.ny + idx.1,
            r < self.nx * self.ny,
    {
        proof {
            crate::mask::lemma_row_major(
                idx.0 as int,
                idx.1 as int,
                self.nx as int,
                self.ny as int,
            );
        }
        idx.0 as usize * self.ny + idx.1 as usize
    }

    /// Unified read: a cell's own value, or for an index outside the grid
    /// the value supplied by the boundary condition of its side.
    pub fn get(&self, idx: Idx) -> (r: Sample<T>)
        requires
            self.wf(),
            self.readable(idx.0 as int, idx.1 as int),
        ensures
            r == self.sample_spec(idx.0 as int, idx.1 as int),
    {
        if self.is_in_domain(idx) {
            let l = self.linear_index(idx);
            return Sample::Value(self.value[l]);
        }
        let boundary = crate::bc::boundary_location(idx, self.nx, self.ny);
        let bc = self.bc[boundary.boundloc2idx()];
        match bc.get_ghost(idx, self.nx, self.ny) {
            GhostSource::Cell(l) => Sample::Value(self.value[l]),
            GhostSource::Reflected(l, b) => Sample::Reflected(self.value[l], b),
            GhostSource::Value(v) => Sample::Value(v),
        }
    }

    /// Writes a grid cell; ghost cells are virtual and cannot be written.
    pub fn set(&mut self, idx: Idx, value: T)
        requires
            old(self).wf(),
            old(self).in_domain(idx.0 as int, idx.1 as int),
        ensures
            final(self).wf(),
            final(self).nx == old(self).nx,
            final(self).ny == old(self).ny,
            final(self).bc == old(self).bc,
            final(self).value@ == old(self).value@.update(idx.0 * old(self).ny + idx.1, value),
    {
        let l = self.linear_index(idx);
        self.value.set(l, value);
    }

    /// The stored cell values, flattened as `i * ny + j`.
    pub fn as_slice(&self) -> (r: &[T])
        ensures
            r@ == self.value@,
    {
        self.value.as_slice()
    }

    /// Cell `(i, j)` of a flattened index (inverse of `i * ny + j`).
    pub fn coords(&self, linear: usize) -> (r: Idx)
        requires
            self.wf(),
            linear < self.nx * self.ny,
        ensures
            self.in_domain(r.0 as int, r.1 as int),
            r.0 * self.ny + r.1 == linear,
    {
        let i = linear / self.ny;
        let j = linear % self.ny;
        proof {
            let q = i as int;
            let rem = j as int;
            let ny = self.ny as int;
            vstd::arithmetic::div_mod::lemma_fundamental_div_mod(linear as int, ny);
            assert(q < self.nx) by (nonlinear_arith)
                requires
                    linear == ny * q + rem,
                    0 <= rem,
                    linear < self.nx * ny,
                    ny > 0,
            ;
            assert(q * ny + rem == linear) by (nonlinear_arith)
                requires
                    linear == ny * q + rem,
            ;
        }
        (i as isize, j as isize)
    }
}

} // verus!
