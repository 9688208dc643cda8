use vstd::prelude::*;

use crate::mask::{FluidMask, Idx};

verus! {

/// Kind of boundary condition carried by a side of the domain boundary.
#[derive(Clone, Copy, Debug, PartialEq, Eq)]
pub enum BCKind {
    /// Mirror the nearest interior state, reversing the normal momentum.
    ReflectiveWall,
    /// High-order inverse Lax-Wendroff solid wall.
    Wall,
    /// Solid wall imposed in primitive variables.
    PrimitiveWall,
    /// Wrap-around in the y direction.
    Periodic,
    /// Prescribed constant state.
    Constant,
    /// Prescribed time-dependent state.
    TimeDependent,
    /// Pressure-relaxing subsonic outflow.
    Outflow,
    /// Copy of the mirrored interior cell.
    ZerothOrder,
    /// Characteristic far-field condition.
    FarField,
}

/// Priority of a boundary condition where sides meet: solid walls first,
/// then prescribed states, then open boundaries.
pub open spec fn priority(kind: BCKind) -> nat {
    match kind {
        BCKind::Wall => 100,
        BCKind::ReflectiveWall => 90,
        BCKind::Constant => 70,
        BCKind::TimeDependent => 70,
        BCKind::FarField => 20,
        BCKind::Outflow => 10,
        BCKind::ZerothOrder => 5,
        BCKind::Periodic => 0,
        BCKind::PrimitiveWall => 0,
    }
}

/// Priority of a boundary condition at a junction of sides:
/// `Wall > ReflectiveWall > Constant = TimeDependent > FarField > Outflow >
/// ZerothOrder > Periodic`.
pub fn bc_priority(kind: BCKind) -> (r: usize)
    ensures
        r == priority(kind),
{
    match kind {
        BCKind::Wall => 100,
        BCKind::ReflectiveWall => 90,
        BCKind::Constant => 70,
        BCKind::TimeDependent => 70,
        BCKind::FarField => 20,
        BCKind::Outflow => 10,
        BCKind::ZerothOrder => 5,
        BCKind::Periodic => 0,
        BCKind::PrimitiveWall => 0,
    }
}

/// Among the sides `candidates` on which a boundary point lies, the one
/// whose condition has the highest priority; the earliest candidate wins a
/// tie.
pub fn select_boundary_side(candidates: &[usize], bc_list: &[BCKind]) -> (side: usize)
    requires
        candidates@.len() > 0,
        forall|k: int| 0 <= k < candidates@.len() ==> #[trigger] candidates@[k] < bc_list@.len(),
    ensures
        exists|b: int|
            0 <= b < candidates@.len() && side == candidates@[b] && (forall|k: int|
                0 <= k < b ==> priority(bc_list@[#[trigger] candidates@[k] as int]) < priority(
                    bc_list@[side as int],
                )) && (forall|k: int|
                b < k < candidates@.len() ==> priority(bc_list@[#[trigger] candidates@[k] as int])
                    <= priority(bc_list@[side as int])),
{
    let mut best: usize = 0;
    let mut best_side = candidates[0];
    let mut best_priority = bc_priority(bc_list[best_side]);
    let mut k: usize = 1;
    while k < candidates.len()
        invariant
            1 <= k <= candidates@.len(),
            forall|q: int| 0 <= q < candidates@.len() ==> #[trigger] candidates@[q] < bc_list@.len(),
            best < k,
            best_side == candidates@[best as int],
            best_priority == priority(bc_list@[best_side as int]),
            forall|q: int|
                0 <= q < best ==> priority(bc_list@[#[trigger] candidates@[q] as int])
                    < best_priority,
            forall|q: int|
                best < q < k ==> priority(bc_list@[#[trigger] candidates@[q] as int])
                    <= best_priority,
        decreases candidates@.len() - k,
    {
        let side = candidates[k];
        let p = bc_priority(bc_list[side]);
        if p > best_priority {
            best = k;
            best_side = side;
            best_priority = p;
        }
        k = k + 1;
    }
    best_side
}

/// Whether a ghost point belongs to the outer domain boundary or to an
/// embedded obstacle.
#[derive(Clone, Copy, Debug, PartialEq, Eq)]
pub enum BoundaryKind {
    Outer,
    Inner,
}

/// The boundary a ghost point is attributed to: the outer one if the point
/// lies outside the outer domain, otherwise the obstacle.
pub fn boundary_kind(outer_fluid: bool) -> (r: BoundaryKind)
    ensures
        r == (if outer_fluid {
            BoundaryKind::Inner
        } else {
            BoundaryKind::Outer
        }),
{
    if outer_fluid {
        BoundaryKind::Inner
    } else {
        BoundaryKind::Outer
    }
}

/// The boundary that supplies the value of a non-fluid point: the outer
/// one if the point lies outside the outer domain, else the obstacle if it
/// lies inside it; `None` when both call it fluid (no boundary applies).
pub fn ghost_boundary(outer_fluid: bool, inner_fluid: bool) -> (r: Option<BoundaryKind>)
    ensures
        r == (if !outer_fluid {
            Some(BoundaryKind::Outer)
        } else if !inner_fluid {
            Some(BoundaryKind::Inner)
        } else {
            None
        }),
{
    if !outer_fluid {
        Some(BoundaryKind::Outer)
    } else if !inner_fluid {
        Some(BoundaryKind::Inner)
    } else {
        None
    }
}

/// Conditions whose ghost values are extrapolated with precomputed
/// per-ghost stencil and regression data.
pub open spec fn uses_extrapolation(kind: BCKind) -> bool {
    kind == BCKind::Wall || kind == BCKind::Outflow || kind == BCKind::FarField
}

/// True for the conditions that extrapolate from the fluid (`Wall`,
/// `Outflow`, `FarField`) and so need precomputed per-ghost data.
pub fn needs_precompute(kind: BCKind) -> (r: bool)
    ensures
        r == uses_extrapolation(kind),
{
    match kind {
        BCKind::Wall | BCKind::Outflow | BCKind::FarField => true,
        _ => false,
    }
}

// ============================================================================
// Periodic wrap-around
// ============================================================================

/// Wraps a y index into `[0, np)` (Euclidean remainder): `-1 -> np - 1`,
/// `np -> 0`.
pub fn periodic_index(j: isize, np: isize) -> (r: isize)
    requires
        np > 0,
    ensures
        0 <= r < np,
        r == j as int % np as int,
{
    match j.checked_rem_euclid(np) {
        Some(v) => v,
        None => {
            assert(false);
            0
        },
    }
}

/// The fluid point that supplies the value of a ghost point under a
/// y-periodic condition with period `np` grid cells: the point with the
/// same `i` and `j` wrapped into `[0, np)`. `None` when that point is not
/// fluid.
pub fn periodic_source(mask: &FluidMask, idx: Idx, np: isize) -> (r: Option<Idx>)
    requires
        mask.wf(),
        np > 0,
    ensures
        r.is_some() == mask.fluid(idx.0 as int, idx.1 as int % np as int),
        r matches Some(p) ==> p.0 == idx.0 && p.1 == idx.1 as int % np as int,
{
    let wrapped: Idx = (idx.0, periodic_index(idx.1, np));
    if mask.is_in_domain(wrapped) {
        Some(wrapped)
    } else {
        None
    }
}

// ============================================================================
// Cylinder wall treatment
// ============================================================================

/// Wall treatment for an interior cylinder obstacle. `Reflective` gives a
/// safe low-order start; a run may later be restarted on the same geometry
/// with `HighOrder` or `Primitive`.
#[derive(Clone, Copy, Debug, PartialEq, Eq)]
pub enum CylinderWallMode {
    /// Low-order reflective wall (mirror the state, no penetration).
    Reflective,
    /// High-order conservative inverse Lax-Wendroff wall.
    HighOrder,
    /// Primitive-variable wall.
    Primitive,
}

impl CylinderWallMode {
    /// Boundary condition carried by the cylinder surface.
    pub fn bc(self) -> (r: BCKind)
        ensures
            r == match self {
                CylinderWallMode::Reflective => BCKind::ReflectiveWall,
                CylinderWallMode::HighOrder => BCKind::Wall,
                CylinderWallMode::Primitive => BCKind::PrimitiveWall,
            },
    {
        match self {
            CylinderWallMode::Reflective => BCKind::ReflectiveWall,
            CylinderWallMode::HighOrder => BCKind::Wall,
            CylinderWallMode::Primitive => BCKind::PrimitiveWall,
        }
    }
}

} // verus!
