use vstd::prelude::*;

verus! {

/// Side of a closed boundary curve on which the fluid lies.
#[derive(Clone, Copy, Debug, PartialEq, Eq)]
pub enum FluidSide {
    Inside,
    Outside,
}

/// One of the two unit normals of a directed edge `a -> b` with tangent
/// `(tx, ty)`: `Left` is `(-ty, tx)`, `Right` is `(ty, -tx)`.
#[derive(Clone, Copy, Debug, PartialEq, Eq)]
pub enum Hand {
    Left,
    Right,
}

/// The fluid-domain outward normal of a polygon edge. For a
/// counter-clockwise polygon the interior is on the left, so the outward
/// normal of a fluid-inside polygon is the right-hand one; reversing either
/// the orientation or the fluid side swaps it.
pub open spec fn outward_hand_spec(fluid: FluidSide, ccw: bool) -> Hand {
    if (fluid == FluidSide::Inside) == ccw {
        Hand::Right
    } else {
        Hand::Left
    }
}

impl FluidSide {
    /// Whether a point is fluid, given whether it lies inside the closed
    /// curve (e.g. by ray-casting parity).
    pub fn classify(self, inside: bool) -> (r: bool)
        ensures
            r == match self {
                FluidSide::Inside => inside,
                FluidSide::Outside => !inside,
            },
    {
        match self {
            FluidSide::Inside => inside,
            FluidSide::Outside => !inside,
        }
    }

    /// Which normal of a polygon edge points out of the fluid, given the
    /// polygon's orientation (`ccw`: positive signed area).
    pub fn outward_hand(self, ccw: bool) -> (r: Hand)
        ensures
            r == outward_hand_spec(self, ccw),
    {
        match self {
            FluidSide::Inside => if ccw {
                Hand::Right
            } else {
                Hand::Left
            },
            FluidSide::Outside => if ccw {
                Hand::Left
            } else {
                Hand::Right
            },
        }
    }
}

/// The two fluid sides have opposite outward normals on the same edge, and
/// reversing the polygon orientation swaps the outward normal.
pub proof fn lemma_outward_hand_flips(fluid: FluidSide, ccw: bool)
    ensures
        outward_hand_spec(FluidSide::Inside, ccw) != outward_hand_spec(FluidSide::Outside, ccw),
        outward_hand_spec(fluid, ccw) != outward_hand_spec(fluid, !ccw),
{
}

/// Marks an inclusive range of polygon sides as covered by an analytic arc:
/// the sides keep their role for the domain mask and boundary-condition
/// ownership, the arc only supplies the boundary geometry.
#[derive(Clone, Copy, Debug)]
pub struct ArcOverride<A> {
    pub side_start: usize,
    pub side_end: usize,
    pub arc: A,
}

impl<A> ArcOverride<A> {
    /// Inclusive side-range check; ranges do not wrap.
    pub fn contains_side(&self, side: usize) -> (r: bool)
        ensures
            r == (self.side_start <= side && side <= self.side_end),
    {
        side >= self.side_start && side <= self.side_end
    }
}

} // verus!
