//! Index, layout and decision logic of a Cartesian-grid finite-difference
//! solver with embedded boundaries: fluid masks, ghost-cell discovery and
//! access tables, boundary-stencil selection, boundary-condition priority,
//! and the solution-file layout with its write/read round trip.

pub mod bc;
pub mod mask;
pub mod state;
pub mod stencil;
pub mod ghost;
pub mod solver;
pub mod field;
pub mod boundary;
pub mod geometry;
pub mod io;
pub mod payload;
