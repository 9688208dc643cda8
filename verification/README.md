# rh3t

Index, layout and decision logic of a two-dimensional finite-difference
WENO solver for three-temperature radiation hydrodynamics on Cartesian
grids with polygon-embedded boundaries, verified with Verus.

- `src/` is the verified library: the fluid mask and its index maps
  (`mask`), ghost-point discovery and the stencil access table (`ghost`),
  reads of stencil values through that table (`solver`), the boundary
  stencils of the WENO extrapolation and the nearest-point searches
  (`stencil`), boundary-condition priority and attribution (`boundary`),
  fluid-side and normal orientation rules (`geometry`), the solution-file
  header, payload and their round trip (`io`, `payload`), and the legacy
  rectangular-grid boundary conditions (`bc`, `field`).
- `app/` is the solver program around it: the floating-point physics
  (WENO reconstruction, characteristic boundary conditions, fluxes, time
  stepping, statistics), problem setups, and file I/O. It calls the
  library for every index and layout decision.
- `tests/` exercises the library on concrete grids.
