use rh3t::ghost::{default_stencil_offsets, discover_ghost_indices, union_offsets, GhostGrid};
use rh3t::mask::FluidMask;
use rh3t::solver::{cell_faces, gather6, gather9, v_at, x_interface_anchor, y_interface_anchor};
use rh3t::state::Direction;

/// Mask of an `nx` by `ny` grid with `margin` extra points per side,
/// fluid where `f(i, j)` holds.
fn mask_from(nx: usize, ny: usize, margin: usize, f: impl Fn(isize, isize) -> bool) -> FluidMask {
    let m = margin as isize;
    let mut cells = Vec::new();
    for i in -m..nx as isize + m {
        for j in -m..ny as isize + m {
            cells.push(f(i, j));
        }
    }
    FluidMask::new(nx, ny, margin, cells).expect("well-formed mask")
}

#[test]
fn default_offsets_are_radius_four_cross() {
    let offsets = default_stencil_offsets();
    assert_eq!(offsets.len(), 17);
    assert!(offsets.contains(&(-4, 0)));
    assert!(offsets.contains(&(4, 0)));
    assert!(offsets.contains(&(0, -4)));
    assert!(offsets.contains(&(0, 4)));
    assert!(!offsets.contains(&(4, 4)));
}

#[test]
fn default_offsets_are_sorted() {
    let offsets = default_stencil_offsets();
    for w in offsets.windows(2) {
        assert!(w[0] < w[1]);
    }
}

#[test]
fn union_of_offsets_is_sorted_and_deduplicated() {
    let a: &[(isize, isize)] = &[(1, 0), (0, 0), (-1, 0)];
    let b: &[(isize, isize)] = &[(0, 0), (0, 2), (1, 0)];
    let u = union_offsets(&[a, b]);
    assert_eq!(u, vec![(-1, 0), (0, 0), (0, 2), (1, 0)]);
    assert!(union_offsets(&[]).is_empty());
}

#[test]
fn mask_rejects_wrong_cell_count() {
    assert!(FluidMask::new(3, 2, 1, vec![true; 5 * 4]).is_some());
    assert!(FluidMask::new(3, 2, 1, vec![true; 19]).is_none());
    assert!(FluidMask::new(0, 2, 1, vec![]).is_none());
}

#[test]
fn mask_indices_round_trip() {
    let mask = mask_from(5, 7, 2, |i, j| i >= 0 && i < 5 && j >= 0 && j < 7);
    for i in 0..5isize {
        for j in 0..7isize {
            let l = mask.linear_index((i, j));
            assert_eq!(l, i as usize * 7 + j as usize);
            assert_eq!(mask.coords(l), (i, j));
        }
    }
    assert!(mask.is_in_domain((4, 6)));
    assert!(!mask.is_in_domain((5, 0)));
    assert!(!mask.is_in_domain((-100, 0)));
}

#[test]
fn ghosts_of_a_full_rectangle_are_the_cross_layers() {
    // Every grid cell is fluid; nothing outside is.
    let mask = mask_from(6, 5, 4, |i, j| i >= 0 && i < 6 && j >= 0 && j < 5);
    let offsets = default_stencil_offsets();
    let ghosts = discover_ghost_indices(&mask, &offsets);
    // Four layers beyond each side, no corners (the stencil is a cross).
    assert_eq!(ghosts.len(), 4 * 5 * 2 + 4 * 6 * 2);
    assert!(ghosts.contains(&(-4, 0)));
    assert!(ghosts.contains(&(6 + 3, 4)));
    assert!(!ghosts.contains(&(-1, -1)));
    for w in ghosts.windows(2) {
        assert!(w[0] < w[1]);
    }
}

#[test]
fn obstacle_cells_become_ghosts() {
    // A solid cell in the middle of the grid.
    let mask = mask_from(9, 9, 4, |i, j| {
        i >= 0 && i < 9 && j >= 0 && j < 9 && !(i == 4 && j == 4)
    });
    let offsets = default_stencil_offsets();
    let ghosts = discover_ghost_indices(&mask, &offsets);
    assert!(ghosts.contains(&(4, 4)));
    let g = GhostGrid::build(&mask, &offsets).expect("addressable layout");
    assert_eq!(g.len(), ghosts.len());
    assert_eq!(g.id((4, 4)), ghosts.iter().position(|&p| p == (4, 4)));
    assert!(g.contains((4, 4)));
    assert!(!g.contains((3, 3)));
}

#[test]
fn access_table_points_at_cells_and_ghosts() {
    let (nx, ny) = (6usize, 5usize);
    let mask = mask_from(nx, ny, 4, |i, j| i >= 0 && i < 6 && j >= 0 && j < 5);
    let offsets = default_stencil_offsets();
    let g = GhostGrid::build(&mask, &offsets).expect("addressable layout");
    let n = nx * ny;
    // Cell (0, 2) looks 3 cells to the left: a ghost.
    let anchor = mask.linear_index((0, 2));
    let k = g.k_for(-3, 0);
    assert_eq!(offsets[k], (-3, 0));
    let t = g.target(anchor, k) as usize;
    assert!(t >= n);
    assert_eq!(g.ghosts[t - n], (-3, 2));
    // And 2 cells up: a fluid cell.
    let k = g.k_for(0, 2);
    let t = g.target(anchor, k) as usize;
    assert_eq!(t, mask.linear_index((0, 4)));
}

#[test]
fn unaddressable_stencil_is_rejected() {
    // A fluid point just outside the grid is reached by the stencil of a
    // fluid cell: the layout cannot address it.
    let mask = mask_from(6, 6, 4, |i, j| i >= -1 && i < 6 && j >= 0 && j < 6);
    let offsets = default_stencil_offsets();
    assert!(GhostGrid::build(&mask, &offsets).is_none());
}

#[test]
fn gathers_read_the_stencil_points() {
    let (nx, ny) = (7usize, 6usize);
    let mask = mask_from(nx, ny, 4, |i, j| i >= 0 && i < 7 && j >= 0 && j < 6);
    let offsets = default_stencil_offsets();
    let g = GhostGrid::build(&mask, &offsets).expect("addressable layout");
    // Grid values encode their cell, ghost values their ghost point.
    let field: Vec<i64> = (0..nx * ny).map(|l| (l / ny * 100 + l % ny) as i64).collect();
    let ghost_values: Vec<i64> = g.ghosts.iter().map(|&(i, j)| 10_000 + (i * 100 + j) as i64).collect();
    let anchor = mask.linear_index((1, 3));
    let xs = gather6(&mask, &g, &field, &ghost_values, anchor, -3, Direction::X);
    assert_eq!(xs, [10_000 - 200 + 3, 10_000 - 100 + 3, 3, 103, 203, 303]);
    let ys = gather9(&mask, &g, &field, &ghost_values, anchor, Direction::Y);
    assert_eq!(ys, [10_000 + 100 - 1, 100, 101, 102, 103, 104, 105, 10_000 + 106, 10_000 + 107]);
    assert_eq!(v_at(&field, &ghost_values, 0), 0);
    assert_eq!(v_at(&field, &ghost_values, (nx * ny) as u32), ghost_values[0]);
    assert_eq!(g.get(&ghost_values, (-1, 3)), 10_000 - 100 + 3);
    assert_eq!(g.get_with_field(&mask, &field, &ghost_values, (2, 2)), 202);
}

#[test]
fn interface_anchors_prefer_the_right_or_upper_cell() {
    // Column i = 2 is solid.
    let (nx, ny) = (5usize, 4usize);
    let mask = mask_from(nx, ny, 1, |i, j| i >= 0 && i < 5 && j >= 0 && j < 4 && i != 2);
    // x-interface 1/2 left of cell (1, 0): cell (1, 0) is fluid.
    assert_eq!(x_interface_anchor(&mask, 1 * ny), Some((mask.linear_index((1, 0)), -3)));
    // x-interface left of the solid cell (2, 1): use (1, 1).
    assert_eq!(x_interface_anchor(&mask, 2 * ny + 1), Some((mask.linear_index((1, 1)), -2)));
    // Rightmost interface i = nx: use (nx - 1, 3).
    assert_eq!(x_interface_anchor(&mask, nx * ny + 3), Some((mask.linear_index((4, 3)), -2)));
    // y-interface j = 0 at column 2: both neighbours solid or missing.
    assert_eq!(y_interface_anchor(&mask, 0 * nx + 2), None);
    // y-interface j = ny at column 0: use (0, ny - 1).
    assert_eq!(y_interface_anchor(&mask, ny * nx + 0), Some((mask.linear_index((0, 3)), -2)));
    // Faces of cell (3, 1).
    let l = mask.linear_index((3, 1));
    assert_eq!(cell_faces(&mask, l), (3 * ny + 1, 4 * ny + 1, 1 * nx + 3, 2 * nx + 3));
}
