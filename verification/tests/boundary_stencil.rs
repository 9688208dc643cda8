use rh3t::mask::FluidMask;
use rh3t::state::Direction;
use rh3t::stencil::{
    find_nearest_grid_point, first_interior_index, reflected_interior_point,
    shifted_substencil_indices, weno_stencil_extractor, weno_stencil_extractor_indices,
    xk_coefficient_column,
};

fn mask_from(nx: usize, ny: usize, margin: usize, f: impl Fn(isize, isize) -> bool) -> FluidMask {
    let m = margin as isize;
    let mut cells = Vec::new();
    for i in -m..nx as isize + m {
        for j in -m..ny as isize + m {
            cells.push(f(i, j));
        }
    }
    FluidMask::new(nx, ny, margin, cells).expect("well-formed mask")
}

/// Ray-casting classification of a point against a polygon, fluid inside.
fn inside_polygon(pts: &[(f64, f64)], x: f64, y: f64) -> bool {
    let n = pts.len();
    let mut inside = false;
    for i in 0..n {
        let (ax, ay) = pts[i];
        let (bx, by) = pts[(i + 1) % n];
        if (ay > y) != (by > y) {
            let xi = ax + (y - ay) * (bx - ax) / (by - ay);
            if x < xi {
                inside = !inside;
            }
        }
    }
    inside
}

/// Mask of a polygon on a grid with nodes at `(i h, j h)`.
fn polygon_mask(n: usize, h: f64, pts: &[(f64, f64)]) -> FluidMask {
    mask_from(n, n, 4, |i, j| inside_polygon(pts, i as f64 * h, j as f64 * h))
}

/// The per-line plan of `E_r` for a boundary foot `p0` with outward normal
/// `nrm` on a grid with nodes at `(i h, j h)`: line family, first interior
/// line, step into the fluid and the crossing point of every line.
fn plan(n: usize, h: f64, p0: (f64, f64), nrm: (f64, f64), r: usize) -> (Direction, isize, isize, Vec<isize>) {
    if nrm.0.abs() >= nrm.1.abs() {
        let q = p0.0 / h;
        let i0 = first_interior_index(q.ceil() as isize, q.floor() as isize, nrm.0 > 0.0, n);
        let step = if nrm.0 > 0.0 { -1 } else { 1 };
        let ms = (0..=r)
            .map(|l| {
                let x_line = (i0 + l as isize * step) as f64 * h;
                let t = (p0.0 - x_line) / nrm.0;
                let y_star = p0.1 - nrm.1 * t;
                (y_star / h).floor() as isize
            })
            .collect();
        (Direction::X, i0, step, ms)
    } else {
        let q = p0.1 / h;
        let j0 = first_interior_index(q.ceil() as isize, q.floor() as isize, nrm.1 > 0.0, n);
        let step = if nrm.1 > 0.0 { -1 } else { 1 };
        let ms = (0..=r)
            .map(|l| {
                let y_line = (j0 + l as isize * step) as f64 * h;
                let t = (p0.1 - y_line) / nrm.1;
                let x_star = p0.0 - nrm.0 * t;
                (x_star / h).floor() as isize
            })
            .collect();
        (Direction::Y, j0, step, ms)
    }
}

fn unit_square() -> Vec<(f64, f64)> {
    vec![(0.0, 0.0), (1.0, 0.0), (1.0, 1.0), (0.0, 1.0)]
}

#[test]
fn paper_stencil_cardinality_and_structure_vertical_wall() {
    let h = 1.0 / 80.0;
    let mask = polygon_mask(80, h, &unit_square());
    // Ghost (-1, 40) projects onto the left side at (0, 0.5), normal -x.
    for r in 0..=4usize {
        let (dir, first, step, ms) = plan(80, h, (0.0, 0.5), (-1.0, 0.0), r);
        let e = weno_stencil_extractor_indices(&mask, dir, first, step, &ms, r).expect("fits");
        let width = r + 1;
        assert_eq!(e.len(), width * width);
        for l in 0..width {
            let s = &e[l * width..(l + 1) * width];
            let i0 = s[0].0;
            assert!(s.iter().all(|q| q.0 == i0));
            for a in 1..width {
                assert_eq!(s[a].1, s[a - 1].1 + 1);
            }
            for q in s {
                assert!(mask.is_in_grid(*q));
                assert!(mask.is_in_domain(*q));
            }
        }
        for l in 1..width {
            assert_eq!(e[l * width].0, e[(l - 1) * width].0 + 1);
        }
    }
}

#[test]
fn paper_stencil_cardinality_and_structure_horizontal_wall() {
    let h = 1.0 / 80.0;
    let mask = polygon_mask(80, h, &unit_square());
    for r in 0..=4usize {
        let (dir, first, step, ms) = plan(80, h, (0.5, 0.0), (0.0, -1.0), r);
        let e = weno_stencil_extractor_indices(&mask, dir, first, step, &ms, r).expect("fits");
        let width = r + 1;
        assert_eq!(e.len(), width * width);
        for l in 0..width {
            let s = &e[l * width..(l + 1) * width];
            let j0 = s[0].1;
            assert!(s.iter().all(|q| q.1 == j0));
            for a in 1..width {
                assert_eq!(s[a].0, s[a - 1].0 + 1);
            }
            for q in s {
                assert!(mask.is_in_grid(*q));
                assert!(mask.is_in_domain(*q));
            }
        }
        for l in 1..width {
            assert_eq!(e[l * width].1, e[(l - 1) * width].1 + 1);
        }
    }
}

#[test]
fn oblique_boundary_paper_stencil_is_valid() {
    let h = 1.0 / 100.0;
    let tri = vec![(0.0, 0.0), (1.0, 0.0), (0.0, 1.0)];
    let mask = polygon_mask(100, h, &tri);
    // The point (0.62, 0.42) lies beyond the hypotenuse x + y = 1.
    assert!(!inside_polygon(&tri, 0.62, 0.42));
    let s = std::f64::consts::FRAC_1_SQRT_2;
    let p0 = (0.60, 0.40);
    for r in 0..=4usize {
        let (dir, first, step, ms) = plan(100, h, p0, (s, s), r);
        let e = weno_stencil_extractor_indices(&mask, dir, first, step, &ms, r).expect("fits");
        let width = r + 1;
        assert_eq!(e.len(), width * width);
        for q in &e {
            assert!(mask.is_in_grid(*q));
            assert!(mask.is_in_domain(*q));
        }
        for l in 0..width {
            let s = &e[l * width..(l + 1) * width];
            if width == 1 {
                continue;
            }
            let vertical = s[0].0 == s[1].0;
            if vertical {
                assert!(s.iter().all(|q| q.0 == s[0].0));
                for a in 1..width {
                    assert_eq!(s[a].1, s[a - 1].1 + 1);
                }
            } else {
                assert!(s.iter().all(|q| q.1 == s[0].1));
                for a in 1..width {
                    assert_eq!(s[a].0, s[a - 1].0 + 1);
                }
            }
        }
    }
}

#[test]
fn extractor_carries_the_stored_values() {
    let mask = mask_from(10, 10, 2, |i, j| i >= 1 && i < 10 && j >= 0 && j < 10);
    let values: Vec<u32> = (0..100).collect();
    let e = weno_stencil_extractor(&mask, &values, Direction::X, 1, 1, &[4, 4, 4], 2).expect("fits");
    assert_eq!(e.len(), 9);
    assert_eq!(e[0], (1, 3, 13));
    assert_eq!(e[8], (3, 5, 35));
}

#[test]
fn substencil_shifts_nearest_first() {
    // Line i = 2 is fluid for j in 3..=7 only.
    let mask = mask_from(4, 10, 1, |i, j| i >= 0 && i < 4 && j >= 3 && j <= 7);
    // Starting at j = 2 the stencil of width 3 must move up by one.
    assert_eq!(
        shifted_substencil_indices(&mask, Direction::X, 2, 2, 3),
        Some(vec![(2, 3), (2, 4), (2, 5)])
    );
    // Starting at j = 6 it must move down by one.
    assert_eq!(
        shifted_substencil_indices(&mask, Direction::X, 2, 6, 3),
        Some(vec![(2, 5), (2, 6), (2, 7)])
    );
    // Equally near shifts: the downward one wins.
    let mask2 = mask_from(4, 10, 1, |i, j| i >= 0 && i < 4 && j >= 0 && j < 10 && j != 5);
    assert_eq!(shifted_substencil_indices(&mask2, Direction::X, 1, 5, 1), Some(vec![(1, 4)]));
    assert_eq!(
        shifted_substencil_indices(&mask2, Direction::X, 1, 4, 2),
        Some(vec![(1, 3), (1, 4)])
    );
    // Six consecutive fluid points never exist on the line.
    assert_eq!(shifted_substencil_indices(&mask, Direction::X, 2, 2, 6), None);
    // Horizontal lines move along i.
    let mask3 = mask_from(8, 3, 1, |i, j| i >= 2 && i < 8 && j >= 0 && j < 3);
    assert_eq!(
        shifted_substencil_indices(&mask3, Direction::Y, 1, 0, 2),
        Some(vec![(2, 1), (3, 1)])
    );
}

#[test]
fn unfittable_stencil_is_reported() {
    let mask = mask_from(4, 4, 1, |i, j| i >= 0 && i < 4 && j >= 0 && j < 4);
    // Five points never fit on a line of four.
    assert!(weno_stencil_extractor_indices(&mask, Direction::X, 0, 1, &[0, 0, 0, 0, 0], 4).is_none());
}

#[test]
fn first_interior_index_moves_against_the_normal() {
    assert_eq!(first_interior_index(7, 6, true, 10), 6);
    assert_eq!(first_interior_index(7, 6, false, 10), 7);
    assert_eq!(first_interior_index(0, -1, true, 10), 0);
    assert_eq!(first_interior_index(12, 11, false, 10), 9);
}

#[test]
fn nearest_grid_point_picks_smallest_distance() {
    let mask = mask_from(5, 5, 4, |i, j| i >= 0 && i < 5 && j >= 0 && j < 5);
    let b = |d: f64| d.to_bits();
    // Candidates around (2, 2): (2,2) (1,2) (3,2) (2,1) (2,3) (3,3) (3,1) (1,3) (1,1).
    let d = [b(0.5), b(0.4), b(0.9), b(0.4), b(0.7), b(1.0), b(1.0), b(1.0), b(1.0)];
    assert_eq!(find_nearest_grid_point(&mask, (2, 2), &d), (1, 2));
    // Non-fluid candidates never win; with none left, (0, 0).
    let d = [b(0.1); 9];
    assert_eq!(find_nearest_grid_point(&mask, (-3, -3), &d), (0, 0));
    assert_eq!(find_nearest_grid_point(&mask, (0, 0), &d), (0, 0));
    let d = [b(2.0), b(1.0), b(3.0), b(3.0), b(3.0), b(3.0), b(3.0), b(3.0), b(3.0)];
    assert_eq!(find_nearest_grid_point(&mask, (0, 2), &d), (0, 2));
    // Distances at or beyond 1e50 do not count.
    let d = [b(1e50); 9];
    assert_eq!(find_nearest_grid_point(&mask, (2, 2), &d), (0, 0));
}

#[test]
fn reflected_point_uses_its_own_candidate_order() {
    let mask = mask_from(5, 5, 4, |i, j| i >= 0 && i < 5 && j >= 0 && j < 5);
    let b = |d: f64| d.to_bits();
    // Candidates around (2, 2): (2,2) (1,2) (3,2) (2,1) (2,3) (1,1) (1,3) (3,1) (3,3).
    let d = [b(1.0), b(1.0), b(1.0), b(1.0), b(1.0), b(0.5), b(0.5), b(0.5), b(0.5)];
    assert_eq!(reflected_interior_point(&mask, (2, 2), &d), Some((1, 1)));
    let d = [b(f64::INFINITY); 9];
    assert_eq!(reflected_interior_point(&mask, (2, 2), &d), None);
    assert_eq!(reflected_interior_point(&mask, (-3, 7), &[0; 9]), None);
}

#[test]
fn xk_column_closes_its_degree_block() {
    // Ordering: 1 | y x | y^2 xy x^2 | y^3 x y^2 x^2 y x^3 | ...
    assert_eq!(xk_coefficient_column(0), 0);
    assert_eq!(xk_coefficient_column(1), 2);
    assert_eq!(xk_coefficient_column(2), 5);
    assert_eq!(xk_coefficient_column(3), 9);
    assert_eq!(xk_coefficient_column(4), 14);
}
