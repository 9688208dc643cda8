use rh3t::bc::{boundary_location, mirrored_index, BCType, BoundLoc, GhostSource};
use rh3t::field::{Field, Sample};

#[derive(Clone, Copy, Debug, PartialEq)]
struct State {
    rho: f64,
    mom_x: f64,
    mom_y: f64,
    ee: f64,
    ei: f64,
    er: f64,
}

fn zero() -> State {
    State { rho: 0.0, mom_x: 0.0, mom_y: 0.0, ee: 0.0, ei: 0.0, er: 0.0 }
}

/// Applies a wall reflection: reverses the momentum normal to the side.
fn resolve(s: Sample<State>) -> State {
    match s {
        Sample::Value(v) => v,
        Sample::Reflected(mut v, side) => {
            match side {
                BoundLoc::Left | BoundLoc::Right => v.mom_x = -v.mom_x,
                BoundLoc::Bottom | BoundLoc::Top => v.mom_y = -v.mom_y,
            }
            v
        }
    }
}

fn make_state(i: usize, j: usize) -> State {
    State {
        rho: (100 * i + j) as f64,
        mom_x: i as f64 + 1.0,
        mom_y: j as f64 + 1.0,
        ee: 1.0,
        ei: 2.0,
        er: 3.0,
    }
}

fn make_field(bc: BCType<State>) -> Field<State> {
    let mut field = Field::filled(4, 4, [bc; 4], zero());
    for i in 0..4 {
        for j in 0..4 {
            field.set((i as isize, j as isize), make_state(i, j));
        }
    }
    field
}

fn inside(field: &Field<State>, idx: (isize, isize)) -> State {
    field.as_slice()[idx.0 as usize * field.ny() + idx.1 as usize]
}

fn assert_state_close(a: State, b: State) {
    const TOL: f64 = 1e-12;
    assert!((a.rho - b.rho).abs() < TOL);
    assert!((a.mom_x - b.mom_x).abs() < TOL);
    assert!((a.mom_y - b.mom_y).abs() < TOL);
    assert!((a.ee - b.ee).abs() < TOL);
    assert!((a.ei - b.ei).abs() < TOL);
    assert!((a.er - b.er).abs() < TOL);
}

#[test]
fn periodic_left_wraps_to_right() {
    let field = make_field(BCType::Periodic);
    let ghost = resolve(field.get((-1, 1)));
    let expected = inside(&field, (3, 1));
    assert_state_close(ghost, expected);
}

#[test]
fn periodic_corner_wraps_both_axes() {
    let field = make_field(BCType::Periodic);
    let ghost = resolve(field.get((-1, -1)));
    let expected = inside(&field, (3, 3));
    assert_state_close(ghost, expected);
}

#[test]
fn symmetry_left_mirrors_state() {
    let field = make_field(BCType::Symmetry);
    let ghost = resolve(field.get((-2, 2)));
    let expected = inside(&field, (1, 2));
    assert_state_close(ghost, expected);
}

#[test]
fn wall_left_reverses_x_momentum() {
    let field = make_field(BCType::Wall);
    let ghost = resolve(field.get((-1, 2)));
    let interior = inside(&field, (0, 2));
    assert!((ghost.rho - interior.rho).abs() < 1e-12);
    assert!((ghost.mom_x + interior.mom_x).abs() < 1e-12);
    assert!((ghost.mom_y - interior.mom_y).abs() < 1e-12);
    assert!((ghost.ee - interior.ee).abs() < 1e-12);
    assert!((ghost.ei - interior.ei).abs() < 1e-12);
    assert!((ghost.er - interior.er).abs() < 1e-12);
}

#[test]
fn wall_bottom_reverses_y_momentum() {
    let field = make_field(BCType::Wall);
    let ghost = resolve(field.get((2, -1)));
    let interior = inside(&field, (2, 0));
    assert!((ghost.rho - interior.rho).abs() < 1e-12);
    assert!((ghost.mom_x - interior.mom_x).abs() < 1e-12);
    assert!((ghost.mom_y + interior.mom_y).abs() < 1e-12);
}

#[test]
fn constant_returns_fixed_state() {
    let target = State { rho: 2.5, mom_x: 0.5, mom_y: -1.0, ee: 7.0, ei: 8.0, er: 9.0 };
    let field = make_field(BCType::Constant(target));
    let ghost = resolve(field.get((-3, 0)));
    assert_state_close(ghost, target);
}

fn value_state(value: f64) -> State {
    State {
        rho: value,
        mom_x: 2.0 * value,
        mom_y: 3.0 * value,
        ee: 4.0 * value,
        ei: 5.0 * value,
        er: 6.0 * value,
    }
}

fn periodic_field(nx: usize, ny: usize) -> Field<State> {
    Field::filled(nx, ny, [BCType::Periodic; 4], zero())
}

#[test]
fn set_and_get_interior() {
    let mut field = periodic_field(4, 3);
    let state = value_state(2.0);
    field.set((2, 1), state);
    assert_state_close(resolve(field.get((2, 1))), state);
}

#[test]
fn flattened_layout_is_i_times_ny_plus_j() {
    let mut field = periodic_field(4, 3);
    for i in 0..4 {
        for j in 0..3 {
            let value = (100 * i + j) as f64;
            field.set((i as isize, j as isize), value_state(value));
        }
    }
    for i in 0..4 {
        for j in 0..3 {
            let linear = i * 3 + j;
            assert!((field.as_slice()[linear].rho - (100 * i + j) as f64).abs() < 1e-12);
        }
    }
}

#[test]
fn coords_is_inverse_of_flattening() {
    let field = periodic_field(5, 7);
    for i in 0..5 {
        for j in 0..7 {
            let linear = i * 7 + j;
            assert_eq!(field.coords(linear), (i as isize, j as isize));
        }
    }
}

#[test]
fn periodic_get_handles_negative_indices() {
    let mut field = periodic_field(4, 4);
    let target = value_state(7.0);
    field.set((3, 2), target);
    assert_state_close(resolve(field.get((-1, 2))), target);
}

#[test]
fn ghost_sources_name_the_mirrored_cell() {
    // 4 x 4 grid: cell (i, j) is stored at i * 4 + j.
    assert_eq!(BCType::<u8>::Symmetry.get_ghost((-1, 2), 4, 4), GhostSource::Cell(2));
    assert_eq!(BCType::<u8>::Symmetry.get_ghost((5, 1), 4, 4), GhostSource::Cell(2 * 4 + 1));
    assert_eq!(
        BCType::<u8>::Wall.get_ghost((1, 4), 4, 4),
        GhostSource::Reflected(1 * 4 + 3, BoundLoc::Top)
    );
    assert_eq!(BCType::<u8>::Periodic.get_ghost((4, -1), 4, 4), GhostSource::Cell(3));
    assert_eq!(BCType::Constant(9u8).get_ghost((-7, 0), 4, 4), GhostSource::Value(9));
}

#[test]
fn side_layout_is_bottom_right_top_left() {
    assert_eq!(BoundLoc::Bottom.boundloc2idx(), 0);
    assert_eq!(BoundLoc::Right.boundloc2idx(), 1);
    assert_eq!(BoundLoc::Top.boundloc2idx(), 2);
    assert_eq!(BoundLoc::Left.boundloc2idx(), 3);
}

#[test]
fn boundary_location_and_mirror() {
    assert_eq!(boundary_location((-1, -1), 4, 4), BoundLoc::Left);
    assert_eq!(boundary_location((4, -1), 4, 4), BoundLoc::Right);
    assert_eq!(boundary_location((2, -3), 4, 4), BoundLoc::Bottom);
    assert_eq!(boundary_location((2, 4), 4, 4), BoundLoc::Top);
    assert_eq!(mirrored_index((-2, 1), 4, 4, BoundLoc::Left), (1, 1));
    assert_eq!(mirrored_index((5, 1), 4, 4, BoundLoc::Right), (2, 1));
    assert_eq!(mirrored_index((1, -1), 4, 4, BoundLoc::Bottom), (1, 0));
    assert_eq!(mirrored_index((1, 6), 4, 4, BoundLoc::Top), (1, 1));
    // Mirroring twice is the identity.
    let m = mirrored_index((6, 2), 4, 4, BoundLoc::Right);
    assert_eq!(mirrored_index(m, 4, 4, BoundLoc::Right), (6, 2));
}
