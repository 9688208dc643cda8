use rh3t::boundary::{
    bc_priority, boundary_kind, ghost_boundary, needs_precompute, periodic_index, periodic_source,
    select_boundary_side, BCKind, BoundaryKind, CylinderWallMode,
};
use rh3t::geometry::{ArcOverride, FluidSide, Hand};
use rh3t::mask::FluidMask;

#[test]
fn priorities_rank_walls_first() {
    let order = [
        BCKind::Wall,
        BCKind::ReflectiveWall,
        BCKind::Constant,
        BCKind::FarField,
        BCKind::Outflow,
        BCKind::ZerothOrder,
        BCKind::Periodic,
    ];
    for w in order.windows(2) {
        assert!(bc_priority(w[0]) > bc_priority(w[1]));
    }
    assert_eq!(bc_priority(BCKind::Constant), bc_priority(BCKind::TimeDependent));
}

#[test]
fn vertex_side_goes_to_the_stronger_condition() {
    let bcs = [BCKind::FarField, BCKind::Wall, BCKind::Outflow, BCKind::Wall];
    assert_eq!(select_boundary_side(&[0, 1], &bcs), 1);
    assert_eq!(select_boundary_side(&[2, 0], &bcs), 0);
    // Ties keep the first candidate.
    assert_eq!(select_boundary_side(&[3, 1], &bcs), 3);
    assert_eq!(select_boundary_side(&[2], &bcs), 2);
}

#[test]
fn periodic_wrap_is_euclidean() {
    assert_eq!(periodic_index(-1, 20), 19);
    assert_eq!(periodic_index(-2, 20), 18);
    assert_eq!(periodic_index(20, 20), 0);
    assert_eq!(periodic_index(21, 20), 1);
    assert_eq!(periodic_index(-41, 20), 19);
    let cells = (0..(4 + 2) * (25 + 2)).map(|_| true).collect();
    let mask = FluidMask::new(4, 25, 1, cells).unwrap();
    assert_eq!(periodic_source(&mask, (2, -1), 20), Some((2, 19)));
    assert_eq!(periodic_source(&mask, (9, -1), 20), None);
}

#[test]
fn ghost_boundary_and_precompute_choice() {
    assert_eq!(boundary_kind(false), BoundaryKind::Outer);
    assert_eq!(boundary_kind(true), BoundaryKind::Inner);
    assert!(needs_precompute(BCKind::Wall));
    assert!(needs_precompute(BCKind::Outflow));
    assert!(needs_precompute(BCKind::FarField));
    assert!(!needs_precompute(BCKind::ReflectiveWall));
    assert!(!needs_precompute(BCKind::Constant));
}

#[test]
fn ghost_point_boundary_attribution() {
    assert_eq!(ghost_boundary(false, true), Some(BoundaryKind::Outer));
    assert_eq!(ghost_boundary(false, false), Some(BoundaryKind::Outer));
    assert_eq!(ghost_boundary(true, false), Some(BoundaryKind::Inner));
    assert_eq!(ghost_boundary(true, true), None);
}

#[test]
fn cylinder_wall_modes() {
    assert_eq!(CylinderWallMode::Reflective.bc(), BCKind::ReflectiveWall);
    assert_eq!(CylinderWallMode::HighOrder.bc(), BCKind::Wall);
    assert_eq!(CylinderWallMode::Primitive.bc(), BCKind::PrimitiveWall);
}

#[test]
fn fluid_side_classification_and_normals() {
    assert!(FluidSide::Inside.classify(true));
    assert!(!FluidSide::Outside.classify(true));
    assert_eq!(FluidSide::Inside.outward_hand(true), Hand::Right);
    assert_eq!(FluidSide::Inside.outward_hand(false), Hand::Left);
    assert_eq!(FluidSide::Outside.outward_hand(true), Hand::Left);
    assert_eq!(FluidSide::Outside.outward_hand(false), Hand::Right);
}

#[test]
fn arc_override_inclusive_side_range() {
    let ov = ArcOverride { side_start: 5, side_end: 9, arc: (0.0f64, 0.0f64, 1.0f64) };
    assert!(ov.contains_side(5));
    assert!(ov.contains_side(9));
    assert!(ov.contains_side(7));
    assert!(!ov.contains_side(4));
    assert!(!ov.contains_side(10));
}
