use voxel_terrain::matrix_3d::{Index3, Matrix3D};

#[test]
fn new_grid_holds_fill_everywhere() {
    let m = Matrix3D::new(Index3::new(2, 3, 4), 5i32);
    assert_eq!((m.x(), m.y(), m.z()), (2, 3, 4));
    for z in 0..4 {
        for y in 0..3 {
            for x in 0..2 {
                assert_eq!(m.get(Index3::new(x, y, z)), 5);
            }
        }
    }
}

#[test]
fn set_then_get_round_trips() {
    let mut m = Matrix3D::new(Index3::new(3, 3, 3), 0i32);
    m.set(Index3::new(1, 2, 0), 7);
    m.set(Index3::new(2, 0, 2), -3);
    assert_eq!(m.get(Index3::new(1, 2, 0)), 7);
    assert_eq!(m.get(Index3::new(2, 0, 2)), -3);
    assert_eq!(m.get(Index3::new(0, 0, 0)), 0);
    assert_eq!(m.get(Index3::new(2, 1, 0)), 0);
}

#[test]
fn set_touches_only_its_cell() {
    let mut m = Matrix3D::new(Index3::new(2, 2, 2), 0u8);
    m.set(Index3::new(1, 1, 1), 9);
    let mut nonzero = 0;
    for z in 0..2 {
        for y in 0..2 {
            for x in 0..2 {
                if m.get(Index3::new(x, y, z)) != 0 {
                    nonzero += 1;
                }
            }
        }
    }
    assert_eq!(nonzero, 1);
}

#[test]
fn map_applies_to_every_cell() {
    let mut m = Matrix3D::new(Index3::new(2, 2, 1), 1i32);
    m.set(Index3::new(1, 0, 0), -4);
    let flags = m.map(|v: i32| v < 0);
    assert_eq!((flags.x(), flags.y(), flags.z()), (2, 2, 1));
    assert!(flags.get(Index3::new(1, 0, 0)));
    assert!(!flags.get(Index3::new(0, 0, 0)));
    assert!(!flags.get(Index3::new(1, 1, 0)));
}

#[test]
fn float_grid_round_trip() {
    let mut m = Matrix3D::new(Index3::new(5, 5, 5), 0.0f32);
    m.set(Index3::new(4, 4, 4), 0.25);
    assert_eq!(m.get(Index3::new(4, 4, 4)), 0.25);
    assert_eq!(m.get(Index3::new(3, 4, 4)), 0.0);
}

#[test]
fn empty_extent_grid() {
    let m = Matrix3D::new(Index3::new(0, 4, 4), 0i32);
    assert_eq!(m.x(), 0);
}
