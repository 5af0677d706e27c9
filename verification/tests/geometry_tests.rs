use stl_blueprint::geometry::{reference_points, Direction, Vec3};

fn v(x: i64, y: i64, z: i64) -> Vec3 {
    Vec3 { x, y, z }
}

#[test]
fn opposite_pairs_directions() {
    assert_eq!(Direction::FORWARD.opposite(), Direction::BACKWARD);
    assert_eq!(Direction::BACKWARD.opposite(), Direction::FORWARD);
    assert_eq!(Direction::LEFT.opposite(), Direction::RIGHT);
    assert_eq!(Direction::RIGHT.opposite(), Direction::LEFT);
    assert_eq!(Direction::UP.opposite(), Direction::DOWN);
    assert_eq!(Direction::DOWN.opposite(), Direction::UP);
}

#[test]
fn opposite_is_an_involution_without_fixed_points() {
    for d in Direction::all() {
        assert_eq!(d.opposite().opposite(), d);
        assert_ne!(d.opposite(), d);
        let a = d.get_vec();
        let b = d.opposite().get_vec();
        assert_eq!(b, v(-a.x, -a.y, -a.z));
    }
}

#[test]
fn direction_vectors() {
    assert_eq!(Direction::FORWARD.get_vec(), v(0, 0, -1));
    assert_eq!(Direction::BACKWARD.get_vec(), v(0, 0, 1));
    assert_eq!(Direction::RIGHT.get_vec(), v(1, 0, 0));
    assert_eq!(Direction::LEFT.get_vec(), v(-1, 0, 0));
    assert_eq!(Direction::UP.get_vec(), v(0, 1, 0));
    assert_eq!(Direction::DOWN.get_vec(), v(0, -1, 0));
}

#[test]
fn from_vec_inverts_get_vec() {
    for d in Direction::all() {
        assert_eq!(Direction::from_vec(&d.get_vec()), d);
    }
}

#[test]
fn direction_names() {
    let names: Vec<&str> = Direction::all().iter().map(|d| d.name()).collect();
    assert_eq!(names, vec!["Forward", "Backward", "Up", "Down", "Left", "Right"]);
}

#[test]
fn cross_of_directions() {
    assert_eq!(Direction::UP.cross(&Direction::BACKWARD), Direction::RIGHT);
    assert_eq!(Direction::UP.cross(&Direction::FORWARD), Direction::LEFT);
    assert_eq!(Direction::RIGHT.cross(&Direction::UP), Direction::BACKWARD);
}

#[test]
fn rotation_faces_forward_and_up() {
    let r = Direction::get_rotation(&Direction::RIGHT, &Direction::UP);
    assert_eq!(r.transform_point(&v(0, 0, 1)), v(1, 0, 0));
    assert_eq!(r.transform_point(&v(0, 1, 0)), v(0, 1, 0));
    assert_eq!(r.transform_point(&v(1, 0, 0)), v(0, 0, -1));
    assert_eq!(r.transform_point(&v(1, 1, 1)), v(1, 1, -1));
    assert_eq!(r.transform_point(&v(0, 0, -1)), Direction::LEFT.get_vec());
}

#[test]
fn identity_rotation() {
    let r = Direction::get_rotation(&Direction::BACKWARD, &Direction::UP);
    for p in reference_points() {
        assert_eq!(r.transform_point(&p), p);
    }
}

#[test]
fn rotations_keep_reference_points() {
    let pts = reference_points();
    for row in Direction::get_matrix_arr() {
        for (_, _, r) in row {
            for p in &pts {
                assert!(pts.contains(&r.transform_point(p)));
            }
        }
    }
}

#[test]
fn orientation_table_shape() {
    let rows = Direction::get_matrix_arr();
    assert_eq!(rows.len(), 6);
    let mut pairs = Vec::new();
    for (i, row) in rows.iter().enumerate() {
        assert_eq!(row.len(), 4);
        for (f, u, _) in row {
            assert_eq!(*f, Direction::all()[i]);
            assert!(*u != *f && *u != f.opposite());
            pairs.push((*f, *u));
        }
    }
    assert_eq!(rows[0].iter().map(|e| e.1).collect::<Vec<_>>(), vec![
        Direction::UP,
        Direction::DOWN,
        Direction::LEFT,
        Direction::RIGHT,
    ]);
    for i in 0..pairs.len() {
        for j in 0..i {
            assert_ne!(pairs[i], pairs[j]);
        }
    }
}

#[test]
fn reference_points_are_the_cube_corners_and_edge_midpoints() {
    let pts = reference_points();
    assert_eq!(pts.len(), 20);
    assert_eq!(pts[0], v(-1, 1, -1));
    assert_eq!(pts[8], v(-1, 0, -1));
    assert_eq!(pts[19], v(1, -1, 1));
    for x in -1..=1 {
        for y in -1..=1 {
            for z in -1..=1 {
                let zeros = [x, y, z].iter().filter(|c| **c == 0).count();
                assert_eq!(pts.contains(&v(x, y, z)), zeros <= 1);
            }
        }
    }
}
