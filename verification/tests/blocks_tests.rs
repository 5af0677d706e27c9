use stl_blueprint::blocks::CubeBlock;
use stl_blueprint::geometry::{reference_points, Direction, Vec3};

const SLOPE: [bool; 20] = [
    true, true, true, false, false, false, false, false, true, true, false, false, true, true,
    true, true, true, true, true, true,
];

fn own_points(mask: &[bool; 20]) -> Vec<Vec3> {
    let pts = reference_points();
    (0..20).filter(|i| mask[*i]).map(|i| pts[i]).collect()
}

#[test]
fn new_builds_twenty_four_orientations() {
    let b = CubeBlock::new(SLOPE, "LargeBlockArmorSlope", "SmallBlockArmorSlope");
    assert_eq!(b.Points, SLOPE);
    assert_eq!(b.LGSubtype, "LargeBlockArmorSlope");
    assert_eq!(b.SGSubtype, "SmallBlockArmorSlope");
    assert_eq!(b.Orientations.len(), 24);
    assert_eq!(b.hit_count(), 13);
    for (f, u, pts) in &b.Orientations {
        assert_eq!(pts.len(), 13);
        assert!(*u != *f && *u != f.opposite());
        for p in pts {
            assert!(reference_points().contains(p));
        }
    }
}

#[test]
fn new_records_forward_as_opposite_of_facing() {
    let b = CubeBlock::new(SLOPE, "a", "b");
    let rows = Direction::get_matrix_arr();
    for k in 0..24 {
        let (fwd, up, _) = rows[k / 4][k % 4];
        assert_eq!(b.Orientations[k].0, fwd.opposite());
        assert_eq!(b.Orientations[k].1, up);
    }
}

#[test]
fn identity_orientation_keeps_own_points() {
    let b = CubeBlock::new(SLOPE, "a", "b");
    let (f, u, pts) = &b.Orientations[4];
    assert_eq!(*f, Direction::FORWARD);
    assert_eq!(*u, Direction::UP);
    assert_eq!(*pts, own_points(&SLOPE));
}

#[test]
fn get_orientation_of_own_points() {
    let b = CubeBlock::new(SLOPE, "a", "b");
    let hits = own_points(&SLOPE);
    let (f, u, pts) = b.get_orientation(&hits).unwrap();
    assert_eq!((f, u), (Direction::FORWARD, Direction::UP));
    assert_eq!(*pts, hits);
}

#[test]
fn get_orientation_finds_first_matching_orientation() {
    let b = CubeBlock::new(SLOPE, "a", "b");
    let mut hits = b.Orientations[1].2.clone();
    hits.reverse();
    let (f, u, _) = b.get_orientation(&hits).unwrap();
    assert_eq!((f, u), (Direction::BACKWARD, Direction::DOWN));
    let hits = b.Orientations[9].2.clone();
    let (f, u, _) = b.get_orientation(&hits).unwrap();
    assert_eq!((f, u), (Direction::FORWARD, Direction::UP));
}

#[test]
fn get_orientation_rejects_other_sizes_and_shapes() {
    let b = CubeBlock::new(SLOPE, "a", "b");
    let hits = own_points(&SLOPE);
    assert!(b.get_orientation(&hits[..12].to_vec()).is_none());
    assert!(b.get_orientation(&Vec::new()).is_none());
    let all = reference_points();
    assert!(b.get_orientation(&all).is_none());
    let mut wrong = hits.clone();
    wrong[12] = Vec3 { x: 1, y: 1, z: 1 };
    wrong[0] = Vec3 { x: -1, y: 1, z: 1 };
    assert!(b.get_orientation(&wrong).is_none());
}

#[test]
fn full_block_matches_all_points() {
    let b = CubeBlock::new([true; 20], "LargeBlockArmorBlock", "SmallBlockArmorBlock");
    assert_eq!(b.hit_count(), 20);
    let (f, u, _) = b.get_orientation(&reference_points()).unwrap();
    assert_eq!((f, u), (Direction::BACKWARD, Direction::UP));
}
