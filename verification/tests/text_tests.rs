use stl_blueprint::geometry::{Direction, Vec3};
use stl_blueprint::subsets::k_combinations;
use stl_blueprint::text::{format_block_def, usize_to_decimal};

#[test]
fn decimal_of_numbers() {
    assert_eq!(usize_to_decimal(0), "0");
    assert_eq!(usize_to_decimal(7), "7");
    assert_eq!(usize_to_decimal(10), "10");
    assert_eq!(usize_to_decimal(1234), "1234");
    assert_eq!(usize_to_decimal(usize::MAX), usize::MAX.to_string());
}

#[test]
fn block_def_matches_blueprint_format() {
    let s = format_block_def("LargeBlockArmorSlope", 3, 0, 12, Direction::FORWARD, Direction::LEFT);
    let expected = format!(
        "            <MyObjectBuilder_CubeBlock xsi:type=\"MyObjectBuilder_CubeBlock\">
                <SubtypeName>{}</SubtypeName>
                <Min x=\"{}\" y=\"{}\" z=\"{}\" />
                <BlockOrientation Forward=\"{}\" Up=\"{}\" />
                <BuiltBy>0</BuiltBy>
            </MyObjectBuilder_CubeBlock>",
        "LargeBlockArmorSlope", 3, 0, 12, "Forward", "Left"
    );
    assert_eq!(s, expected);
}

fn v(x: i64) -> Vec3 {
    Vec3 { x, y: 0, z: 0 }
}

#[test]
fn combinations_in_lexicographic_order() {
    let items = vec![v(1), v(2), v(3), v(4)];
    let c = k_combinations(&items, 3);
    assert_eq!(c, vec![
        vec![v(1), v(2), v(3)],
        vec![v(1), v(2), v(4)],
        vec![v(1), v(3), v(4)],
        vec![v(2), v(3), v(4)],
    ]);
    assert_eq!(k_combinations(&items, 1), vec![vec![v(1)], vec![v(2)], vec![v(3)], vec![v(4)]]);
}

#[test]
fn combinations_edge_sizes() {
    let items = vec![v(1), v(2)];
    assert_eq!(k_combinations(&items, 0), vec![Vec::<Vec3>::new()]);
    assert_eq!(k_combinations(&items, 2), vec![items.clone()]);
    assert!(k_combinations(&items, 3).is_empty());
    assert!(k_combinations(&Vec::new(), 1).is_empty());
}
