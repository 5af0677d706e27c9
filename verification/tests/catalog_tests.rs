use stl_blueprint::catalog::{catalog_entries, count_mask, sort_by_count, standard_blocks};
use stl_blueprint::pipeline::convert_samples_to_blueprint;

#[test]
fn catalog_has_twenty_three_shapes() {
    let es = catalog_entries();
    assert_eq!(es.len(), 23);
    assert_eq!(es[0].1, "LargeBlockArmorBlock");
    assert_eq!(es[22].2, "SmallBlockArmorHalfSlopedCornerBase");
}

#[test]
fn standard_blocks_sorted_by_point_count() {
    let blocks = standard_blocks();
    let names: Vec<&str> = blocks.iter().map(|b| b.LGSubtype).collect();
    assert_eq!(names, vec![
        "LargeBlockArmorBlock",
        "LargeBlockArmorHalfSlopeCornerInverted",
        "LargeBlockArmorInvCorner2Base",
        "LargeBlockArmorHalfSlopeInverted",
        "LargeBlockArmorSlopedCornerBase",
        "LargeBlockArmorCornerInv",
        "LargeBlockArmorCornerSquareInverted",
        "LargeBlockArmorSlope2Base",
        "LargeBlockArmorInvCorner2Tip",
        "LargeBlockArmorSlope",
        "LargeHalfArmorBlock",
        "LargeBlockArmorSlopedCorner",
        "LargeBlockArmorHalfSlopedCornerBase",
        "LargeBlockArmorCornerSquare",
        "LargeBlockArmorSlope2Tip",
        "LargeBlockArmorHalfSlopedCorner",
        "LargeBlockArmorCorner2Base",
        "LargeBlockArmorHalfCorner",
        "LargeBlockArmorCorner",
        "LargeHalfSlopeArmorBlock",
        "LargeBlockArmorSlopedCornerTip",
        "LargeBlockArmorCorner2Tip",
        "LargeBlockArmorHalfSlopeCorner",
    ]);
    for i in 1..blocks.len() {
        assert!(blocks[i - 1].hit_count() >= blocks[i].hit_count());
    }
}

#[test]
fn sort_is_stable_and_descending() {
    let a = ([true; 20], "a", "a");
    let mut m = [false; 20];
    m[3] = true;
    let b = (m, "b", "b");
    let c = (m, "c", "c");
    let d = ([false; 20], "d", "d");
    let sorted = sort_by_count(&vec![d, b, a, c]);
    let names: Vec<&str> = sorted.iter().map(|e| e.1).collect();
    assert_eq!(names, vec!["a", "b", "c", "d"]);
    assert_eq!(count_mask(&m), 1);
}

#[test]
fn conversion_runs_both_passes() {
    let n = 3;
    let mut samples = vec![vec![vec![[false; 20]; n]; n]; n];
    samples[0][1][1] = [true; 20];
    samples[1][1][0] = [true; 20];
    let r = convert_samples_to_blueprint(n, true, &samples);
    assert_eq!(r.filled, 2);
    assert_eq!(r.replaced, 2);
    assert!(r.document.contains("<GridSizeEnum>Large</GridSizeEnum>"));
    assert_eq!(r.document.matches("<MyObjectBuilder_CubeBlock ").count(), 4);
    assert!(r.document.contains("<Min x=\"0\" y=\"1\" z=\"0\" />\n                <BlockOrientation Forward=\"Backward\" Up=\"Left\" />"));
}

#[test]
fn conversion_of_empty_samples() {
    let samples = vec![vec![vec![[false; 20]; 2]; 2]; 2];
    let r = convert_samples_to_blueprint(2, false, &samples);
    assert_eq!((r.filled, r.replaced), (0, 0));
    assert_eq!(r.document.matches("<MyObjectBuilder_CubeBlock ").count(), 0);
    assert!(r.document.contains("<GridSizeEnum>Small</GridSizeEnum>"));
}
