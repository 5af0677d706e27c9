use stl_blueprint::assembly::{choose_block, mesh_to_blocks, smooth_block_grid};
use stl_blueprint::blocks::CubeBlock;
use stl_blueprint::blueprint::blueprint_document;
use stl_blueprint::catalog::standard_blocks;
use stl_blueprint::geometry::{reference_points, Direction, Vec3};
use stl_blueprint::grid::{fill_from_nearby_cubes, new_grid, Grid, GridPos, OrientedBlock};
use stl_blueprint::text::format_block_def;

fn samples_with_full(n: usize, full: &[(usize, usize, usize)]) -> Vec<Vec<Vec<[bool; 20]>>> {
    let mut s = vec![vec![vec![[false; 20]; n]; n]; n];
    for (x, y, z) in full {
        s[*x][*y][*z] = [true; 20];
    }
    s
}

fn v(x: i64, y: i64, z: i64) -> Vec3 {
    Vec3 { x, y, z }
}

fn occupied(g: &Grid) -> usize {
    g.iter().flatten().flatten().filter(|c| c.is_some()).count()
}

fn cell<'a, 'b>(g: &'b Grid<'a>, x: usize, y: usize, z: usize) -> &'b OrientedBlock<'a> {
    g[x][y][z].as_ref().unwrap()
}

#[test]
fn new_grid_is_empty_cube() {
    let g = new_grid(4);
    assert_eq!(g.len(), 4);
    assert!(g.iter().all(|p| p.len() == 4 && p.iter().all(|r| r.len() == 4)));
    assert_eq!(occupied(&g), 0);
    assert!(new_grid(0).is_empty());
}

#[test]
fn oriented_block_new_keeps_fields() {
    let verts = vec![v(1, 1, 1)];
    let b = OrientedBlock::new(GridPos { x: 1, y: 2, z: 3 }, &verts, "xml".to_string(), true);
    assert_eq!(b.Pos, GridPos { x: 1, y: 2, z: 3 });
    assert_eq!(*b.Verts, verts);
    assert_eq!(b.Xml, "xml");
    assert!(b.Optim);
}

#[test]
fn mesh_places_first_fitting_block() {
    let blocks = standard_blocks();
    let samples = samples_with_full(2, &[(0, 1, 1)]);
    let g = mesh_to_blocks(2, true, &samples, &blocks);
    assert_eq!(occupied(&g), 1);
    let b = cell(&g, 0, 1, 1);
    assert_eq!(b.Pos, GridPos { x: 0, y: 1, z: 1 });
    assert!(!b.Optim);
    assert_eq!(
        b.Xml,
        format_block_def("LargeBlockArmorBlock", 0, 1, 1, Direction::BACKWARD, Direction::UP)
    );
    let g = mesh_to_blocks(2, false, &samples, &blocks);
    assert_eq!(
        cell(&g, 0, 1, 1).Xml,
        format_block_def("SmallBlockArmorBlock", 0, 1, 1, Direction::BACKWARD, Direction::UP)
    );
}

#[test]
fn mesh_with_slope_points() {
    let blocks = standard_blocks();
    let slope = [
        true, true, true, false, false, false, false, false, true, true, false, false, true, true,
        true, true, true, true, true, true,
    ];
    let mut samples = samples_with_full(1, &[]);
    samples[0][0][0] = slope;
    let g = mesh_to_blocks(1, true, &samples, &blocks);
    assert_eq!(
        cell(&g, 0, 0, 0).Xml,
        format_block_def("LargeBlockArmorSlope", 0, 0, 0, Direction::FORWARD, Direction::UP)
    );
}

#[test]
fn choose_block_none_when_nothing_fits() {
    let blocks = standard_blocks();
    let hits = vec![v(1, 1, 1)];
    assert!(choose_block(&blocks, &hits, GridPos { x: 0, y: 0, z: 0 }, true, false).is_none());
    assert!(choose_block(&blocks, &Vec::new(), GridPos { x: 0, y: 0, z: 0 }, true, false).is_none());
}

#[test]
fn nearby_hits_from_a_neighbor() {
    let blocks = standard_blocks();
    let samples = samples_with_full(3, &[(0, 1, 1)]);
    let g = mesh_to_blocks(3, true, &samples, &blocks);
    let hits = fill_from_nearby_cubes(&GridPos { x: 1, y: 1, z: 1 }, &g);
    assert_eq!(hits, vec![
        v(-1, 1, 1),
        v(-1, 1, 0),
        v(-1, 1, -1),
        v(-1, 0, 1),
        v(-1, 0, -1),
        v(-1, -1, 1),
        v(-1, -1, 0),
        v(-1, -1, -1),
    ]);
    assert!(fill_from_nearby_cubes(&GridPos { x: 0, y: 1, z: 1 }, &g).is_empty());
    assert!(fill_from_nearby_cubes(&GridPos { x: 2, y: 1, z: 1 }, &g).is_empty());
    assert_eq!(fill_from_nearby_cubes(&GridPos { x: 1, y: 2, z: 2 }, &g), vec![v(-1, -1, -1)]);
}

#[test]
fn nearby_hits_are_distinct_reference_points() {
    let blocks = standard_blocks();
    let samples = samples_with_full(3, &[(0, 1, 1), (1, 1, 0), (1, 0, 1), (2, 2, 2)]);
    let g = mesh_to_blocks(3, true, &samples, &blocks);
    let pts = reference_points();
    for x in 0..3 {
        for y in 0..3 {
            for z in 0..3 {
                let hits = fill_from_nearby_cubes(&GridPos { x, y, z }, &g);
                for i in 0..hits.len() {
                    assert!(pts.contains(&hits[i]));
                    for j in 0..i {
                        assert_ne!(hits[i], hits[j]);
                    }
                }
            }
        }
    }
}

#[test]
fn fill_and_replace_passes() {
    let blocks = standard_blocks();
    let samples = samples_with_full(3, &[(0, 1, 1), (1, 1, 0)]);
    let mut g = mesh_to_blocks(3, true, &samples, &blocks);
    let filled = smooth_block_grid(3, true, &blocks, &mut g, false);
    assert_eq!(filled, 2);
    assert_eq!(occupied(&g), 4);
    assert_eq!(
        cell(&g, 0, 1, 0).Xml,
        format_block_def("LargeBlockArmorSlope", 0, 1, 0, Direction::BACKWARD, Direction::LEFT)
    );
    assert!(cell(&g, 0, 1, 0).Optim);
    assert_eq!(
        cell(&g, 1, 1, 1).Xml,
        format_block_def("LargeBlockArmorSlope", 1, 1, 1, Direction::FORWARD, Direction::RIGHT)
    );
    assert!(!cell(&g, 0, 1, 1).Optim);
    let replaced = smooth_block_grid(3, true, &blocks, &mut g, true);
    assert_eq!(replaced, 2);
    assert_eq!(occupied(&g), 4);
    assert_eq!(
        cell(&g, 0, 1, 1).Xml,
        format_block_def("LargeBlockArmorSlope", 0, 1, 1, Direction::FORWARD, Direction::LEFT)
    );
    assert_eq!(
        cell(&g, 1, 1, 0).Xml,
        format_block_def("LargeBlockArmorSlope", 1, 1, 0, Direction::BACKWARD, Direction::RIGHT)
    );
    assert!(cell(&g, 1, 1, 0).Optim);
}

#[test]
fn fill_pass_uses_point_subsets() {
    let blocks = standard_blocks();
    let samples = samples_with_full(3, &[(1, 1, 0), (1, 2, 0), (2, 0, 2), (2, 2, 1)]);
    let mut g = mesh_to_blocks(3, true, &samples, &blocks);
    let filled = smooth_block_grid(3, false, &blocks, &mut g, false);
    assert_eq!(filled, 5);
    assert_eq!(occupied(&g), 9);
    let expect = [
        ((1, 1, 1), "SmallBlockArmorCornerSquare", Direction::RIGHT, Direction::BACKWARD),
        ((1, 2, 1), "SmallBlockArmorSlope", Direction::FORWARD, Direction::LEFT),
        ((2, 1, 0), "SmallBlockArmorCornerSquare", Direction::UP, Direction::RIGHT),
        ((2, 1, 1), "SmallBlockArmorCornerSquare", Direction::LEFT, Direction::DOWN),
        ((2, 2, 0), "SmallBlockArmorSlope", Direction::BACKWARD, Direction::RIGHT),
    ];
    for ((x, y, z), name, f, u) in expect {
        let b = cell(&g, x, y, z);
        assert_eq!(b.Xml, format_block_def(name, x, y, z, f, u));
        assert!(b.Optim);
        assert_eq!(b.Pos, GridPos { x, y, z });
    }
}

#[test]
fn fill_pass_keeps_existing_blocks() {
    let blocks = standard_blocks();
    let samples = samples_with_full(3, &[(1, 1, 0), (1, 2, 0), (2, 0, 2), (2, 2, 1)]);
    let mut g = mesh_to_blocks(3, true, &samples, &blocks);
    let before: Vec<String> = [(1, 1, 0), (1, 2, 0), (2, 0, 2), (2, 2, 1)]
        .iter()
        .map(|(x, y, z)| cell(&g, *x, *y, *z).Xml.clone())
        .collect();
    let n0 = occupied(&g);
    let filled = smooth_block_grid(3, true, &blocks, &mut g, false);
    assert_eq!(occupied(&g), n0 + filled);
    for (i, (x, y, z)) in [(1, 1, 0), (1, 2, 0), (2, 0, 2), (2, 2, 1)].iter().enumerate() {
        assert_eq!(cell(&g, *x, *y, *z).Xml, before[i]);
    }
}

#[test]
fn smoothing_with_no_blocks_changes_nothing() {
    let blocks: Vec<CubeBlock> = Vec::new();
    let mut g = new_grid(2);
    assert_eq!(smooth_block_grid(2, true, &blocks, &mut g, true), 0);
    assert_eq!(occupied(&g), 0);
}

fn expected_document(defs: &[String], large_grid: bool) -> String {
    format!("<?xml version=\"1.0\"?>
    <Definitions xmlns:xsd=\"http://www.w3.org/2001/XMLSchema\" xmlns:xsi=\"http://www.w3.org/2001/XMLSchema-instance\">
      <ShipBlueprints>
        <ShipBlueprint xsi:type=\"MyObjectBuilder_ShipBlueprintDefinition\">
          <Id Type=\"MyObjectBuilder_ShipBlueprintDefinition\" Subtype=\"{name}\" />
          <DisplayName>{name}</DisplayName>
          <CubeGrids>
            <CubeGrid>
              <SubtypeName />
              <EntityId>134254513543793982</EntityId>
              <PersistentFlags>CastShadows InScene</PersistentFlags>
              <PositionAndOrientation>
                <Position x=\"0\" y=\"0\" z=\"0\" />
                <Forward x=\"0.0245060846\" y=\"-0.3717277\" z=\"-0.928018332\" />
                <Up x=\"0.669880331\" y=\"0.69516927\" z=\"-0.260768056\" />
                <Orientation>
                  <X>-0.172392666</X>
                  <Y>-0.07919351</Y>
                  <Z>-0.350280046</Z>
                  <W>0.9172312</W>
                </Orientation>
              </PositionAndOrientation>
              <LocalPositionAndOrientation xsi:nil=\"true\" />
              <GridSizeEnum>{size}</GridSizeEnum>
              <CubeBlocks>\n{}\n
              </CubeBlocks>
    
              <DisplayName>{name}</DisplayName>
              <DestructibleBlocks>true</DestructibleBlocks>
              <IsRespawnGrid>false</IsRespawnGrid>
              <LocalCoordSys>0</LocalCoordSys>
              <TargetingTargets />
            </CubeGrid>
          </CubeGrids>
          <EnvironmentType>None</EnvironmentType>
          <WorkshopId>0</WorkshopId>
          <OwnerSteamId>76561198116813162</OwnerSteamId>
          <Points>0</Points>
        </ShipBlueprint>
      </ShipBlueprints>
    </Definitions>",
        defs.join("\n"),
        name = "Generated Test",
        size = if large_grid { "Large" } else { "Small" }
    )
}

#[test]
fn document_of_empty_grid() {
    let g = new_grid(2);
    assert_eq!(blueprint_document(&g, true), expected_document(&[], true));
    assert_eq!(blueprint_document(&g, false), expected_document(&[], false));
}

#[test]
fn document_lists_blocks_in_grid_order() {
    let blocks = standard_blocks();
    let samples = samples_with_full(3, &[(2, 0, 0), (0, 2, 1), (0, 1, 2)]);
    let g = mesh_to_blocks(3, false, &samples, &blocks);
    let defs: Vec<String> = [(0, 1, 2), (0, 2, 1), (2, 0, 0)]
        .iter()
        .map(|(x, y, z)| {
            format_block_def("SmallBlockArmorBlock", *x, *y, *z, Direction::BACKWARD, Direction::UP)
        })
        .collect();
    assert_eq!(blueprint_document(&g, false), expected_document(&defs, false));
}

#[test]
fn smoothing_a_range_of_a_larger_grid() {
    let blocks = standard_blocks();
    let samples = samples_with_full(4, &[(2, 1, 2), (2, 3, 0), (3, 0, 1), (3, 1, 1)]);
    let mut g = mesh_to_blocks(4, true, &samples, &blocks);
    let filled = smooth_block_grid(3, true, &blocks, &mut g, false);
    assert_eq!(filled, 3);
    assert_eq!(occupied(&g), 7);
    assert_eq!(g.len(), 4);
    assert!(g.iter().all(|p| p.len() == 4 && p.iter().all(|r| r.len() == 4)));
    let expect = [
        ((2, 0, 1), "LargeBlockArmorCornerSquare", Direction::BACKWARD, Direction::LEFT),
        ((2, 0, 2), "LargeBlockArmorCornerSquare", Direction::FORWARD, Direction::DOWN),
        ((2, 1, 1), "LargeBlockArmorSlope", Direction::BACKWARD, Direction::LEFT),
    ];
    for ((x, y, z), name, f, u) in expect {
        let b = cell(&g, x, y, z);
        assert_eq!(b.Xml, format_block_def(name, x, y, z, f, u));
        assert!(b.Optim);
    }
    for (x, y, z) in [(2, 1, 2), (2, 3, 0), (3, 0, 1), (3, 1, 1)] {
        let b = cell(&g, x, y, z);
        assert!(!b.Optim);
        assert_eq!(
            b.Xml,
            format_block_def("LargeBlockArmorBlock", x, y, z, Direction::BACKWARD, Direction::UP)
        );
    }
}

#[test]
fn replacing_pass_count_is_cells_changed() {
    let blocks = standard_blocks();
    let samples = samples_with_full(3, &[(0, 1, 1), (1, 1, 0)]);
    let mut g = mesh_to_blocks(3, true, &samples, &blocks);
    smooth_block_grid(3, true, &blocks, &mut g, false);
    let before: Vec<Option<String>> = g.iter().flatten().flatten().map(|c| c.as_ref().map(|b| b.Xml.clone())).collect();
    let replaced = smooth_block_grid(3, true, &blocks, &mut g, true);
    let after: Vec<Option<String>> = g.iter().flatten().flatten().map(|c| c.as_ref().map(|b| b.Xml.clone())).collect();
    let changed = before.iter().zip(after.iter()).filter(|(a, b)| a != b).count();
    assert_eq!(replaced, changed);
}
