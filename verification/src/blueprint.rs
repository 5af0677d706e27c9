use vstd::prelude::*;

use crate::grid::{cell_view, grid_view, plane_view, row_view, BlockView, Grid, GridView, OrientedBlock};

verus! {

pub const DOC_HEAD: &'static str = "<?xml version=\"1.0\"?>\n    <Definitions xmlns:xsd=\"http://www.w3.org/2001/XMLSchema\" xmlns:xsi=\"http://www.w3.org/2001/XMLSchema-instance\">\n      <ShipBlueprints>\n        <ShipBlueprint xsi:type=\"MyObjectBuilder_ShipBlueprintDefinition\">\n          <Id Type=\"MyObjectBuilder_ShipBlueprintDefinition\" Subtype=\"";
pub const DOC_AFTER_ID_NAME: &'static str = "\" />\n          <DisplayName>";
pub const DOC_BEFORE_SIZE: &'static str = "</DisplayName>\n          <CubeGrids>\n            <CubeGrid>\n              <SubtypeName />\n              <EntityId>134254513543793982</EntityId>\n              <PersistentFlags>CastShadows InScene</PersistentFlags>\n              <PositionAndOrientation>\n                <Position x=\"0\" y=\"0\" z=\"0\" />\n                <Forward x=\"0.0245060846\" y=\"-0.3717277\" z=\"-0.928018332\" />\n                <Up x=\"0.669880331\" y=\"0.69516927\" z=\"-0.260768056\" />\n                <Orientation>\n                  <X>-0.172392666</X>\n                  <Y>-0.07919351</Y>\n                  <Z>-0.350280046</Z>\n                  <W>0.9172312</W>\n                </Orientation>\n              </PositionAndOrientation>\n              <LocalPositionAndOrientation xsi:nil=\"true\" />\n              <GridSizeEnum>";
pub const DOC_BEFORE_BLOCKS: &'static str = "</GridSizeEnum>\n              <CubeBlocks>\n";
pub const DOC_AFTER_BLOCKS: &'static str = "\n\n              </CubeBlocks>\n    \n              <DisplayName>";
pub const DOC_TAIL: &'static str = "</DisplayName>\n              <DestructibleBlocks>true</DestructibleBlocks>\n              <IsRespawnGrid>false</IsRespawnGrid>\n              <LocalCoordSys>0</LocalCoordSys>\n              <TargetingTargets />\n            </CubeGrid>\n          </CubeGrids>\n          <EnvironmentType>None</EnvironmentType>\n          <WorkshopId>0</WorkshopId>\n          <OwnerSteamId>76561198116813162</OwnerSteamId>\n          <Points>0</Points>\n        </ShipBlueprint>\n      </ShipBlueprints>\n    </Definitions>";
pub const BLUEPRINT_NAME: &'static str = "Generated Test";
pub const LARGE_GRID_NAME: &'static str = "Large";
pub const SMALL_GRID_NAME: &'static str = "Small";
pub const LINE_BREAK: &'static str = "\n";

/// The blueprint entries of the blocks of a row, in order.
pub open spec fn row_defs(r: Seq<Option<BlockView>>) -> Seq<Seq<char>>
    decreases r.len(),
{
    if r.len() == 0 {
        Seq::empty()
    } else {
        match r.last() {
            Some(b) => row_defs(r.drop_last()).push(b.xml),
            None => row_defs(r.drop_last()),
        }
    }
}

pub open spec fn plane_defs(p: Seq<Seq<Option<BlockView>>>) -> Seq<Seq<char>>
    decreases p.len(),
{
    if p.len() == 0 {
        Seq::empty()
    } else {
        plane_defs(p.drop_last()) + row_defs(p.last())
    }
}

/// The blueprint entries of all blocks of a grid, `x` varying slowest and
/// `z` fastest.
pub open spec fn grid_defs(g: GridView) -> Seq<Seq<char>>
    decreases g.len(),
{
    if g.len() == 0 {
        Seq::empty()
    } else {
        grid_defs(g.drop_last()) + plane_defs(g.last())
    }
}

/// The lines of `s` joined with line breaks between them.
pub open spec fn join_lines(s: Seq<Seq<char>>) -> Seq<char>
    decreases s.len(),
{
    if s.len() == 0 {
        Seq::empty()
    } else if s.len() == 1 {
        s[0]
    } else {
        join_lines(s.drop_last()) + LINE_BREAK@ + s.last()
    }
}

/// The name of the grid size.
pub open spec fn grid_size_name(large_grid: bool) -> Seq<char> {
    if large_grid {
        LARGE_GRID_NAME@
    } else {
        SMALL_GRID_NAME@
    }
}

/// The blueprint document holding the entries `defs` on a grid of the given
/// size.
pub open spec fn blueprint_spec(defs: Seq<Seq<char>>, large_grid: bool) -> Seq<char> {
    DOC_HEAD@ + BLUEPRINT_NAME@ + DOC_AFTER_ID_NAME@ + BLUEPRINT_NAME@ + DOC_BEFORE_SIZE@
        + grid_size_name(large_grid) + DOC_BEFORE_BLOCKS@ + join_lines(defs) + DOC_AFTER_BLOCKS@
        + BLUEPRINT_NAME@ + DOC_TAIL@
}

pub open spec fn strings_view(v: Seq<String>) -> Seq<Seq<char>> {
    v.map_values(|s: String| s@)
}

fn collect_row(row: &Vec<Option<OrientedBlock>>, out: &mut Vec<String>)
    ensures
        strings_view(final(out)@) == strings_view(old(out)@) + row_defs(row_view(*row)),
{
    let ghost r = row_view(*row);
    let ghost start = strings_view(out@);
    for z in 0..row.len()
        invariant
            r == row_view(*row),
            strings_view(out@) == start + row_defs(r.take(z as int)),
    {
        proof {
            assert(r.take(z + 1).drop_last() =~= r.take(z as int));
            assert(r[z as int] == cell_view(row@[z as int]));
        }
        match &row[z] {
            Some(b) => {
                let ghost before = strings_view(out@);
                out.push(b.Xml.clone());
                proof {
                    assert(r.take(z + 1).last() == r[z as int]);
                    assert(r[z as int] == Some(b@));
                    assert(strings_view(out@) =~= before.push(b.Xml@));
                    assert(strings_view(out@) =~= start + row_defs(r.take(z + 1)));
                }
            },
            None => {},
        }
    }
    proof {
        assert(r.take(r.len() as int) =~= r);
    }
}

fn collect_plane(plane: &Vec<Vec<Option<OrientedBlock>>>, out: &mut Vec<String>)
    ensures
        strings_view(final(out)@) == strings_view(old(out)@) + plane_defs(plane_view(*plane)),
{
    let ghost p = plane_view(*plane);
    let ghost start = strings_view(out@);
    for y in 0..plane.len()
        invariant
            p == plane_view(*plane),
            strings_view(out@) == start + plane_defs(p.take(y as int)),
    {
        proof {
            assert(p.take(y + 1).drop_last() =~= p.take(y as int));
            assert(p[y as int] == row_view(plane@[y as int]));
        }
        collect_row(&plane[y], out);
        proof {
            assert(strings_view(out@) =~= start + plane_defs(p.take(y + 1)));
        }
    }
    proof {
        assert(p.take(p.len() as int) =~= p);
    }
}

/// The blueprint entries of all blocks of the grid, in grid order.
pub fn collect_defs(grid: &Grid) -> (defs: Vec<String>)
    ensures
        strings_view(defs@) == grid_defs(grid_view(grid)),
{
    let ghost g = grid_view(grid);
    let mut out: Vec<String> = Vec::new();
    for x in 0..grid.len()
        invariant
            g == grid_view(grid),
            strings_view(out@) == grid_defs(g.take(x as int)),
    {
        proof {
            assert(g.take(x + 1).drop_last() =~= g.take(x as int));
            assert(g[x as int] == plane_view(grid@[x as int]));
        }
        collect_plane(&grid[x], &mut out);
        proof {
            assert(strings_view(out@) =~= grid_defs(g.take(x + 1)));
        }
    }
    proof {
        assert(g.take(g.len() as int) =~= g);
        assert(strings_view(Seq::<String>::empty()) =~= Seq::<Seq<char>>::empty());
    }
    out
}

/// Appends the lines of `defs`, joined with line breaks, to `s`.
pub fn append_joined(s: &mut String, defs: &Vec<String>)
    ensures
        final(s)@ == old(s)@ + join_lines(strings_view(defs@)),
{
    let ghost start = s@;
    let ghost d = strings_view(defs@);
    for i in 0..defs.len()
        invariant
            d == strings_view(defs@),
            s@ == start + join_lines(d.take(i as int)),
    {
        proof {
            assert(d.take(i + 1).drop_last() =~= d.take(i as int));
            assert(d.take(i + 1).last() == defs@[i as int]@);
        }
        if i > 0 {
            s.append(LINE_BREAK);
        }
        s.append(defs[i].as_str());
        proof {
            if i == 0 {
                assert(d.take(1).len() == 1);
                assert(join_lines(d.take(0)) =~= Seq::<char>::empty());
            }
            assert(s@ =~= start + join_lines(d.take(i + 1)));
        }
    }
    proof {
        assert(d.take(d.len() as int) =~= d);
    }
}

/// The blueprint document listing every block of the grid.
pub fn blueprint_document(grid: &Grid, large_grid: bool) -> (doc: String)
    ensures
        doc@ == blueprint_spec(grid_defs(grid_view(grid)), large_grid),
{
    let defs = collect_defs(grid);
    let mut s = String::new();
    s.append(DOC_HEAD);
    s.append(BLUEPRINT_NAME);
    s.append(DOC_AFTER_ID_NAME);
    s.append(BLUEPRINT_NAME);
    s.append(DOC_BEFORE_SIZE);
    s.append(if large_grid { LARGE_GRID_NAME } else { SMALL_GRID_NAME });
    s.append(DOC_BEFORE_BLOCKS);
    append_joined(&mut s, &defs);
    s.append(DOC_AFTER_BLOCKS);
    s.append(BLUEPRINT_NAME);
    s.append(DOC_TAIL);
    proof {
        assert(s@ =~= blueprint_spec(grid_defs(grid_view(grid)), large_grid));
    }
    s
}

} // verus!
