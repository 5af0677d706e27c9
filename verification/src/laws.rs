use vstd::prelude::*;

use crate::geometry::{
    all_directions, lemma_ups_len, points_seq, rotation_towards, ups_of, vec3, Direction,
    Vec3,
};

verus! {

/// A lattice point of the cube `[-1, 1]^3` that is a corner or an edge
/// midpoint: every coordinate in `{-1, 0, 1}` and at most one of them zero.
pub open spec fn is_reference_point(v: Vec3) -> bool {
    &&& -1 <= v.x <= 1
    &&& -1 <= v.y <= 1
    &&& -1 <= v.z <= 1
    &&& (v.x == 0 ==> v.y != 0 && v.z != 0)
    &&& (v.y == 0 ==> v.x != 0 && v.z != 0)
    &&& (v.z == 0 ==> v.x != 0 && v.y != 0)
}

/// The position of a reference point in the list of reference points.
pub open spec fn reference_index(v: Vec3) -> int {
    let x = v.x as int;
    let z = v.z as int;
    let layer: int = if v.y == 1 {
        0
    } else if v.y == 0 {
        8
    } else {
        12
    };
    let within: int = if v.y == 0 {
        (if x == -1 {
            0int
        } else {
            1int
        }) + (if z == -1 {
            0int
        } else {
            2int
        })
    } else if z == -1 {
        x + 1
    } else if z == 0 {
        if x == -1 {
            3int
        } else {
            4int
        }
    } else {
        x + 6
    };
    layer + within
}

/// The reference points are exactly the corners and edge midpoints of the
/// cube `[-1, 1]^3`.
pub proof fn law_reference_points(v: Vec3)
    ensures
        points_seq().contains(v) <==> is_reference_point(v),
{
    if is_reference_point(v) {
        let i = reference_index(v);
        assert(0 <= i < 20);
        assert(points_seq()[i] == v);
    }
    if points_seq().contains(v) {
        let i = choose|i: int| 0 <= i < points_seq().len() && points_seq()[i] == v;
        assert(is_reference_point(points_seq()[i]));
    }
}

} // verus!

verus! {

/// Each of the twenty-four block rotations maps reference points to
/// reference points.
pub proof fn law_rotation_keeps_reference_points(fwd: Direction, up: Direction, p: Vec3)
    requires
        fwd.perpendicular(up),
        is_reference_point(p),
    ensures
        is_reference_point(rotation_towards(fwd, up).rotate(p)),
{
    let r = rotation_towards(fwd, up);
    let (a, b, c) = (r.x_axis, r.y_axis, r.z_axis);
    assert(r.rotate(p) == vec3(
        p.x * a.x + p.y * b.x + p.z * c.x,
        p.x * a.y + p.y * b.y + p.z * c.y,
        p.x * a.z + p.y * b.z + p.z * c.z,
    ));
    assert(is_reference_point(r.rotate(p))) by (nonlinear_arith)
        requires
            r.rotate(p) == vec3(
                p.x * a.x + p.y * b.x + p.z * c.x,
                p.x * a.y + p.y * b.y + p.z * c.y,
                p.x * a.z + p.y * b.z + p.z * c.z,
            ),
            is_reference_point(p),
            fwd.perpendicular(up),
            a == up.cross_of(fwd).vec(),
            b == up.vec(),
            c == fwd.vec(),
    ;
}

} // verus!

verus! {

/// The rotation facing `fwd` with `up` up sends `+z` to `fwd`, `+y` to `up`
/// and `+x` to `up × fwd`.
pub proof fn law_rotation_faces(fwd: Direction, up: Direction)
    requires
        fwd.perpendicular(up),
    ensures
        rotation_towards(fwd, up).rotate(vec3(0, 0, 1)) == fwd.vec(),
        rotation_towards(fwd, up).rotate(vec3(0, 1, 0)) == up.vec(),
        rotation_towards(fwd, up).rotate(vec3(1, 0, 0)) == crate::geometry::cross3(up.vec(), fwd.vec()),
{
    let r = rotation_towards(fwd, up);
    crate::geometry::lemma_cross_perpendicular(up, fwd);
    let (a, b, c) = (r.x_axis, r.y_axis, r.z_axis);
    assert(r.rotate(vec3(0, 0, 1)) == c && r.rotate(vec3(0, 1, 0)) == b && r.rotate(vec3(1, 0, 0))
        == a) by (nonlinear_arith)
        requires
            a == r.x_axis,
            b == r.y_axis,
            c == r.z_axis,
            -1 <= a.x <= 1 && -1 <= a.y <= 1 && -1 <= a.z <= 1,
            -1 <= b.x <= 1 && -1 <= b.y <= 1 && -1 <= b.z <= 1,
            -1 <= c.x <= 1 && -1 <= c.y <= 1 && -1 <= c.z <= 1,
    ;
}

/// The orientation table lists each of the twenty-four (forward, up) pairs of
/// perpendicular directions exactly once: row `i` holds forward direction
/// `i`, and the four `up`s of a row are distinct and perpendicular to it.
pub proof fn law_orientation_table(fwd: Direction, up: Direction)
    ensures
        ups_of(fwd).len() == 4,
        ups_of(fwd).no_duplicates(),
        ups_of(fwd).contains(up) <==> fwd.perpendicular(up),
        all_directions().no_duplicates(),
        all_directions().contains(fwd),
{
    lemma_ups_len(fwd);
    reveal_with_fuel(Seq::<_>::filter, 7);
    let a = all_directions();
    assert(a.drop_last().drop_last().drop_last().drop_last().drop_last().drop_last() =~= Seq::<
        Direction,
    >::empty());
    match fwd {
        Direction::FORWARD => assert(a[0] == fwd),
        Direction::BACKWARD => assert(a[1] == fwd),
        Direction::UP => assert(a[2] == fwd),
        Direction::DOWN => assert(a[3] == fwd),
        Direction::LEFT => assert(a[4] == fwd),
        Direction::RIGHT => assert(a[5] == fwd),
    }
    match up {
        Direction::FORWARD => assert(a[0] == up),
        Direction::BACKWARD => assert(a[1] == up),
        Direction::UP => assert(a[2] == up),
        Direction::DOWN => assert(a[3] == up),
        Direction::LEFT => assert(a[4] == up),
        Direction::RIGHT => assert(a[5] == up),
    }
    let u = ups_of(fwd);
    if fwd.perpendicular(up) {
        let j: int = if u[0] == up {
            0
        } else if u[1] == up {
            1
        } else if u[2] == up {
            2
        } else {
            3
        };
        assert(u[j] == up);
    }
    if u.contains(up) {
        let j = choose|j: int| 0 <= j < u.len() && u[j] == up;
        assert(fwd.perpendicular(u[j]));
    }
}

} // verus!

verus! {

proof fn lemma_select_points_reference(mask: Seq<bool>, n: int)
    requires
        n <= 20,
    ensures
        forall|i: int| 0 <= i < crate::blocks::select_points(mask, n).len() ==> is_reference_point(
            #[trigger] crate::blocks::select_points(mask, n)[i],
        ),
        crate::blocks::select_points(mask, n).len() == crate::blocks::count_true(mask, n),
    decreases n,
{
    if n > 0 {
        lemma_select_points_reference(mask, n - 1);
        law_reference_points(points_seq()[n - 1]);
    }
}

/// Every orientation that `CubeBlock::new` records for a block covers as
/// many points as the block, all of them reference points, and its recorded
/// forward and up directions are perpendicular.
pub proof fn law_block_orientations(mask: Seq<bool>, k: int)
    requires
        0 <= k < 24,
    ensures
        crate::blocks::orientations_of(mask).len() == 24,
        crate::blocks::orientations_of(mask)[k].2.len() == crate::blocks::count_true(mask, 20),
        forall|i: int| 0 <= i < crate::blocks::orientations_of(mask)[k].2.len() ==> is_reference_point(
            #[trigger] crate::blocks::orientations_of(mask)[k].2[i],
        ),
        crate::blocks::orientations_of(mask)[k].0.perpendicular(crate::blocks::orientations_of(mask)[k].1),
{
    let o = crate::blocks::orientations_of(mask)[k];
    let fwd = all_directions()[k / 4];
    lemma_ups_len(fwd);
    let up = ups_of(fwd)[k % 4];
    let pts = crate::blocks::block_points(mask);
    lemma_select_points_reference(mask, 20);
    assert forall|i: int| 0 <= i < o.2.len() implies is_reference_point(#[trigger] o.2[i]) by {
        law_rotation_keeps_reference_points(fwd, up, pts[i]);
    }
    crate::geometry::lemma_opposite_vec(fwd);
    match fwd {
        Direction::FORWARD => {},
        Direction::BACKWARD => {},
        Direction::UP => {},
        Direction::DOWN => {},
        Direction::LEFT => {},
        Direction::RIGHT => {},
    }
}

/// Orientation search finds the first orientation whose points include all
/// of `pts`, whenever every orientation has as many points as `pts` (as for
/// every block built by `CubeBlock::new`): a result `Some(j)` names the
/// least such orientation, and `None` means that there is none.
pub proof fn law_first_match_least(
    os: Seq<(Direction, Direction, Seq<Vec3>)>,
    pts: Seq<Vec3>,
    j: int,
)
    requires
        0 <= j,
        pts.len() > 0,
        forall|k: int| 0 <= k < os.len() ==> (#[trigger] os[k]).2.len() == pts.len(),
    ensures
        match crate::blocks::first_match(os, pts, j) {
            Some(m) => j <= m < os.len() && (forall|i: int| 0 <= i < pts.len() ==> os[m].2.contains(pts[i]))
                && forall|k: int| j <= k < m ==> !(forall|i: int| 0 <= i < pts.len() ==> (#[trigger] os[k]).2.contains(pts[i])),
            None => forall|k: int| j <= k < os.len() ==> !(forall|i: int| 0 <= i < pts.len() ==> (#[trigger] os[k]).2.contains(pts[i])),
        },
    decreases os.len() - j,
{
    if j < os.len() {
        law_first_match_least(os, pts, j + 1);
    }
}

} // verus!

verus! {

proof fn lemma_filter_within(s: Seq<Vec3>, p: spec_fn(Vec3) -> bool)
    ensures
        forall|i: int| 0 <= i < s.filter(p).len() ==> s.contains(#[trigger] s.filter(p)[i]),
    decreases s.len(),
{
    reveal_with_fuel(Seq::<_>::filter, 1);
    if s.len() > 0 {
        let rest = s.drop_last();
        lemma_filter_within(rest, p);
        assert forall|i: int| 0 <= i < s.filter(p).len() implies s.contains(#[trigger] s.filter(p)[i]) by {
            if i < rest.filter(p).len() {
                let x = rest.filter(p)[i];
                assert(rest.contains(x));
                let w = choose|w: int| 0 <= w < rest.len() && rest[w] == x;
                assert(s[w] == x);
            } else {
                assert(s[s.len() - 1] == s.last());
            }
        }
    }
}

proof fn lemma_flatten_reference(ss: Seq<Seq<Vec3>>)
    requires
        forall|i: int, j: int| 0 <= i < ss.len() && 0 <= j < ss[i].len() ==> is_reference_point(#[trigger] ss[i][j]),
    ensures
        forall|k: int| 0 <= k < ss.flatten().len() ==> is_reference_point(#[trigger] ss.flatten()[k]),
    decreases ss.len(),
{
    if ss.len() > 0 {
        let rest = ss.drop_first();
        assert forall|i: int, j: int| 0 <= i < rest.len() && 0 <= j < rest[i].len() implies is_reference_point(
            #[trigger] rest[i][j],
        ) by {
            assert(rest[i] == ss[i + 1]);
        }
        lemma_flatten_reference(rest);
        assert forall|k: int| 0 <= k < ss.flatten().len() implies is_reference_point(#[trigger] ss.flatten()[k]) by {
            if k < ss[0].len() {
                assert(ss.flatten()[k] == ss[0][k]);
            } else {
                assert(ss.flatten()[k] == rest.flatten()[k - ss[0].len()]);
            }
        }
    }
}

proof fn lemma_dedup_onto_props(acc: Seq<Vec3>, s: Seq<Vec3>)
    requires
        acc.no_duplicates(),
    ensures
        crate::grid::dedup_onto(acc, s).no_duplicates(),
        forall|i: int| 0 <= i < crate::grid::dedup_onto(acc, s).len() ==> acc.contains(
            #[trigger] crate::grid::dedup_onto(acc, s)[i],
        ) || s.contains(crate::grid::dedup_onto(acc, s)[i]),
    decreases s.len(),
{
    if s.len() > 0 {
        let rest = s.drop_last();
        lemma_dedup_onto_props(acc, rest);
        let d = crate::grid::dedup_onto(acc, rest);
        let r = crate::grid::dedup_onto(acc, s);
        assert forall|i: int| 0 <= i < r.len() implies acc.contains(#[trigger] r[i]) || s.contains(r[i]) by {
            if i < d.len() {
                assert(r[i] == d[i]);
                if rest.contains(d[i]) {
                    let w = choose|w: int| 0 <= w < rest.len() && rest[w] == d[i];
                    assert(s[w] == d[i]);
                }
            } else {
                assert(r[i] == s.last());
                assert(s[s.len() - 1] == s.last());
            }
        }
    }
}

/// The hits that `fill_from_nearby_cubes` finds are distinct reference
/// points.
pub proof fn law_nearby_hits(g: crate::grid::GridView, pos: crate::grid::GridPos)
    ensures
        crate::grid::nearby_hits(g, pos).no_duplicates(),
        forall|i: int| 0 <= i < crate::grid::nearby_hits(g, pos).len() ==> is_reference_point(
            #[trigger] crate::grid::nearby_hits(g, pos)[i],
        ),
{
    let cells = Seq::new(
        27,
        |k: int| crate::grid::block_hits(crate::grid::neighbor_cell(g, pos, k), pos),
    );
    assert forall|k: int, j: int| 0 <= k < cells.len() && 0 <= j < cells[k].len() implies is_reference_point(
        #[trigger] cells[k][j],
    ) by {
        let nb = crate::grid::neighbor_cell(g, pos, k);
        match nb {
            Some(b) => {
                if b.pos != pos {
                    let vs = b.verts.map_values(|v: Vec3| crate::grid::vertex_hits(b.pos, v, pos));
                    assert forall|a: int, c: int| 0 <= a < vs.len() && 0 <= c < vs[a].len() implies is_reference_point(
                        #[trigger] vs[a][c],
                    ) by {
                        let v = b.verts[a];
                        let pred = |pt: Vec3| crate::grid::coincide(b.pos, v, pos, pt);
                        lemma_filter_within(points_seq(), pred);
                        assert(vs[a] == points_seq().filter(pred));
                        let w = choose|w: int| 0 <= w < points_seq().len() && points_seq()[w] == vs[a][c];
                        law_reference_points(vs[a][c]);
                    }
                    lemma_flatten_reference(vs);
                }
            },
            None => {},
        }
    }
    lemma_flatten_reference(cells);
    assert(Seq::<Vec3>::empty().no_duplicates());
    lemma_dedup_onto_props(Seq::empty(), cells.flatten());
    let h = crate::grid::nearby_hits(g, pos);
    assert forall|i: int| 0 <= i < h.len() implies is_reference_point(#[trigger] h[i]) by {
        let w = choose|w: int| 0 <= w < cells.flatten().len() && cells.flatten()[w] == h[i];
        assert(is_reference_point(cells.flatten()[w]));
    }
}

} // verus!

verus! {

use crate::assembly::{
    count_cells, count_plane, count_row, mesh_grid, overlay, smooth_cell, smooth_pass, smoothed,
};
use crate::blocks::CubeBlockView;
use crate::grid::{blocks_at_own_cells, covers, is_cube, same_shape, BlockView, GridView};

/// Every cell that the sampling step fills holds a block positioned at that
/// cell and not flagged as placed by smoothing.
pub proof fn law_mesh_grid_cells(
    blocks: Seq<CubeBlockView>,
    samples: Seq<Seq<Seq<Seq<bool>>>>,
    n: nat,
    large: bool,
)
    ensures
        is_cube(mesh_grid(blocks, samples, n, large), n),
        blocks_at_own_cells(mesh_grid(blocks, samples, n, large)),
        forall|x: int, y: int, z: int|
            0 <= x < n && 0 <= y < n && 0 <= z < n && (#[trigger] mesh_grid(blocks, samples, n, large)[x][y][z]) is Some
                ==> !mesh_grid(blocks, samples, n, large)[x][y][z]->0.optim,
{
}

/// A cell is protected from a smoothing pass when it holds a block and
/// either occupied cells are kept or its block was placed by smoothing.
pub open spec fn protected(cell: Option<BlockView>, replace: bool) -> bool {
    match cell {
        Some(e) => !replace || e.optim,
        None => false,
    }
}

proof fn lemma_pass_cells(g: GridView, b: CubeBlockView, n: nat, large: bool, replace: bool)
    requires
        covers(g, n),
    ensures
        is_cube(smooth_pass(g, b, n, large, replace), n),
        forall|x: int, y: int, z: int|
            0 <= x < n && 0 <= y < n && 0 <= z < n && (#[trigger] smooth_pass(g, b, n, large, replace)[x][y][z]) is Some
                ==> {
                let v = smooth_pass(g, b, n, large, replace)[x][y][z]->0;
                &&& v.pos == crate::assembly::grid_pos(x, y, z)
                &&& v.optim
                &&& !protected(g[x][y][z], replace)
            },
{
    assert forall|x: int, y: int, z: int|
        0 <= x < n && 0 <= y < n && 0 <= z < n && (#[trigger] smooth_pass(g, b, n, large, replace)[x][y][z]) is Some implies {
        let v = smooth_pass(g, b, n, large, replace)[x][y][z]->0;
        &&& v.pos == crate::assembly::grid_pos(x, y, z)
        &&& v.optim
        &&& !protected(g[x][y][z], replace)
    } by {
        assert(smooth_pass(g, b, n, large, replace)[x][y][z] == smooth_cell(g, b, x, y, z, large, replace));
    }
}

/// `(x, y, z)` is a cell of `g`.
pub open spec fn in_grid(g: GridView, x: int, y: int, z: int) -> bool {
    0 <= x < g.len() && 0 <= y < g[x].len() && 0 <= z < g[x][y].len()
}

/// Smoothing keeps the grid's shape, leaves every protected cell of the
/// smoothed range and every cell outside it as it was, and every cell it
/// changes ends up holding a block flagged as placed by smoothing and
/// positioned at that cell (so occupied cells stay occupied).
pub proof fn law_smoothing_cells(
    g: GridView,
    blocks: Seq<CubeBlockView>,
    n: nat,
    large: bool,
    replace: bool,
)
    requires
        covers(g, n),
    ensures
        same_shape(smoothed(g, blocks, n, large, replace).0, g),
        forall|x: int, y: int, z: int|
            0 <= x < n && 0 <= y < n && 0 <= z < n && protected(#[trigger] g[x][y][z], replace)
                ==> smoothed(g, blocks, n, large, replace).0[x][y][z] == g[x][y][z],
        forall|x: int, y: int, z: int|
            in_grid(g, x, y, z) && !(x < n && y < n && z < n)
                ==> (#[trigger] smoothed(g, blocks, n, large, replace).0[x][y][z]) == g[x][y][z],
        forall|x: int, y: int, z: int|
            in_grid(g, x, y, z) && (#[trigger] smoothed(g, blocks, n, large, replace).0[x][y][z]) != g[x][y][z] ==> {
                let c = smoothed(g, blocks, n, large, replace).0[x][y][z];
                &&& x < n && y < n && z < n
                &&& c is Some
                &&& c->0.optim
                &&& c->0.pos == crate::assembly::grid_pos(x, y, z)
            },
    decreases blocks.len(),
{
    if blocks.len() == 0 {
        assert(same_shape(g, g));
    } else {
        let rest = blocks.drop_last();
        law_smoothing_cells(g, rest, n, large, replace);
        let g1 = smoothed(g, rest, n, large, replace).0;
        crate::assembly::lemma_same_shape_covers(g1, g, n);
        let c = smooth_pass(g1, blocks.last(), n, large, replace);
        lemma_pass_cells(g1, blocks.last(), n, large, replace);
        crate::assembly::lemma_overlay_shape(g1, c);
        crate::assembly::lemma_same_shape_trans(overlay(g1, c), g1, g);
        let g2 = overlay(g1, c);
        assert(smoothed(g, blocks, n, large, replace).0 == g2);
        assert forall|x: int, y: int, z: int| in_grid(g, x, y, z) implies (#[trigger] g2[x][y][z]) == if x < n && y < n && z < n && c[x][y][z] is Some {
            c[x][y][z]
        } else {
            g1[x][y][z]
        } by {
            assert(g1[x].len() == g[x].len());
            assert(g1[x][y].len() == g[x][y].len());
            crate::assembly::lemma_overlay_cell(g1, c, x, y, z);
        }
        assert forall|x: int, y: int, z: int|
            0 <= x < n && 0 <= y < n && 0 <= z < n && protected(#[trigger] g[x][y][z], replace)
                implies g2[x][y][z] == g[x][y][z] by {
            assert(in_grid(g, x, y, z));
            assert(g1[x][y][z] == g[x][y][z]);
            if c[x][y][z] is Some {
                assert(!protected(g1[x][y][z], replace));
            }
        }
        assert forall|x: int, y: int, z: int|
            in_grid(g, x, y, z) && !(x < n && y < n && z < n) implies (#[trigger] g2[x][y][z]) == g[x][y][z] by {
            assert(g1[x][y][z] == g[x][y][z]);
        }
        assert forall|x: int, y: int, z: int|
            in_grid(g, x, y, z) && (#[trigger] g2[x][y][z]) != g[x][y][z] implies {
            let v = g2[x][y][z];
            &&& x < n && y < n && z < n
            &&& v is Some
            &&& v->0.optim
            &&& v->0.pos == crate::assembly::grid_pos(x, y, z)
        } by {
            if !(x < n && y < n && z < n && c[x][y][z] is Some) {
                assert(g2[x][y][z] == g1[x][y][z]);
                assert(g1[x][y][z] != g[x][y][z]);
            }
        }
    }
}

/// Blocks stay at their own cells through smoothing.
pub proof fn law_smoothing_own_cells(
    g: GridView,
    blocks: Seq<CubeBlockView>,
    n: nat,
    large: bool,
    replace: bool,
)
    requires
        covers(g, n),
        blocks_at_own_cells(g),
    ensures
        blocks_at_own_cells(smoothed(g, blocks, n, large, replace).0),
{
    law_smoothing_cells(g, blocks, n, large, replace);
    let r = smoothed(g, blocks, n, large, replace).0;
    assert forall|x: int, y: int, z: int|
        0 <= x < r.len() && 0 <= y < r[x].len() && 0 <= z < r[x][y].len() && (#[trigger] r[x][y][z]) is Some
            implies r[x][y][z]->0.pos == (crate::grid::GridPos { x: x as usize, y: y as usize, z: z as usize }) by {
        assert(in_grid(g, x, y, z));
    }
}

/// With no blocks, or an empty range, smoothing changes nothing and
/// places nothing.
pub proof fn law_smoothing_trivial(
    g: GridView,
    blocks: Seq<CubeBlockView>,
    n: nat,
    large: bool,
    replace: bool,
)
    requires
        blocks.len() == 0 || n == 0,
    ensures
        smoothed(g, blocks, n, large, replace) == (g, 0nat),
    decreases blocks.len(),
{
    if blocks.len() > 0 {
        law_smoothing_trivial(g, blocks.drop_last(), n, large, replace);
        let c = smooth_pass(g, blocks.last(), n, large, replace);
        assert(c =~= Seq::<Seq<Seq<Option<BlockView>>>>::empty());
        assert(overlay(g, c) =~= g);
        assert(count_cells(c) == 0);
    }
}

} // verus!

verus! {

use crate::blueprint::{grid_defs, plane_defs, row_defs};
use crate::catalog::{entries_with_count, sorted_by_count};
use crate::text::{decimal, digit_char};

proof fn lemma_row_defs_len(r: Seq<Option<BlockView>>)
    ensures
        row_defs(r).len() == count_row(r),
    decreases r.len(),
{
    if r.len() > 0 {
        lemma_row_defs_len(r.drop_last());
    }
}

proof fn lemma_plane_defs_len(p: Seq<Seq<Option<BlockView>>>)
    ensures
        plane_defs(p).len() == count_plane(p),
    decreases p.len(),
{
    if p.len() > 0 {
        lemma_plane_defs_len(p.drop_last());
        lemma_row_defs_len(p.last());
    }
}

/// The blueprint lists one entry per block of the grid.
pub proof fn law_defs_count(g: GridView)
    ensures
        grid_defs(g).len() == count_cells(g),
    decreases g.len(),
{
    if g.len() > 0 {
        law_defs_count(g.drop_last());
        lemma_plane_defs_len(g.last());
    }
}

proof fn lemma_filter_subset<A>(s: Seq<A>, p: spec_fn(A) -> bool)
    ensures
        forall|i: int| 0 <= i < s.filter(p).len() ==> s.contains(#[trigger] s.filter(p)[i]) && p(
            s.filter(p)[i],
        ),
    decreases s.len(),
{
    reveal_with_fuel(Seq::<_>::filter, 1);
    if s.len() > 0 {
        let rest = s.drop_last();
        lemma_filter_subset(rest, p);
        assert forall|i: int| 0 <= i < s.filter(p).len() implies s.contains(#[trigger] s.filter(p)[i]) && p(
            s.filter(p)[i],
        ) by {
            if i < rest.filter(p).len() {
                let x = rest.filter(p)[i];
                let w = choose|w: int| 0 <= w < rest.len() && rest[w] == x;
                assert(s[w] == x);
            } else {
                assert(s[s.len() - 1] == s.last());
            }
        }
    }
}

pub open spec fn entry_count(e: (Seq<bool>, Seq<char>, Seq<char>)) -> nat {
    crate::blocks::count_true(e.0, 20)
}

proof fn lemma_sorted_prefix(es: Seq<(Seq<bool>, Seq<char>, Seq<char>)>, m: int)
    requires
        0 <= m <= 21,
    ensures
        ({
            let s = crate::catalog::count_groups(es, m).flatten();
            &&& forall|i: int, j: int| 0 <= i < j < s.len() ==> entry_count(#[trigger] s[i]) >= entry_count(#[trigger] s[j])
            &&& forall|i: int| 0 <= i < s.len() ==> entry_count(#[trigger] s[i]) > 20 - m && es.contains(s[i])
        }),
    decreases m,
{
    if m == 0 {
        assert(crate::catalog::count_groups(es, 0) =~= Seq::<Seq<(Seq<bool>, Seq<char>, Seq<char>)>>::empty());
    } else {
        lemma_sorted_prefix(es, m - 1);
        let done = crate::catalog::count_groups(es, m - 1);
        let grp = entries_with_count(es, (20 - (m - 1)) as nat);
        assert(crate::catalog::count_groups(es, m) =~= done.push(grp));
        done.lemma_flatten_push(grp);
        let prev = done.flatten();
        let pred = |e: (Seq<bool>, Seq<char>, Seq<char>)| crate::blocks::count_true(e.0, 20) == (20 - (m
            - 1)) as nat;
        lemma_filter_subset(es, pred);
        assert(grp == es.filter(pred));
        let s = prev + grp;
        assert forall|i: int| 0 <= i < s.len() implies entry_count(#[trigger] s[i]) > 20 - m && es.contains(s[i]) by {
            if i >= prev.len() {
                assert(s[i] == grp[i - prev.len()]);
            }
        }
        assert forall|i: int, j: int| 0 <= i < j < s.len() implies entry_count(#[trigger] s[i]) >= entry_count(#[trigger] s[j]) by {
            if j >= prev.len() {
                assert(s[j] == grp[j - prev.len()]);
                if i >= prev.len() {
                    assert(s[i] == grp[i - prev.len()]);
                }
            }
        }
    }
}

/// The catalog order puts blocks with more points first, and is made of the
/// catalog's own entries, as many as there are.
pub proof fn law_sorted_by_count(es: Seq<(Seq<bool>, Seq<char>, Seq<char>)>)
    ensures
        sorted_by_count(es).len() == es.len(),
        forall|i: int, j: int|
            0 <= i < j < sorted_by_count(es).len() ==> entry_count(#[trigger] sorted_by_count(es)[i])
                >= entry_count(#[trigger] sorted_by_count(es)[j]),
        forall|i: int| 0 <= i < sorted_by_count(es).len() ==> es.contains(#[trigger] sorted_by_count(es)[i]),
{
    crate::catalog::lemma_sorted_len(es);
    lemma_sorted_prefix(es, 21);
    let s = crate::catalog::count_groups(es, 21).flatten();
    assert(sorted_by_count(es) == s);
    assert forall|i: int, j: int| 0 <= i < j < s.len() implies entry_count(#[trigger] s[i]) >= entry_count(
        #[trigger] s[j],
    ) by {}
    assert forall|i: int| 0 <= i < s.len() implies es.contains(#[trigger] s[i]) by {
        assert(entry_count(s[i]) > 20 - 21);
    }
}

/// The value of a string of decimal digits.
pub open spec fn digits_value(s: Seq<char>) -> int
    decreases s.len(),
{
    if s.len() == 0 {
        0
    } else {
        digits_value(s.drop_last()) * 10 + (s.last() as int - '0' as int)
    }
}

/// The decimal representation reads back as the number, and has no leading
/// zero.
pub proof fn law_decimal(n: nat)
    ensures
        digits_value(decimal(n)) == n,
        decimal(n).len() > 0,
        decimal(n)[0] == '0' ==> n == 0,
    decreases n,
{
    if n >= 10 {
        law_decimal(n / 10);
        let d = (n % 10) as nat;
        assert(decimal(n).drop_last() == decimal(n / 10));
        assert(digit_char(d) as int - '0' as int == d);
        assert(decimal(n)[0] == decimal(n / 10)[0]);
        assert(decimal(n).last() == digit_char(d));
        assert(n == (n / 10) * 10 + d);
        assert(digits_value(decimal(n)) == digits_value(decimal(n / 10)) * 10 + d);
    } else {
        assert(digit_char(n) as int - '0' as int == n);
        assert(decimal(n) == seq![digit_char(n)]);
        assert(decimal(n).drop_last() =~= Seq::<char>::empty());
        assert(decimal(n).last() == digit_char(n));
        assert(digits_value(Seq::<char>::empty()) == 0);
    }
}

} // verus!

verus! {

/// Orientation 4 of every block (facing backward with up up, the identity
/// rotation) keeps the block's own points in their own order, and is
/// recorded with forward `FORWARD` and up `UP`.
pub proof fn law_identity_orientation(mask: Seq<bool>)
    ensures
        crate::blocks::orientations_of(mask)[4] == (
            Direction::FORWARD,
            Direction::UP,
            crate::blocks::block_points(mask),
        ),
{
    lemma_ups_len(Direction::BACKWARD);
    reveal_with_fuel(Seq::<_>::filter, 7);
    assert(all_directions()[1] == Direction::BACKWARD);
    assert(ups_of(Direction::BACKWARD)[0] == Direction::UP);
    let r = rotation_towards(Direction::BACKWARD, Direction::UP);
    assert(r.x_axis == vec3(1, 0, 0));
    let pts = crate::blocks::block_points(mask);
    let o = crate::blocks::orientations_of(mask)[4];
    assert forall|i: int| 0 <= i < pts.len() implies r.rotate(#[trigger] pts[i]) == pts[i] by {
        let p = pts[i];
        assert(r.rotate(p) == p) by (nonlinear_arith)
            requires
                r.x_axis == vec3(1, 0, 0),
                r.y_axis == vec3(0, 1, 0),
                r.z_axis == vec3(0, 0, 1),
        ;
    }
    assert(o.2 =~= pts);
}

} // verus!

verus! {

pub open spec fn has_count(k: nat) -> spec_fn((Seq<bool>, Seq<char>, Seq<char>)) -> bool {
    |e: (Seq<bool>, Seq<char>, Seq<char>)| entry_count(e) == k
}

proof fn lemma_filter_filter<A>(s: Seq<A>, p: spec_fn(A) -> bool, q: spec_fn(A) -> bool)
    requires
        forall|a: A| #[trigger] p(a) ==> q(a),
    ensures
        s.filter(p).filter(q) == s.filter(p),
    decreases s.len(),
{
    reveal_with_fuel(Seq::<_>::filter, 1);
    if s.len() > 0 {
        lemma_filter_filter(s.drop_last(), p, q);
        let t = s.drop_last().filter(p);
        if p(s.last()) {
            assert(t.push(s.last()).drop_last() =~= t);
        }
    }
}

proof fn lemma_filter_none<A>(s: Seq<A>, p: spec_fn(A) -> bool, q: spec_fn(A) -> bool)
    requires
        forall|a: A| #[trigger] p(a) ==> !q(a),
    ensures
        s.filter(p).filter(q) == Seq::<A>::empty(),
    decreases s.len(),
{
    reveal_with_fuel(Seq::<_>::filter, 1);
    if s.len() > 0 {
        lemma_filter_none(s.drop_last(), p, q);
        let t = s.drop_last().filter(p);
        if p(s.last()) {
            assert(t.push(s.last()).drop_last() =~= t);
        }
    } else {
        assert(s.filter(p) =~= Seq::<A>::empty());
    }
}

proof fn lemma_groups_filter(es: Seq<(Seq<bool>, Seq<char>, Seq<char>)>, k: nat, m: int)
    requires
        0 <= m <= 21,
        k <= 20,
    ensures
        crate::catalog::count_groups(es, m).flatten().filter(has_count(k)) == if 20 - m < k {
            es.filter(has_count(k))
        } else {
            Seq::empty()
        },
    decreases m,
{
    broadcast use Seq::filter_distributes_over_add;

    let p = has_count(k);
    if m == 0 {
        assert(crate::catalog::count_groups(es, 0) =~= Seq::<Seq<(Seq<bool>, Seq<char>, Seq<char>)>>::empty());
        reveal_with_fuel(Seq::<_>::filter, 1);
    } else {
        lemma_groups_filter(es, k, m - 1);
        let done = crate::catalog::count_groups(es, m - 1);
        let c = (20 - (m - 1)) as nat;
        let grp = entries_with_count(es, c);
        assert(crate::catalog::count_groups(es, m) =~= done.push(grp));
        done.lemma_flatten_push(grp);
        let gp = |e: (Seq<bool>, Seq<char>, Seq<char>)| crate::blocks::count_true(e.0, 20) == c;
        assert(grp == es.filter(gp));
        if c == k {
            lemma_filter_filter(es, gp, p);
            assert(es.filter(gp) =~= es.filter(p)) by {
                assert(gp =~= p);
            }
            assert(Seq::<(Seq<bool>, Seq<char>, Seq<char>)>::empty() + es.filter(p) =~= es.filter(p));
        } else {
            lemma_filter_none(es, gp, p);
            if 20 - m < k {
                assert(es.filter(p) + Seq::<(Seq<bool>, Seq<char>, Seq<char>)>::empty() =~= es.filter(p));
            } else {
                assert(Seq::<(Seq<bool>, Seq<char>, Seq<char>)>::empty() + Seq::<
                    (Seq<bool>, Seq<char>, Seq<char>),
                >::empty() =~= Seq::<(Seq<bool>, Seq<char>, Seq<char>)>::empty());
            }
        }
    }
}

/// The catalog order is a stable sort by number of points: for every count,
/// the entries with that many points appear in the order they had, and
/// none is lost or added.
pub proof fn law_sort_stable(es: Seq<(Seq<bool>, Seq<char>, Seq<char>)>, k: nat)
    requires
        k <= 20,
    ensures
        sorted_by_count(es).filter(has_count(k)) == es.filter(has_count(k)),
{
    lemma_groups_filter(es, k, 21);
}

} // verus!

verus! {

use crate::assembly::{lemma_count_cells_step, lemma_count_plane_step, lemma_count_row_step};

pub open spec fn count_z(f: spec_fn(int, int, int) -> bool, x: int, y: int, m: int) -> nat
    decreases m,
{
    if m <= 0 {
        0
    } else {
        count_z(f, x, y, m - 1) + if f(x, y, m - 1) {
            1nat
        } else {
            0nat
        }
    }
}

pub open spec fn count_y(f: spec_fn(int, int, int) -> bool, x: int, n: int, m: int) -> nat
    decreases m,
{
    if m <= 0 {
        0
    } else {
        count_y(f, x, n, m - 1) + count_z(f, x, m - 1, n)
    }
}

pub open spec fn count_x(f: spec_fn(int, int, int) -> bool, n: int, m: int) -> nat
    decreases m,
{
    if m <= 0 {
        0
    } else {
        count_x(f, n, m - 1) + count_y(f, m - 1, n, n)
    }
}

/// The number of cells with all coordinates below `n` at which `f` holds.
pub open spec fn count_where(n: nat, f: spec_fn(int, int, int) -> bool) -> nat {
    count_x(f, n as int, n as int)
}

/// The cells at which grids `a` and `b` differ.
pub open spec fn changed_at(a: GridView, b: GridView) -> spec_fn(int, int, int) -> bool {
    |x: int, y: int, z: int| a[x][y][z] != b[x][y][z]
}

/// The cells of `c` that hold a block.
pub open spec fn filled_at(c: GridView) -> spec_fn(int, int, int) -> bool {
    |x: int, y: int, z: int| c[x][y][z] is Some
}

pub open spec fn ind(b: bool) -> int {
    if b {
        1
    } else {
        0
    }
}

/// `f` counts as `g` and `h` together at every cell below `n`.
pub open spec fn splits(
    f: spec_fn(int, int, int) -> bool,
    g: spec_fn(int, int, int) -> bool,
    h: spec_fn(int, int, int) -> bool,
    n: int,
) -> bool {
    forall|x: int, y: int, z: int|
        0 <= x < n && 0 <= y < n && 0 <= z < n ==> ind(#[trigger] f(x, y, z)) == ind(g(x, y, z)) + ind(h(x, y, z))
}

proof fn lemma_split_z(
    f: spec_fn(int, int, int) -> bool,
    g: spec_fn(int, int, int) -> bool,
    h: spec_fn(int, int, int) -> bool,
    n: int,
    x: int,
    y: int,
    m: int,
)
    requires
        splits(f, g, h, n),
        0 <= x < n,
        0 <= y < n,
        m <= n,
    ensures
        count_z(f, x, y, m) == count_z(g, x, y, m) + count_z(h, x, y, m),
    decreases m,
{
    if m > 0 {
        lemma_split_z(f, g, h, n, x, y, m - 1);
        assert(ind(f(x, y, m - 1)) == ind(g(x, y, m - 1)) + ind(h(x, y, m - 1)));
    }
}

proof fn lemma_split_y(
    f: spec_fn(int, int, int) -> bool,
    g: spec_fn(int, int, int) -> bool,
    h: spec_fn(int, int, int) -> bool,
    n: int,
    x: int,
    m: int,
)
    requires
        splits(f, g, h, n),
        0 <= x < n,
        m <= n,
    ensures
        count_y(f, x, n, m) == count_y(g, x, n, m) + count_y(h, x, n, m),
    decreases m,
{
    if m > 0 {
        lemma_split_y(f, g, h, n, x, m - 1);
        lemma_split_z(f, g, h, n, x, m - 1, n);
    }
}

proof fn lemma_split_x(
    f: spec_fn(int, int, int) -> bool,
    g: spec_fn(int, int, int) -> bool,
    h: spec_fn(int, int, int) -> bool,
    n: int,
    m: int,
)
    requires
        splits(f, g, h, n),
        m <= n,
    ensures
        count_x(f, n, m) == count_x(g, n, m) + count_x(h, n, m),
    decreases m,
{
    if m > 0 {
        lemma_split_x(f, g, h, n, m - 1);
        lemma_split_y(f, g, h, n, m - 1, n);
    }
}

proof fn lemma_none_z(x: int, y: int, m: int)
    ensures
        count_z(|x: int, y: int, z: int| false, x, y, m) == 0,
    decreases m,
{
    if m > 0 {
        lemma_none_z(x, y, m - 1);
    }
}

proof fn lemma_none_y(x: int, n: int, m: int)
    ensures
        count_y(|x: int, y: int, z: int| false, x, n, m) == 0,
    decreases m,
{
    if m > 0 {
        lemma_none_y(x, n, m - 1);
        lemma_none_z(x, m - 1, n);
    }
}

proof fn lemma_none_x(n: int, m: int)
    ensures
        count_x(|x: int, y: int, z: int| false, n, m) == 0,
    decreases m,
{
    if m > 0 {
        lemma_none_x(n, m - 1);
        lemma_none_y(m - 1, n, n);
    }
}

/// Counts agree for predicates that agree on every cell below `n`.
proof fn lemma_count_where_same(f: spec_fn(int, int, int) -> bool, g: spec_fn(int, int, int) -> bool, n: nat)
    requires
        forall|x: int, y: int, z: int| 0 <= x < n && 0 <= y < n && 0 <= z < n ==> #[trigger] f(x, y, z) == g(x, y, z),
    ensures
        count_where(n, f) == count_where(n, g),
{
    let none = |x: int, y: int, z: int| false;
    assert(splits(f, g, none, n as int));
    lemma_split_x(f, g, none, n as int, n as int);
    lemma_none_x(n as int, n as int);
}

proof fn lemma_filled_z(c: GridView, n: nat, x: int, y: int, m: int)
    requires
        is_cube(c, n),
        0 <= x < n,
        0 <= y < n,
        0 <= m <= n,
    ensures
        count_row(c[x][y].take(m)) == count_z(filled_at(c), x, y, m),
    decreases m,
{
    if m > 0 {
        lemma_filled_z(c, n, x, y, m - 1);
        lemma_count_row_step(c[x][y], m - 1);
    } else {
        assert(c[x][y].take(0) =~= Seq::<Option<BlockView>>::empty());
    }
}

proof fn lemma_filled_y(c: GridView, n: nat, x: int, m: int)
    requires
        is_cube(c, n),
        0 <= x < n,
        0 <= m <= n,
    ensures
        count_plane(c[x].take(m)) == count_y(filled_at(c), x, n as int, m),
    decreases m,
{
    if m > 0 {
        lemma_filled_y(c, n, x, m - 1);
        lemma_count_plane_step(c[x], m - 1);
        lemma_filled_z(c, n, x, m - 1, n as int);
        assert(c[x][m - 1].take(n as int) =~= c[x][m - 1]);
    } else {
        assert(c[x].take(0) =~= Seq::<Seq<Option<BlockView>>>::empty());
    }
}

proof fn lemma_filled_x(c: GridView, n: nat, m: int)
    requires
        is_cube(c, n),
        0 <= m <= n,
    ensures
        count_cells(c.take(m)) == count_x(filled_at(c), n as int, m),
    decreases m,
{
    if m > 0 {
        lemma_filled_x(c, n, m - 1);
        lemma_count_cells_step(c, m - 1);
        lemma_filled_y(c, n, m - 1, n as int);
        assert(c[m - 1].take(n as int) =~= c[m - 1]);
    } else {
        assert(c.take(0) =~= Seq::<Seq<Seq<Option<BlockView>>>>::empty());
    }
}

/// The number of filled cells of a cube grid of side `n`.
proof fn lemma_count_cells_where(c: GridView, n: nat)
    requires
        is_cube(c, n),
    ensures
        count_cells(c) == count_where(n, filled_at(c)),
{
    lemma_filled_x(c, n, n as int);
    assert(c.take(n as int) =~= c);
}

/// A smoothing pass changes exactly the cells into which it places a block.
proof fn lemma_pass_count(g: GridView, b: CubeBlockView, n: nat, large: bool, replace: bool)
    requires
        covers(g, n),
    ensures
        count_cells(smooth_pass(g, b, n, large, replace)) == count_where(
            n,
            changed_at(overlay(g, smooth_pass(g, b, n, large, replace)), g),
        ),
{
    let c = smooth_pass(g, b, n, large, replace);
    lemma_pass_cells(g, b, n, large, replace);
    lemma_count_cells_where(c, n);
    let o = overlay(g, c);
    assert forall|x: int, y: int, z: int| 0 <= x < n && 0 <= y < n && 0 <= z < n implies #[trigger] filled_at(
        c,
    )(x, y, z) == changed_at(o, g)(x, y, z) by {
        assert(g[x].len() >= n);
        assert(g[x][y].len() >= n);
        crate::assembly::lemma_overlay_cell(g, c, x, y, z);
    }
    lemma_count_where_same(filled_at(c), changed_at(o, g), n);
}

/// The number that smoothing returns is the number of cells it changes;
/// each cell changes at most once, since a block placed by smoothing is
/// protected from the later passes of the same call.
pub proof fn law_smoothing_count(
    g: GridView,
    blocks: Seq<CubeBlockView>,
    n: nat,
    large: bool,
    replace: bool,
)
    requires
        covers(g, n),
    ensures
        smoothed(g, blocks, n, large, replace).1 == count_where(
            n,
            changed_at(smoothed(g, blocks, n, large, replace).0, g),
        ),
    decreases blocks.len(),
{
    if blocks.len() == 0 {
        let none = |x: int, y: int, z: int| false;
        lemma_none_x(n as int, n as int);
        lemma_count_where_same(changed_at(g, g), none, n);
    } else {
        let rest = blocks.drop_last();
        law_smoothing_count(g, rest, n, large, replace);
        law_smoothing_cells(g, rest, n, large, replace);
        let g1 = smoothed(g, rest, n, large, replace).0;
        crate::assembly::lemma_same_shape_covers(g1, g, n);
        let c = smooth_pass(g1, blocks.last(), n, large, replace);
        lemma_pass_count(g1, blocks.last(), n, large, replace);
        lemma_pass_cells(g1, blocks.last(), n, large, replace);
        let g2 = overlay(g1, c);
        assert(smoothed(g, blocks, n, large, replace).0 == g2);
        assert(splits(changed_at(g2, g), changed_at(g1, g), changed_at(g2, g1), n as int)) by {
            assert forall|x: int, y: int, z: int| 0 <= x < n && 0 <= y < n && 0 <= z < n implies ind(
                #[trigger] changed_at(g2, g)(x, y, z),
            ) == ind(changed_at(g1, g)(x, y, z)) + ind(changed_at(g2, g1)(x, y, z)) by {
                assert(in_grid(g, x, y, z));
                assert(g1[x].len() == g[x].len());
                assert(g1[x][y].len() == g[x][y].len());
                crate::assembly::lemma_overlay_cell(g1, c, x, y, z);
                if g2[x][y][z] != g1[x][y][z] {
                    assert(!protected(g1[x][y][z], replace));
                    assert(g1[x][y][z] == g[x][y][z]);
                }
            }
        }
        lemma_split_x(changed_at(g2, g), changed_at(g1, g), changed_at(g2, g1), n as int, n as int);
    }
}

} // verus!

verus! {

use crate::assembly::first_fitting_block;

proof fn lemma_first_fitting_prefix(
    b1: Seq<CubeBlockView>,
    b2: Seq<CubeBlockView>,
    hits: Seq<Vec3>,
    i: int,
)
    requires
        0 <= i,
    ensures
        first_fitting_block(b1, hits, i) is Some ==> first_fitting_block(b1 + b2, hits, i)
            == first_fitting_block(b1, hits, i),
        first_fitting_block(b1 + b2, hits, i) is None ==> first_fitting_block(b1, hits, i) is None,
    decreases b1.len() - i,
{
    if i < b1.len() {
        assert((b1 + b2)[i] == b1[i]);
        lemma_first_fitting_prefix(b1, b2, hits, i + 1);
    }
}

/// Appending blocks to the catalog only fills cells that were empty: every
/// cell that the sampling step fills with the shorter catalog holds the same
/// block with the longer one, and a cell left empty with the longer catalog
/// is empty with the shorter one.
pub proof fn law_mesh_catalog_prefix(
    b1: Seq<CubeBlockView>,
    b2: Seq<CubeBlockView>,
    samples: Seq<Seq<Seq<Seq<bool>>>>,
    n: nat,
    large: bool,
)
    ensures
        forall|x: int, y: int, z: int|
            0 <= x < n && 0 <= y < n && 0 <= z < n && (#[trigger] mesh_grid(b1, samples, n, large)[x][y][z]) is Some
                ==> mesh_grid(b1 + b2, samples, n, large)[x][y][z] == mesh_grid(b1, samples, n, large)[x][y][z],
        forall|x: int, y: int, z: int|
            0 <= x < n && 0 <= y < n && 0 <= z < n && (#[trigger] mesh_grid(b1 + b2, samples, n, large)[x][y][z]) is None
                ==> mesh_grid(b1, samples, n, large)[x][y][z] is None,
{
    assert forall|x: int, y: int, z: int|
        0 <= x < n && 0 <= y < n && 0 <= z < n && (#[trigger] mesh_grid(b1, samples, n, large)[x][y][z]) is Some
            implies mesh_grid(b1 + b2, samples, n, large)[x][y][z] == mesh_grid(b1, samples, n, large)[x][y][z] by {
        let h = crate::blocks::block_points(samples[x][y][z]);
        lemma_first_fitting_prefix(b1, b2, h, 0);
        let (i, j) = first_fitting_block(b1, h, 0)->0;
        assert(0 <= i < b1.len()) by {
            lemma_first_fitting_range(b1, h, 0);
        }
        assert((b1 + b2)[i] == b1[i]);
    }
    assert forall|x: int, y: int, z: int|
        0 <= x < n && 0 <= y < n && 0 <= z < n && (#[trigger] mesh_grid(b1 + b2, samples, n, large)[x][y][z]) is None
            implies mesh_grid(b1, samples, n, large)[x][y][z] is None by {
        lemma_first_fitting_prefix(b1, b2, crate::blocks::block_points(samples[x][y][z]), 0);
    }
}

proof fn lemma_first_fitting_range(blocks: Seq<CubeBlockView>, hits: Seq<Vec3>, i: int)
    ensures
        first_fitting_block(blocks, hits, i) matches Some((k, _)) ==> i <= k < blocks.len(),
    decreases blocks.len() - i,
{
    if 0 <= i < blocks.len() {
        lemma_first_fitting_range(blocks, hits, i + 1);
    }
}

/// The hits of a cell depend only on the contents of its 27 neighbor cells.
pub proof fn law_nearby_hits_local(g1: GridView, g2: GridView, pos: crate::grid::GridPos)
    requires
        forall|k: int| 0 <= k < 27 ==> #[trigger] crate::grid::neighbor_cell(g1, pos, k)
            == crate::grid::neighbor_cell(g2, pos, k),
    ensures
        crate::grid::nearby_hits(g1, pos) == crate::grid::nearby_hits(g2, pos),
{
    let s1 = Seq::new(27, |k: int| crate::grid::block_hits(crate::grid::neighbor_cell(g1, pos, k), pos));
    let s2 = Seq::new(27, |k: int| crate::grid::block_hits(crate::grid::neighbor_cell(g2, pos, k), pos));
    assert(s1 =~= s2);
}

} // verus!

verus! {

use crate::blocks::{block_points, first_match, select_points};

/// What a match found by the orientation search means: the orientation lies
/// in range, has as many points as were searched for, and contains each of
/// them.
pub proof fn law_first_match_found(os: Seq<(Direction, Direction, Seq<Vec3>)>, pts: Seq<Vec3>, j: int)
    ensures
        first_match(os, pts, j) matches Some(m) ==> {
            &&& j <= m < os.len()
            &&& 0 <= m
            &&& pts.len() == os[m].2.len()
            &&& pts.len() > 0
            &&& forall|i: int| 0 <= i < pts.len() ==> os[m].2.contains(pts[i])
        },
    decreases os.len() - j,
{
    if 0 <= j < os.len() {
        law_first_match_found(os, pts, j + 1);
    }
}

/// Two sequences of the same length, the first without repeats and all its
/// elements in the second, hold the same elements.
pub proof fn lemma_same_elements(a: Seq<Vec3>, b: Seq<Vec3>)
    requires
        a.no_duplicates(),
        a.len() == b.len(),
        forall|i: int| 0 <= i < a.len() ==> b.contains(a[i]),
    ensures
        forall|i: int| 0 <= i < b.len() ==> a.contains(#[trigger] b[i]),
        a.to_set() == b.to_set(),
{
    let sa = a.to_set();
    let sb = b.to_set();
    a.unique_seq_to_set();
    b.lemma_cardinality_of_set();
    assert(sa.subset_of(sb)) by {
        assert forall|e: Vec3| sa.contains(e) implies sb.contains(e) by {
            let i = choose|i: int| 0 <= i < a.len() && a[i] == e;
            assert(b.contains(a[i]));
        }
    }
    vstd::seq_lib::seq_to_set_is_finite(b);
    vstd::seq_lib::seq_to_set_is_finite(a);
    vstd::set_lib::lemma_len_subset(sa, sb);
    vstd::set_lib::lemma_subset_equality(sa, sb);
    assert forall|i: int| 0 <= i < b.len() implies a.contains(#[trigger] b[i]) by {
        assert(sb.contains(b[i]));
    }
}

/// Where a reference point stands in the fixed order of the reference points.
spec fn point_index(v: Vec3) -> int {
    let c = (v.x + 1) * 9 + (v.y + 1) * 3 + (v.z + 1);
    if c == 6 { 0 } else if c == 15 { 1 } else if c == 24 { 2 } else if c == 7 { 3 }
    else if c == 25 { 4 } else if c == 8 { 5 } else if c == 17 { 6 } else if c == 26 { 7 }
    else if c == 3 { 8 } else if c == 21 { 9 } else if c == 5 { 10 } else if c == 23 { 11 }
    else if c == 0 { 12 } else if c == 9 { 13 } else if c == 18 { 14 } else if c == 1 { 15 }
    else if c == 19 { 16 } else if c == 2 { 17 } else if c == 11 { 18 } else if c == 20 { 19 }
    else { -1 }
}

proof fn lemma_point_index(i: int)
    requires
        0 <= i < 20,
    ensures
        point_index(points_seq()[i]) == i,
{
    assert(i == 0 || i == 1 || i == 2 || i == 3 || i == 4 || i == 5 || i == 6 || i == 7 || i == 8
        || i == 9 || i == 10 || i == 11 || i == 12 || i == 13 || i == 14 || i == 15 || i == 16
        || i == 17 || i == 18 || i == 19);
}

proof fn lemma_select_points_distinct(mask: Seq<bool>, n: int)
    requires
        n <= 20,
    ensures
        select_points(mask, n).no_duplicates(),
        forall|i: int|
            0 <= i < select_points(mask, n).len() ==> 0 <= point_index(
                #[trigger] select_points(mask, n)[i],
            ) < n && select_points(mask, n)[i] == points_seq()[point_index(select_points(mask, n)[i])],
    decreases n,
{
    if n > 0 {
        lemma_select_points_distinct(mask, n - 1);
        let prev = select_points(mask, n - 1);
        let ps = points_seq();
        if mask[n - 1] {
            lemma_point_index(n - 1);
            let cur = select_points(mask, n);
            assert(cur == prev.push(ps[n - 1]));
            assert forall|i: int| 0 <= i < cur.len() implies 0 <= point_index(#[trigger] cur[i]) < n
                && cur[i] == ps[point_index(cur[i])] by {
                if i < prev.len() {
                    assert(cur[i] == prev[i]);
                }
            }
            assert forall|i: int, j: int| 0 <= i < cur.len() && 0 <= j < cur.len() && i != j
                implies cur[i] != cur[j] by {
                if i < prev.len() && j < prev.len() {
                    assert(prev[i] != prev[j]);
                } else if i < prev.len() {
                    assert(point_index(prev[i]) < n - 1);
                } else if j < prev.len() {
                    assert(point_index(prev[j]) < n - 1);
                }
            }
        }
    }
}

/// The reference points a mask selects are distinct.
pub proof fn law_block_points_distinct(mask: Seq<bool>)
    ensures
        block_points(mask).no_duplicates(),
{
    lemma_select_points_distinct(mask, 20);
}

proof fn lemma_first_fitting_found(blocks: Seq<CubeBlockView>, hits: Seq<Vec3>, i: int)
    ensures
        first_fitting_block(blocks, hits, i) matches Some((k, j)) ==> i <= k < blocks.len() && 0 <= k
            && first_match(blocks[k].orientations, hits, 0) == Some(j),
    decreases blocks.len() - i,
{
    if 0 <= i < blocks.len() {
        lemma_first_fitting_found(blocks, hits, i + 1);
    }
}

/// The sampling step places a block only where one of its orientations
/// covers exactly the points the cell's sample marks: the placed points are
/// the marked points, as many of them, and the block is one of the catalog's
/// blocks in one of its orientations.
pub proof fn law_mesh_covers_exactly(
    blocks: Seq<CubeBlockView>,
    samples: Seq<Seq<Seq<Seq<bool>>>>,
    n: nat,
    large: bool,
    x: int,
    y: int,
    z: int,
)
    requires
        0 <= x < n && 0 <= y < n && 0 <= z < n,
        mesh_grid(blocks, samples, n, large)[x][y][z] is Some,
    ensures
        ({
            let v = mesh_grid(blocks, samples, n, large)[x][y][z]->0;
            let marked = block_points(samples[x][y][z]);
            &&& v.verts.len() == marked.len()
            &&& v.verts.to_set() == marked.to_set()
            &&& exists|i: int, j: int|
                0 <= i < blocks.len() && 0 <= j < blocks[i].orientations.len() && v.verts
                    == blocks[i].orientations[j].2
        }),
{
    let marked = block_points(samples[x][y][z]);
    lemma_first_fitting_found(blocks, marked, 0);
    let (i, j) = first_fitting_block(blocks, marked, 0)->0;
    law_first_match_found(blocks[i].orientations, marked, 0);
    law_block_points_distinct(samples[x][y][z]);
    lemma_same_elements(marked, blocks[i].orientations[j].2);
}

} // verus!

verus! {

use crate::assembly::{first_subset_match, grid_pos, placed};
use crate::blocks::count_true;
use crate::grid::{block_hits, nearby_candidates, nearby_hits, neighbor_cell};
use crate::subsets::combinations;

/// In either kind of pass an empty cell is treated the same way.
pub proof fn law_smooth_cell_empty_modes(
    g: GridView,
    b: CubeBlockView,
    x: int,
    y: int,
    z: int,
    large: bool,
)
    requires
        g[x][y][z] is None,
    ensures
        smooth_cell(g, b, x, y, z, large, true) == smooth_cell(g, b, x, y, z, large, false),
{
}

/// `g` with cell `(x, y, z)` emptied.
pub open spec fn cleared(g: GridView, x: int, y: int, z: int) -> GridView {
    g.update(x, g[x].update(y, g[x][y].update(z, None)))
}

/// A replacing pass decides a cell it may replace exactly as a fill pass
/// decides the same cell emptied: what the cell held before plays no part
/// beyond whether it is protected.
pub proof fn law_smooth_cell_replace_as_fill(
    g: GridView,
    b: CubeBlockView,
    x: int,
    y: int,
    z: int,
    large: bool,
)
    requires
        in_grid(g, x, y, z),
        x <= usize::MAX && y <= usize::MAX && z <= usize::MAX,
        !protected(g[x][y][z], true),
        g[x][y][z] matches Some(e) ==> e.pos == grid_pos(x, y, z),
    ensures
        smooth_cell(g, b, x, y, z, large, true) == smooth_cell(cleared(g, x, y, z), b, x, y, z, large, false),
{
    let pos = grid_pos(x, y, z);
    let g2 = cleared(g, x, y, z);
    assert(g2[x][y][z] is None);
    let s1 = Seq::new(27, |k: int| block_hits(neighbor_cell(g, pos, k), pos));
    let s2 = Seq::new(27, |k: int| block_hits(neighbor_cell(g2, pos, k), pos));
    assert forall|k: int| 0 <= k < 27 implies s1[k] == s2[k] by {
        if k == 13 {
            assert(neighbor_cell(g2, pos, k) is None);
        } else {
            let nx = pos.x + (k / 9 - 1);
            let ny = pos.y + ((k / 3) % 3 - 1);
            let nz = pos.z + (k % 3 - 1);
            assert(nx != x || ny != y || nz != z);
            assert(neighbor_cell(g, pos, k) == neighbor_cell(g2, pos, k));
        }
    }
    assert(s1 =~= s2);
    assert(nearby_candidates(g, pos) == nearby_candidates(g2, pos));
}

/// The points of `s`, in order, that `o` holds.
pub open spec fn kept_in(s: Seq<Vec3>, o: Seq<Vec3>) -> Seq<Vec3>
    decreases s.len(),
{
    if s.len() == 0 {
        Seq::empty()
    } else if o.contains(s[0]) {
        seq![s[0]] + kept_in(s.drop_first(), o)
    } else {
        kept_in(s.drop_first(), o)
    }
}

proof fn lemma_kept_in_combination(s: Seq<Vec3>, o: Seq<Vec3>)
    ensures
        kept_in(s, o).len() <= s.len(),
        combinations(s, kept_in(s, o).len()).contains(kept_in(s, o)),
    decreases s.len(),
{
    let kp = kept_in(s, o);
    if s.len() == 0 {
        assert(kp =~= Seq::<Vec3>::empty());
        assert(combinations(s, 0)[0] == kp);
    } else {
        let r = s.drop_first();
        lemma_kept_in_combination(r, o);
        let kr = kept_in(r, o);
        let cr = combinations(r, kr.len());
        let t = choose|t: int| 0 <= t < cr.len() && cr[t] == kr;
        if o.contains(s[0]) {
            let k = kr.len() + 1;
            let f = |c: Seq<Vec3>| seq![s[0]] + c;
            assert(combinations(s, k as nat) == cr.map_values(f) + combinations(r, k as nat));
            assert(combinations(s, k as nat)[t] == kp);
        } else if kr.len() == 0 {
            assert(kp =~= Seq::<Vec3>::empty());
            assert(combinations(s, 0)[0] == kp);
        } else {
            let k = kr.len();
            let f = |c: Seq<Vec3>| seq![s[0]] + c;
            let a = combinations(r, (k - 1) as nat).map_values(f);
            assert(combinations(s, k) == a + cr);
            assert(combinations(s, k)[a.len() + t] == kp);
        }
    }
}

proof fn lemma_kept_in_elements(s: Seq<Vec3>, o: Seq<Vec3>)
    ensures
        forall|i: int| 0 <= i < kept_in(s, o).len() ==> o.contains(#[trigger] kept_in(s, o)[i])
            && s.contains(kept_in(s, o)[i]),
        forall|e: Vec3| s.contains(e) && o.contains(e) ==> kept_in(s, o).contains(e),
        s.no_duplicates() ==> kept_in(s, o).no_duplicates(),
    decreases s.len(),
{
    let kp = kept_in(s, o);
    if s.len() > 0 {
        let r = s.drop_first();
        lemma_kept_in_elements(r, o);
        let kr = kept_in(r, o);
        assert forall|i: int| 0 <= i < kp.len() implies o.contains(#[trigger] kp[i]) && s.contains(kp[i]) by {
            if o.contains(s[0]) {
                if i > 0 {
                    assert(kp[i] == kr[i - 1]);
                    let w = choose|w: int| 0 <= w < r.len() && r[w] == kr[i - 1];
                    assert(s[w + 1] == kp[i]);
                } else {
                    assert(s[0] == kp[i]);
                }
            } else {
                let w = choose|w: int| 0 <= w < r.len() && r[w] == kr[i];
                assert(s[w + 1] == kp[i]);
            }
        }
        assert forall|e: Vec3| s.contains(e) && o.contains(e) implies kp.contains(e) by {
            let w = choose|w: int| 0 <= w < s.len() && s[w] == e;
            if w == 0 {
                assert(kp[0] == e);
            } else {
                assert(r[w - 1] == e);
                let v = choose|v: int| 0 <= v < kr.len() && kr[v] == e;
                if o.contains(s[0]) {
                    assert(kp[v + 1] == e);
                } else {
                    assert(kp[v] == e);
                }
            }
        }
        if s.no_duplicates() {
            assert(r.no_duplicates()) by {
                assert forall|i: int, j: int| 0 <= i < r.len() && 0 <= j < r.len() && i != j implies r[i] != r[j] by {
                    assert(s[i + 1] != s[j + 1]);
                }
            }
            if o.contains(s[0]) {
                assert(!kr.contains(s[0])) by {
                    if kr.contains(s[0]) {
                        let v = choose|v: int| 0 <= v < kr.len() && kr[v] == s[0];
                        assert(r.contains(kr[v]));
                        let w = choose|w: int| 0 <= w < r.len() && r[w] == s[0];
                        assert(s[w + 1] == s[0]);
                    }
                }
                assert forall|i: int, j: int| 0 <= i < kp.len() && 0 <= j < kp.len() && i != j implies kp[i] != kp[j] by {
                    if i > 0 && j > 0 {
                        assert(kp[i] == kr[i - 1] && kp[j] == kr[j - 1]);
                    } else if i == 0 {
                        assert(kp[j] == kr[j - 1]);
                    } else {
                        assert(kp[i] == kr[i - 1]);
                    }
                }
            }
        }
    }
}

proof fn lemma_first_subset_found(
    os: Seq<(Direction, Direction, Seq<Vec3>)>,
    subsets: Seq<Seq<Vec3>>,
    s: int,
    t: int,
)
    requires
        0 <= s <= t < subsets.len(),
        first_match(os, subsets[t], 0) is Some,
    ensures
        first_subset_match(os, subsets, s) is Some,
    decreases t - s,
{
    if s < t && first_match(os, subsets[s], 0) is None {
        lemma_first_subset_found(os, subsets, s + 1, t);
    }
}

/// An orientation found among the combinations is one of the block's
/// orientations.
pub proof fn law_first_subset_range(
    os: Seq<(Direction, Direction, Seq<Vec3>)>,
    subsets: Seq<Seq<Vec3>>,
    s: int,
)
    ensures
        first_subset_match(os, subsets, s) matches Some(j) ==> 0 <= j < os.len(),
    decreases subsets.len() - s,
{
    if 0 <= s < subsets.len() {
        law_first_match_found(os, subsets[s], 0);
        law_first_subset_range(os, subsets, s + 1);
    }
}

/// Whichever kind of pass it is, a cell that is not protected gets block `b`
/// as soon as the points that neighboring blocks hit include all points of
/// one of `b`'s orientations (exactly, or with other points besides, which
/// the combinations of hits then leave out); the block placed is `b` in one
/// of its orientations.
pub proof fn law_smooth_cell_places(
    g: GridView,
    b: CubeBlockView,
    x: int,
    y: int,
    z: int,
    large: bool,
    replace: bool,
    k0: int,
)
    requires
        !protected(g[x][y][z], replace),
        count_true(b.points, 20) > 0,
        forall|k: int| 0 <= k < b.orientations.len() ==> (#[trigger] b.orientations[k]).2.len() == count_true(b.points, 20),
        0 <= k0 < b.orientations.len(),
        b.orientations[k0].2.no_duplicates(),
        forall|i: int| 0 <= i < b.orientations[k0].2.len() ==> nearby_hits(g, grid_pos(x, y, z)).contains(
            #[trigger] b.orientations[k0].2[i],
        ),
    ensures
        smooth_cell(g, b, x, y, z, large, replace) matches Some(v) && exists|j: int|
            0 <= j < b.orientations.len() && v == placed(b, b.orientations[j], grid_pos(x, y, z), large, true),
{
    let pos = grid_pos(x, y, z);
    let hits = nearby_hits(g, pos);
    let os = b.orientations;
    let o = os[k0].2;
    let cnt = count_true(b.points, 20);
    law_nearby_hits(g, pos);
    lemma_kept_in_combination(hits, o);
    lemma_kept_in_elements(hits, o);
    let kp = kept_in(hits, o);
    assert(kp.to_set() =~= o.to_set()) by {
        assert forall|e: Vec3| kp.to_set().contains(e) <==> o.to_set().contains(e) by {
            if o.contains(e) {
                let i = choose|i: int| 0 <= i < o.len() && o[i] == e;
                assert(hits.contains(o[i]));
            }
            if kp.contains(e) {
                let i = choose|i: int| 0 <= i < kp.len() && kp[i] == e;
                assert(o.contains(kp[i]));
            }
        }
    }
    kp.unique_seq_to_set();
    o.unique_seq_to_set();
    assert(kp.len() == cnt);
    law_first_match_found(os, hits, 0);
    if first_match(os, hits, 0) is None {
        let subs = combinations(hits, cnt);
        let t = choose|t: int| 0 <= t < subs.len() && subs[t] == kp;
        law_first_match_least(os, kp, 0);
        assert(forall|i: int| 0 <= i < kp.len() ==> os[k0].2.contains(kp[i]));
        lemma_first_subset_found(os, subs, 0, t);
        law_first_subset_range(os, subs, 0);
    }
}

} // verus!

verus! {

use crate::catalog::standard_blocks_spec;
use crate::pipeline::converted_grid;

/// Every block in the range of `g` is one of the blocks of `all`, in one of
/// its orientations, placed at its own cell with the subtype for the grid
/// size `large`.
pub open spec fn well_placed(g: GridView, all: Seq<CubeBlockView>, n: nat, large: bool) -> bool {
    forall|x: int, y: int, z: int|
        0 <= x < n && 0 <= y < n && 0 <= z < n && (#[trigger] g[x][y][z]) is Some ==> exists|i: int, j: int|
            #![trigger all[i].orientations[j]]
            0 <= i < all.len() && 0 <= j < all[i].orientations.len() && g[x][y][z]->0 == placed(
                all[i],
                all[i].orientations[j],
                grid_pos(x, y, z),
                large,
                g[x][y][z]->0.optim,
            )
}

proof fn lemma_smooth_cell_placed(
    g: GridView,
    b: CubeBlockView,
    x: int,
    y: int,
    z: int,
    large: bool,
    replace: bool,
)
    ensures
        smooth_cell(g, b, x, y, z, large, replace) matches Some(v) ==> exists|j: int|
            0 <= j < b.orientations.len() && v == placed(b, b.orientations[j], grid_pos(x, y, z), large, true),
{
    let hits = nearby_hits(g, grid_pos(x, y, z));
    let cnt = count_true(b.points, 20);
    law_first_match_found(b.orientations, hits, 0);
    law_first_subset_range(b.orientations, combinations(hits, cnt), 0);
}

proof fn lemma_mesh_well_placed(
    blocks: Seq<CubeBlockView>,
    samples: Seq<Seq<Seq<Seq<bool>>>>,
    n: nat,
    large: bool,
)
    ensures
        well_placed(mesh_grid(blocks, samples, n, large), blocks, n, large),
{
    let g = mesh_grid(blocks, samples, n, large);
    assert forall|x: int, y: int, z: int|
        0 <= x < n && 0 <= y < n && 0 <= z < n && (#[trigger] g[x][y][z]) is Some implies exists|i: int, j: int|
            #![trigger blocks[i].orientations[j]]
            0 <= i < blocks.len() && 0 <= j < blocks[i].orientations.len() && g[x][y][z]->0 == placed(
                blocks[i],
                blocks[i].orientations[j],
                grid_pos(x, y, z),
                large,
                g[x][y][z]->0.optim,
            ) by {
        let marked = block_points(samples[x][y][z]);
        lemma_first_fitting_found(blocks, marked, 0);
        let (i, j) = first_fitting_block(blocks, marked, 0)->0;
        law_first_match_found(blocks[i].orientations, marked, 0);
        assert(blocks[i].orientations[j] == blocks[i].orientations[j]);
    }
}

proof fn lemma_smoothed_well_placed(
    g: GridView,
    blocks: Seq<CubeBlockView>,
    all: Seq<CubeBlockView>,
    n: nat,
    large: bool,
    replace: bool,
)
    requires
        covers(g, n),
        well_placed(g, all, n, large),
        forall|k: int| 0 <= k < blocks.len() ==> exists|i: int| 0 <= i < all.len() && all[i] == #[trigger] blocks[k],
    ensures
        well_placed(smoothed(g, blocks, n, large, replace).0, all, n, large),
    decreases blocks.len(),
{
    if blocks.len() > 0 {
        let rest = blocks.drop_last();
        assert forall|k: int| 0 <= k < rest.len() implies exists|i: int| 0 <= i < all.len() && all[i] == #[trigger] rest[k] by {
            assert(rest[k] == blocks[k]);
        }
        lemma_smoothed_well_placed(g, rest, all, n, large, replace);
        law_smoothing_cells(g, rest, n, large, replace);
        let g1 = smoothed(g, rest, n, large, replace).0;
        crate::assembly::lemma_same_shape_covers(g1, g, n);
        let b = blocks.last();
        assert(blocks[blocks.len() - 1] == b);
        let bi = choose|i: int| 0 <= i < all.len() && all[i] == b;
        let c = smooth_pass(g1, b, n, large, replace);
        let g2 = overlay(g1, c);
        assert(smoothed(g, blocks, n, large, replace).0 == g2);
        assert forall|x: int, y: int, z: int|
            0 <= x < n && 0 <= y < n && 0 <= z < n && (#[trigger] g2[x][y][z]) is Some implies exists|i: int, j: int|
                #![trigger all[i].orientations[j]]
                0 <= i < all.len() && 0 <= j < all[i].orientations.len() && g2[x][y][z]->0 == placed(
                    all[i],
                    all[i].orientations[j],
                    grid_pos(x, y, z),
                    large,
                    g2[x][y][z]->0.optim,
                ) by {
            crate::assembly::lemma_overlay_cell(g1, c, x, y, z);
            if c[x][y][z] is Some {
                assert(c[x][y][z] == smooth_cell(g1, b, x, y, z, large, replace));
                lemma_smooth_cell_placed(g1, b, x, y, z, large, replace);
                let j = choose|j: int|
                    0 <= j < b.orientations.len() && c[x][y][z]->0 == placed(
                        b,
                        b.orientations[j],
                        grid_pos(x, y, z),
                        large,
                        true,
                    );
                assert(all[bi].orientations[j] == b.orientations[j]);
            } else {
                assert(g2[x][y][z] == g1[x][y][z]);
                assert(g1[x][y][z] is Some);
            }
        }
    }
}

/// A conversion only ever places catalog blocks, each in one of its
/// orientations, at its own cell, and with the subtype of the requested grid
/// size: on a small grid every block is a small-grid block.
pub proof fn law_conversion_blocks(samples: Seq<Seq<Seq<Seq<bool>>>>, n: nat, large: bool)
    ensures
        well_placed(converted_grid(samples, n, large).0, standard_blocks_spec(), n, large),
{
    let blocks = standard_blocks_spec();
    let g0 = mesh_grid(blocks, samples, n, large);
    crate::pipeline::lemma_mesh_grid_cube(blocks, samples, n, large);
    lemma_mesh_well_placed(blocks, samples, n, large);
    assert forall|k: int| 0 <= k < blocks.len() implies exists|i: int| 0 <= i < blocks.len() && blocks[i] == #[trigger] blocks[k] by {}
    lemma_smoothed_well_placed(g0, blocks, blocks, n, large, false);
    let g1 = smoothed(g0, blocks, n, large, false).0;
    law_smoothing_cells(g0, blocks, n, large, false);
    crate::assembly::lemma_same_shape_covers(g1, g0, n);
    lemma_smoothed_well_placed(g1, blocks, blocks, n, large, true);
}

/// A conversion runs the sampling step, then a fill pass, then a replacing
/// pass, both passes on the requested grid size and over the whole catalog,
/// and reports what each pass placed.
pub proof fn law_conversion_passes(samples: Seq<Seq<Seq<Seq<bool>>>>, n: nat, large: bool)
    ensures
        ({
            let blocks = standard_blocks_spec();
            let g1 = smoothed(mesh_grid(blocks, samples, n, large), blocks, n, large, false);
            let g2 = smoothed(g1.0, blocks, n, large, true);
            converted_grid(samples, n, large) == (g2.0, g1.1, g2.1)
        }),
{
}

} // verus!

verus! {

use crate::blocks::orientations_of;

pub open spec fn dot3(a: Vec3, b: Vec3) -> int {
    a.x * b.x + a.y * b.y + a.z * b.z
}

proof fn lemma_direction_dot(d: Direction, e: Direction)
    by (nonlinear_arith)
    ensures
        dot3(d.vec(), e.vec()) == if d == e {
            1int
        } else if d == e.opposite_of() {
            -1int
        } else {
            0int
        },
        -1 <= d.vec().x <= 1 && -1 <= d.vec().y <= 1 && -1 <= d.vec().z <= 1,
{
    match d {
        Direction::FORWARD => {
            match e {
                Direction::FORWARD => {},
                Direction::BACKWARD => {},
                Direction::UP => {},
                Direction::DOWN => {},
                Direction::LEFT => {},
                Direction::RIGHT => {},
            }
        },
        Direction::BACKWARD => {
            match e {
                Direction::FORWARD => {},
                Direction::BACKWARD => {},
                Direction::UP => {},
                Direction::DOWN => {},
                Direction::LEFT => {},
                Direction::RIGHT => {},
            }
        },
        Direction::UP => {
            match e {
                Direction::FORWARD => {},
                Direction::BACKWARD => {},
                Direction::UP => {},
                Direction::DOWN => {},
                Direction::LEFT => {},
                Direction::RIGHT => {},
            }
        },
        Direction::DOWN => {
            match e {
                Direction::FORWARD => {},
                Direction::BACKWARD => {},
                Direction::UP => {},
                Direction::DOWN => {},
                Direction::LEFT => {},
                Direction::RIGHT => {},
            }
        },
        Direction::LEFT => {
            match e {
                Direction::FORWARD => {},
                Direction::BACKWARD => {},
                Direction::UP => {},
                Direction::DOWN => {},
                Direction::LEFT => {},
                Direction::RIGHT => {},
            }
        },
        Direction::RIGHT => {
            match e {
                Direction::FORWARD => {},
                Direction::BACKWARD => {},
                Direction::UP => {},
                Direction::DOWN => {},
                Direction::LEFT => {},
                Direction::RIGHT => {},
            }
        },
    }
}

proof fn lemma_rotation_frame(fwd: Direction, up: Direction)
    requires
        fwd.perpendicular(up),
    ensures
        ({
            let r = rotation_towards(fwd, up);
            let (a, b, c) = (r.x_axis, r.y_axis, r.z_axis);
            &&& dot3(a, a) == 1 && dot3(b, b) == 1 && dot3(c, c) == 1
            &&& dot3(a, b) == 0 && dot3(a, c) == 0 && dot3(b, c) == 0
            &&& -1 <= a.x <= 1 && -1 <= a.y <= 1 && -1 <= a.z <= 1
            &&& -1 <= b.x <= 1 && -1 <= b.y <= 1 && -1 <= b.z <= 1
            &&& -1 <= c.x <= 1 && -1 <= c.y <= 1 && -1 <= c.z <= 1
        }),
{
    let x = up.cross_of(fwd);
    lemma_direction_dot(x, x);
    lemma_direction_dot(up, up);
    lemma_direction_dot(fwd, fwd);
    lemma_direction_dot(x, up);
    lemma_direction_dot(x, fwd);
    lemma_direction_dot(up, fwd);
    assert(x != up && x != up.opposite_of() && x != fwd && x != fwd.opposite_of()) by {
        match fwd {
            Direction::FORWARD => {},
            Direction::BACKWARD => {},
            Direction::UP => {},
            Direction::DOWN => {},
            Direction::LEFT => {},
            Direction::RIGHT => {},
        }
    }
}

proof fn lemma_frame_coordinate(dx: int, dy: int, dz: int, a: Vec3, b: Vec3, c: Vec3)
    by (nonlinear_arith)
    requires
        dot3(a, a) == 1 && dot3(b, b) == 1 && dot3(c, c) == 1,
        dot3(a, b) == 0 && dot3(a, c) == 0 && dot3(b, c) == 0,
        dx * a.x + dy * b.x + dz * c.x == 0,
        dx * a.y + dy * b.y + dz * c.y == 0,
        dx * a.z + dy * b.z + dz * c.z == 0,
    ensures
        dx == 0 && dy == 0 && dz == 0,
{
    assert(dx * dot3(a, a) + dy * dot3(b, a) + dz * dot3(c, a) == a.x * (dx * a.x + dy * b.x + dz * c.x)
        + a.y * (dx * a.y + dy * b.y + dz * c.y) + a.z * (dx * a.z + dy * b.z + dz * c.z));
    assert(dx * dot3(a, b) + dy * dot3(b, b) + dz * dot3(c, b) == b.x * (dx * a.x + dy * b.x + dz * c.x)
        + b.y * (dx * a.y + dy * b.y + dz * c.y) + b.z * (dx * a.z + dy * b.z + dz * c.z));
    assert(dx * dot3(a, c) + dy * dot3(b, c) + dz * dot3(c, c) == c.x * (dx * a.x + dy * b.x + dz * c.x)
        + c.y * (dx * a.y + dy * b.y + dz * c.y) + c.z * (dx * a.z + dy * b.z + dz * c.z));
}

proof fn lemma_small_product(p: int, a: int)
    by (nonlinear_arith)
    requires
        -1 <= p <= 1,
        -1 <= a <= 1,
    ensures
        -1 <= p * a <= 1,
{
}

/// Each of the block rotations sends distinct reference points to distinct
/// points.
pub proof fn law_rotation_injective(fwd: Direction, up: Direction, p: Vec3, q: Vec3)
    requires
        fwd.perpendicular(up),
        is_reference_point(p),
        is_reference_point(q),
        rotation_towards(fwd, up).rotate(p) == rotation_towards(fwd, up).rotate(q),
    ensures
        p == q,
{
    let r = rotation_towards(fwd, up);
    let (a, b, c) = (r.x_axis, r.y_axis, r.z_axis);
    lemma_rotation_frame(fwd, up);
    lemma_small_product(p.x as int, a.x as int);
    lemma_small_product(p.y as int, b.x as int);
    lemma_small_product(p.z as int, c.x as int);
    lemma_small_product(p.x as int, a.y as int);
    lemma_small_product(p.y as int, b.y as int);
    lemma_small_product(p.z as int, c.y as int);
    lemma_small_product(p.x as int, a.z as int);
    lemma_small_product(p.y as int, b.z as int);
    lemma_small_product(p.z as int, c.z as int);
    lemma_small_product(q.x as int, a.x as int);
    lemma_small_product(q.y as int, b.x as int);
    lemma_small_product(q.z as int, c.x as int);
    lemma_small_product(q.x as int, a.y as int);
    lemma_small_product(q.y as int, b.y as int);
    lemma_small_product(q.z as int, c.y as int);
    lemma_small_product(q.x as int, a.z as int);
    lemma_small_product(q.y as int, b.z as int);
    lemma_small_product(q.z as int, c.z as int);
    let (dx, dy, dz) = (p.x - q.x, p.y - q.y, p.z - q.z);
    assert(dx * a.x + dy * b.x + dz * c.x == (p.x * a.x + p.y * b.x + p.z * c.x) - (q.x * a.x + q.y * b.x
        + q.z * c.x)) by (nonlinear_arith)
        requires
            dx == p.x - q.x,
            dy == p.y - q.y,
            dz == p.z - q.z,
    ;
    assert(dx * a.y + dy * b.y + dz * c.y == (p.x * a.y + p.y * b.y + p.z * c.y) - (q.x * a.y + q.y * b.y
        + q.z * c.y)) by (nonlinear_arith)
        requires
            dx == p.x - q.x,
            dy == p.y - q.y,
            dz == p.z - q.z,
    ;
    assert(dx * a.z + dy * b.z + dz * c.z == (p.x * a.z + p.y * b.z + p.z * c.z) - (q.x * a.z + q.y * b.z
        + q.z * c.z)) by (nonlinear_arith)
        requires
            dx == p.x - q.x,
            dy == p.y - q.y,
            dz == p.z - q.z,
    ;
    lemma_frame_coordinate(dx, dy, dz, a, b, c);
}

/// Every orientation of a block holds each of its points once: it has as
/// many points as the block's mask marks, and no point twice.
pub proof fn law_orientation_points_distinct(mask: Seq<bool>, k: int)
    requires
        0 <= k < 24,
    ensures
        orientations_of(mask)[k].2.len() == count_true(mask, 20),
        orientations_of(mask)[k].2.no_duplicates(),
{
    law_block_orientations(mask, k);
    let fwd = all_directions()[k / 4];
    lemma_ups_len(fwd);
    let up = ups_of(fwd)[k % 4];
    law_orientation_table(fwd, up);
    assert(ups_of(fwd).contains(up));
    let rot = rotation_towards(fwd, up);
    let pts = block_points(mask);
    law_block_points_distinct(mask);
    lemma_select_points_reference(mask, 20);
    let o = orientations_of(mask)[k].2;
    assert(o == pts.map_values(|p: Vec3| rot.rotate(p)));
    assert forall|i: int, j: int| 0 <= i < o.len() && 0 <= j < o.len() && i != j implies o[i] != o[j] by {
        if o[i] == o[j] {
            law_rotation_injective(fwd, up, pts[i], pts[j]);
        }
    }
}

/// For an armor block built from its point mask (as every catalog block is):
/// a cell that is not protected gets the block, in one of its orientations,
/// as soon as the points that neighboring blocks hit include all points of
/// one of its orientations, whichever kind of pass it is.
pub proof fn law_smooth_cube_block_places(
    g: GridView,
    mask: Seq<bool>,
    large_subtype: Seq<char>,
    small_subtype: Seq<char>,
    x: int,
    y: int,
    z: int,
    large: bool,
    replace: bool,
    k0: int,
)
    requires
        !protected(g[x][y][z], replace),
        count_true(mask, 20) > 0,
        0 <= k0 < 24,
        forall|i: int| 0 <= i < orientations_of(mask)[k0].2.len() ==> nearby_hits(g, grid_pos(x, y, z)).contains(
            #[trigger] orientations_of(mask)[k0].2[i],
        ),
    ensures
        ({
            let b = crate::blocks::cube_block_spec(mask, large_subtype, small_subtype);
            smooth_cell(g, b, x, y, z, large, replace) matches Some(v) && exists|j: int|
                0 <= j < 24 && v == placed(b, b.orientations[j], grid_pos(x, y, z), large, true)
        }),
{
    let b = crate::blocks::cube_block_spec(mask, large_subtype, small_subtype);
    law_block_orientations(mask, k0);
    assert forall|k: int| 0 <= k < b.orientations.len() implies (#[trigger] b.orientations[k]).2.len() == count_true(b.points, 20) by {
        law_orientation_points_distinct(mask, k);
    }
    law_orientation_points_distinct(mask, k0);
    law_smooth_cell_places(g, b, x, y, z, large, replace, k0);
}

} // verus!
