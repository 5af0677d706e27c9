use vstd::prelude::*;

use crate::blocks::{block_points, count_true, first_match, CubeBlock, CubeBlockView};
use crate::geometry::{points_seq, reference_points, Direction, Vec3};
use crate::grid::{
    cell_view, covers, fill_from_nearby_cubes, grid_view, is_cube, same_shape, nearby_hits, plane_view,
    row_view, BlockView, Grid, GridPos, GridView, OrientedBlock,
};
use crate::subsets::{combinations, k_combinations};
use crate::text::{block_def_spec, format_block_def};

verus! {

pub open spec fn blocks_view<'a>(v: Seq<CubeBlock<'a>>) -> Seq<CubeBlockView> {
    v.map_values(|b: CubeBlock<'a>| b@)
}

pub open spec fn grid_pos(x: int, y: int, z: int) -> GridPos {
    GridPos { x: x as usize, y: y as usize, z: z as usize }
}

/// The subtype name a block uses on a large or a small grid.
pub open spec fn subtype_of(b: CubeBlockView, large: bool) -> Seq<char> {
    if large {
        b.large_subtype
    } else {
        b.small_subtype
    }
}

/// Block `b` placed at `pos` in orientation `o`.
pub open spec fn placed(
    b: CubeBlockView,
    o: (Direction, Direction, Seq<Vec3>),
    pos: GridPos,
    large: bool,
    optim: bool,
) -> BlockView {
    BlockView {
        pos,
        verts: o.2,
        xml: block_def_spec(subtype_of(b, large), pos.x as nat, pos.y as nat, pos.z as nat, o.0, o.1),
        optim,
    }
}

/// The first block, from index `i` on, with an orientation that `hits`
/// matches, and that orientation's index.
pub open spec fn first_fitting_block(blocks: Seq<CubeBlockView>, hits: Seq<Vec3>, i: int) -> Option<(int, int)>
    decreases blocks.len() - i,
{
    if i < 0 || i >= blocks.len() {
        None
    } else {
        match first_match(blocks[i].orientations, hits, 0) {
            Some(j) => Some((i, j)),
            None => first_fitting_block(blocks, hits, i + 1),
        }
    }
}

/// The block placed at `pos` for the reference points `hits`: the first
/// block in `blocks` that has a matching orientation, in that orientation.
pub open spec fn block_for_hits(
    blocks: Seq<CubeBlockView>,
    hits: Seq<Vec3>,
    pos: GridPos,
    large: bool,
    optim: bool,
) -> Option<BlockView> {
    match first_fitting_block(blocks, hits, 0) {
        Some((i, j)) => Some(placed(blocks[i], blocks[i].orientations[j], pos, large, optim)),
        None => None,
    }
}

pub open spec fn samples_view(s: &Vec<Vec<Vec<[bool; 20]>>>) -> Seq<Seq<Seq<Seq<bool>>>> {
    s@.map_values(
        |p: Vec<Vec<[bool; 20]>>|
            p@.map_values(|r: Vec<[bool; 20]>| r@.map_values(|m: [bool; 20]| m@)),
    )
}

/// The samples cover `n` cells along each axis.
pub open spec fn samples_cover(s: Seq<Seq<Seq<Seq<bool>>>>, n: nat) -> bool {
    &&& s.len() == n
    &&& forall|x: int| 0 <= x < n ==> (#[trigger] s[x]).len() == n
    &&& forall|x: int, y: int| 0 <= x < n && 0 <= y < n ==> (#[trigger] s[x][y]).len() == n
}

/// The grid built from the samples: each cell holds the first block that
/// fits the reference points its sample marks, not flagged as smoothed.
pub open spec fn mesh_grid(
    blocks: Seq<CubeBlockView>,
    samples: Seq<Seq<Seq<Seq<bool>>>>,
    n: nat,
    large: bool,
) -> GridView {
    Seq::new(
        n,
        |x: int|
            Seq::new(
                n,
                |y: int|
                    Seq::new(
                        n,
                        |z: int|
                            block_for_hits(
                                blocks,
                                block_points(samples[x][y][z]),
                                grid_pos(x, y, z),
                                large,
                                false,
                            ),
                    ),
            ),
    )
}

/// Places `block` at `pos` in the orientation `o` that `get_orientation`
/// returned.
fn place<'a>(
    block: &'a CubeBlock<'a>,
    o: (Direction, Direction, &'a Vec<Vec3>),
    pos: GridPos,
    large_grid: bool,
    optim: bool,
) -> (r: OrientedBlock<'a>)
    ensures
        r@ == placed(block@, (o.0, o.1, o.2@), pos, large_grid, optim),
{
    let subtype = if large_grid {
        block.LGSubtype
    } else {
        block.SGSubtype
    };
    let xml = format_block_def(subtype, pos.x, pos.y, pos.z, o.0, o.1);
    OrientedBlock::new(pos, o.2, xml, optim)
}

/// The first block of `avail_blocks` with an orientation matching `hits`,
/// placed at `pos` in that orientation.
pub fn choose_block<'a>(
    avail_blocks: &'a Vec<CubeBlock<'a>>,
    hits: &Vec<Vec3>,
    pos: GridPos,
    large_grid: bool,
    optim: bool,
) -> (r: Option<OrientedBlock<'a>>)
    ensures
        cell_view(r) == block_for_hits(blocks_view(avail_blocks@), hits@, pos, large_grid, optim),
{
    let ghost bs = blocks_view(avail_blocks@);
    for i in 0..avail_blocks.len()
        invariant
            bs == blocks_view(avail_blocks@),
            first_fitting_block(bs, hits@, 0) == first_fitting_block(bs, hits@, i as int),
    {
        let block = &avail_blocks[i];
        proof {
            assert(bs[i as int] == block@);
        }
        match block.get_orientation(hits) {
            Some(o) => {
                return Some(place(block, o, pos, large_grid, optim));
            },
            None => {},
        }
    }
    None
}

/// Builds the block grid from per-cell samples: `samples[x][y][z][i]` tells
/// whether reference point `i` of cell `(x, y, z)` lies close to the model.
/// Each cell gets the first block of `avail_blocks` with an orientation that
/// covers exactly the marked points.
pub fn mesh_to_blocks<'a>(
    blocksize: usize,
    large_grid: bool,
    samples: &Vec<Vec<Vec<[bool; 20]>>>,
    avail_blocks: &'a Vec<CubeBlock<'a>>,
) -> (grid: Grid<'a>)
    requires
        samples_cover(samples_view(samples), blocksize as nat),
    ensures
        grid_view(&grid) == mesh_grid(
            blocks_view(avail_blocks@),
            samples_view(samples),
            blocksize as nat,
            large_grid,
        ),
{
    let ghost n = blocksize as nat;
    let ghost sv = samples_view(samples);
    let ghost target = mesh_grid(blocks_view(avail_blocks@), sv, n, large_grid);
    let pts = reference_points();
    let mut grid: Grid<'a> = Vec::new();
    for x in 0..blocksize
        invariant
            n == blocksize,
            sv == samples_view(samples),
            samples_cover(sv, n),
            pts@ == points_seq(),
            target == mesh_grid(blocks_view(avail_blocks@), sv, n, large_grid),
            grid@.len() == x,
            forall|i: int| 0 <= i < x ==> plane_view(#[trigger] grid@[i]) == target[i],
    {
        let mut plane: Vec<Vec<Option<OrientedBlock<'a>>>> = Vec::new();
        for y in 0..blocksize
            invariant
                n == blocksize,
                0 <= x < n,
                sv == samples_view(samples),
                samples_cover(sv, n),
                pts@ == points_seq(),
                target == mesh_grid(blocks_view(avail_blocks@), sv, n, large_grid),
                plane@.len() == y,
                forall|i: int| 0 <= i < y ==> row_view(#[trigger] plane@[i]) == target[x as int][i],
        {
            let mut row: Vec<Option<OrientedBlock<'a>>> = Vec::new();
            for z in 0..blocksize
                invariant
                    n == blocksize,
                    0 <= x < n,
                    0 <= y < n,
                    sv == samples_view(samples),
                    samples_cover(sv, n),
                    pts@ == points_seq(),
                    target == mesh_grid(blocks_view(avail_blocks@), sv, n, large_grid),
                    row@.len() == z,
                    forall|i: int| 0 <= i < z ==> cell_view(#[trigger] row@[i]) == target[x as int][y as int][i],
            {
                proof {
                    assert(sv[x as int].len() == samples@[x as int]@.len());
                    assert(sv[x as int][y as int].len() == samples@[x as int]@[y as int]@.len());
                }
                let mask = samples[x][y][z];
                proof {
                    assert(sv[x as int][y as int][z as int] == mask@);
                }
                let mut hits: Vec<Vec3> = Vec::new();
                for i in 0..20
                    invariant
                        pts@ == points_seq(),
                        hits@ == crate::blocks::select_points(mask@, i as int),
                {
                    if mask[i] {
                        hits.push(pts[i]);
                    }
                }
                let cell = choose_block(avail_blocks, &hits, GridPos { x, y, z }, large_grid, false);
                row.push(cell);
            }
            proof {
                assert(row_view(row) =~= target[x as int][y as int]);
            }
            plane.push(row);
        }
        proof {
            assert(plane_view(plane) =~= target[x as int]);
        }
        grid.push(plane);
    }
    proof {
        assert(grid_view(&grid) =~= target);
    }
    grid
}

} // verus!

verus! {

/// The orientation index of the first sub-sequence in `subsets`, from index
/// `s` on, that matches an orientation in `os`.
pub open spec fn first_subset_match(
    os: Seq<(Direction, Direction, Seq<Vec3>)>,
    subsets: Seq<Seq<Vec3>>,
    s: int,
) -> Option<int>
    decreases subsets.len() - s,
{
    if s < 0 || s >= subsets.len() {
        None
    } else {
        match first_match(os, subsets[s], 0) {
            Some(j) => Some(j),
            None => first_subset_match(os, subsets, s + 1),
        }
    }
}

/// What a smoothing pass with block `b` puts into cell `(x, y, z)` of `g`:
/// nothing when the cell is occupied and either occupied cells are kept or
/// its block came from smoothing; otherwise, with the reference points that
/// neighboring blocks hit, the first orientation of `b` that they match, or
/// failing that the first that one of their `count`-element combinations
/// matches (`count` being the number of points of `b`), if any.
pub open spec fn smooth_cell(
    g: GridView,
    b: CubeBlockView,
    x: int,
    y: int,
    z: int,
    large: bool,
    replace: bool,
) -> Option<BlockView> {
    let pos = grid_pos(x, y, z);
    let kept = match g[x][y][z] {
        Some(e) => !replace || e.optim,
        None => false,
    };
    let hits = nearby_hits(g, pos);
    let count = count_true(b.points, 20);
    if kept || hits.len() < count {
        None
    } else {
        match first_match(b.orientations, hits, 0) {
            Some(j) => Some(placed(b, b.orientations[j], pos, large, true)),
            None => match first_subset_match(b.orientations, combinations(hits, count), 0) {
                Some(j) => Some(placed(b, b.orientations[j], pos, large, true)),
                None => None,
            },
        }
    }
}

/// The blocks one smoothing pass with `b` places, cell by cell.
pub open spec fn smooth_pass(g: GridView, b: CubeBlockView, n: nat, large: bool, replace: bool) -> GridView {
    Seq::new(
        n,
        |x: int|
            Seq::new(
                n,
                |y: int| Seq::new(n, |z: int| smooth_cell(g, b, x, y, z, large, replace)),
            ),
    )
}

/// `r` with every cell that `c` fills replaced by `c`'s block (`c` may be
/// shorter than `r`).
pub open spec fn overlay_row(r: Seq<Option<BlockView>>, c: Seq<Option<BlockView>>) -> Seq<Option<BlockView>> {
    Seq::new(r.len(), |z: int| if z < c.len() && c[z] is Some { c[z] } else { r[z] })
}

pub open spec fn overlay_plane(
    p: Seq<Seq<Option<BlockView>>>,
    c: Seq<Seq<Option<BlockView>>>,
) -> Seq<Seq<Option<BlockView>>> {
    Seq::new(p.len(), |y: int| if y < c.len() { overlay_row(p[y], c[y]) } else { p[y] })
}

/// `g` with every cell that `c` fills replaced by `c`'s block; cells beyond
/// `c`'s extent keep their content.
pub open spec fn overlay(g: GridView, c: GridView) -> GridView {
    Seq::new(g.len(), |x: int| if x < c.len() { overlay_plane(g[x], c[x]) } else { g[x] })
}

pub open spec fn count_row(r: Seq<Option<BlockView>>) -> nat
    decreases r.len(),
{
    if r.len() == 0 {
        0
    } else {
        count_row(r.drop_last()) + if r.last() is Some {
            1nat
        } else {
            0nat
        }
    }
}

pub open spec fn count_plane(p: Seq<Seq<Option<BlockView>>>) -> nat
    decreases p.len(),
{
    if p.len() == 0 {
        0
    } else {
        count_plane(p.drop_last()) + count_row(p.last())
    }
}

/// The number of filled cells.
pub open spec fn count_cells(g: GridView) -> nat
    decreases g.len(),
{
    if g.len() == 0 {
        0
    } else {
        count_cells(g.drop_last()) + count_plane(g.last())
    }
}

/// The grid after smoothing passes with each block of `blocks` in turn, and
/// the number of blocks those passes placed.
pub open spec fn smoothed(
    g: GridView,
    blocks: Seq<CubeBlockView>,
    n: nat,
    large: bool,
    replace: bool,
) -> (GridView, nat)
    decreases blocks.len(),
{
    if blocks.len() == 0 {
        (g, 0)
    } else {
        let (g1, c1) = smoothed(g, blocks.drop_last(), n, large, replace);
        let c = smooth_pass(g1, blocks.last(), n, large, replace);
        (overlay(g1, c), c1 + count_cells(c))
    }
}

/// What a smoothing pass with `block` puts into the cell `pos`.
fn smooth_one_cell<'a>(
    grid: &Grid<'a>,
    block: &'a CubeBlock<'a>,
    hit_count: usize,
    pos: GridPos,
    large_grid: bool,
    replace_existing: bool,
    Ghost(n): Ghost<nat>,
) -> (r: Option<OrientedBlock<'a>>)
    requires
        covers(grid_view(grid), n),
        pos.x < n && pos.y < n && pos.z < n,
        hit_count == count_true(block@.points, 20),
    ensures
        cell_view(r) == smooth_cell(
            grid_view(grid),
            block@,
            pos.x as int,
            pos.y as int,
            pos.z as int,
            large_grid,
            replace_existing,
        ),
{
    let ghost g = grid_view(grid);
    proof {
        assert(g[pos.x as int].len() == grid@[pos.x as int]@.len());
        assert(g[pos.x as int][pos.y as int].len() == grid@[pos.x as int]@[pos.y as int]@.len());
        assert(g[pos.x as int][pos.y as int][pos.z as int] == cell_view(
            grid@[pos.x as int]@[pos.y as int]@[pos.z as int],
        ));
        assert(pos == grid_pos(pos.x as int, pos.y as int, pos.z as int));
    }
    match &grid[pos.x][pos.y][pos.z] {
        Some(b) => {
            if !replace_existing || b.Optim {
                return None;
            }
        },
        None => {},
    }
    let hits = fill_from_nearby_cubes(&pos, grid);
    if hits.len() < hit_count {
        return None;
    }
    match block.get_orientation(&hits) {
        Some(o) => {
            return Some(place(block, o, pos, large_grid, true));
        },
        None => {},
    }
    let subsets = k_combinations(&hits, hit_count);
    let ghost subs = combinations(hits@, hit_count as nat);
    proof {
        assert(subsets@.len() == subs.len());
    }
    let ghost kept = match g[pos.x as int][pos.y as int][pos.z as int] {
        Some(e) => !replace_existing || e.optim,
        None => false,
    };
    for s in 0..subsets.len()
        invariant
            g == grid_view(grid),
            !kept,
            kept == match g[pos.x as int][pos.y as int][pos.z as int] {
                Some(e) => !replace_existing || e.optim,
                None => false,
            },
            pos == grid_pos(pos.x as int, pos.y as int, pos.z as int),
            hits@ == nearby_hits(g, pos),
            hits@.len() >= hit_count,
            hit_count == count_true(block@.points, 20),
            first_match(block@.orientations, hits@, 0) is None,
            subs == combinations(hits@, hit_count as nat),
            subsets@.map_values(|c: Vec<Vec3>| c@) == subs,
            first_subset_match(block@.orientations, subs, 0) == first_subset_match(
                block@.orientations,
                subs,
                s as int,
            ),
    {
        proof {
            assert(subs[s as int] == subsets@[s as int]@);
        }
        match block.get_orientation(&subsets[s]) {
            Some(o) => {
                return Some(place(block, o, pos, large_grid, true));
            },
            None => {},
        }
    }
    None
}

} // verus!

verus! {

pub proof fn lemma_count_row_step(r: Seq<Option<BlockView>>, z: int)
    requires
        0 <= z < r.len(),
    ensures
        count_row(r.take(z + 1)) == count_row(r.take(z)) + if r[z] is Some {
            1nat
        } else {
            0nat
        },
        count_row(r.take(z)) <= z,
    decreases z,
{
    assert(r.take(z + 1).drop_last() =~= r.take(z));
    if z > 0 {
        lemma_count_row_step(r, z - 1);
    } else {
        assert(r.take(0) =~= Seq::<Option<BlockView>>::empty());
    }
}

pub proof fn lemma_count_plane_step(p: Seq<Seq<Option<BlockView>>>, y: int)
    requires
        0 <= y < p.len(),
    ensures
        count_plane(p.take(y + 1)) == count_plane(p.take(y)) + count_row(p[y]),
{
    assert(p.take(y + 1).drop_last() =~= p.take(y));
}

pub proof fn lemma_count_cells_step(g: GridView, x: int)
    requires
        0 <= x < g.len(),
    ensures
        count_cells(g.take(x + 1)) == count_cells(g.take(x)) + count_plane(g[x]),
{
    assert(g.take(x + 1).drop_last() =~= g.take(x));
}

pub proof fn lemma_count_row_le(r: Seq<Option<BlockView>>)
    ensures
        count_row(r) <= r.len(),
    decreases r.len(),
{
    if r.len() > 0 {
        lemma_count_row_le(r.drop_last());
    }
}

pub proof fn lemma_count_plane_le(p: Seq<Seq<Option<BlockView>>>, m: nat)
    requires
        forall|y: int| 0 <= y < p.len() ==> (#[trigger] p[y]).len() == m,
    ensures
        count_plane(p) <= p.len() * m,
    decreases p.len(),
{
    if p.len() > 0 {
        lemma_count_plane_le(p.drop_last(), m);
        lemma_count_row_le(p.last());
        assert((p.len() - 1) * m + m == p.len() * m) by (nonlinear_arith);
    }
}

pub proof fn lemma_count_cells_le(g: GridView, n: nat)
    requires
        forall|x: int| 0 <= x < g.len() ==> (#[trigger] g[x]).len() == n,
        forall|x: int, y: int| 0 <= x < g.len() && 0 <= y < n ==> (#[trigger] g[x][y]).len() == n,
    ensures
        count_cells(g) <= g.len() * (n * n),
    decreases g.len(),
{
    if g.len() > 0 {
        lemma_count_cells_le(g.drop_last(), n);
        let p = g.last();
        assert forall|y: int| 0 <= y < p.len() implies (#[trigger] p[y]).len() == n by {
            assert(g[g.len() - 1][y].len() == n);
        }
        lemma_count_plane_le(p, n);
        assert((g.len() - 1) * (n * n) + n * n == g.len() * (n * n)) by (nonlinear_arith);
    }
}

/// Moves every block of `cands` into the same cell of `row`, and counts them.
fn merge_row<'a>(row: &mut Vec<Option<OrientedBlock<'a>>>, cands: &mut Vec<Option<OrientedBlock<'a>>>) -> (count: usize)
    requires
        old(cands)@.len() <= old(row)@.len(),
    ensures
        row_view(*final(row)) == overlay_row(row_view(*old(row)), row_view(*old(cands))),
        count == count_row(row_view(*old(cands))),
{
    let ghost r0 = row_view(*row);
    let ghost c0 = row_view(*cands);
    let mut count: usize = 0;
    let len = cands.len();
    for z in 0..len
        invariant
            len == c0.len(),
            row@.len() == r0.len(),
            cands@.len() == c0.len(),
            c0.len() <= r0.len(),
            forall|k: int| z <= k < c0.len() ==> cell_view(#[trigger] cands@[k]) == c0[k],
            forall|k: int| 0 <= k < z ==> cell_view(#[trigger] row@[k]) == overlay_row(r0, c0)[k],
            forall|k: int| z <= k < r0.len() ==> cell_view(#[trigger] row@[k]) == r0[k],
            count == count_row(c0.take(z as int)),
    {
        proof {
            lemma_count_row_step(c0, z as int);
        }
        let mut t: Option<OrientedBlock<'a>> = None;
        std::mem::swap(&mut t, &mut cands[z]);
        match t {
            Some(b) => {
                row.set(z, Some(b));
                count = count + 1;
            },
            None => {},
        }
    }
    proof {
        assert(c0.take(c0.len() as int) =~= c0);
        assert(row_view(*row) =~= overlay_row(r0, c0));
    }
    count
}

} // verus!

verus! {

/// Moves every block of `cands` into the same cell of `plane`, and counts them.
fn merge_plane<'a>(
    plane: &mut Vec<Vec<Option<OrientedBlock<'a>>>>,
    cands: &mut Vec<Vec<Option<OrientedBlock<'a>>>>,
    Ghost(m): Ghost<nat>,
) -> (count: usize)
    requires
        old(cands)@.len() <= old(plane)@.len(),
        forall|y: int| 0 <= y < old(cands)@.len() ==> (#[trigger] old(plane)@[y])@.len() >= m,
        forall|y: int| 0 <= y < old(cands)@.len() ==> (#[trigger] old(cands)@[y])@.len() == m,
        old(cands)@.len() * m <= usize::MAX,
    ensures
        plane_view(*final(plane)) == overlay_plane(plane_view(*old(plane)), plane_view(*old(cands))),
        count == count_plane(plane_view(*old(cands))),
{
    let ghost p0 = plane_view(*plane);
    let ghost c0 = plane_view(*cands);
    let mut count: usize = 0;
    let len = cands.len();
    for y in 0..len
        invariant
            len == c0.len(),
            plane@.len() == p0.len(),
            cands@.len() == c0.len(),
            c0.len() <= p0.len(),
            c0.len() * m <= usize::MAX,
            forall|k: int| 0 <= k < c0.len() ==> (#[trigger] c0[k]).len() == m,
            forall|k: int| 0 <= k < c0.len() ==> (#[trigger] p0[k]).len() >= m,
            forall|k: int| y <= k < c0.len() ==> row_view(#[trigger] cands@[k]) == c0[k],
            forall|k: int| 0 <= k < y ==> row_view(#[trigger] plane@[k]) == overlay_plane(p0, c0)[k],
            forall|k: int| y <= k < p0.len() ==> row_view(#[trigger] plane@[k]) == p0[k],
            count == count_plane(c0.take(y as int)),
    {
        proof {
            lemma_count_plane_step(c0, y as int);
            let t = c0.take(y + 1);
            assert forall|k: int| 0 <= k < t.len() implies (#[trigger] t[k]).len() == m by {
                assert(t[k] == c0[k]);
            }
            lemma_count_plane_le(t, m);
            assert((y + 1) * m <= c0.len() * m) by (nonlinear_arith)
                requires
                    y + 1 <= c0.len(),
            ;
            assert(plane@[y as int]@.len() == p0[y as int].len());
            assert(cands@[y as int]@.len() == c0[y as int].len());
        }
        let c = merge_row(&mut plane[y], &mut cands[y]);
        count = count + c;
    }
    proof {
        assert(c0.take(c0.len() as int) =~= c0);
        assert(plane_view(*plane) =~= overlay_plane(p0, c0));
    }
    count
}

/// Moves every block of `cands` into the same cell of `grid`, and counts them.
fn merge_grid<'a>(grid: &mut Grid<'a>, cands: &mut Grid<'a>, Ghost(n): Ghost<nat>) -> (count: usize)
    requires
        covers(grid_view(old(grid)), n),
        is_cube(grid_view(old(cands)), n),
        n * (n * n) <= usize::MAX,
    ensures
        grid_view(final(grid)) == overlay(grid_view(old(grid)), grid_view(old(cands))),
        count == count_cells(grid_view(old(cands))),
{
    let ghost g0 = grid_view(grid);
    let ghost c0 = grid_view(cands);
    let mut count: usize = 0;
    let len = cands.len();
    proof {
        assert(n * n <= n * (n * n) || n == 0) by (nonlinear_arith);
    }
    for x in 0..len
        invariant
            len == n,
            c0.len() == n,
            grid@.len() == g0.len(),
            cands@.len() == n,
            covers(g0, n),
            is_cube(c0, n),
            n * (n * n) <= usize::MAX,
            n * n <= usize::MAX,
            forall|k: int| x <= k < n ==> plane_view(#[trigger] cands@[k]) == c0[k],
            forall|k: int| 0 <= k < x ==> plane_view(#[trigger] grid@[k]) == overlay(g0, c0)[k],
            forall|k: int| x <= k < g0.len() ==> plane_view(#[trigger] grid@[k]) == g0[k],
            count == count_cells(c0.take(x as int)),
    {
        proof {
            lemma_count_cells_step(c0, x as int);
            let t = c0.take(x + 1);
            assert forall|k: int| 0 <= k < t.len() implies (#[trigger] t[k]).len() == n by {
                assert(t[k] == c0[k]);
            }
            assert forall|k: int, y: int| 0 <= k < t.len() && 0 <= y < n implies (#[trigger] t[k][y]).len() == n by {
                assert(t[k] == c0[k]);
            }
            lemma_count_cells_le(t, n);
            assert((x + 1) * (n * n) <= n * (n * n)) by (nonlinear_arith)
                requires
                    x + 1 <= n,
            ;
            let gp = grid@[x as int];
            let cp = cands@[x as int];
            assert(plane_view(gp) == g0[x as int]);
            assert(plane_view(cp) == c0[x as int]);
            assert forall|y: int| 0 <= y < cp@.len() implies (#[trigger] gp@[y])@.len() >= n by {
                assert(row_view(gp@[y]) == g0[x as int][y]);
            }
            assert forall|y: int| 0 <= y < cp@.len() implies (#[trigger] cp@[y])@.len() == n by {
                assert(row_view(cp@[y]) == c0[x as int][y]);
            }
        }
        let c = merge_plane(&mut grid[x], &mut cands[x], Ghost(n));
        count = count + c;
    }
    proof {
        assert(c0.take(c0.len() as int) =~= c0);
        assert(grid_view(grid) =~= overlay(g0, c0));
    }
    count
}

} // verus!

verus! {

/// The blocks a smoothing pass with `block` places, cell by cell, read from
/// `grid` as it stands before the pass.
fn smooth_candidates<'a>(
    grid: &Grid<'a>,
    block: &'a CubeBlock<'a>,
    blocksize: usize,
    large_grid: bool,
    replace_existing: bool,
) -> (cands: Grid<'a>)
    requires
        covers(grid_view(grid), blocksize as nat),
    ensures
        grid_view(&cands) == smooth_pass(
            grid_view(grid),
            block@,
            blocksize as nat,
            large_grid,
            replace_existing,
        ),
{
    let ghost n = blocksize as nat;
    let ghost target = smooth_pass(grid_view(grid), block@, n, large_grid, replace_existing);
    let hit_count = block.hit_count();
    let mut cands: Grid<'a> = Vec::new();
    for x in 0..blocksize
        invariant
            n == blocksize,
            covers(grid_view(grid), n),
            hit_count == count_true(block@.points, 20),
            target == smooth_pass(grid_view(grid), block@, n, large_grid, replace_existing),
            cands@.len() == x,
            forall|i: int| 0 <= i < x ==> plane_view(#[trigger] cands@[i]) == target[i],
    {
        let mut plane: Vec<Vec<Option<OrientedBlock<'a>>>> = Vec::new();
        for y in 0..blocksize
            invariant
                n == blocksize,
                0 <= x < n,
                covers(grid_view(grid), n),
                hit_count == count_true(block@.points, 20),
                target == smooth_pass(grid_view(grid), block@, n, large_grid, replace_existing),
                plane@.len() == y,
                forall|i: int| 0 <= i < y ==> row_view(#[trigger] plane@[i]) == target[x as int][i],
        {
            let mut row: Vec<Option<OrientedBlock<'a>>> = Vec::new();
            for z in 0..blocksize
                invariant
                    n == blocksize,
                    0 <= x < n,
                    0 <= y < n,
                    covers(grid_view(grid), n),
                    hit_count == count_true(block@.points, 20),
                    target == smooth_pass(grid_view(grid), block@, n, large_grid, replace_existing),
                    row@.len() == z,
                    forall|i: int| 0 <= i < z ==> cell_view(#[trigger] row@[i]) == target[x as int][y as int][i],
            {
                let cell = smooth_one_cell(
                    grid,
                    block,
                    hit_count,
                    GridPos { x, y, z },
                    large_grid,
                    replace_existing,
                    Ghost(n),
                );
                row.push(cell);
            }
            proof {
                assert(row_view(row) =~= target[x as int][y as int]);
            }
            plane.push(row);
        }
        proof {
            assert(plane_view(plane) =~= target[x as int]);
        }
        cands.push(plane);
    }
    proof {
        assert(grid_view(&cands) =~= target);
    }
    cands
}

/// Placing blocks keeps the grid's shape.
pub proof fn lemma_overlay_shape(g: GridView, c: GridView)
    ensures
        same_shape(overlay(g, c), g),
{
    let o = overlay(g, c);
    assert forall|x: int| 0 <= x < o.len() implies (#[trigger] o[x]).len() == g[x].len() by {}
    assert forall|x: int, y: int| 0 <= x < o.len() && 0 <= y < o[x].len() implies (#[trigger] o[x][y]).len() == g[x][y].len() by {
        if x < c.len() {
            assert(o[x] == overlay_plane(g[x], c[x]));
            if y < c[x].len() {
                assert(o[x][y] == overlay_row(g[x][y], c[x][y]));
            }
        }
    }
}

pub proof fn lemma_same_shape_trans(a: GridView, b: GridView, c: GridView)
    requires
        same_shape(a, b),
        same_shape(b, c),
    ensures
        same_shape(a, c),
{
    assert forall|x: int, y: int| 0 <= x < a.len() && 0 <= y < a[x].len() implies (#[trigger] a[x][y]).len() == c[x][y].len() by {
        assert(b[x].len() == a[x].len());
    }
}

/// A cell of `overlay(g, c)`: `c`'s block where `c` has one, else `g`'s.
pub proof fn lemma_overlay_cell(g: GridView, c: GridView, x: int, y: int, z: int)
    requires
        0 <= x < g.len(),
        0 <= y < g[x].len(),
        0 <= z < g[x][y].len(),
    ensures
        overlay(g, c)[x][y][z] == if x < c.len() && y < c[x].len() && z < c[x][y].len() && c[x][y][z] is Some {
            c[x][y][z]
        } else {
            g[x][y][z]
        },
{
    if x < c.len() {
        assert(overlay(g, c)[x] == overlay_plane(g[x], c[x]));
        if y < c[x].len() {
            assert(overlay(g, c)[x][y] == overlay_row(g[x][y], c[x][y]));
        }
    }
}

/// Grids of the same shape cover the same range.
pub proof fn lemma_same_shape_covers(a: GridView, b: GridView, n: nat)
    requires
        same_shape(a, b),
        covers(b, n),
    ensures
        covers(a, n),
{
    assert forall|x: int| 0 <= x < n implies (#[trigger] a[x]).len() >= n by {
        assert(b[x].len() >= n);
    }
    assert forall|x: int, y: int| 0 <= x < n && 0 <= y < n implies (#[trigger] a[x][y]).len() >= n by {
        assert(b[x].len() >= n);
        assert(b[x][y].len() >= n);
    }
}

pub proof fn lemma_smooth_pass_cube(g: GridView, b: CubeBlockView, n: nat, large: bool, replace: bool)
    ensures
        is_cube(smooth_pass(g, b, n, large, replace), n),
{
}

/// Runs a smoothing pass with each block of `avail_blocks` in turn over the
/// cells with all coordinates below `blocksize`: a pass computes, from the
/// grid as it stands, the block that goes into each of those cells (see
/// `smooth_cell`; neighbor lookups may reach cells beyond that range), then
/// places them all. Returns the number of blocks placed. The grid may be
/// larger than `blocksize` along any axis; it keeps its shape.
pub fn smooth_block_grid<'a>(
    blocksize: usize,
    large_grid: bool,
    avail_blocks: &'a Vec<CubeBlock<'a>>,
    grid: &mut Grid<'a>,
    replace_existing: bool,
) -> (changed: usize)
    requires
        covers(grid_view(old(grid)), blocksize as nat),
        avail_blocks@.len() * (blocksize * (blocksize * blocksize)) <= usize::MAX,
    ensures
        same_shape(grid_view(final(grid)), grid_view(old(grid))),
        (grid_view(final(grid)), changed as nat) == smoothed(
            grid_view(old(grid)),
            blocks_view(avail_blocks@),
            blocksize as nat,
            large_grid,
            replace_existing,
        ),
{
    let ghost n = blocksize as nat;
    let ghost g0 = grid_view(grid);
    let ghost bv = blocks_view(avail_blocks@);
    let ghost cube = n * (n * n);
    let mut changed: usize = 0;
    for i in 0..avail_blocks.len()
        invariant
            n == blocksize,
            cube == n * (n * n),
            bv == blocks_view(avail_blocks@),
            avail_blocks@.len() * cube <= usize::MAX,
            covers(g0, n),
            same_shape(grid_view(grid), g0),
            (grid_view(grid), changed as nat) == smoothed(g0, bv.take(i as int), n, large_grid, replace_existing),
            changed <= i * cube,
    {
        let block = &avail_blocks[i];
        let ghost before = grid_view(grid);
        proof {
            lemma_same_shape_covers(before, g0, n);
        }
        let mut cands = smooth_candidates(grid, block, blocksize, large_grid, replace_existing);
        proof {
            lemma_smooth_pass_cube(before, block@, n, large_grid, replace_existing);
            let c = grid_view(&cands);
            lemma_count_cells_le(c, n);
            assert((i + 1) * cube <= avail_blocks@.len() * cube) by (nonlinear_arith)
                requires
                    i + 1 <= avail_blocks@.len(),
            ;
            assert(i * cube + cube == (i + 1) * cube) by (nonlinear_arith);
            assert(cube <= (i + 1) * cube) by (nonlinear_arith)
                requires
                    i >= 0,
                    cube >= 0,
            ;
            assert(bv.take(i + 1).drop_last() =~= bv.take(i as int));
            assert(bv.take(i + 1).last() == block@);
        }
        let ghost cv = grid_view(&cands);
        let c = merge_grid(grid, &mut cands, Ghost(n));
        proof {
            lemma_overlay_shape(before, cv);
            lemma_same_shape_trans(grid_view(grid), before, g0);
        }
        changed = changed + c;
    }
    proof {
        assert(bv.take(avail_blocks@.len() as int) =~= bv);
        if avail_blocks@.len() == 0 {
            assert(same_shape(g0, g0));
        }
    }
    changed
}

} // verus!
