use vstd::prelude::*;

use crate::geometry::{points_seq, reference_points, Vec3};

verus! {

/// A cell address in the block grid.
#[derive(Clone, Copy, Debug, PartialEq, Eq, Structural)]
pub struct GridPos {
    pub x: usize,
    pub y: usize,
    pub z: usize,
}

/// A block placed in the grid: its cell, the reference points it covers in
/// its orientation, its blueprint entry, and whether it was placed by a
/// smoothing pass.
#[allow(non_snake_case)]
pub struct OrientedBlock<'a> {
    pub Pos: GridPos,
    pub Verts: &'a Vec<Vec3>,
    pub Xml: String,
    pub Optim: bool,
}

/// What a placed block is, as plain values.
pub struct BlockView {
    pub pos: GridPos,
    pub verts: Seq<Vec3>,
    pub xml: Seq<char>,
    pub optim: bool,
}

impl<'a> View for OrientedBlock<'a> {
    type V = BlockView;

    open spec fn view(&self) -> BlockView {
        BlockView { pos: self.Pos, verts: self.Verts@, xml: self.Xml@, optim: self.Optim }
    }
}

impl<'a> OrientedBlock<'a> {
    pub fn new(pos: GridPos, verts: &'a Vec<Vec3>, xml: String, optim: bool) -> (r: OrientedBlock<'a>)
        ensures
            r@ == (BlockView { pos, verts: verts@, xml: xml@, optim }),
            r.Verts == verts,
    {
        OrientedBlock { Pos: pos, Verts: verts, Xml: xml, Optim: optim }
    }
}

/// A grid of cells indexed `[x][y][z]`, each empty or holding a block.
pub type Grid<'a> = Vec<Vec<Vec<Option<OrientedBlock<'a>>>>>;

/// A grid as plain values.
pub type GridView = Seq<Seq<Seq<Option<BlockView>>>>;

pub open spec fn cell_view<'a>(c: Option<OrientedBlock<'a>>) -> Option<BlockView> {
    match c {
        Some(b) => Some(b@),
        None => None,
    }
}

pub open spec fn row_view<'a>(r: Vec<Option<OrientedBlock<'a>>>) -> Seq<Option<BlockView>> {
    r@.map_values(|c: Option<OrientedBlock<'a>>| cell_view(c))
}

pub open spec fn plane_view<'a>(p: Vec<Vec<Option<OrientedBlock<'a>>>>) -> Seq<Seq<Option<BlockView>>> {
    p@.map_values(|r: Vec<Option<OrientedBlock<'a>>>| row_view(r))
}

pub open spec fn grid_view<'a>(g: &Grid<'a>) -> GridView {
    g@.map_values(|p: Vec<Vec<Option<OrientedBlock<'a>>>>| plane_view(p))
}

/// The grid is `n` cells along each axis.
pub open spec fn is_cube(g: GridView, n: nat) -> bool {
    &&& g.len() == n
    &&& forall|x: int| 0 <= x < n ==> (#[trigger] g[x]).len() == n
    &&& forall|x: int, y: int| 0 <= x < n && 0 <= y < n ==> (#[trigger] g[x][y]).len() == n
}

/// Every cell `(x, y, z)` with coordinates below `n` exists in the grid
/// (which may be larger, and uneven beyond that range).
pub open spec fn covers(g: GridView, n: nat) -> bool {
    &&& g.len() >= n
    &&& forall|x: int| 0 <= x < n ==> (#[trigger] g[x]).len() >= n
    &&& forall|x: int, y: int| 0 <= x < n && 0 <= y < n ==> (#[trigger] g[x][y]).len() >= n
}

/// The two grids have the same number of planes, rows and cells everywhere.
pub open spec fn same_shape(a: GridView, b: GridView) -> bool {
    &&& a.len() == b.len()
    &&& forall|x: int| 0 <= x < a.len() ==> (#[trigger] a[x]).len() == b[x].len()
    &&& forall|x: int, y: int| 0 <= x < a.len() && 0 <= y < a[x].len() ==> (#[trigger] a[x][y]).len() == b[x][y].len()
}

/// The empty grid of side `n`.
pub open spec fn empty_grid(n: nat) -> GridView {
    Seq::new(n, |x: int| Seq::new(n, |y: int| Seq::new(n, |z: int| None::<BlockView>)))
}

/// Every block in the grid sits in the cell its position names.
pub open spec fn blocks_at_own_cells(g: GridView) -> bool {
    forall|x: int, y: int, z: int|
        0 <= x < g.len() && 0 <= y < g[x].len() && 0 <= z < g[x][y].len() && (#[trigger] g[x][y][z]) is Some
            ==> g[x][y][z]->0.pos == (GridPos { x: x as usize, y: y as usize, z: z as usize })
}

/// An empty grid of side `n`.
pub fn new_grid<'a>(n: usize) -> (g: Grid<'a>)
    ensures
        grid_view(&g) == empty_grid(n as nat),
{
    let mut g: Grid<'a> = Vec::new();
    for x in 0..n
        invariant
            g@.len() == x,
            forall|i: int| 0 <= i < x ==> plane_view(#[trigger] g@[i]) == empty_grid(n as nat)[0],
    {
        let mut plane: Vec<Vec<Option<OrientedBlock<'a>>>> = Vec::new();
        for y in 0..n
            invariant
                plane@.len() == y,
                forall|i: int| 0 <= i < y ==> row_view(#[trigger] plane@[i]) == empty_grid(n as nat)[0][0],
        {
            let mut row: Vec<Option<OrientedBlock<'a>>> = Vec::new();
            for z in 0..n
                invariant
                    row@.len() == z,
                    forall|i: int| 0 <= i < z ==> (#[trigger] row@[i]) is None,
            {
                row.push(None);
            }
            proof {
                assert(row_view(row) =~= empty_grid(n as nat)[0][0]);
            }
            plane.push(row);
        }
        proof {
            assert(plane_view(plane) =~= empty_grid(n as nat)[0]);
        }
        g.push(plane);
    }
    proof {
        assert(grid_view(&g) =~= empty_grid(n as nat));
    }
    g
}

} // verus!

verus! {

/// `acc` followed by the elements of `s` not seen before, each once, in the
/// order of their first occurrence.
pub open spec fn dedup_onto(acc: Seq<Vec3>, s: Seq<Vec3>) -> Seq<Vec3>
    decreases s.len(),
{
    if s.len() == 0 {
        acc
    } else {
        let d = dedup_onto(acc, s.drop_last());
        if d.contains(s.last()) {
            d
        } else {
            d.push(s.last())
        }
    }
}

pub proof fn lemma_dedup_onto_concat(acc: Seq<Vec3>, a: Seq<Vec3>, b: Seq<Vec3>)
    ensures
        dedup_onto(acc, a + b) == dedup_onto(dedup_onto(acc, a), b),
    decreases b.len(),
{
    if b.len() == 0 {
        assert(a + b =~= a);
    } else {
        lemma_dedup_onto_concat(acc, a, b.drop_last());
        assert((a + b).drop_last() =~= a + b.drop_last());
        assert((a + b).last() == b.last());
    }
}

/// The offset `(dx, dy, dz)` of neighbor `k < 27`, with `dx` varying slowest
/// and each of them running through `-1, 0, 1`.
pub open spec fn neighbor_offset(k: int) -> (int, int, int) {
    (k / 9 - 1, (k / 3) % 3 - 1, k % 3 - 1)
}

/// The content of neighbor cell `k` of `pos`, or `None` when it lies outside
/// the grid.
pub open spec fn neighbor_cell(g: GridView, pos: GridPos, k: int) -> Option<BlockView> {
    let (dx, dy, dz) = neighbor_offset(k);
    let (nx, ny, nz) = (pos.x + dx, pos.y + dy, pos.z + dz);
    if 0 <= nx < g.len() && 0 <= ny < g[nx].len() && 0 <= nz < g[nx][ny].len() {
        g[nx][ny][nz]
    } else {
        None
    }
}

/// A vertex `v` of a block at `npos` (vertices sit at half-cell units around
/// the cell) coincides with reference point `pt` of the cell `pos`.
pub open spec fn coincide(npos: GridPos, v: Vec3, pos: GridPos, pt: Vec3) -> bool {
    &&& 2 * npos.x + v.x == 2 * pos.x + pt.x
    &&& 2 * npos.y + v.y == 2 * pos.y + pt.y
    &&& 2 * npos.z + v.z == 2 * pos.z + pt.z
}

/// The reference points of `pos` that a vertex `v` of a block at `npos` hits.
pub open spec fn vertex_hits(npos: GridPos, v: Vec3, pos: GridPos) -> Seq<Vec3> {
    points_seq().filter(|pt: Vec3| coincide(npos, v, pos, pt))
}

/// The reference points of `pos` hit by the vertices of a neighbor block, in
/// vertex order; a block at `pos` itself contributes nothing.
pub open spec fn block_hits(nb: Option<BlockView>, pos: GridPos) -> Seq<Vec3> {
    match nb {
        Some(b) => if b.pos == pos {
            Seq::empty()
        } else {
            b.verts.map_values(|v: Vec3| vertex_hits(b.pos, v, pos)).flatten()
        },
        None => Seq::empty(),
    }
}

/// All hits of the neighbors of `pos`, in neighbor order, with repeats.
pub open spec fn nearby_candidates(g: GridView, pos: GridPos) -> Seq<Vec3> {
    Seq::new(27, |k: int| block_hits(neighbor_cell(g, pos, k), pos)).flatten()
}

/// The reference points of `pos` that the vertices of neighboring blocks hit,
/// each once, in the order in which the neighbors first hit them.
pub open spec fn nearby_hits(g: GridView, pos: GridPos) -> Seq<Vec3> {
    dedup_onto(Seq::empty(), nearby_candidates(g, pos))
}

/// The neighbor coordinate `c - 1`, `c` or `c + 1` for `d` = 0, 1, 2.
fn shift(c: usize, d: usize) -> (r: Option<usize>)
    requires
        d < 3,
    ensures
        match r {
            Some(v) => v == c + d - 1,
            None => c + d - 1 < 0 || c + d - 1 > usize::MAX,
        },
{
    if d == 0 {
        if c == 0 {
            None
        } else {
            Some(c - 1)
        }
    } else if d == 1 {
        Some(c)
    } else {
        c.checked_add(1)
    }
}

/// Appends `p` to `hits` unless it is there already.
fn push_new(hits: &mut Vec<Vec3>, p: Vec3)
    ensures
        final(hits)@ == dedup_onto(old(hits)@, seq![p]),
{
    let mut found = false;
    for i in 0..hits.len()
        invariant
            found == hits@.take(i as int).contains(p),
    {
        proof {
            let t = hits@.take(i + 1);
            let u = hits@.take(i as int);
            assert(t =~= u.push(hits@[i as int]));
            if hits@[i as int] == p {
                assert(t[i as int] == p);
            } else if u.contains(p) {
                let w = choose|w: int| 0 <= w < u.len() && u[w] == p;
                assert(t[w] == p);
            } else {
                assert forall|w: int| 0 <= w < t.len() implies t[w] != p by {
                    if w < i {
                        assert(t[w] == u[w]);
                    }
                }
            }
        }
        if hits[i] == p {
            found = true;
        }
    }
    proof {
        assert(hits@.take(hits@.len() as int) =~= hits@);
        assert(seq![p].drop_last() =~= Seq::<Vec3>::empty());
        assert(dedup_onto(hits@, Seq::<Vec3>::empty()) == hits@);
    }
    if !found {
        hits.push(p);
    }
}

/// The block in neighbor cell `k` of `pos`, if that cell is in the grid and
/// holds one.
fn neighbor<'b, 'a>(grid: &'b Grid<'a>, pos: &GridPos, k: usize) -> (r: Option<&'b OrientedBlock<'a>>)
    requires
        k < 27,
    ensures
        match r {
            Some(b) => neighbor_cell(grid_view(grid), *pos, k as int) == Some(b@),
            None => neighbor_cell(grid_view(grid), *pos, k as int) is None,
        },
{
    let ghost g = grid_view(grid);
    let glen = grid.len();
    let nx = match shift(pos.x, k / 9) {
        Some(v) => v,
        None => return None,
    };
    if nx >= grid.len() {
        return None;
    }
    let plane = &grid[nx];
    proof {
        assert(g[nx as int] == plane_view(*plane));
    }
    let plen = plane.len();
    let ny = match shift(pos.y, (k / 3) % 3) {
        Some(v) => v,
        None => return None,
    };
    if ny >= plane.len() {
        return None;
    }
    let row = &plane[ny];
    proof {
        assert(g[nx as int][ny as int] == row_view(*row));
    }
    let rlen = row.len();
    let nz = match shift(pos.z, k % 3) {
        Some(v) => v,
        None => return None,
    };
    if nz >= row.len() {
        return None;
    }
    proof {
        assert(g[nx as int][ny as int][nz as int] == cell_view(row@[nz as int]));
    }
    match &row[nz] {
        Some(b) => Some(b),
        None => None,
    }
}

/// Adds to `hits` the reference points of `pos` hit by the vertices of `nb`.
fn absorb_block(hits: &mut Vec<Vec3>, nb: &OrientedBlock, pos: &GridPos, pts: &Vec<Vec3>)
    requires
        pts@ == points_seq(),
        nb.Pos != *pos,
    ensures
        final(hits)@ == dedup_onto(old(hits)@, block_hits(Some(nb@), *pos)),
{
    let ghost start = hits@;
    let ghost f = |v: Vec3| vertex_hits(nb.Pos, v, *pos);
    let verts = nb.Verts;
    for i in 0..verts.len()
        invariant
            pts@ == points_seq(),
            verts@ == nb@.verts,
            f == (|v: Vec3| vertex_hits(nb.Pos, v, *pos)),
            hits@ == dedup_onto(start, verts@.take(i as int).map_values(f).flatten()),
    {
        let v = verts[i];
        let ghost before = hits@;
        let ghost pred = |pt: Vec3| coincide(nb.Pos, v, *pos, pt);
        for j in 0..pts.len()
            invariant
                pts@ == points_seq(),
                pred == (|pt: Vec3| coincide(nb.Pos, v, *pos, pt)),
                hits@ == dedup_onto(before, points_seq().take(j as int).filter(pred)),
        {
            let pt = pts[j];
            let m = pos.x as i128 * 2 + pt.x as i128 == nb.Pos.x as i128 * 2 + v.x as i128
                && pos.y as i128 * 2 + pt.y as i128 == nb.Pos.y as i128 * 2 + v.y as i128
                && pos.z as i128 * 2 + pt.z as i128 == nb.Pos.z as i128 * 2 + v.z as i128;
            proof {
                reveal_with_fuel(Seq::<_>::filter, 1);
                assert(points_seq().take(j + 1).drop_last() =~= points_seq().take(j as int));
                assert(m == pred(pt));
            }
            if m {
                push_new(hits, pt);
                proof {
                    let t = points_seq().take(j as int).filter(pred);
                    assert(points_seq().take(j + 1).filter(pred) == t.push(pt));
                    lemma_dedup_onto_concat(before, t, seq![pt]);
                    assert(t + seq![pt] =~= t.push(pt));
                }
            }
        }
        proof {
            assert(points_seq().take(pts@.len() as int) =~= points_seq());
            let done = verts@.take(i as int).map_values(f);
            assert(verts@.take(i + 1).map_values(f) =~= done.push(f(v)));
            done.lemma_flatten_push(f(v));
            lemma_dedup_onto_concat(start, done.flatten(), f(v));
        }
    }
    proof {
        assert(verts@.take(verts@.len() as int) =~= verts@);
    }
}

/// The reference points of the cell `pos` that coincide with vertices of the
/// blocks in the 27 cells around it (a block at `pos` itself does not
/// count), each once, in the order found.
pub fn fill_from_nearby_cubes(pos: &GridPos, grid: &Grid) -> (hits: Vec<Vec3>)
    ensures
        hits@ == nearby_hits(grid_view(grid), *pos),
{
    let ghost g = grid_view(grid);
    let ghost share = |k: int| block_hits(neighbor_cell(g, *pos, k), *pos);
    let pts = reference_points();
    let mut hits: Vec<Vec3> = Vec::new();
    for k in 0..27
        invariant
            pts@ == points_seq(),
            g == grid_view(grid),
            share == (|k: int| block_hits(neighbor_cell(g, *pos, k), *pos)),
            hits@ == dedup_onto(Seq::empty(), Seq::new(k as nat, share).flatten()),
    {
        let ghost before = hits@;
        let mut absorbed = false;
        match neighbor(grid, pos, k) {
            Some(nb) => {
                if nb.Pos != *pos {
                    absorb_block(&mut hits, nb, pos, &pts);
                    absorbed = true;
                }
            },
            None => {},
        }
        proof {
            if !absorbed {
                assert(share(k as int) =~= Seq::<Vec3>::empty());
                assert(hits@ == dedup_onto(before, share(k as int)));
            }
            let done = Seq::new(k as nat, share);
            assert(Seq::new((k + 1) as nat, share) =~= done.push(share(k as int)));
            done.lemma_flatten_push(share(k as int));
            lemma_dedup_onto_concat(Seq::empty(), done.flatten(), share(k as int));
        }
    }
    hits
}

} // verus!
