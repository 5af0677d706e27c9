use vstd::prelude::*;

use crate::geometry::{
    all_directions, lemma_ups_len, lemma_opposite_vec, lemma_rotate_forward_up, lemma_vec_injective, matrix_row, neg3, points_seq, reference_points, rotation_towards,
    unit_cube_vec, ups_of, Direction, Vec3,
};

verus! {

/// The reference points selected by the first `n` entries of `mask`, in order.
pub open spec fn select_points(mask: Seq<bool>, n: int) -> Seq<Vec3>
    decreases n,
{
    if n <= 0 {
        Seq::empty()
    } else if mask[n - 1] {
        select_points(mask, n - 1).push(points_seq()[n - 1])
    } else {
        select_points(mask, n - 1)
    }
}

/// The number of `true` entries among the first `n` entries of `mask`.
pub open spec fn count_true(mask: Seq<bool>, n: int) -> nat
    decreases n,
{
    if n <= 0 {
        0
    } else if mask[n - 1] {
        count_true(mask, n - 1) + 1
    } else {
        count_true(mask, n - 1)
    }
}

/// The points of a block whose point mask is `mask`.
pub open spec fn block_points(mask: Seq<bool>) -> Seq<Vec3> {
    select_points(mask, 20)
}

/// Orientation `k` (for `k < 24`) of a block with point mask `mask`: row
/// `k / 4` and column `k % 4` of the orientation table give a facing `fwd`
/// and `up`; the block records the directions that its forward (`-z`) and up
/// (`+y`) axes take under that rotation, which are `fwd`'s opposite and
/// `up`, and the rotated points.
pub open spec fn orientation_at(mask: Seq<bool>, k: int) -> (Direction, Direction, Seq<Vec3>) {
    let fwd = all_directions()[k / 4];
    let up = ups_of(fwd)[k % 4];
    let rot = rotation_towards(fwd, up);
    (fwd.opposite_of(), up, block_points(mask).map_values(|p: Vec3| rot.rotate(p)))
}

/// The twenty-four orientations of a block with point mask `mask`.
pub open spec fn orientations_of(mask: Seq<bool>) -> Seq<(Direction, Direction, Seq<Vec3>)> {
    Seq::new(24, |k: int| orientation_at(mask, k))
}

/// The first orientation, searching from index `j`, that `pts` matches: the
/// search stops with no match as soon as an orientation has a different
/// number of points than `pts`; an orientation matches when `pts` is not
/// empty and each of its points lies in the orientation.
pub open spec fn first_match(
    os: Seq<(Direction, Direction, Seq<Vec3>)>,
    pts: Seq<Vec3>,
    j: int,
) -> Option<int>
    decreases os.len() - j,
{
    if j < 0 || j >= os.len() {
        None
    } else if pts.len() != os[j].2.len() {
        None
    } else if pts.len() > 0 && (forall|i: int| 0 <= i < pts.len() ==> os[j].2.contains(pts[i])) {
        Some(j)
    } else {
        first_match(os, pts, j + 1)
    }
}

/// What a block is, as plain values.
pub struct CubeBlockView {
    pub points: Seq<bool>,
    pub large_subtype: Seq<char>,
    pub small_subtype: Seq<char>,
    pub orientations: Seq<(Direction, Direction, Seq<Vec3>)>,
}

/// An armor block shape: the reference points it covers, its subtype names
/// on large and small grids, and its twenty-four orientations.
#[allow(non_snake_case)]
pub struct CubeBlock<'a> {
    pub Points: [bool; 20],
    pub LGSubtype: &'a str,
    pub SGSubtype: &'a str,
    pub Orientations: Vec<(Direction, Direction, Vec<Vec3>)>,
}

pub open spec fn orientation_view(o: (Direction, Direction, Vec<Vec3>)) -> (Direction, Direction, Seq<Vec3>) {
    (o.0, o.1, o.2@)
}

impl<'a> View for CubeBlock<'a> {
    type V = CubeBlockView;

    open spec fn view(&self) -> CubeBlockView {
        CubeBlockView {
            points: self.Points@,
            large_subtype: self.LGSubtype@,
            small_subtype: self.SGSubtype@,
            orientations: self.Orientations@.map_values(|o: (Direction, Direction, Vec<Vec3>)| orientation_view(o)),
        }
    }
}

/// The block that `CubeBlock::new` builds from these values.
pub open spec fn cube_block_spec(mask: Seq<bool>, large: Seq<char>, small: Seq<char>) -> CubeBlockView {
    CubeBlockView {
        points: mask,
        large_subtype: large,
        small_subtype: small,
        orientations: orientations_of(mask),
    }
}

proof fn lemma_div4(r: int, c: int)
    requires
        0 <= r,
        0 <= c < 4,
    ensures
        (4 * r + c) / 4 == r,
        (4 * r + c) % 4 == c,
{
    assert((4 * r + c) / 4 == r && (4 * r + c) % 4 == c) by (nonlinear_arith)
        requires
            0 <= r,
            0 <= c < 4,
    ;
}

pub proof fn lemma_select_points_unit(mask: Seq<bool>, n: int)
    requires
        n <= 20,
    ensures
        forall|i: int| 0 <= i < select_points(mask, n).len() ==> unit_cube_vec(#[trigger] select_points(mask, n)[i]),
        select_points(mask, n).len() == count_true(mask, n),
    decreases n,
{
    if n > 0 {
        lemma_select_points_unit(mask, n - 1);
        assert(unit_cube_vec(points_seq()[n - 1]));
    }
}

impl<'a> CubeBlock<'a> {
    /// Builds a block from its point mask and its subtype names, with its
    /// twenty-four orientations in the order of the orientation table.
    pub fn new(points: [bool; 20], large_subtype: &'a str, small_subtype: &'a str) -> (r: CubeBlock<'a>)
        ensures
            r@ == cube_block_spec(points@, large_subtype@, small_subtype@),
            r.Points == points,
            r.LGSubtype == large_subtype,
            r.SGSubtype == small_subtype,
    {
        let lookup = Direction::get_matrix_arr();
        let all_pts = reference_points();
        let mut orig_pts: Vec<Vec3> = Vec::new();
        for i in 0..20
            invariant
                all_pts@ == points_seq(),
                orig_pts@ == select_points(points@, i as int),
        {
            if points[i] {
                orig_pts.push(all_pts[i]);
            }
        }
        proof {
            lemma_select_points_unit(points@, 20);
        }
        let ghost mask = points@;
        let forward = Direction::FORWARD.get_vec();
        let upward = Direction::UP.get_vec();
        let mut orientations: Vec<(Direction, Direction, Vec<Vec3>)> = Vec::new();
        for r in 0..6
            invariant
                lookup@.len() == 6,
                forall|i: int| 0 <= i < 6 ==> (#[trigger] lookup@[i])@ == matrix_row(all_directions()[i]),
                orig_pts@ == block_points(mask),
                forall|i: int| 0 <= i < orig_pts@.len() ==> unit_cube_vec(#[trigger] orig_pts@[i]),
                forward == Direction::FORWARD.vec(),
                upward == Direction::UP.vec(),
                orientations@.len() == 4 * r,
                forall|k: int| 0 <= k < 4 * r ==> orientation_view(#[trigger] orientations@[k]) == orientation_at(mask, k),
        {
            let row = &lookup[r];
            proof {
                lemma_ups_len(all_directions()[r as int]);
            }
            for c in 0..4
                invariant
                    lookup@.len() == 6,
                    forall|i: int| 0 <= i < 6 ==> (#[trigger] lookup@[i])@ == matrix_row(all_directions()[i]),
                    row@ == matrix_row(all_directions()[r as int]),
                    row@.len() == 4,
                    0 <= r < 6,
                    orig_pts@ == block_points(mask),
                    forall|i: int| 0 <= i < orig_pts@.len() ==> unit_cube_vec(#[trigger] orig_pts@[i]),
                    forward == Direction::FORWARD.vec(),
                    upward == Direction::UP.vec(),
                    orientations@.len() == 4 * r + c,
                    forall|k: int| 0 <= k < 4 * r + c ==> orientation_view(#[trigger] orientations@[k]) == orientation_at(mask, k),
            {
                let (fwd, up, rot) = row[c];
                let ghost k = 4 * r + c;
                proof {
                    lemma_div4(r as int, c as int);
                    lemma_ups_len(fwd);
                    assert(fwd == all_directions()[r as int]);
                    assert(up == ups_of(fwd)[c as int]);
                    assert(rot == rotation_towards(fwd, up));
                    assert(fwd.perpendicular(up));
                }
                let mut pts: Vec<Vec3> = Vec::new();
                for i in 0..orig_pts.len()
                    invariant
                        rot == rotation_towards(fwd, up),
                        rot.axis_aligned(),
                        forall|m: int| 0 <= m < orig_pts@.len() ==> unit_cube_vec(#[trigger] orig_pts@[m]),
                        pts@ == orig_pts@.take(i as int).map_values(|p: Vec3| rot.rotate(p)),
                {
                    let q = rot.transform_point(&orig_pts[i]);
                    pts.push(q);
                    proof {
                        assert(orig_pts@.take(i + 1) =~= orig_pts@.take(i as int).push(orig_pts@[i as int]));
                        assert(pts@ =~= orig_pts@.take(i + 1).map_values(|p: Vec3| rot.rotate(p)));
                    }
                }
                proof {
                    assert(orig_pts@.take(orig_pts@.len() as int) =~= orig_pts@);
                }
                let fv = rot.transform_point(&forward);
                let uv = rot.transform_point(&upward);
                proof {
                    lemma_rotate_forward_up(rot);
                    lemma_opposite_vec(fwd);
                    assert(fv == neg3(fwd.vec()));
                    assert(fv == fwd.opposite_of().vec());
                    assert(uv == up.vec());
                }
                let ofwd = Direction::from_vec(&fv);
                let oup = Direction::from_vec(&uv);
                proof {
                    lemma_vec_injective(ofwd, fwd.opposite_of());
                    lemma_vec_injective(oup, up);
                }
                orientations.push((ofwd, oup, pts));
            }
        }
        let r = CubeBlock {
            Points: points,
            LGSubtype: large_subtype,
            SGSubtype: small_subtype,
            Orientations: orientations,
        };
        proof {
            assert(r@.orientations =~= orientations_of(mask));
        }
        r
    }
}

} // verus!

verus! {

/// Whether `p` is among `v`.
pub fn contains_point(v: &Vec<Vec3>, p: &Vec3) -> (r: bool)
    ensures
        r == v@.contains(*p),
{
    for i in 0..v.len()
        invariant
            forall|k: int| 0 <= k < i ==> v@[k] != *p,
    {
        if v[i] == *p {
            return true;
        }
    }
    false
}

/// Whether every point of `pts` is among `v`.
pub fn contains_all(v: &Vec<Vec3>, pts: &Vec<Vec3>) -> (r: bool)
    ensures
        r == (forall|i: int| 0 <= i < pts@.len() ==> v@.contains(pts@[i])),
{
    for i in 0..pts.len()
        invariant
            forall|m: int| 0 <= m < i ==> v@.contains(pts@[m]),
    {
        if !contains_point(v, &pts[i]) {
            return false;
        }
    }
    true
}

impl<'a> CubeBlock<'a> {
    /// The number of reference points the block covers.
    pub fn hit_count(&self) -> (r: usize)
        ensures
            r == count_true(self.Points@, 20),
    {
        let mut n: usize = 0;
        for i in 0..20
            invariant
                n == count_true(self.Points@, i as int),
                n <= i,
        {
            if self.Points[i] {
                n = n + 1;
            }
        }
        n
    }

    /// The first orientation of the block whose points include every point of
    /// `points` (and has as many points), as its recorded forward and up
    /// directions and its points; `None` when no orientation is found before
    /// one of a different size.
    pub fn get_orientation(&self, points: &Vec<Vec3>) -> (r: Option<(Direction, Direction, &Vec<Vec3>)>)
        ensures
            match first_match(self@.orientations, points@, 0) {
                Some(j) => r matches Some(t) && t.0 == self@.orientations[j].0 && t.1
                    == self@.orientations[j].1 && t.2@ == self@.orientations[j].2,
                None => r is None,
            },
    {
        let ghost os = self@.orientations;
        for j in 0..self.Orientations.len()
            invariant
                os == self@.orientations,
                os.len() == self.Orientations@.len(),
                first_match(os, points@, 0) == first_match(os, points@, j as int),
        {
            let o = &self.Orientations[j];
            proof {
                assert(orientation_view(self.Orientations@[j as int]) == os[j as int]);
            }
            if points.len() != o.2.len() {
                return None;
            }
            let all_in = points.len() > 0 && contains_all(&o.2, points);
            if all_in {
                return Some((o.0, o.1, &o.2));
            }
        }
        None
    }
}

} // verus!
