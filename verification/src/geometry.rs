use vstd::prelude::*;

verus! {

/// A point or direction with integer coordinates.
#[derive(Clone, Copy, Debug, PartialEq, Eq, Structural)]
pub struct Vec3 {
    pub x: i64,
    pub y: i64,
    pub z: i64,
}

pub open spec fn vec3(x: int, y: int, z: int) -> Vec3 {
    Vec3 { x: x as i64, y: y as i64, z: z as i64 }
}

/// The twenty reference points of a block: the eight corners and the twelve
/// edge midpoints of the cube `[-1, 1]^3`, in their fixed order.
pub open spec fn points_seq() -> Seq<Vec3> {
    seq![
        vec3(-1, 1, -1), vec3(0, 1, -1), vec3(1, 1, -1), vec3(-1, 1, 0), vec3(1, 1, 0),
        vec3(-1, 1, 1), vec3(0, 1, 1), vec3(1, 1, 1), vec3(-1, 0, -1), vec3(1, 0, -1),
        vec3(-1, 0, 1), vec3(1, 0, 1), vec3(-1, -1, -1), vec3(0, -1, -1), vec3(1, -1, -1),
        vec3(-1, -1, 0), vec3(1, -1, 0), vec3(-1, -1, 1), vec3(0, -1, 1), vec3(1, -1, 1),
    ]
}

/// The reference points, in order.
pub fn reference_points() -> (r: Vec<Vec3>)
    ensures
        r@ == points_seq(),
{
    let r = vec![
        Vec3 { x: -1, y: 1, z: -1 }, Vec3 { x: 0, y: 1, z: -1 }, Vec3 { x: 1, y: 1, z: -1 },
        Vec3 { x: -1, y: 1, z: 0 }, Vec3 { x: 1, y: 1, z: 0 }, Vec3 { x: -1, y: 1, z: 1 },
        Vec3 { x: 0, y: 1, z: 1 }, Vec3 { x: 1, y: 1, z: 1 }, Vec3 { x: -1, y: 0, z: -1 },
        Vec3 { x: 1, y: 0, z: -1 }, Vec3 { x: -1, y: 0, z: 1 }, Vec3 { x: 1, y: 0, z: 1 },
        Vec3 { x: -1, y: -1, z: -1 }, Vec3 { x: 0, y: -1, z: -1 }, Vec3 { x: 1, y: -1, z: -1 },
        Vec3 { x: -1, y: -1, z: 0 }, Vec3 { x: 1, y: -1, z: 0 }, Vec3 { x: -1, y: -1, z: 1 },
        Vec3 { x: 0, y: -1, z: 1 }, Vec3 { x: 1, y: -1, z: 1 },
    ];
    assert(r@ =~= points_seq());
    r
}

} // verus!

verus! {

pub open spec fn neg3(v: Vec3) -> Vec3 {
    vec3(-v.x, -v.y, -v.z)
}

pub open spec fn cross3(a: Vec3, b: Vec3) -> Vec3 {
    vec3(a.y * b.z - a.z * b.y, a.z * b.x - a.x * b.z, a.x * b.y - a.y * b.x)
}

/// The six axis directions of a block, in their fixed order.
#[allow(non_camel_case_types)]
#[derive(Clone, Copy, Debug, PartialEq, Eq, Structural)]
pub enum Direction {
    FORWARD,
    BACKWARD,
    UP,
    DOWN,
    LEFT,
    RIGHT,
}

/// All directions in declaration order.
pub open spec fn all_directions() -> Seq<Direction> {
    seq![
        Direction::FORWARD,
        Direction::BACKWARD,
        Direction::UP,
        Direction::DOWN,
        Direction::LEFT,
        Direction::RIGHT,
    ]
}

impl Direction {
    /// The unit vector of a direction: forward is `-z`, up is `+y`, right is `+x`.
    pub open spec fn vec(self) -> Vec3 {
        match self {
            Direction::FORWARD => vec3(0, 0, -1),
            Direction::BACKWARD => vec3(0, 0, 1),
            Direction::LEFT => vec3(-1, 0, 0),
            Direction::RIGHT => vec3(1, 0, 0),
            Direction::UP => vec3(0, 1, 0),
            Direction::DOWN => vec3(0, -1, 0),
        }
    }

    pub open spec fn opposite_of(self) -> Direction {
        match self {
            Direction::FORWARD => Direction::BACKWARD,
            Direction::BACKWARD => Direction::FORWARD,
            Direction::LEFT => Direction::RIGHT,
            Direction::RIGHT => Direction::LEFT,
            Direction::UP => Direction::DOWN,
            Direction::DOWN => Direction::UP,
        }
    }

    /// The name used for a direction in a blueprint.
    pub open spec fn name_of(self) -> Seq<char> {
        match self {
            Direction::FORWARD => "Forward"@,
            Direction::BACKWARD => "Backward"@,
            Direction::LEFT => "Left"@,
            Direction::RIGHT => "Right"@,
            Direction::UP => "Up"@,
            Direction::DOWN => "Down"@,
        }
    }

    /// Two directions are perpendicular when neither equals the other or its opposite.
    pub open spec fn perpendicular(self, other: Direction) -> bool {
        other != self && other != self.opposite_of()
    }

    pub fn opposite(&self) -> (r: Direction)
        ensures
            r == self.opposite_of(),
    {
        match self {
            Direction::FORWARD => Direction::BACKWARD,
            Direction::BACKWARD => Direction::FORWARD,
            Direction::LEFT => Direction::RIGHT,
            Direction::RIGHT => Direction::LEFT,
            Direction::UP => Direction::DOWN,
            Direction::DOWN => Direction::UP,
        }
    }

    pub fn get_vec(&self) -> (r: Vec3)
        ensures
            r == self.vec(),
    {
        match self {
            Direction::FORWARD => Vec3 { x: 0, y: 0, z: -1 },
            Direction::BACKWARD => Vec3 { x: 0, y: 0, z: 1 },
            Direction::LEFT => Vec3 { x: -1, y: 0, z: 0 },
            Direction::RIGHT => Vec3 { x: 1, y: 0, z: 0 },
            Direction::UP => Vec3 { x: 0, y: 1, z: 0 },
            Direction::DOWN => Vec3 { x: 0, y: -1, z: 0 },
        }
    }

    /// The direction whose vector is `dir`; `dir` must be one of the six unit
    /// axis vectors.
    pub fn from_vec(dir: &Vec3) -> (r: Direction)
        requires
            is_direction_vec(*dir),
        ensures
            r.vec() == *dir,
    {
        if dir.x == 0 && dir.y == 0 && dir.z == -1 {
            Direction::FORWARD
        } else if dir.x == 0 && dir.y == 0 && dir.z == 1 {
            Direction::BACKWARD
        } else if dir.x == -1 && dir.y == 0 && dir.z == 0 {
            Direction::LEFT
        } else if dir.x == 1 && dir.y == 0 && dir.z == 0 {
            Direction::RIGHT
        } else if dir.x == 0 && dir.y == 1 && dir.z == 0 {
            Direction::UP
        } else {
            Direction::DOWN
        }
    }

    /// The name of the direction as written in a blueprint.
    pub fn name(&self) -> (r: &'static str)
        ensures
            r@ == self.name_of(),
    {
        match self {
            Direction::FORWARD => {
                proof {
                    reveal_strlit("Forward");
                }
                "Forward"
            },
            Direction::BACKWARD => {
                proof {
                    reveal_strlit("Backward");
                }
                "Backward"
            },
            Direction::LEFT => {
                proof {
                    reveal_strlit("Left");
                }
                "Left"
            },
            Direction::RIGHT => {
                proof {
                    reveal_strlit("Right");
                }
                "Right"
            },
            Direction::UP => {
                proof {
                    reveal_strlit("Up");
                }
                "Up"
            },
            Direction::DOWN => {
                proof {
                    reveal_strlit("Down");
                }
                "Down"
            },
        }
    }

    /// All six directions in declaration order.
    pub fn all() -> (r: Vec<Direction>)
        ensures
            r@ == all_directions(),
    {
        let r = vec![
            Direction::FORWARD,
            Direction::BACKWARD,
            Direction::UP,
            Direction::DOWN,
            Direction::LEFT,
            Direction::RIGHT,
        ];
        assert(r@ =~= all_directions());
        r
    }
}

/// `v` is the vector of one of the six directions.
pub open spec fn is_direction_vec(v: Vec3) -> bool {
    exists|d: Direction| d.vec() == v
}

} // verus!

verus! {

/// A coordinate in `{-1, 0, 1}`.
pub open spec fn unit_coord(c: int) -> bool {
    -1 <= c <= 1
}

/// Every coordinate of `v` is in `{-1, 0, 1}`.
pub open spec fn unit_cube_vec(v: Vec3) -> bool {
    unit_coord(v.x as int) && unit_coord(v.y as int) && unit_coord(v.z as int)
}

/// A rotation given by the images of the three coordinate axes.
#[derive(Clone, Copy, Debug, PartialEq, Eq, Structural)]
pub struct Rotation {
    pub x_axis: Vec3,
    pub y_axis: Vec3,
    pub z_axis: Vec3,
}

impl Rotation {
    /// Each axis image is a unit axis vector.
    pub open spec fn axis_aligned(self) -> bool {
        is_direction_vec(self.x_axis) && is_direction_vec(self.y_axis) && is_direction_vec(
            self.z_axis,
        )
    }

    /// The image of `p`: `p.x * x_axis + p.y * y_axis + p.z * z_axis`.
    pub open spec fn rotate(self, p: Vec3) -> Vec3 {
        vec3(
            p.x * self.x_axis.x + p.y * self.y_axis.x + p.z * self.z_axis.x,
            p.x * self.x_axis.y + p.y * self.y_axis.y + p.z * self.z_axis.y,
            p.x * self.x_axis.z + p.y * self.y_axis.z + p.z * self.z_axis.z,
        )
    }

    /// The image of a point with coordinates in `{-1, 0, 1}`.
    pub fn transform_point(&self, p: &Vec3) -> (r: Vec3)
        requires
            self.axis_aligned(),
            unit_cube_vec(*p),
        ensures
            r == self.rotate(*p),
    {
        proof {
            lemma_direction_vec_unit(self.x_axis);
            lemma_direction_vec_unit(self.y_axis);
            lemma_direction_vec_unit(self.z_axis);
        }
        let x = mul_unit(p.x, self.x_axis.x) + mul_unit(p.y, self.y_axis.x) + mul_unit(
            p.z,
            self.z_axis.x,
        );
        let y = mul_unit(p.x, self.x_axis.y) + mul_unit(p.y, self.y_axis.y) + mul_unit(
            p.z,
            self.z_axis.y,
        );
        let z = mul_unit(p.x, self.x_axis.z) + mul_unit(p.y, self.y_axis.z) + mul_unit(
            p.z,
            self.z_axis.z,
        );
        Vec3 { x, y, z }
    }
}

/// The product of two coordinates in `{-1, 0, 1}`.
fn mul_unit(a: i64, b: i64) -> (r: i64)
    requires
        unit_coord(a as int),
        unit_coord(b as int),
    ensures
        r == a * b,
        unit_coord(r as int),
{
    let r = if a == 0 {
        0
    } else if a == 1 {
        b
    } else {
        -b
    };
    assert(r == a * b) by (nonlinear_arith)
        requires
            (a == 0 && r == 0) || (a == 1 && r == b) || (a == -1 && r == -b),
    ;
    r
}

pub proof fn lemma_direction_vec_unit(v: Vec3)
    requires
        is_direction_vec(v),
    ensures
        unit_cube_vec(v),
{
    let d = choose|d: Direction| d.vec() == v;
    match d {
        Direction::FORWARD => {},
        Direction::BACKWARD => {},
        Direction::UP => {},
        Direction::DOWN => {},
        Direction::LEFT => {},
        Direction::RIGHT => {},
    }
}

/// The rotation that turns the `+z` axis towards `fwd` and the `+y` axis
/// towards `up`; the `+x` axis goes to `up × fwd`.
pub open spec fn rotation_towards(fwd: Direction, up: Direction) -> Rotation {
    Rotation { x_axis: up.cross_of(fwd).vec(), y_axis: up.vec(), z_axis: fwd.vec() }
}

impl Direction {
    /// The rotation that faces `fwd` with `up` pointing up.
    pub fn get_rotation(fwd: &Direction, up: &Direction) -> (r: Rotation)
        requires
            fwd.perpendicular(*up),
        ensures
            r == rotation_towards(*fwd, *up),
            r.axis_aligned(),
    {
        let f = fwd.get_vec();
        let u = up.get_vec();
        let x_axis = up.cross(fwd).get_vec();
        Rotation { x_axis, y_axis: u, z_axis: f }
    }
}

impl Direction {
    /// The direction of the cross product `self × other` of two perpendicular
    /// directions (for parallel ones, `self`).
    pub open spec fn cross_of(self, other: Direction) -> Direction {
        match (self, other) {
            (Direction::FORWARD, Direction::UP) => Direction::RIGHT,
            (Direction::FORWARD, Direction::DOWN) => Direction::LEFT,
            (Direction::FORWARD, Direction::LEFT) => Direction::UP,
            (Direction::FORWARD, Direction::RIGHT) => Direction::DOWN,
            (Direction::BACKWARD, Direction::UP) => Direction::LEFT,
            (Direction::BACKWARD, Direction::DOWN) => Direction::RIGHT,
            (Direction::BACKWARD, Direction::LEFT) => Direction::DOWN,
            (Direction::BACKWARD, Direction::RIGHT) => Direction::UP,
            (Direction::UP, Direction::FORWARD) => Direction::LEFT,
            (Direction::UP, Direction::BACKWARD) => Direction::RIGHT,
            (Direction::UP, Direction::LEFT) => Direction::BACKWARD,
            (Direction::UP, Direction::RIGHT) => Direction::FORWARD,
            (Direction::DOWN, Direction::FORWARD) => Direction::RIGHT,
            (Direction::DOWN, Direction::BACKWARD) => Direction::LEFT,
            (Direction::DOWN, Direction::LEFT) => Direction::FORWARD,
            (Direction::DOWN, Direction::RIGHT) => Direction::BACKWARD,
            (Direction::LEFT, Direction::FORWARD) => Direction::DOWN,
            (Direction::LEFT, Direction::BACKWARD) => Direction::UP,
            (Direction::LEFT, Direction::UP) => Direction::FORWARD,
            (Direction::LEFT, Direction::DOWN) => Direction::BACKWARD,
            (Direction::RIGHT, Direction::FORWARD) => Direction::UP,
            (Direction::RIGHT, Direction::BACKWARD) => Direction::DOWN,
            (Direction::RIGHT, Direction::UP) => Direction::BACKWARD,
            (Direction::RIGHT, Direction::DOWN) => Direction::FORWARD,
            _ => self,
        }
    }

    /// The direction of `self × other`.
    pub fn cross(&self, other: &Direction) -> (r: Direction)
        ensures
            r == self.cross_of(*other),
    {
        match (*self, *other) {
            (Direction::FORWARD, Direction::UP) => Direction::RIGHT,
            (Direction::FORWARD, Direction::DOWN) => Direction::LEFT,
            (Direction::FORWARD, Direction::LEFT) => Direction::UP,
            (Direction::FORWARD, Direction::RIGHT) => Direction::DOWN,
            (Direction::BACKWARD, Direction::UP) => Direction::LEFT,
            (Direction::BACKWARD, Direction::DOWN) => Direction::RIGHT,
            (Direction::BACKWARD, Direction::LEFT) => Direction::DOWN,
            (Direction::BACKWARD, Direction::RIGHT) => Direction::UP,
            (Direction::UP, Direction::FORWARD) => Direction::LEFT,
            (Direction::UP, Direction::BACKWARD) => Direction::RIGHT,
            (Direction::UP, Direction::LEFT) => Direction::BACKWARD,
            (Direction::UP, Direction::RIGHT) => Direction::FORWARD,
            (Direction::DOWN, Direction::FORWARD) => Direction::RIGHT,
            (Direction::DOWN, Direction::BACKWARD) => Direction::LEFT,
            (Direction::DOWN, Direction::LEFT) => Direction::FORWARD,
            (Direction::DOWN, Direction::RIGHT) => Direction::BACKWARD,
            (Direction::LEFT, Direction::FORWARD) => Direction::DOWN,
            (Direction::LEFT, Direction::BACKWARD) => Direction::UP,
            (Direction::LEFT, Direction::UP) => Direction::FORWARD,
            (Direction::LEFT, Direction::DOWN) => Direction::BACKWARD,
            (Direction::RIGHT, Direction::FORWARD) => Direction::UP,
            (Direction::RIGHT, Direction::BACKWARD) => Direction::DOWN,
            (Direction::RIGHT, Direction::UP) => Direction::BACKWARD,
            (Direction::RIGHT, Direction::DOWN) => Direction::FORWARD,
            _ => *self,
        }
    }
}

/// The cross product of two perpendicular direction vectors is the vector of
/// the direction `cross_of` names.
pub proof fn lemma_cross_perpendicular(a: Direction, b: Direction)
    requires
        a.perpendicular(b),
    ensures
        a.cross_of(b).vec() == cross3(a.vec(), b.vec()),
{
    let (u, v) = (a.vec(), b.vec());
    assert(a.cross_of(b).vec() == cross3(u, v)) by (nonlinear_arith)
        requires
            u == a.vec(),
            v == b.vec(),
            a.perpendicular(b),
    ;
}

} // verus!

verus! {

/// The directions perpendicular to `fwd`, in declaration order.
pub open spec fn ups_of(fwd: Direction) -> Seq<Direction> {
    all_directions().filter(|u: Direction| fwd.perpendicular(u))
}

/// One row of the orientation table: `fwd` paired with every perpendicular
/// `up`, with the rotation facing that way.
pub open spec fn matrix_row(fwd: Direction) -> Seq<(Direction, Direction, Rotation)> {
    ups_of(fwd).map_values(|u: Direction| (fwd, u, rotation_towards(fwd, u)))
}

/// Each direction has exactly four perpendicular directions.
pub proof fn lemma_ups_len(fwd: Direction)
    ensures
        ups_of(fwd).len() == 4,
        forall|j: int| 0 <= j < 4 ==> fwd.perpendicular(#[trigger] ups_of(fwd)[j]),
{
    reveal_with_fuel(Seq::<_>::filter, 7);
    let a = all_directions();
    assert(a.drop_last().drop_last().drop_last().drop_last().drop_last().drop_last() =~= Seq::<
        Direction,
    >::empty());
    match fwd {
        Direction::FORWARD => assert(ups_of(fwd) =~= seq![
            Direction::UP,
            Direction::DOWN,
            Direction::LEFT,
            Direction::RIGHT,
        ]),
        Direction::BACKWARD => assert(ups_of(fwd) =~= seq![
            Direction::UP,
            Direction::DOWN,
            Direction::LEFT,
            Direction::RIGHT,
        ]),
        Direction::UP => assert(ups_of(fwd) =~= seq![
            Direction::FORWARD,
            Direction::BACKWARD,
            Direction::LEFT,
            Direction::RIGHT,
        ]),
        Direction::DOWN => assert(ups_of(fwd) =~= seq![
            Direction::FORWARD,
            Direction::BACKWARD,
            Direction::LEFT,
            Direction::RIGHT,
        ]),
        Direction::LEFT => assert(ups_of(fwd) =~= seq![
            Direction::FORWARD,
            Direction::BACKWARD,
            Direction::UP,
            Direction::DOWN,
        ]),
        Direction::RIGHT => assert(ups_of(fwd) =~= seq![
            Direction::FORWARD,
            Direction::BACKWARD,
            Direction::UP,
            Direction::DOWN,
        ]),
    }
}

impl Direction {
    /// The orientation table: for every direction `fwd` in declaration order,
    /// the four perpendicular `up` directions in declaration order, each with
    /// the rotation facing `fwd` with `up` up.
    pub fn get_matrix_arr() -> (rows: Vec<Vec<(Direction, Direction, Rotation)>>)
        ensures
            rows@.len() == 6,
            forall|i: int| 0 <= i < 6 ==> (#[trigger] rows@[i])@ == matrix_row(all_directions()[i]),
    {
        let dirs = Direction::all();
        let mut rows: Vec<Vec<(Direction, Direction, Rotation)>> = Vec::new();
        for i in 0..6
            invariant
                dirs@ == all_directions(),
                rows@.len() == i,
                forall|k: int| 0 <= k < i ==> (#[trigger] rows@[k])@ == matrix_row(all_directions()[k]),
        {
            let fwd = dirs[i];
            let mut col: Vec<(Direction, Direction, Rotation)> = Vec::new();
            for j in 0..6
                invariant
                    dirs@ == all_directions(),
                    fwd == all_directions()[i as int],
                    col@ == all_directions().take(j as int).filter(
                        |u: Direction| fwd.perpendicular(u),
                    ).map_values(|u: Direction| (fwd, u, rotation_towards(fwd, u))),
            {
                let up = dirs[j];
                proof {
                    reveal_with_fuel(Seq::<_>::filter, 1);
                    assert(all_directions().take(j + 1).drop_last() =~= all_directions().take(
                        j as int,
                    ));
                }
                if up != fwd && up != fwd.opposite() {
                    let rot = Direction::get_rotation(&fwd, &up);
                    col.push((fwd, up, rot));
                }
                proof {
                    let pred = |u: Direction| fwd.perpendicular(u);
                    let f = |u: Direction| (fwd, u, rotation_towards(fwd, u));
                    let before = all_directions().take(j as int).filter(pred);
                    let after = all_directions().take(j + 1).filter(pred);
                    if pred(up) {
                        assert(after == before.push(up));
                        assert(after.map_values(f) =~= before.map_values(f).push(f(up)));
                    } else {
                        assert(after == before);
                    }
                }
            }
            proof {
                assert(all_directions().take(6) =~= all_directions());
            }
            rows.push(col);
        }
        rows
    }
}

} // verus!

verus! {

/// Distinct directions have distinct vectors.
pub proof fn lemma_vec_injective(a: Direction, b: Direction)
    requires
        a.vec() == b.vec(),
    ensures
        a == b,
{
    match a {
        Direction::FORWARD => {},
        Direction::BACKWARD => {},
        Direction::UP => {},
        Direction::DOWN => {},
        Direction::LEFT => {},
        Direction::RIGHT => {},
    }
}

} // verus!

verus! {

/// The vector of the opposite direction is the negated vector.
pub proof fn lemma_opposite_vec(d: Direction)
    ensures
        d.opposite_of().vec() == neg3(d.vec()),
        d.opposite_of().opposite_of() == d,
        d.opposite_of() != d,
{
    match d {
        Direction::FORWARD => {},
        Direction::BACKWARD => {},
        Direction::UP => {},
        Direction::DOWN => {},
        Direction::LEFT => {},
        Direction::RIGHT => {},
    }
}

} // verus!

verus! {

/// A rotation sends the forward vector `-z` to the negated `z` axis image and
/// the up vector `+y` to the `y` axis image.
pub proof fn lemma_rotate_forward_up(rot: Rotation)
    requires
        rot.axis_aligned(),
    ensures
        rot.rotate(Direction::FORWARD.vec()) == neg3(rot.z_axis),
        rot.rotate(Direction::UP.vec()) == rot.y_axis,
{
    let (a, b, c) = (rot.x_axis, rot.y_axis, rot.z_axis);
    lemma_direction_vec_unit(a);
    lemma_direction_vec_unit(b);
    lemma_direction_vec_unit(c);
    let f = Direction::FORWARD.vec();
    let u = Direction::UP.vec();
    assert(f.x == 0 && f.y == 0 && f.z == -1);
    assert(u.x == 0 && u.y == 1 && u.z == 0);
    assert(f.x * a.x + f.y * b.x + f.z * c.x == -c.x && f.x * a.y + f.y * b.y + f.z * c.y == -c.y
        && f.x * a.z + f.y * b.z + f.z * c.z == -c.z) by (nonlinear_arith)
        requires
            f.x == 0 && f.y == 0 && f.z == -1,
    ;
    assert(u.x * a.x + u.y * b.x + u.z * c.x == b.x && u.x * a.y + u.y * b.y + u.z * c.y == b.y
        && u.x * a.z + u.y * b.z + u.z * c.z == b.z) by (nonlinear_arith)
        requires
            u.x == 0 && u.y == 1 && u.z == 0,
    ;
}

} // verus!

verus! {

/// A block facing: its forward and up directions.
#[allow(non_snake_case)]
#[derive(Clone, Copy, Debug, PartialEq, Eq, Structural)]
pub struct Orientation {
    pub Fwd: Direction,
    pub Up: Direction,
}

/// Names of basic block shapes.
#[derive(Clone, Copy, Debug, PartialEq, Eq, Structural)]
pub enum Blocks {
    HalfSlope,
    FullBlock,
    CornerBlock,
    InvCorner,
    SquareCorner,
}

} // verus!
