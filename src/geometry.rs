use vstd::prelude::*;
use vstd::arithmetic::div_mod::lemma_fundamental_div_mod;
use vstd::arithmetic::div_mod::lemma_fundamental_div_mod_converse;
use crate::color::Rgb;
use crate::line::Point;

verus! {

/// Canvas size in pixels.
pub const CANVAS_WIDTH: i64 = 800;
pub const CANVAS_HEIGHT: i64 = 600;

/// World coordinates are fixed-point numbers: one world unit is `UNIT`.
pub const UNIT: i64 = 1024;

/// Size of the viewport rectangle and its distance from the eye, in world
/// fixed-point units (one world unit each).
pub const VIEWPORT_WIDTH: i64 = 1024;
pub const VIEWPORT_HEIGHT: i64 = 1024;
pub const PROJ_D: i64 = 1024;

/// A point in world space, each coordinate in `UNIT`s.
#[derive(Clone, Copy, Debug, PartialEq, Eq, Structural)]
pub struct Vec3 {
    pub x: i32,
    pub y: i32,
    pub z: i32,
}

impl Vec3 {
    pub fn new(x: i32, y: i32, z: i32) -> (r: Vec3)
        ensures
            r.x == x,
            r.y == y,
            r.z == z,
    {
        Vec3 { x, y, z }
    }
}

/// Three vertices, each a position with a color.
#[derive(Clone, Copy, Debug)]
pub struct Triangle {
    pub v0: (Vec3, Rgb),
    pub v1: (Vec3, Rgb),
    pub v2: (Vec3, Rgb),
}

/// Division rounded towards negative infinity.
pub open spec fn floor_div(n: int, d: int) -> int {
    if d < 0 { (-n) / (-d) } else { n / d }
}

/// One canvas coordinate of a point seen at depth `z`: the coordinate on the
/// viewport plane at distance `d`, scaled from viewport to canvas size.
pub open spec fn project_coord(c: int, z: int, d: int, canvas: int, viewport: int) -> int {
    floor_div(c * d * canvas, z * viewport)
}

/// The canvas position of `v` at projection distance `d`, if it has one:
/// none for a point on the eye plane or one whose canvas position does not
/// fit in `i32`.
pub open spec fn projection(v: Vec3, d: int) -> Option<(int, int)> {
    if v.z == 0 {
        None
    } else {
        let x = project_coord(v.x as int, v.z as int, d, CANVAS_WIDTH as int, VIEWPORT_WIDTH as int);
        let y = project_coord(v.y as int, v.z as int, d, CANVAS_HEIGHT as int, VIEWPORT_HEIGHT as int);
        if i32::MIN <= x <= i32::MAX && i32::MIN <= y <= i32::MAX {
            Some((x, y))
        } else {
            None
        }
    }
}

pub(crate) fn floor_div_exec(n: i128, d: i128) -> (r: i128)
    requires
        d != 0,
        -0x10_0000_0000_0000_0000_0000_0000 < n < 0x10_0000_0000_0000_0000_0000_0000,
        -0x10_0000_0000_0000_0000_0000_0000 < d < 0x10_0000_0000_0000_0000_0000_0000,
    ensures
        r == floor_div(n as int, d as int),
{
    let (m, e) = if d < 0 { (-n, -d) } else { (n, d) };
    if m >= 0 {
        m / e
    } else {
        let q = (-m + e - 1) / e;
        proof {
            let t = (-m + e - 1) as int;
            lemma_fundamental_div_mod(t, e as int);
            let rr = t % (e as int);
            assert(q == t / (e as int));
            assert(m == (-q) * e + (e - 1 - rr)) by (nonlinear_arith)
                requires
                    t == e * q + rr,
                    t == -m + e - 1,
            ;
            lemma_fundamental_div_mod_converse(m as int, e as int, -q, e - 1 - rr);
        }
        -q
    }
}

fn project_coord_exec(c: i32, z: i32, d: i32, canvas: i64, viewport: i64) -> (r: i128)
    requires
        z != 0,
        0 < canvas <= 1024,
        0 < viewport <= 1024,
    ensures
        r == project_coord(c as int, z as int, d as int, canvas as int, viewport as int),
{
    proof {
        assert(-0x4000_0000_0000_0000 <= (c as int) * (d as int) <= 0x4000_0000_0000_0000)
            by (nonlinear_arith)
            requires
                -0x8000_0000 <= c < 0x8000_0000,
                -0x8000_0000 <= d < 0x8000_0000,
        ;
    }
    let cd: i128 = (c as i128) * (d as i128);
    proof {
        assert(-0x4000_0000_0000_0000 <= cd <= 0x4000_0000_0000_0000) by (nonlinear_arith)
            requires
                cd == (c as int) * (d as int),
                -0x8000_0000 <= c < 0x8000_0000,
                -0x8000_0000 <= d < 0x8000_0000,
        ;
        assert(-0x100_0000_0000_0000_0000 <= cd * canvas <= 0x100_0000_0000_0000_0000)
            by (nonlinear_arith)
            requires
                -0x4000_0000_0000_0000 <= cd <= 0x4000_0000_0000_0000,
                0 < canvas <= 1024,
        ;
        assert(-0x100_0000_0000_0000 <= (z as int) * (viewport as int) <= 0x100_0000_0000_0000
            && (z as int) * (viewport as int) != 0) by (nonlinear_arith)
            requires
                z != 0,
                -0x8000_0000 <= z < 0x8000_0000,
                0 < viewport <= 1024,
        ;
    }
    let n: i128 = cd * (canvas as i128);
    let den: i128 = (z as i128) * (viewport as i128);
    floor_div_exec(n, den)
}

/// Perspective projection of `v` onto the canvas, from a viewport at
/// distance `d`; `None` where `projection` has no position.
pub fn project_vertex(v: Vec3, d: i32) -> (r: Option<Point>)
    ensures
        match r {
            Some(p) => projection(v, d as int) == Some((p.x as int, p.y as int)),
            None => projection(v, d as int) is None,
        },
{
    if v.z == 0 {
        return None;
    }
    let x = project_coord_exec(v.x, v.z, d, CANVAS_WIDTH, VIEWPORT_WIDTH);
    let y = project_coord_exec(v.y, v.z, d, CANVAS_HEIGHT, VIEWPORT_HEIGHT);
    if i32::MIN as i128 <= x && x <= i32::MAX as i128 && i32::MIN as i128 <= y && y
        <= i32::MAX as i128 {
        Some(Point { x: x as i32, y: y as i32 })
    } else {
        None
    }
}

/// Signed area test: which side of the directed edge `a -> b` the point
/// `p` lies on, scaled by the edge length.
pub open spec fn edge(a: Point, b: Point, p: Point) -> int {
    (p.x - a.x) * (b.y - a.y) - (p.y - a.y) * (b.x - a.x)
}

pub fn edge_function(a: Point, b: Point, p: Point) -> (r: i128)
    ensures
        r == edge(a, b, p),
{
    let px = p.x as i128 - a.x as i128;
    let py = p.y as i128 - a.y as i128;
    let bx = b.x as i128 - a.x as i128;
    let by = b.y as i128 - a.y as i128;
    proof {
        assert(-0x4_0000_0000_0000_0000 <= px * by <= 0x4_0000_0000_0000_0000) by (nonlinear_arith)
            requires
                -0x1_0000_0000 <= px <= 0x1_0000_0000,
                -0x1_0000_0000 <= by <= 0x1_0000_0000,
        ;
        assert(-0x4_0000_0000_0000_0000 <= py * bx <= 0x4_0000_0000_0000_0000) by (nonlinear_arith)
            requires
                -0x1_0000_0000 <= py <= 0x1_0000_0000,
                -0x1_0000_0000 <= bx <= 0x1_0000_0000,
        ;
    }
    px * by - py * bx
}

} // verus!
