use vstd::prelude::*;
use vstd::arithmetic::div_mod::lemma_div_multiples_vanish;
use crate::geometry::Vec3;
use crate::geometry::Triangle;
use crate::geometry::UNIT;
use crate::geometry::floor_div;
use crate::geometry::floor_div_exec;

verus! {

/// A column of a `Mat4`.
#[derive(Clone, Copy, Debug, PartialEq, Eq, Structural)]
pub struct Vec4 {
    pub x: i32,
    pub y: i32,
    pub z: i32,
    pub w: i32,
}

/// A 4x4 matrix by columns, in fixed point: an entry of `UNIT` stands for
/// one. The translation column `w_axis` is a position in world units.
#[derive(Clone, Copy, Debug, PartialEq, Eq, Structural)]
pub struct Mat4 {
    pub x_axis: Vec4,
    pub y_axis: Vec4,
    pub z_axis: Vec4,
    pub w_axis: Vec4,
}

pub open spec fn in_i32(v: int) -> bool {
    i32::MIN <= v <= i32::MAX
}

/// One coordinate of a point transformed with homogeneous coordinate one:
/// the row `(a, b, c)` applied to `p`, plus the translation `t`, rounded down.
pub open spec fn row_apply(a: int, b: int, c: int, t: int, p: Vec3) -> int {
    floor_div(a * p.x + b * p.y + c * p.z + t * UNIT, UNIT as int)
}

/// `p` transformed by `m` as a point, if every coordinate fits.
pub open spec fn transformed_point(m: Mat4, p: Vec3) -> Option<Vec3> {
    let x = row_apply(m.x_axis.x as int, m.y_axis.x as int, m.z_axis.x as int, m.w_axis.x as int, p);
    let y = row_apply(m.x_axis.y as int, m.y_axis.y as int, m.z_axis.y as int, m.w_axis.y as int, p);
    let z = row_apply(m.x_axis.z as int, m.y_axis.z as int, m.z_axis.z as int, m.w_axis.z as int, p);
    if in_i32(x) && in_i32(y) && in_i32(z) {
        Some(Vec3 { x: x as i32, y: y as i32, z: z as i32 })
    } else {
        None
    }
}

/// `t` with each position transformed by `m` and the colors kept, if every
/// position can be transformed.
pub open spec fn transformed(m: Mat4, t: Triangle) -> Option<Triangle> {
    match (transformed_point(m, t.v0.0), transformed_point(m, t.v1.0), transformed_point(m, t.v2.0)) {
        (Some(a), Some(b), Some(c)) => Some(Triangle { v0: (a, t.v0.1), v1: (b, t.v1.1), v2: (c, t.v2.1) }),
        _ => None,
    }
}

fn row_apply_exec(a: i32, b: i32, c: i32, t: i32, p: Vec3) -> (r: i128)
    ensures
        r == row_apply(a as int, b as int, c as int, t as int, p),
{
    proof {
        assert(-0x4000_0000_0000_0000 <= (a as int) * (p.x as int) <= 0x4000_0000_0000_0000) by (nonlinear_arith)
            requires
                i32::MIN <= a <= i32::MAX,
                i32::MIN <= p.x <= i32::MAX,
        ;
        assert(-0x4000_0000_0000_0000 <= (b as int) * (p.y as int) <= 0x4000_0000_0000_0000) by (nonlinear_arith)
            requires
                i32::MIN <= b <= i32::MAX,
                i32::MIN <= p.y <= i32::MAX,
        ;
        assert(-0x4000_0000_0000_0000 <= (c as int) * (p.z as int) <= 0x4000_0000_0000_0000) by (nonlinear_arith)
            requires
                i32::MIN <= c <= i32::MAX,
                i32::MIN <= p.z <= i32::MAX,
        ;
        assert(-0x1_0000_0000_0000 <= (t as int) * 1024 <= 0x1_0000_0000_0000) by (nonlinear_arith)
            requires
                i32::MIN <= t <= i32::MAX,
        ;
    }
    let n: i128 = (a as i128) * (p.x as i128) + (b as i128) * (p.y as i128) + (c as i128) * (p.z as i128)
        + (t as i128) * (UNIT as i128);
    floor_div_exec(n, UNIT as i128)
}

impl Mat4 {
    /// The identity: `UNIT` on the diagonal.
    pub fn identity() -> (m: Mat4)
        ensures
            m == identity_mat(),
    {
        Mat4 {
            x_axis: Vec4 { x: 1024, y: 0, z: 0, w: 0 },
            y_axis: Vec4 { x: 0, y: 1024, z: 0, w: 0 },
            z_axis: Vec4 { x: 0, y: 0, z: 1024, w: 0 },
            w_axis: Vec4 { x: 0, y: 0, z: 0, w: 1024 },
        }
    }

    /// Transforms `p` as a point (homogeneous coordinate one, so the
    /// translation applies); `None` where a coordinate does not fit.
    pub fn transform_point3(&self, p: Vec3) -> (r: Option<Vec3>)
        ensures
            r == transformed_point(*self, p),
    {
        let x = row_apply_exec(self.x_axis.x, self.y_axis.x, self.z_axis.x, self.w_axis.x, p);
        let y = row_apply_exec(self.x_axis.y, self.y_axis.y, self.z_axis.y, self.w_axis.y, p);
        let z = row_apply_exec(self.x_axis.z, self.y_axis.z, self.z_axis.z, self.w_axis.z, p);
        if i32::MIN as i128 <= x && x <= i32::MAX as i128 && i32::MIN as i128 <= y && y <= i32::MAX as i128
            && i32::MIN as i128 <= z && z <= i32::MAX as i128 {
            Some(Vec3 { x: x as i32, y: y as i32, z: z as i32 })
        } else {
            None
        }
    }
}

pub open spec fn identity_mat() -> Mat4 {
    Mat4 {
        x_axis: Vec4 { x: 1024, y: 0, z: 0, w: 0 },
        y_axis: Vec4 { x: 0, y: 1024, z: 0, w: 0 },
        z_axis: Vec4 { x: 0, y: 0, z: 1024, w: 0 },
        w_axis: Vec4 { x: 0, y: 0, z: 0, w: 1024 },
    }
}

impl Triangle {
    /// The triangle with each position transformed by `m`, colors unchanged.
    pub fn transform(&self, m: &Mat4) -> (r: Option<Triangle>)
        ensures
            r == transformed(*m, *self),
    {
        let a = m.transform_point3(self.v0.0);
        let b = m.transform_point3(self.v1.0);
        let c = m.transform_point3(self.v2.0);
        match (a, b, c) {
            (Some(a), Some(b), Some(c)) => Some(Triangle { v0: (a, self.v0.1), v1: (b, self.v1.1), v2: (c, self.v2.1) }),
            _ => None,
        }
    }
}

/// The identity transform gives back every triangle as it was.
pub proof fn lemma_identity_transform(t: Triangle)
    ensures
        transformed(identity_mat(), t) == Some(t),
{
    assert forall|p: Vec3| transformed_point(identity_mat(), p) == Some(p) by {
        assert(1024 * p.x + 0 * p.y + 0 * p.z + 0 * 1024 == 1024 * p.x);
        assert(0 * p.x + 1024 * p.y + 0 * p.z + 0 * 1024 == 1024 * p.y);
        assert(0 * p.x + 0 * p.y + 1024 * p.z + 0 * 1024 == 1024 * p.z);
        lemma_div_multiples_vanish(p.x as int, 1024);
        lemma_div_multiples_vanish(p.y as int, 1024);
        lemma_div_multiples_vanish(p.z as int, 1024);
    }
}

} // verus!
