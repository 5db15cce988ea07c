use vstd::prelude::*;
use vstd::arithmetic::div_mod::lemma_fundamental_div_mod;
use vstd::arithmetic::div_mod::lemma_fundamental_div_mod_converse;

verus! {

/// A pixel position in rasterizer space: origin at the canvas centre, x to
/// the right, y upwards.
#[derive(Clone, Copy, Debug, PartialEq, Eq, Structural)]
pub struct Point {
    pub x: i32,
    pub y: i32,
}

impl Point {
    pub fn new(x: i32, y: i32) -> (r: Point)
        ensures
            r.x == x,
            r.y == y,
    {
        Point { x, y }
    }
}

pub open spec fn abs(v: int) -> int {
    if v < 0 { -v } else { v }
}

/// Direction of a step from `from` towards `to` (negative when they are equal).
pub open spec fn step_sign(from: int, to: int) -> int {
    if from < to { 1 } else { -1 }
}

/// `k * num / den` rounded to the nearest integer, halves rounded up; zero
/// when `den` is zero.
pub open spec fn rounded_ratio(k: int, num: int, den: int) -> int {
    if den == 0 { 0 } else { (2 * k * num + den) / (2 * den) }
}

/// Number of points on the line from `p0` to `p1`: one per unit of the
/// longer axis, both ends included.
pub open spec fn line_len(p0: Point, p1: Point) -> int {
    let a = abs(p1.x - p0.x);
    let b = abs(p1.y - p0.y);
    if a >= b { a + 1 } else { b + 1 }
}

/// The `k`-th point of the line from `p0` to `p1`: `k` unit steps along the
/// longer axis, and along the shorter one the nearest whole step to the
/// exact line (halves rounded away from `p0`).
pub open spec fn line_point(p0: Point, p1: Point, k: int) -> (int, int) {
    let a = abs(p1.x - p0.x);
    let b = abs(p1.y - p0.y);
    let sx = step_sign(p0.x as int, p1.x as int);
    let sy = step_sign(p0.y as int, p1.y as int);
    if a >= b {
        (p0.x + sx * k, p0.y + sy * rounded_ratio(k, b, a))
    } else {
        (p0.x + sx * rounded_ratio(k, a, b), p0.y + sy * k)
    }
}

pub open spec fn is_line_point(p: Point, p0: Point, p1: Point, k: int) -> bool {
    p.x == line_point(p0, p1, k).0 && p.y == line_point(p0, p1, k).1
}

/// One Bresenham step along the major axis: the error term decides the
/// minor step exactly when the rounded ratio moves on.
proof fn lemma_major_step(a: int, b: int, i: int, j: int, e: int)
    requires
        0 <= b <= a,
        0 < a,
        0 <= i < a,
        j == rounded_ratio(i, b, a),
        e == a * (1 + j) - b * (1 + i),
    ensures
        2 * e >= -b,
        a - 2 * b < 2 * e <= 3 * a - 2 * b,
        2 * e <= a ==> rounded_ratio(i + 1, b, a) == j + 1,
        2 * e > a ==> rounded_ratio(i + 1, b, a) == j,
        2 * e <= a ==> j < b,
{
    let n = 2 * i * b + a;
    lemma_fundamental_div_mod(n, 2 * a);
    let r = n % (2 * a);
    assert(n == 2 * a * j + r);
    assert(0 <= r < 2 * a);
    assert(2 * e == 3 * a - r - 2 * b) by (nonlinear_arith)
        requires
            n == 2 * i * b + a,
            n == 2 * a * j + r,
            e == a * (1 + j) - b * (1 + i),
    ;
    assert(2 * (i + 1) * b + a == n + 2 * b) by (nonlinear_arith)
        requires
            n == 2 * i * b + a,
    ;
    if r + 2 * b >= 2 * a {
        assert(n + 2 * b == (j + 1) * (2 * a) + (r + 2 * b - 2 * a)) by (nonlinear_arith)
            requires
                n == 2 * a * j + r,
        ;
        lemma_fundamental_div_mod_converse(n + 2 * b, 2 * a, j + 1, r + 2 * b - 2 * a);
        assert((j + 1) * (2 * a) <= 2 * (i + 1) * b + a);
        assert(2 * (i + 1) * b + a <= 2 * a * b + a) by (nonlinear_arith)
            requires
                i + 1 <= a,
                0 <= b,
        ;
        assert(j < b) by (nonlinear_arith)
            requires
                (j + 1) * (2 * a) <= 2 * a * b + a,
                0 < a,
        ;
    } else {
        assert(n + 2 * b == j * (2 * a) + (r + 2 * b)) by (nonlinear_arith)
            requires
                n == 2 * a * j + r,
        ;
        lemma_fundamental_div_mod_converse(n + 2 * b, 2 * a, j, r + 2 * b);
    }
}

proof fn lemma_ratio_start(num: int, den: int)
    requires
        0 <= num,
        0 < den,
    ensures
        rounded_ratio(0, num, den) == 0,
        rounded_ratio(den, num, den) == num,
{
    lemma_fundamental_div_mod_converse(den, 2 * den, 0, den);
    assert(2 * den * num + den == num * (2 * den) + den) by (nonlinear_arith);
    lemma_fundamental_div_mod_converse(2 * den * num + den, 2 * den, num, den);
}

proof fn lemma_ratio_step(k: int, num: int, den: int)
    requires
        0 <= num <= den,
        0 < den,
    ensures
        rounded_ratio(k + 1, num, den) == rounded_ratio(k, num, den) || rounded_ratio(k + 1, num, den)
            == rounded_ratio(k, num, den) + 1,
{
    let n = 2 * k * num + den;
    lemma_fundamental_div_mod(n, 2 * den);
    let q = n / (2 * den);
    let r = n % (2 * den);
    assert(2 * (k + 1) * num + den == n + 2 * num) by (nonlinear_arith)
        requires
            n == 2 * k * num + den,
    ;
    if r + 2 * num >= 2 * den {
        assert(n + 2 * num == (q + 1) * (2 * den) + (r + 2 * num - 2 * den)) by (nonlinear_arith)
            requires
                n == 2 * den * q + r,
        ;
        lemma_fundamental_div_mod_converse(n + 2 * num, 2 * den, q + 1, r + 2 * num - 2 * den);
    } else {
        assert(n + 2 * num == q * (2 * den) + (r + 2 * num)) by (nonlinear_arith)
            requires
                n == 2 * den * q + r,
        ;
        lemma_fundamental_div_mod_converse(n + 2 * num, 2 * den, q, r + 2 * num);
    }
}

/// A line starts at `p0` and ends at `p1`; each point is one of the eight
/// neighbours of the one before it; and the line drawn from `p1` back to
/// `p0` has as many points.
pub proof fn lemma_line_shape(p0: Point, p1: Point)
    ensures
        line_point(p0, p1, 0) == (p0.x as int, p0.y as int),
        line_point(p0, p1, line_len(p0, p1) - 1) == (p1.x as int, p1.y as int),
        forall|k: int|
            0 <= k < line_len(p0, p1) - 1 ==> abs(#[trigger] line_point(p0, p1, k + 1).0 - line_point(
                p0,
                p1,
                k,
            ).0) <= 1 && abs(line_point(p0, p1, k + 1).1 - line_point(p0, p1, k).1) <= 1,
        line_len(p0, p1) == line_len(p1, p0),
{
    let a = abs(p1.x - p0.x);
    let b = abs(p1.y - p0.y);
    if a >= b && a > 0 {
        lemma_ratio_start(b, a);
    }
    if b > a {
        lemma_ratio_start(a, b);
    }
    let sx = step_sign(p0.x as int, p1.x as int);
    let sy = step_sign(p0.y as int, p1.y as int);
    assert(p0.x + sx * a == p1.x) by (nonlinear_arith)
        requires
            sx == step_sign(p0.x as int, p1.x as int),
            a == abs(p1.x - p0.x),
    ;
    assert(p0.y + sy * b == p1.y) by (nonlinear_arith)
        requires
            sy == step_sign(p0.y as int, p1.y as int),
            b == abs(p1.y - p0.y),
    ;
    assert forall|k: int| 0 <= k < line_len(p0, p1) - 1 implies abs(
        #[trigger] line_point(p0, p1, k + 1).0 - line_point(p0, p1, k).0,
    ) <= 1 && abs(line_point(p0, p1, k + 1).1 - line_point(p0, p1, k).1) <= 1 by {
        if a >= b {
            lemma_ratio_step(k, b, a);
        } else {
            lemma_ratio_step(k, a, b);
        }
    }
}

/// Bresenham's integer line algorithm: every pixel between `p0` and `p1`,
/// both included, in order from `p0`.
pub fn interpolate_line(p0: Point, p1: Point) -> (r: Vec<Point>)
    ensures
        r@.len() == line_len(p0, p1),
        forall|k: int| 0 <= k < r@.len() ==> is_line_point(#[trigger] r@[k], p0, p1, k),
{
    let mut x0: i64 = p0.x as i64;
    let mut y0: i64 = p0.y as i64;
    let x1: i64 = p1.x as i64;
    let y1: i64 = p1.y as i64;

    let dx: i64 = if x1 >= x0 { x1 - x0 } else { x0 - x1 };
    let sx: i64 = if x0 < x1 { 1 } else { -1 };
    let dy: i64 = if y1 >= y0 { y0 - y1 } else { y1 - y0 };
    let sy: i64 = if y0 < y1 { 1 } else { -1 };

    let mut error: i64 = dx + dy;
    let mut values: Vec<Point> = Vec::new();

    let ghost a: int = dx as int;
    let ghost b: int = -dy;
    let ghost mut i: int = 0;
    let ghost mut j: int = 0;
    proof {
        if a >= b && a > 0 {
            lemma_ratio_start(b, a);
        }
        if b > a {
            lemma_ratio_start(a, b);
        }
    }

    loop
        invariant_except_break
            a >= b ==> i == values@.len(),
            b > a ==> j == values@.len(),
            forall|k: int| 0 <= k < values@.len() ==> is_line_point(#[trigger] values@[k], p0, p1, k),
        invariant
            a == abs(p1.x - p0.x),
            b == abs(p1.y - p0.y),
            dx == a,
            dy == -b,
            sx == step_sign(p0.x as int, p1.x as int),
            sy == step_sign(p0.y as int, p1.y as int),
            x1 == p1.x,
            y1 == p1.y,
            0 <= i <= a,
            0 <= j <= b,
            x0 == p0.x + sx * i,
            y0 == p0.y + sy * j,
            error == a * (1 + j) - b * (1 + i),
            a >= b ==> j == rounded_ratio(i, b, a),
            b > a ==> i == rounded_ratio(j, a, b),
        ensures
            values@.len() == line_len(p0, p1),
            forall|k: int| 0 <= k < values@.len() ==> is_line_point(#[trigger] values@[k], p0, p1, k),
        decreases (a - i) + (b - j),
    {
        proof {
            if a >= b && a > 0 && i == a {
                lemma_ratio_start(b, a);
            }
            if b > a && j == b {
                lemma_ratio_start(a, b);
            }
        }
        let ghost before = values@;
        values.push(Point { x: x0 as i32, y: y0 as i32 });
        proof {
            let k = before.len() as int;
            assert forall|m: int| 0 <= m < values@.len() implies is_line_point(
                #[trigger] values@[m],
                p0,
                p1,
                m,
            ) by {
                if m < k {
                    assert(values@[m] == before[m]);
                }
            }
        }

        if x0 == x1 && y0 == y1 {
            break;
        }

        proof {
            if a >= b {
                lemma_major_step(a, b, i, j, error as int);
            } else {
                lemma_major_step(b, a, j, i, -error);
            }
        }

        let e2: i64 = 2 * error;
        let ghost xi = i;
        let ghost yj = j;
        if e2 >= dy {
            if x0 == x1 {
                break;
            }
            error = error + dy;
            x0 = x0 + sx;
            proof {
                i = i + 1;
            }
        }
        if e2 <= dx {
            if y0 == y1 {
                break;
            }
            error = error + dx;
            y0 = y0 + sy;
            proof {
                j = j + 1;
            }
        }
        assert(error == a * (1 + j) - b * (1 + i)) by (nonlinear_arith)
            requires
                error == a * (1 + yj) - b * (1 + xi) + (if i == xi { 0 } else { -b }) + (if j
                    == yj { 0 } else { a }),
                i == xi || i == xi + 1,
                j == yj || j == yj + 1,
        ;
    }
    values
}

} // verus!
