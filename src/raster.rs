use vstd::prelude::*;
use vstd::arithmetic::div_mod::lemma_fundamental_div_mod;
use vstd::arithmetic::div_mod::lemma_fundamental_div_mod_converse;
use vstd::arithmetic::div_mod::lemma_div_is_ordered;
use vstd::arithmetic::div_mod::lemma_div_by_multiple;
use vstd::arithmetic::div_mod::lemma_div_pos_is_pos;
use crate::color::Rgb;
use crate::line::Point;
use crate::geometry::CANVAS_WIDTH;
use crate::geometry::CANVAS_HEIGHT;
use crate::geometry::PROJ_D;
use crate::geometry::edge;
use crate::geometry::edge_function;
use crate::geometry::Triangle;
use crate::geometry::projection;
use crate::geometry::project_vertex;

verus! {

/// Depth of an empty cell of the depth buffer: farther than anything drawn
/// (a thousand world units).
pub const DEPTH_FAR: i64 = 1024000;

/// Number of cells of the canvas.
pub const CANVAS_PIXELS: usize = 480000;

/// Whether rasterizer-space `(x, y)` lies on the canvas.
pub open spec fn on_canvas(x: int, y: int) -> bool {
    0 <= CANVAS_WIDTH / 2 + x < CANVAS_WIDTH && 0 <= CANVAS_HEIGHT / 2 - y < CANVAS_HEIGHT
}

/// The cell of rasterizer-space `(x, y)`: rows from the top, each row left to right.
pub open spec fn cell_index(x: int, y: int) -> int {
    (CANVAS_HEIGHT / 2 - y) * CANVAS_WIDTH + (CANVAS_WIDTH / 2 + x)
}

/// The rasterizer-space point of cell `i`.
pub open spec fn cell_point(i: int) -> Point {
    Point {
        x: (i % (CANVAS_WIDTH as int) - CANVAS_WIDTH / 2) as i32,
        y: (CANVAS_HEIGHT / 2 - i / (CANVAS_WIDTH as int)) as i32,
    }
}

pub(crate) proof fn lemma_cell_of_point(x: int, y: int)
    requires
        on_canvas(x, y),
    ensures
        0 <= cell_index(x, y) < CANVAS_PIXELS,
        cell_point(cell_index(x, y)).x == x,
        cell_point(cell_index(x, y)).y == y,
{
    let i = cell_index(x, y);
    lemma_fundamental_div_mod_converse(i, 800, 300 - y, 400 + x);
}

proof fn lemma_point_of_cell(i: int)
    requires
        0 <= i < CANVAS_PIXELS,
    ensures
        on_canvas(cell_point(i).x as int, cell_point(i).y as int),
        cell_index(cell_point(i).x as int, cell_point(i).y as int) == i,
        i % 800 - 400 == cell_point(i).x,
        300 - i / 800 == cell_point(i).y,
{
    lemma_fundamental_div_mod(i, 800);
}

/// A depth buffer with the colors drawn so far: one cell per canvas pixel.
pub struct Frame {
    pub depth: Vec<i64>,
    pub pixels: Vec<Rgb>,
}

impl Frame {
    pub open spec fn wf(&self) -> bool {
        &&& self.depth@.len() == CANVAS_PIXELS
        &&& self.pixels@.len() == CANVAS_PIXELS
    }

    /// An empty frame: every cell black and at `DEPTH_FAR`.
    pub fn new() -> (f: Frame)
        ensures
            f.wf(),
            forall|i: int| 0 <= i < CANVAS_PIXELS ==> #[trigger] f.depth@[i] == DEPTH_FAR,
            forall|i: int| 0 <= i < CANVAS_PIXELS ==> #[trigger] f.pixels@[i] == (Rgb { r: 0, g: 0, b: 0 }),
    {
        let mut depth: Vec<i64> = Vec::new();
        let mut pixels: Vec<Rgb> = Vec::new();
        let mut i: usize = 0;
        while i < CANVAS_PIXELS
            invariant
                i <= CANVAS_PIXELS,
                depth@.len() == i,
                pixels@.len() == i,
                forall|k: int| 0 <= k < i ==> #[trigger] depth@[k] == DEPTH_FAR,
                forall|k: int| 0 <= k < i ==> #[trigger] pixels@[k] == (Rgb { r: 0, g: 0, b: 0 }),
            decreases CANVAS_PIXELS - i,
        {
            depth.push(DEPTH_FAR);
            pixels.push(Rgb { r: 0, g: 0, b: 0 });
            i = i + 1;
        }
        Frame { depth, pixels }
    }

    /// Empties the frame for the next picture: every cell black and at
    /// `DEPTH_FAR`.
    pub fn clear(&mut self)
        requires
            old(self).wf(),
        ensures
            final(self).wf(),
            forall|i: int| 0 <= i < CANVAS_PIXELS ==> #[trigger] final(self).depth@[i] == DEPTH_FAR,
            forall|i: int| 0 <= i < CANVAS_PIXELS
                ==> #[trigger] final(self).pixels@[i] == (Rgb { r: 0, g: 0, b: 0 }),
    {
        let mut i: usize = 0;
        while i < CANVAS_PIXELS
            invariant
                i <= CANVAS_PIXELS,
                self.wf(),
                forall|k: int| 0 <= k < i ==> #[trigger] self.depth@[k] == DEPTH_FAR,
                forall|k: int| 0 <= k < i ==> #[trigger] self.pixels@[k] == (Rgb { r: 0, g: 0, b: 0 }),
            decreases CANVAS_PIXELS - i,
        {
            self.depth.set(i, DEPTH_FAR);
            self.pixels.set(i, Rgb { r: 0, g: 0, b: 0 });
            i = i + 1;
        }
    }
}

/// Whether a fragment at rasterizer-space `(x, y)` with depth `depth` passes
/// the depth test: it is on the canvas, no nearer than the viewport plane,
/// and no farther than what the buffer holds there.
pub fn check_zbuff(x: i32, y: i32, depth: i128, frame: &Frame) -> (r: bool)
    requires
        frame.wf(),
    ensures
        r == (on_canvas(x as int, y as int) && PROJ_D <= depth <= frame.depth@[cell_index(
            x as int,
            y as int,
        )]),
{
    let dx: i64 = CANVAS_WIDTH / 2 + x as i64;
    let dy: i64 = CANVAS_HEIGHT / 2 - y as i64;
    if dx >= CANVAS_WIDTH || dx < 0 || dy >= CANVAS_HEIGHT || dy < 0 {
        return false;
    }
    proof {
        lemma_cell_of_point(x as int, y as int);
    }
    let buff_depth = frame.depth[(dy * CANVAS_WIDTH + dx) as usize];
    depth <= buff_depth as i128 && depth >= PROJ_D as i128
}

/// Sets the color of the canvas pixel at rasterizer-space `(x, y)`.
pub fn put_pixel(frame: &mut Frame, x: i32, y: i32, color: Rgb)
    requires
        old(frame).wf(),
        on_canvas(x as int, y as int),
    ensures
        final(frame).wf(),
        final(frame).depth@ == old(frame).depth@,
        final(frame).pixels@ == old(frame).pixels@.update(cell_index(x as int, y as int), color),
{
    proof {
        lemma_cell_of_point(x as int, y as int);
    }
    let i = ((CANVAS_HEIGHT / 2 - y as i64) * CANVAS_WIDTH + (CANVAS_WIDTH / 2 + x as i64)) as usize;
    frame.pixels.set(i, color);
}

/// The depth-tested write: where `check_zbuff` accepts the fragment, its
/// color is drawn and its depth stored; elsewhere nothing changes.
pub fn plot_fragment(frame: &mut Frame, x: i32, y: i32, depth: i128, color: Rgb) -> (drawn: bool)
    requires
        old(frame).wf(),
    ensures
        final(frame).wf(),
        drawn == (on_canvas(x as int, y as int) && PROJ_D <= depth <= old(frame).depth@[cell_index(
            x as int,
            y as int,
        )]),
        drawn ==> final(frame).depth@ == old(frame).depth@.update(
            cell_index(x as int, y as int),
            depth as i64,
        ),
        drawn ==> final(frame).pixels@ == old(frame).pixels@.update(
            cell_index(x as int, y as int),
            color,
        ),
        !drawn ==> final(frame).depth@ == old(frame).depth@,
        !drawn ==> final(frame).pixels@ == old(frame).pixels@,
{
    if !check_zbuff(x, y, depth, frame) {
        return false;
    }
    proof {
        lemma_cell_of_point(x as int, y as int);
    }
    put_pixel(frame, x, y, color);
    let i = ((CANVAS_HEIGHT / 2 - y as i64) * CANVAS_WIDTH + (CANVAS_WIDTH / 2 + x as i64)) as usize;
    frame.depth.set(i, depth as i64);
    true
}

/// A triangle on the canvas: its projected corners, with the depth (world
/// `z`) and color that each corner had before projection.
#[derive(Clone, Copy, Debug)]
pub struct Projected {
    pub a: Point,
    pub b: Point,
    pub c: Point,
    pub za: i32,
    pub zb: i32,
    pub zc: i32,
    pub ca: Rgb,
    pub cb: Rgb,
    pub cc: Rgb,
}

pub open spec fn min3(a: int, b: int, c: int) -> int {
    if a <= b && a <= c { a } else if b <= c { b } else { c }
}

pub open spec fn max3(a: int, b: int, c: int) -> int {
    if a >= b && a >= c { a } else if b >= c { b } else { c }
}

fn min3_exec(a: i32, b: i32, c: i32) -> (r: i32)
    ensures
        r == min3(a as int, b as int, c as int),
{
    if a <= b && a <= c {
        a
    } else if b <= c {
        b
    } else {
        c
    }
}

fn max3_exec(a: i32, b: i32, c: i32) -> (r: i32)
    ensures
        r == max3(a as int, b as int, c as int),
{
    if a >= b && a >= c {
        a
    } else if b >= c {
        b
    } else {
        c
    }
}

/// Twice the signed area of the triangle: the edge function of `b -> c` at `a`.
pub open spec fn total(p: Projected) -> int {
    edge(p.b, p.c, p.a)
}

/// `e` with the sign that makes the triangle's area positive.
pub open spec fn oriented(e: int, t: int) -> int {
    if t > 0 { e } else { -e }
}

/// Whether the weight `e / t` lies in the closed unit interval.
pub open spec fn in_unit(e: int, t: int) -> bool {
    0 <= oriented(e, t) <= oriented(t, t)
}

pub open spec fn in_bbox(p: Projected, q: Point) -> bool {
    &&& min3(p.a.x as int, p.b.x as int, p.c.x as int) <= q.x <= max3(p.a.x as int, p.b.x as int, p.c.x as int)
    &&& min3(p.a.y as int, p.b.y as int, p.c.y as int) <= q.y <= max3(p.a.y as int, p.b.y as int, p.c.y as int)
}

/// Whether pixel `q` belongs to the triangle: the triangle has an area, `q`
/// lies in its bounding box, and its three barycentric weights lie in
/// `[0, 1]` (so the boundary is included).
pub open spec fn covered(p: Projected, q: Point) -> bool {
    let t = total(p);
    &&& t != 0
    &&& in_bbox(p, q)
    &&& in_unit(edge(p.b, p.c, q), t)
    &&& in_unit(edge(p.c, p.a, q), t)
    &&& in_unit(edge(p.a, p.b, q), t)
}

/// The corner values `va`, `vb`, `vc` weighted by the barycentric weights of
/// `q`, times the triangle's area.
pub open spec fn weighted(p: Projected, q: Point, va: int, vb: int, vc: int) -> int {
    let t = total(p);
    oriented(edge(p.b, p.c, q), t) * va + oriented(edge(p.c, p.a, q), t) * vb + oriented(
        edge(p.a, p.b, q),
        t,
    ) * vc
}

/// The interpolated depth at `q`, rounded down.
pub open spec fn frag_depth(p: Projected, q: Point) -> int {
    weighted(p, q, p.za as int, p.zb as int, p.zc as int) / oriented(total(p), total(p))
}

pub open spec fn frag_channel(p: Projected, q: Point, va: u8, vb: u8, vc: u8) -> int {
    weighted(p, q, va as int, vb as int, vc as int) / oriented(total(p), total(p))
}

/// The interpolated color at `q`, each channel rounded down.
pub open spec fn frag_color(p: Projected, q: Point) -> Rgb {
    Rgb {
        r: frag_channel(p, q, p.ca.r, p.cb.r, p.cc.r) as u8,
        g: frag_channel(p, q, p.ca.g, p.cb.g, p.cc.g) as u8,
        b: frag_channel(p, q, p.ca.b, p.cb.b, p.cc.b) as u8,
    }
}

/// Whether the triangle draws pixel `q` over a buffer that holds `buf` there.
pub open spec fn fragment_drawn(p: Projected, q: Point, buf: int) -> bool {
    covered(p, q) && PROJ_D <= frag_depth(p, q) <= buf
}

/// The barycentric weights of any point add up to the whole.
proof fn lemma_edges_sum(a: Point, b: Point, c: Point, q: Point)
    ensures
        edge(b, c, q) + edge(c, a, q) + edge(a, b, q) == edge(b, c, a),
{
    let (ax, ay, bx, by, cx, cy, qx, qy) = (
        a.x as int,
        a.y as int,
        b.x as int,
        b.y as int,
        c.x as int,
        c.y as int,
        q.x as int,
        q.y as int,
    );
    assert((qx - bx) * (cy - by) == qx * cy - qx * by - bx * cy + bx * by) by (nonlinear_arith);
    assert((qy - by) * (cx - bx) == qy * cx - qy * bx - by * cx + by * bx) by (nonlinear_arith);
    assert((qx - cx) * (ay - cy) == qx * ay - qx * cy - cx * ay + cx * cy) by (nonlinear_arith);
    assert((qy - cy) * (ax - cx) == qy * ax - qy * cx - cy * ax + cy * cx) by (nonlinear_arith);
    assert((qx - ax) * (by - ay) == qx * by - qx * ay - ax * by + ax * ay) by (nonlinear_arith);
    assert((qy - ay) * (bx - ax) == qy * bx - qy * ax - ay * bx + ay * ax) by (nonlinear_arith);
    assert((ax - bx) * (cy - by) == ax * cy - ax * by - bx * cy + bx * by) by (nonlinear_arith);
    assert((ay - by) * (cx - bx) == ay * cx - ay * bx - by * cx + by * bx) by (nonlinear_arith);
    assert(bx * by == by * bx && cx * cy == cy * cx && ax * ay == ay * ax && cx * ay == ay * cx
        && cy * ax == ax * cy && ax * by == by * ax && ay * bx == bx * ay) by (nonlinear_arith);
}

proof fn lemma_edge_bound(a: Point, b: Point, q: Point)
    ensures
        -0x2_0000_0000_0000_0000 <= edge(a, b, q) <= 0x2_0000_0000_0000_0000,
{
    let px = q.x - a.x;
    let py = q.y - a.y;
    let bx = b.x - a.x;
    let by = b.y - a.y;
    assert(-0x1_0000_0000_0000_0000 <= px * by <= 0x1_0000_0000_0000_0000) by (nonlinear_arith)
        requires
            -0x1_0000_0000 <= px <= 0x1_0000_0000,
            -0x1_0000_0000 <= by <= 0x1_0000_0000,
    ;
    assert(-0x1_0000_0000_0000_0000 <= py * bx <= 0x1_0000_0000_0000_0000) by (nonlinear_arith)
        requires
            -0x1_0000_0000 <= py <= 0x1_0000_0000,
            -0x1_0000_0000 <= bx <= 0x1_0000_0000,
    ;
}

/// A weighted sum of channel values with weights that add up to `t` lies
/// between zero and `255 * t`, so the blend is a channel value.
proof fn lemma_channel_in_range(wa: int, wb: int, wc: int, t: int, va: int, vb: int, vc: int)
    requires
        0 <= wa,
        0 <= wb,
        0 <= wc,
        wa + wb + wc == t,
        0 < t,
        0 <= va <= 255,
        0 <= vb <= 255,
        0 <= vc <= 255,
    ensures
        0 <= wa * va + wb * vb + wc * vc <= 255 * t,
        0 <= (wa * va + wb * vb + wc * vc) / t <= 255,
{
    let n = wa * va + wb * vb + wc * vc;
    assert(0 <= n <= 255 * t) by (nonlinear_arith)
        requires
            n == wa * va + wb * vb + wc * vc,
            0 <= wa,
            0 <= wb,
            0 <= wc,
            wa + wb + wc == t,
            0 <= va <= 255,
            0 <= vb <= 255,
            0 <= vc <= 255,
    ;
    lemma_div_is_ordered(n, 255 * t, t);
    lemma_div_by_multiple(255, t);
    lemma_div_pos_is_pos(n, t);
}

fn weighted_channel(wa: i128, wb: i128, wc: i128, t: i128, va: u8, vb: u8, vc: u8) -> (r: u8)
    requires
        0 <= wa,
        0 <= wb,
        0 <= wc,
        wa + wb + wc == t,
        0 < t <= 0x10_0000_0000_0000_0000,
    ensures
        r == (wa * va + wb * vb + wc * vc) / (t as int),
{
    proof {
        lemma_channel_in_range(wa as int, wb as int, wc as int, t as int, va as int, vb as int, vc as int);
        assert(wa * va <= wa * 255 && wb * vb <= wb * 255 && wc * vc <= wc * 255) by (nonlinear_arith)
            requires
                0 <= wa,
                0 <= wb,
                0 <= wc,
                va <= 255,
                vb <= 255,
                vc <= 255,
        ;
    }
    let n: i128 = wa * (va as i128) + wb * (vb as i128) + wc * (vc as i128);
    (n / t) as u8
}

/// The fragment of the triangle at pixel `q`: its depth and color where `q`
/// is covered, `None` elsewhere.
pub fn fragment_at(p: &Projected, q: Point) -> (r: Option<(i128, Rgb)>)
    ensures
        match r {
            Some((d, c)) => covered(*p, q) && d == frag_depth(*p, q) && c == frag_color(*p, q),
            None => !covered(*p, q),
        },
{
    let t0 = edge_function(p.b, p.c, p.a);
    if t0 == 0 {
        return None;
    }
    let x_min = min3_exec(p.a.x, p.b.x, p.c.x);
    let x_max = max3_exec(p.a.x, p.b.x, p.c.x);
    let y_min = min3_exec(p.a.y, p.b.y, p.c.y);
    let y_max = max3_exec(p.a.y, p.b.y, p.c.y);
    if q.x < x_min || q.x > x_max || q.y < y_min || q.y > y_max {
        return None;
    }
    proof {
        lemma_edge_bound(p.b, p.c, p.a);
        lemma_edge_bound(p.b, p.c, q);
        lemma_edge_bound(p.c, p.a, q);
        lemma_edge_bound(p.a, p.b, q);
        lemma_edges_sum(p.a, p.b, p.c, q);
    }
    let e_a0 = edge_function(p.b, p.c, q);
    let e_b0 = edge_function(p.c, p.a, q);
    let e_c0 = edge_function(p.a, p.b, q);
    let (t, e_a, e_b, e_c) = if t0 > 0 { (t0, e_a0, e_b0, e_c0) } else { (-t0, -e_a0, -e_b0, -e_c0) };
    if e_a < 0 || e_a > t || e_b < 0 || e_b > t || e_c < 0 || e_c > t {
        return None;
    }
    let color = Rgb {
        r: weighted_channel(e_a, e_b, e_c, t, p.ca.r, p.cb.r, p.cc.r),
        g: weighted_channel(e_a, e_b, e_c, t, p.ca.g, p.cb.g, p.cc.g),
        b: weighted_channel(e_a, e_b, e_c, t, p.ca.b, p.cb.b, p.cc.b),
    };
    proof {
        assert(-0x1_0000_0000_0000_0000_0000_0000 <= e_a * p.za <= 0x1_0000_0000_0000_0000_0000_0000) by (nonlinear_arith)
            requires
                0 <= e_a <= 0x2_0000_0000_0000_0000,
                -0x8000_0000 <= p.za < 0x8000_0000,
        ;
        assert(-0x1_0000_0000_0000_0000_0000_0000 <= e_b * p.zb <= 0x1_0000_0000_0000_0000_0000_0000) by (nonlinear_arith)
            requires
                0 <= e_b <= 0x2_0000_0000_0000_0000,
                -0x8000_0000 <= p.zb < 0x8000_0000,
        ;
        assert(-0x1_0000_0000_0000_0000_0000_0000 <= e_c * p.zc <= 0x1_0000_0000_0000_0000_0000_0000) by (nonlinear_arith)
            requires
                0 <= e_c <= 0x2_0000_0000_0000_0000,
                -0x8000_0000 <= p.zc < 0x8000_0000,
        ;
    }
    let n: i128 = e_a * (p.za as i128) + e_b * (p.zb as i128) + e_c * (p.zc as i128);
    let depth = crate::geometry::floor_div_exec(n, t);
    Some((depth, color))
}

/// The depth buffer after drawing the triangle over `depth`.
pub open spec fn fill_depth(p: Projected, depth: Seq<i64>) -> Seq<i64> {
    Seq::new(
        depth.len(),
        |i: int|
            if fragment_drawn(p, cell_point(i), depth[i] as int) {
                frag_depth(p, cell_point(i)) as i64
            } else {
                depth[i]
            },
    )
}

/// The colors after drawing the triangle over `pixels`, whose depths are `depth`.
pub open spec fn fill_pixels(p: Projected, depth: Seq<i64>, pixels: Seq<Rgb>) -> Seq<Rgb> {
    Seq::new(
        pixels.len(),
        |i: int|
            if fragment_drawn(p, cell_point(i), depth[i] as int) {
                frag_color(p, cell_point(i))
            } else {
                pixels[i]
            },
    )
}

/// Cell `i` already holds what filling the triangle over `d0`/`px0` puts there.
pub open spec fn cell_filled(p: Projected, d0: Seq<i64>, px0: Seq<Rgb>, d: Seq<i64>, px: Seq<Rgb>, i: int) -> bool {
    d[i] == fill_depth(p, d0)[i] && px[i] == fill_pixels(p, d0, px0)[i]
}

/// Cell `i` still holds what it held before.
pub open spec fn cell_kept(d0: Seq<i64>, px0: Seq<Rgb>, d: Seq<i64>, px: Seq<Rgb>, i: int) -> bool {
    d[i] == d0[i] && px[i] == px0[i]
}

/// Fills the triangle: every covered pixel that passes the depth test gets
/// the interpolated color and depth; every other cell keeps its contents.
pub fn fill_triangle(p: &Projected, frame: &mut Frame)
    requires
        old(frame).wf(),
    ensures
        final(frame).wf(),
        final(frame).depth@ == fill_depth(*p, old(frame).depth@),
        final(frame).pixels@ == fill_pixels(*p, old(frame).depth@, old(frame).pixels@),
{
    let ghost d0 = frame.depth@;
    let ghost px0 = frame.pixels@;
    let x_min = min3_exec(p.a.x, p.b.x, p.c.x);
    let x_max = max3_exec(p.a.x, p.b.x, p.c.x);
    let y_min = min3_exec(p.a.y, p.b.y, p.c.y);
    let y_max = max3_exec(p.a.y, p.b.y, p.c.y);

    // Device columns and rows of the bounding box, clipped to the canvas.
    let c_lo: i64 = if CANVAS_WIDTH / 2 + (x_min as i64) < 0 { 0 } else { CANVAS_WIDTH / 2 + x_min as i64 };
    let c_hi: i64 = if CANVAS_WIDTH / 2 + (x_max as i64) + 1 > CANVAS_WIDTH { CANVAS_WIDTH } else { CANVAS_WIDTH / 2 + x_max as i64 + 1 };
    let r_lo: i64 = if CANVAS_HEIGHT / 2 - (y_max as i64) < 0 { 0 } else { CANVAS_HEIGHT / 2 - y_max as i64 };
    let r_hi: i64 = if CANVAS_HEIGHT / 2 - (y_min as i64) + 1 > CANVAS_HEIGHT { CANVAS_HEIGHT } else { CANVAS_HEIGHT / 2 - y_min as i64 + 1 };

    let mut row: i64 = r_lo;
    while row < r_hi
        invariant
            frame.wf(),
            d0.len() == CANVAS_PIXELS,
            px0.len() == CANVAS_PIXELS,
            0 <= r_lo,
            r_hi <= CANVAS_HEIGHT,
            r_lo <= row,
            0 <= c_lo,
            c_hi <= CANVAS_WIDTH,
            r_lo == (if 300 - y_max < 0 { 0 } else { 300 - y_max }),
            r_hi == (if 300 - y_min + 1 > 600 { 600 } else { 300 - y_min + 1 }),
            c_lo == (if 400 + x_min < 0 { 0 } else { 400 + x_min }),
            c_hi == (if 400 + x_max + 1 > 800 { 800 } else { 400 + x_max + 1 }),
            x_min == min3(p.a.x as int, p.b.x as int, p.c.x as int),
            x_max == max3(p.a.x as int, p.b.x as int, p.c.x as int),
            y_min == min3(p.a.y as int, p.b.y as int, p.c.y as int),
            y_max == max3(p.a.y as int, p.b.y as int, p.c.y as int),
            forall|i: int|
                0 <= i < CANVAS_PIXELS && i / 800 < row
                    ==> cell_filled(*p, d0, px0, frame.depth@, frame.pixels@, i),
            forall|i: int|
                0 <= i < CANVAS_PIXELS && i / 800 >= row
                    ==> cell_kept(d0, px0, frame.depth@, frame.pixels@, i),
        decreases r_hi - row,
    {
        let mut col: i64 = c_lo;
        proof {
            assert forall|i: int|
                0 <= i < CANVAS_PIXELS && (i / 800 < row || (i / 800 == row && i % 800 < col))
                    implies cell_filled(*p, d0, px0, frame.depth@, frame.pixels@, i) by {
                lemma_point_of_cell(i);
                if i / 800 == row {
                    assert(cell_kept(d0, px0, frame.depth@, frame.pixels@, i));
                    assert(!in_bbox(*p, cell_point(i)));
                }
            }
            assert forall|i: int|
                0 <= i < CANVAS_PIXELS && !(i / 800 < row || (i / 800 == row && i % 800 < col))
                    implies cell_kept(d0, px0, frame.depth@, frame.pixels@, i) by {
                assert(i / 800 >= row);
            }
        }
        while col < c_hi
            invariant
                frame.wf(),
                d0.len() == CANVAS_PIXELS,
                px0.len() == CANVAS_PIXELS,
                0 <= r_lo <= row < r_hi <= CANVAS_HEIGHT,
                0 <= c_lo <= col,
                c_hi <= CANVAS_WIDTH,
                r_lo == (if 300 - y_max < 0 { 0 } else { 300 - y_max }),
                r_hi == (if 300 - y_min + 1 > 600 { 600 } else { 300 - y_min + 1 }),
                c_lo == (if 400 + x_min < 0 { 0 } else { 400 + x_min }),
                c_hi == (if 400 + x_max + 1 > 800 { 800 } else { 400 + x_max + 1 }),
                x_min == min3(p.a.x as int, p.b.x as int, p.c.x as int),
                x_max == max3(p.a.x as int, p.b.x as int, p.c.x as int),
                y_min == min3(p.a.y as int, p.b.y as int, p.c.y as int),
                y_max == max3(p.a.y as int, p.b.y as int, p.c.y as int),
                forall|i: int|
                    0 <= i < CANVAS_PIXELS && (i / 800 < row || (i / 800 == row && i % 800 < col))
                        ==> cell_filled(*p, d0, px0, frame.depth@, frame.pixels@, i),
                forall|i: int|
                    0 <= i < CANVAS_PIXELS && !(i / 800 < row || (i / 800 == row && i % 800 < col))
                        ==> cell_kept(d0, px0, frame.depth@, frame.pixels@, i),
            decreases c_hi - col,
        {
            let x: i32 = (col - CANVAS_WIDTH / 2) as i32;
            let y: i32 = (CANVAS_HEIGHT / 2 - row) as i32;
            let ghost i0: int = row * 800 + col;
            proof {
                lemma_cell_of_point(x as int, y as int);
                assert(cell_index(x as int, y as int) == i0);
                lemma_point_of_cell(i0);
            }
            let ghost dprev = frame.depth@;
            let ghost pprev = frame.pixels@;
            match fragment_at(p, Point { x, y }) {
                Some((depth, color)) => {
                    plot_fragment(frame, x, y, depth, color);
                },
                None => {},
            }
            proof {
                assert(cell_point(i0) == Point { x, y });
                assert(cell_kept(d0, px0, dprev, pprev, i0));
                assert(cell_filled(*p, d0, px0, frame.depth@, frame.pixels@, i0));
                assert forall|i: int|
                    0 <= i < CANVAS_PIXELS && (i / 800 < row || (i / 800 == row && i % 800 < col + 1))
                        implies cell_filled(*p, d0, px0, frame.depth@, frame.pixels@, i) by {
                    lemma_point_of_cell(i);
                    if i != i0 {
                        assert(frame.depth@[i] == dprev[i]);
                        assert(frame.pixels@[i] == pprev[i]);
                        assert(cell_filled(*p, d0, px0, dprev, pprev, i));
                    }
                }
                assert forall|i: int|
                    0 <= i < CANVAS_PIXELS && !(i / 800 < row || (i / 800 == row && i % 800 < col + 1))
                        implies cell_kept(d0, px0, frame.depth@, frame.pixels@, i) by {
                    lemma_point_of_cell(i);
                    assert(i != i0);
                    assert(frame.depth@[i] == dprev[i]);
                    assert(frame.pixels@[i] == pprev[i]);
                    assert(cell_kept(d0, px0, dprev, pprev, i));
                }
            }
            col = col + 1;
        }
        proof {
            assert forall|i: int|
                0 <= i < CANVAS_PIXELS && i / 800 < row + 1
                    implies cell_filled(*p, d0, px0, frame.depth@, frame.pixels@, i) by {
                lemma_point_of_cell(i);
                if i / 800 == row && i % 800 >= col {
                    assert(cell_kept(d0, px0, frame.depth@, frame.pixels@, i));
                }
            }
        }
        row = row + 1;
    }
    proof {
        assert forall|i: int| 0 <= i < CANVAS_PIXELS
            implies cell_filled(*p, d0, px0, frame.depth@, frame.pixels@, i) by {
            lemma_point_of_cell(i);
            if i / 800 >= row {
                assert(cell_kept(d0, px0, frame.depth@, frame.pixels@, i));
            }
        }
        assert forall|i: int| 0 <= i < CANVAS_PIXELS
            implies #[trigger] frame.depth@[i] == fill_depth(*p, d0)[i] by {
            assert(cell_filled(*p, d0, px0, frame.depth@, frame.pixels@, i));
        }
        assert forall|i: int| 0 <= i < CANVAS_PIXELS
            implies #[trigger] frame.pixels@[i] == fill_pixels(*p, d0, px0)[i] by {
            assert(cell_filled(*p, d0, px0, frame.depth@, frame.pixels@, i));
        }
        assert(frame.depth@ =~= fill_depth(*p, d0));
        assert(frame.pixels@ =~= fill_pixels(*p, d0, px0));
    }
}

/// Nearer wins whatever the order: where two triangles both cover a cell,
/// the first strictly nearer than the second, both no nearer than the
/// viewport plane and no farther than what the buffer holds there, drawing
/// them in either order leaves the nearer one's color and depth in the cell.
pub proof fn lemma_nearer_wins(p: Projected, q: Projected, depth: Seq<i64>, pixels: Seq<Rgb>, i: int)
    requires
        depth.len() == pixels.len(),
        0 <= i < depth.len(),
        covered(p, cell_point(i)),
        covered(q, cell_point(i)),
        PROJ_D <= frag_depth(p, cell_point(i)) < frag_depth(q, cell_point(i)) <= depth[i],
    ensures
        fill_pixels(q, fill_depth(p, depth), fill_pixels(p, depth, pixels))[i] == frag_color(p, cell_point(i)),
        fill_pixels(p, fill_depth(q, depth), fill_pixels(q, depth, pixels))[i] == frag_color(p, cell_point(i)),
        fill_depth(q, fill_depth(p, depth))[i] == frag_depth(p, cell_point(i)),
        fill_depth(p, fill_depth(q, depth))[i] == frag_depth(p, cell_point(i)),
{
}

/// At a pixel that is exactly the centroid of a triangle with an area, the
/// pixel is covered and each corner weighs a third: color and depth are the
/// averages of the corners', rounded down.
pub proof fn lemma_centroid(p: Projected, q: Point)
    requires
        total(p) != 0,
        3 * q.x == p.a.x + p.b.x + p.c.x,
        3 * q.y == p.a.y + p.b.y + p.c.y,
    ensures
        covered(p, q),
        frag_color(p, q).r == (p.ca.r + p.cb.r + p.cc.r) / 3,
        frag_color(p, q).g == (p.ca.g + p.cb.g + p.cc.g) / 3,
        frag_color(p, q).b == (p.ca.b + p.cb.b + p.cc.b) / 3,
        frag_depth(p, q) == (p.za + p.zb + p.zc) / 3,
{
    let t = total(p);
    lemma_edges_sum(p.a, p.b, p.c, q);
    let (ax, ay, bx, by, cx, cy, qx, qy) = (
        p.a.x as int,
        p.a.y as int,
        p.b.x as int,
        p.b.y as int,
        p.c.x as int,
        p.c.y as int,
        q.x as int,
        q.y as int,
    );
    assert(3 * ((qx - bx) * (cy - by) - (qy - by) * (cx - bx)) == (ax - bx) * (cy - by) - (ay - by) * (cx - bx)) by (nonlinear_arith)
        requires
            3 * qx == ax + bx + cx,
            3 * qy == ay + by + cy,
    ;
    assert(3 * ((qx - cx) * (ay - cy) - (qy - cy) * (ax - cx)) == (ax - bx) * (cy - by) - (ay - by) * (cx - bx)) by (nonlinear_arith)
        requires
            3 * qx == ax + bx + cx,
            3 * qy == ay + by + cy,
    ;
    let e = oriented(edge(p.b, p.c, q), t);
    let tt = oriented(t, t);
    assert(3 * e == tt);
    assert(0 < e);
    lemma_centroid_average(e, p.ca.r as int, p.cb.r as int, p.cc.r as int);
    lemma_centroid_average(e, p.ca.g as int, p.cb.g as int, p.cc.g as int);
    lemma_centroid_average(e, p.ca.b as int, p.cb.b as int, p.cc.b as int);
    lemma_centroid_average(e, p.za as int, p.zb as int, p.zc as int);
    lemma_channel_in_range(e, e, e, tt, p.ca.r as int, p.cb.r as int, p.cc.r as int);
    lemma_channel_in_range(e, e, e, tt, p.ca.g as int, p.cb.g as int, p.cc.g as int);
    lemma_channel_in_range(e, e, e, tt, p.ca.b as int, p.cb.b as int, p.cc.b as int);
}

proof fn lemma_centroid_average(e: int, va: int, vb: int, vc: int)
    requires
        0 < e,
    ensures
        (e * va + e * vb + e * vc) / (3 * e) == (va + vb + vc) / 3,
{
    let s = va + vb + vc;
    lemma_fundamental_div_mod(s, 3);
    let qq = s / 3;
    let rr = s % 3;
    assert(e * va + e * vb + e * vc == qq * (3 * e) + e * rr) by (nonlinear_arith)
        requires
            s == va + vb + vc,
            s == 3 * qq + rr,
    ;
    assert(0 <= e * rr < 3 * e) by (nonlinear_arith)
        requires
            0 <= rr < 3,
            0 < e,
    ;
    lemma_fundamental_div_mod_converse(e * va + e * vb + e * vc, 3 * e, qq, e * rr);
}

/// The triangle on the canvas, if each corner has a canvas position.
pub open spec fn projected(t: Triangle) -> Option<Projected> {
    match (
        projection(t.v0.0, PROJ_D as int),
        projection(t.v1.0, PROJ_D as int),
        projection(t.v2.0, PROJ_D as int),
    ) {
        (Some(a), Some(b), Some(c)) => Some(
            Projected {
                a: Point { x: a.0 as i32, y: a.1 as i32 },
                b: Point { x: b.0 as i32, y: b.1 as i32 },
                c: Point { x: c.0 as i32, y: c.1 as i32 },
                za: t.v0.0.z,
                zb: t.v1.0.z,
                zc: t.v2.0.z,
                ca: t.v0.1,
                cb: t.v1.1,
                cc: t.v2.1,
            },
        ),
        _ => None,
    }
}

/// The depth buffer after drawing `t` over `depth`.
pub open spec fn draw_depth(t: Triangle, depth: Seq<i64>) -> Seq<i64> {
    match projected(t) {
        Some(p) => fill_depth(p, depth),
        None => depth,
    }
}

/// The colors after drawing `t` over `pixels`, whose depths are `depth`.
pub open spec fn draw_pixels(t: Triangle, depth: Seq<i64>, pixels: Seq<Rgb>) -> Seq<Rgb> {
    match projected(t) {
        Some(p) => fill_pixels(p, depth, pixels),
        None => pixels,
    }
}

impl Triangle {
    /// Projects the three corners onto the canvas; `None` where a corner
    /// has no canvas position.
    pub fn project(&self) -> (r: Option<Projected>)
        ensures
            r == projected(*self),
    {
        let a = project_vertex(self.v0.0, PROJ_D as i32);
        let b = project_vertex(self.v1.0, PROJ_D as i32);
        let c = project_vertex(self.v2.0, PROJ_D as i32);
        match (a, b, c) {
            (Some(a), Some(b), Some(c)) => Some(
                Projected {
                    a,
                    b,
                    c,
                    za: self.v0.0.z,
                    zb: self.v1.0.z,
                    zc: self.v2.0.z,
                    ca: self.v0.1,
                    cb: self.v1.1,
                    cc: self.v2.1,
                },
            ),
            _ => None,
        }
    }

    /// Draws the filled triangle, depth-tested; a triangle with a corner
    /// that cannot be projected is skipped.
    pub fn draw(&self, frame: &mut Frame)
        requires
            old(frame).wf(),
        ensures
            final(frame).wf(),
            final(frame).depth@ == draw_depth(*self, old(frame).depth@),
            final(frame).pixels@ == draw_pixels(*self, old(frame).depth@, old(frame).pixels@),
    {
        match self.project() {
            Some(p) => fill_triangle(&p, frame),
            None => {},
        }
    }
}

} // verus!
