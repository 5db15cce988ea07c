use vstd::prelude::*;
use crate::color::Rgb;
use crate::color::blend;
use crate::color::interpolate_color;
use crate::color::lemma_blend_in_range;
use crate::geometry::CANVAS_WIDTH;
use crate::geometry::CANVAS_HEIGHT;
use crate::geometry::Triangle;
use crate::line::Point;
use crate::line::interpolate_line;
use crate::line::line_len;
use crate::line::line_point;
use crate::line::step_sign;
use crate::line::abs;
use crate::raster::Frame;
use crate::raster::on_canvas;
use crate::raster::cell_index;
use crate::raster::cell_point;
use crate::raster::put_pixel;
use crate::raster::projected;

verus! {

/// The color of point `k` of a line of `n + 1` points from `c0` to `c1`.
pub open spec fn line_color(c0: Rgb, c1: Rgb, k: int, n: int) -> Rgb {
    Rgb {
        r: blend(c0.r as int, c1.r as int, k, n) as u8,
        g: blend(c0.g as int, c1.g as int, k, n) as u8,
        b: blend(c0.b as int, c1.b as int, k, n) as u8,
    }
}

/// Whether point `k` of the line from `p0` to `p1` is on the canvas, in cell `i`.
pub open spec fn line_hits(p0: Point, p1: Point, k: int, i: int) -> bool {
    &&& 0 <= k < line_len(p0, p1)
    &&& on_canvas(line_point(p0, p1, k).0, line_point(p0, p1, k).1)
    &&& cell_index(line_point(p0, p1, k).0, line_point(p0, p1, k).1) == i
}

/// The colors after drawing the first `m` points of the line from `p0`
/// (color `c0`) to `p1` (color `c1`) over `pixels`; points off the canvas
/// are dropped.
pub open spec fn line_pixels(p0: Point, p1: Point, c0: Rgb, c1: Rgb, pixels: Seq<Rgb>, m: int) -> Seq<Rgb> {
    Seq::new(
        pixels.len(),
        |i: int|
            if exists|k: int| 0 <= k < m && line_hits(p0, p1, k, i) {
                line_color(c0, c1, choose|k: int| 0 <= k < m && line_hits(p0, p1, k, i), line_len(p0, p1) - 1)
            } else {
                pixels[i]
            },
    )
}

/// The colors after drawing the whole line.
pub open spec fn line_drawn(p0: Point, p1: Point, c0: Rgb, c1: Rgb, pixels: Seq<Rgb>) -> Seq<Rgb> {
    line_pixels(p0, p1, c0, c1, pixels, line_len(p0, p1))
}

/// The colors after drawing the outline `p0 -> p1 -> p2 -> p0`.
pub open spec fn outline_drawn(
    p0: Point,
    p1: Point,
    p2: Point,
    c0: Rgb,
    c1: Rgb,
    c2: Rgb,
    pixels: Seq<Rgb>,
) -> Seq<Rgb> {
    line_drawn(p2, p0, c2, c0, line_drawn(p1, p2, c1, c2, line_drawn(p0, p1, c0, c1, pixels)))
}

/// The colors after drawing the outline of `t`; a triangle with a corner
/// that cannot be projected is skipped.
pub open spec fn wireframe_drawn(t: Triangle, pixels: Seq<Rgb>) -> Seq<Rgb> {
    match projected(t) {
        Some(p) => outline_drawn(p.a, p.b, p.c, p.ca, p.cb, p.cc, pixels),
        None => pixels,
    }
}

/// No two points of a line share a canvas cell.
proof fn lemma_line_hits_unique(p0: Point, p1: Point, k1: int, k2: int, i: int)
    requires
        line_hits(p0, p1, k1, i),
        line_hits(p0, p1, k2, i),
    ensures
        k1 == k2,
{
    let q1 = line_point(p0, p1, k1);
    let q2 = line_point(p0, p1, k2);
    crate::raster::lemma_cell_of_point(q1.0, q1.1);
    crate::raster::lemma_cell_of_point(q2.0, q2.1);
    assert(q1 == q2);
    let sx = step_sign(p0.x as int, p1.x as int);
    let sy = step_sign(p0.y as int, p1.y as int);
    if abs(p1.x - p0.x) >= abs(p1.y - p0.y) {
        assert(sx * k1 == sx * k2);
        assert(k1 == k2) by (nonlinear_arith)
            requires
                sx * k1 == sx * k2,
                sx == 1 || sx == -1,
        ;
    } else {
        assert(sy * k1 == sy * k2);
        assert(k1 == k2) by (nonlinear_arith)
            requires
                sy * k1 == sy * k2,
                sy == 1 || sy == -1,
        ;
    }
}

/// Draws the line from `p0` to `p1`, its colors blended from `color0` to
/// `color1` along its points; points off the canvas are dropped. No depth
/// test is made.
pub fn draw_line(frame: &mut Frame, p0: Point, p1: Point, color0: Rgb, color1: Rgb)
    requires
        old(frame).wf(),
    ensures
        final(frame).wf(),
        final(frame).depth@ == old(frame).depth@,
        final(frame).pixels@ == line_drawn(p0, p1, color0, color1, old(frame).pixels@),
{
    let ghost px0 = frame.pixels@;
    let line = interpolate_line(p0, p1);
    let colors = interpolate_color(color0, color1, line.len() - 1);
    let ghost n = line_len(p0, p1) - 1;
    let mut i: usize = 0;
    proof {
        assert(frame.pixels@ =~= line_pixels(p0, p1, color0, color1, px0, 0));
    }
    while i < line.len()
        invariant
            frame.wf(),
            line@.len() == line_len(p0, p1),
            colors@.len() == line@.len(),
            n == line@.len() - 1,
            i <= line@.len(),
            forall|k: int| 0 <= k < line@.len() ==> crate::line::is_line_point(#[trigger] line@[k], p0, p1, k),
            forall|k: int| 0 <= k <= n ==> crate::color::is_blend(#[trigger] colors@[k], color0, color1, k, n),
            frame.depth@ == old(frame).depth@,
            px0 == old(frame).pixels@,
            frame.pixels@ == line_pixels(p0, p1, color0, color1, px0, i as int),
        decreases line@.len() - i,
    {
        let point = line[i];
        let color = colors[i];
        let ghost before = frame.pixels@;
        proof {
            lemma_blend_in_range_all(color0, color1, i as int, n);
            assert(color == line_color(color0, color1, i as int, n));
        }
        let dx: i64 = CANVAS_WIDTH / 2 + point.x as i64;
        let dy: i64 = CANVAS_HEIGHT / 2 - point.y as i64;
        if 0 <= dx && dx < CANVAS_WIDTH && 0 <= dy && dy < CANVAS_HEIGHT {
            put_pixel(frame, point.x, point.y, color);
        }
        proof {
            let next = line_pixels(p0, p1, color0, color1, px0, i as int + 1);
            assert forall|j: int| 0 <= j < frame.pixels@.len() implies frame.pixels@[j] == next[j] by {
                if line_hits(p0, p1, i as int, j) {
                    let kk = choose|k: int| 0 <= k < i + 1 && line_hits(p0, p1, k, j);
                    lemma_line_hits_unique(p0, p1, kk, i as int, j);
                } else {
                    if exists|k: int| 0 <= k < i && line_hits(p0, p1, k, j) {
                        let k1 = choose|k: int| 0 <= k < i && line_hits(p0, p1, k, j);
                        let k2 = choose|k: int| 0 <= k < i + 1 && line_hits(p0, p1, k, j);
                        lemma_line_hits_unique(p0, p1, k1, k2, j);
                    }
                    if on_canvas(point.x as int, point.y as int) {
                        assert(j != cell_index(point.x as int, point.y as int));
                    }
                }
            }
            assert(frame.pixels@ =~= next);
        }
        i = i + 1;
    }
}

proof fn lemma_blend_in_range_all(c0: Rgb, c1: Rgb, k: int, n: int)
    requires
        0 <= k <= n,
    ensures
        0 <= blend(c0.r as int, c1.r as int, k, n) <= 255,
        0 <= blend(c0.g as int, c1.g as int, k, n) <= 255,
        0 <= blend(c0.b as int, c1.b as int, k, n) <= 255,
{
    if n > 0 {
        lemma_blend_in_range(c0.r as int, c1.r as int, k, n);
        lemma_blend_in_range(c0.g as int, c1.g as int, k, n);
        lemma_blend_in_range(c0.b as int, c1.b as int, k, n);
    }
}

/// A line whose ends coincide is the single pixel `p`, drawn in `c0`.
pub proof fn lemma_degenerate_line(p: Point, c0: Rgb, c1: Rgb)
    ensures
        line_len(p, p) == 1,
        line_point(p, p, 0) == (p.x as int, p.y as int),
        line_color(c0, c1, 0, line_len(p, p) - 1) == c0,
{
    crate::line::lemma_line_shape(p, p);
}

/// Draws the three edges of a triangle as blended lines, without a depth test.
pub fn draw_triangle_outline(
    frame: &mut Frame,
    p0: Point,
    p1: Point,
    p2: Point,
    color0: Rgb,
    color1: Rgb,
    color2: Rgb,
)
    requires
        old(frame).wf(),
    ensures
        final(frame).wf(),
        final(frame).depth@ == old(frame).depth@,
        final(frame).pixels@ == outline_drawn(p0, p1, p2, color0, color1, color2, old(frame).pixels@),
{
    draw_line(frame, p0, p1, color0, color1);
    draw_line(frame, p1, p2, color1, color2);
    draw_line(frame, p2, p0, color2, color0);
}

impl Triangle {
    /// Draws the projected outline of the triangle, each edge blended
    /// between its corners' colors, without a depth test.
    pub fn draw_wireframe(&self, frame: &mut Frame)
        requires
            old(frame).wf(),
        ensures
            final(frame).wf(),
            final(frame).depth@ == old(frame).depth@,
            final(frame).pixels@ == wireframe_drawn(*self, old(frame).pixels@),
    {
        match self.project() {
            Some(p) => draw_triangle_outline(frame, p.a, p.b, p.c, p.ca, p.cb, p.cc),
            None => {},
        }
    }
}

} // verus!
