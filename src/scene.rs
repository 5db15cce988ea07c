use vstd::prelude::*;
use crate::color::Rgb;
use crate::geometry::Triangle;
use crate::geometry::Vec3;
use crate::raster::Frame;
use crate::raster::draw_depth;
use crate::raster::draw_pixels;
use crate::raster::projected;
use crate::raster::covered;
use crate::raster::frag_depth;
use crate::raster::frag_color;
use crate::raster::cell_point;
use crate::line::Point;
use crate::geometry::PROJ_D;
use crate::transform::Mat4;
use crate::transform::transformed;
use crate::wire::wireframe_drawn;

verus! {

/// Channels of the color given to every vertex of a loaded mesh.
pub const MESH_RED: u8 = 203;
pub const MESH_GREEN: u8 = 195;
pub const MESH_BLUE: u8 = 227;

/// The color given to every vertex of a loaded mesh.
pub open spec fn mesh_color() -> Rgb {
    Rgb { r: MESH_RED, g: MESH_GREEN, b: MESH_BLUE }
}

/// How an object is drawn: filled and depth-tested, or as outlines.
#[derive(Clone, Copy, Debug, PartialEq, Eq, Structural)]
pub enum DrawMode {
    Filled,
    Wireframe,
}

/// One mesh: its triangles, in order.
#[derive(Debug)]
pub struct Object {
    pub triangles: Vec<Triangle>,
}

/// Depth buffer and colors after drawing the triangles `ts` in order.
pub open spec fn scene_frame(ts: Seq<Triangle>, depth: Seq<i64>, pixels: Seq<Rgb>) -> (Seq<i64>, Seq<Rgb>)
    decreases ts.len(),
{
    if ts.len() == 0 {
        (depth, pixels)
    } else {
        let before = scene_frame(ts.drop_last(), depth, pixels);
        (draw_depth(ts.last(), before.0), draw_pixels(ts.last(), before.0, before.1))
    }
}

/// Colors after drawing the outlines of the triangles `ts` in order.
pub open spec fn scene_wireframe(ts: Seq<Triangle>, pixels: Seq<Rgb>) -> Seq<Rgb>
    decreases ts.len(),
{
    if ts.len() == 0 {
        pixels
    } else {
        wireframe_drawn(ts.last(), scene_wireframe(ts.drop_last(), pixels))
    }
}

/// Whether `t` covers pixel `q` once projected.
pub open spec fn covers(t: Triangle, q: Point) -> bool {
    match projected(t) {
        Some(p) => covered(p, q),
        None => false,
    }
}

/// The interpolated depth of `t` at pixel `q` (zero where `t` has no projection).
pub open spec fn depth_at(t: Triangle, q: Point) -> int {
    match projected(t) {
        Some(p) => frag_depth(p, q),
        None => 0,
    }
}

/// The interpolated color of `t` at pixel `q` (black where `t` has no projection).
pub open spec fn color_at(t: Triangle, q: Point) -> Rgb {
    match projected(t) {
        Some(p) => frag_color(p, q),
        None => Rgb { r: 0, g: 0, b: 0 },
    }
}

proof fn lemma_nearest_prefix(
    ts: Seq<Triangle>,
    depth: Seq<i64>,
    pixels: Seq<Rgb>,
    i: int,
    k: int,
    m: int,
)
    requires
        depth.len() == pixels.len(),
        0 <= i < depth.len(),
        0 <= k < ts.len(),
        0 <= m <= ts.len(),
        covers(ts[k], cell_point(i)),
        PROJ_D <= depth_at(ts[k], cell_point(i)) <= depth[i],
        forall|j: int|
            0 <= j < ts.len() && j != k && covers(#[trigger] ts[j], cell_point(i)) ==> depth_at(
                ts[j],
                cell_point(i),
            ) > depth_at(ts[k], cell_point(i)),
    ensures
        scene_frame(ts.take(m), depth, pixels).0.len() == depth.len(),
        scene_frame(ts.take(m), depth, pixels).1.len() == pixels.len(),
        m <= k ==> scene_frame(ts.take(m), depth, pixels).0[i] >= depth_at(ts[k], cell_point(i)),
        m > k ==> scene_frame(ts.take(m), depth, pixels).0[i] == depth_at(ts[k], cell_point(i)),
        m > k ==> scene_frame(ts.take(m), depth, pixels).1[i] == color_at(ts[k], cell_point(i)),
    decreases m,
{
    if m > 0 {
        lemma_nearest_prefix(ts, depth, pixels, i, k, m - 1);
        assert(ts.take(m).drop_last() == ts.take(m - 1));
        assert(ts.take(m).last() == ts[m - 1]);
    } else {
        assert(ts.take(0) =~= Seq::<Triangle>::empty());
    }
}

/// Nearest wins, in any drawing order: where one triangle of `ts` covers
/// cell `i` at a depth no nearer than the viewport plane and no farther than
/// the buffer holds there, and every other triangle of `ts` that covers the
/// cell lies strictly farther, drawing `ts` in order leaves that triangle's
/// color and depth in the cell. Nothing here depends on where in `ts` the
/// triangle stands, so every order of the same triangles gives that cell
/// the same result.
pub proof fn lemma_nearest_wins(ts: Seq<Triangle>, depth: Seq<i64>, pixels: Seq<Rgb>, i: int, k: int)
    requires
        depth.len() == pixels.len(),
        0 <= i < depth.len(),
        0 <= k < ts.len(),
        covers(ts[k], cell_point(i)),
        PROJ_D <= depth_at(ts[k], cell_point(i)) <= depth[i],
        forall|j: int|
            0 <= j < ts.len() && j != k && covers(#[trigger] ts[j], cell_point(i)) ==> depth_at(
                ts[j],
                cell_point(i),
            ) > depth_at(ts[k], cell_point(i)),
    ensures
        scene_frame(ts, depth, pixels).0[i] == depth_at(ts[k], cell_point(i)),
        scene_frame(ts, depth, pixels).1[i] == color_at(ts[k], cell_point(i)),
{
    lemma_nearest_prefix(ts, depth, pixels, i, k, ts.len() as int);
    assert(ts.take(ts.len() as int) == ts);
}

/// Whether index `k` of a triangle list reads a vertex that `n` positions lack.
pub open spec fn index_missing(indices: Seq<u32>, n: int, k: int) -> bool {
    0 <= k < 3 * (indices.len() / 3) && indices[k] >= n
}

/// Triangle `k` of a mesh: the positions that indices `3k`, `3k + 1`, `3k + 2`
/// name, each with `mesh_color()`.
pub open spec fn mesh_triangle(positions: Seq<Vec3>, indices: Seq<u32>, k: int) -> Triangle {
    Triangle {
        v0: (positions[indices[3 * k] as int], mesh_color()),
        v1: (positions[indices[3 * k + 1] as int], mesh_color()),
        v2: (positions[indices[3 * k + 2] as int], mesh_color()),
    }
}

/// The triangles of a mesh given as positions and a flat list of vertex
/// indices, three per triangle (a last incomplete group is ignored);
/// `None` where an index names no position.
pub fn create_triangles(positions: &Vec<Vec3>, indices: &Vec<u32>) -> (r: Option<Vec<Triangle>>)
    ensures
        r is None <==> exists|k: int| index_missing(indices@, positions@.len() as int, k),
        r matches Some(ts) ==> ts@.len() == indices@.len() / 3 && forall|k: int|
            0 <= k < ts@.len() ==> #[trigger] ts@[k] == mesh_triangle(positions@, indices@, k),
{
    let mut triangles: Vec<Triangle> = Vec::new();
    let len: usize = indices.len();
    let n: usize = len / 3;
    let mut i: usize = 0;
    proof {
        vstd::arithmetic::div_mod::lemma_fundamental_div_mod(indices@.len() as int, 3);
    }
    while i < n
        invariant
            len == indices@.len(),
            n == indices@.len() / 3,
            3 * n <= indices@.len(),
            i <= n,
            triangles@.len() == i,
            forall|k: int| 0 <= k < i ==> #[trigger] triangles@[k] == mesh_triangle(positions@, indices@, k),
            forall|k: int| 0 <= k < 3 * i ==> !index_missing(indices@, positions@.len() as int, k),
        decreases n - i,
    {
        assert(3 * i + 2 < indices@.len());
        let base: usize = 3 * i;
        let i0 = indices[base] as usize;
        let i1 = indices[base + 1] as usize;
        let i2 = indices[base + 2] as usize;
        if i0 >= positions.len() {
            assert(index_missing(indices@, positions@.len() as int, 3 * i));
            return None;
        }
        if i1 >= positions.len() {
            assert(index_missing(indices@, positions@.len() as int, 3 * i + 1));
            return None;
        }
        if i2 >= positions.len() {
            assert(index_missing(indices@, positions@.len() as int, 3 * i + 2));
            return None;
        }
        let color = Rgb { r: MESH_RED, g: MESH_GREEN, b: MESH_BLUE };
        let v0 = (positions[i0], color);
        let v1 = (positions[i1], color);
        let v2 = (positions[i2], color);
        triangles.push(Triangle { v0, v1, v2 });
        i = i + 1;
    }
    Some(triangles)
}

/// Whether `o` holds exactly the triangles of the mesh with `positions` and `indices`.
pub open spec fn is_mesh_object(o: Object, positions: Seq<Vec3>, indices: Seq<u32>) -> bool {
    &&& o.triangles@.len() == indices.len() / 3
    &&& forall|k: int|
        0 <= k < o.triangles@.len() ==> #[trigger] o.triangles@[k] == mesh_triangle(positions, indices, k)
}

/// Whether mesh `m` of `meshes` has an index that names no position.
pub open spec fn mesh_broken(meshes: Seq<(Vec<Vec3>, Vec<u32>)>, m: int) -> bool {
    exists|k: int| index_missing(meshes[m].1@, meshes[m].0@.len() as int, k)
}

/// One object per mesh, each mesh given as positions and vertex indices;
/// `None` where some mesh has an index that names no position, so that a
/// model is never loaded in part.
pub fn create_objects(meshes: &Vec<(Vec<Vec3>, Vec<u32>)>) -> (r: Option<Vec<Object>>)
    ensures
        r is None <==> exists|m: int| 0 <= m < meshes@.len() && #[trigger] mesh_broken(meshes@, m),
        r matches Some(os) ==> os@.len() == meshes@.len() && forall|m: int|
            0 <= m < os@.len() ==> is_mesh_object(#[trigger] os@[m], meshes@[m].0@, meshes@[m].1@),
{
    let mut objects: Vec<Object> = Vec::new();
    let mut i: usize = 0;
    while i < meshes.len()
        invariant
            i <= meshes@.len(),
            objects@.len() == i,
            forall|m: int| 0 <= m < i ==> !#[trigger] mesh_broken(meshes@, m),
            forall|m: int|
                0 <= m < i ==> is_mesh_object(#[trigger] objects@[m], meshes@[m].0@, meshes@[m].1@),
        decreases meshes@.len() - i,
    {
        let mesh = &meshes[i];
        match create_triangles(&mesh.0, &mesh.1) {
            Some(triangles) => {
                objects.push(Object { triangles });
                assert(is_mesh_object(objects@[i as int], meshes@[i as int].0@, meshes@[i as int].1@));
            },
            None => {
                assert(mesh_broken(meshes@, i as int));
                return None;
            },
        }
        i = i + 1;
    }
    Some(objects)
}

impl Object {
    /// The object with every triangle transformed by `shader`; `None` where
    /// a transformed position does not fit.
    pub fn apply_vertex_shader(&self, shader: Mat4) -> (r: Option<Object>)
        ensures
            r is None <==> exists|k: int| 0 <= k < self.triangles@.len() && transformed(shader, #[trigger] self.triangles@[k]) is None,
            r matches Some(o) ==> o.triangles@.len() == self.triangles@.len() && forall|k: int|
                0 <= k < self.triangles@.len() ==> transformed(shader, #[trigger] self.triangles@[k]) == Some(o.triangles@[k]),
    {
        let mut new_triangles: Vec<Triangle> = Vec::new();
        let mut i: usize = 0;
        while i < self.triangles.len()
            invariant
                i <= self.triangles@.len(),
                new_triangles@.len() == i,
                forall|k: int| 0 <= k < i ==> transformed(shader, #[trigger] self.triangles@[k]) == Some(new_triangles@[k]),
            decreases self.triangles@.len() - i,
        {
            match self.triangles[i].transform(&shader) {
                Some(t) => new_triangles.push(t),
                None => {
                    return None;
                },
            }
            i = i + 1;
        }
        Some(Object { triangles: new_triangles })
    }

    /// Draws every triangle, filled and depth-tested, in order.
    pub fn draw(&self, frame: &mut Frame)
        requires
            old(frame).wf(),
        ensures
            final(frame).wf(),
            (final(frame).depth@, final(frame).pixels@) == scene_frame(self.triangles@, old(frame).depth@, old(frame).pixels@),
    {
        let ghost d0 = frame.depth@;
        let ghost px0 = frame.pixels@;
        let mut i: usize = 0;
        while i < self.triangles.len()
            invariant
                i <= self.triangles@.len(),
                frame.wf(),
                (frame.depth@, frame.pixels@) == scene_frame(self.triangles@.take(i as int), d0, px0),
            decreases self.triangles@.len() - i,
        {
            proof {
                assert(self.triangles@.take(i as int + 1).drop_last() == self.triangles@.take(i as int));
            }
            self.triangles[i].draw(frame);
            i = i + 1;
        }
        proof {
            assert(self.triangles@.take(i as int) == self.triangles@);
        }
    }
    /// Draws the outline of every triangle, in order, without a depth test.
    pub fn draw_wireframe(&self, frame: &mut Frame)
        requires
            old(frame).wf(),
        ensures
            final(frame).wf(),
            final(frame).depth@ == old(frame).depth@,
            final(frame).pixels@ == scene_wireframe(self.triangles@, old(frame).pixels@),
    {
        let ghost px0 = frame.pixels@;
        let mut i: usize = 0;
        while i < self.triangles.len()
            invariant
                i <= self.triangles@.len(),
                frame.wf(),
                frame.depth@ == old(frame).depth@,
                frame.pixels@ == scene_wireframe(self.triangles@.take(i as int), px0),
            decreases self.triangles@.len() - i,
        {
            proof {
                assert(self.triangles@.take(i as int + 1).drop_last() == self.triangles@.take(i as int));
            }
            self.triangles[i].draw_wireframe(frame);
            i = i + 1;
        }
        proof {
            assert(self.triangles@.take(i as int) == self.triangles@);
        }
    }
    /// Draws the object in the given mode.
    pub fn render(&self, mode: DrawMode, frame: &mut Frame)
        requires
            old(frame).wf(),
        ensures
            final(frame).wf(),
            mode == DrawMode::Filled ==> (final(frame).depth@, final(frame).pixels@) == scene_frame(
                self.triangles@,
                old(frame).depth@,
                old(frame).pixels@,
            ),
            mode == DrawMode::Wireframe ==> final(frame).depth@ == old(frame).depth@
                && final(frame).pixels@ == scene_wireframe(self.triangles@, old(frame).pixels@),
    {
        match mode {
            DrawMode::Filled => self.draw(frame),
            DrawMode::Wireframe => self.draw_wireframe(frame),
        }
    }
}

} // verus!
