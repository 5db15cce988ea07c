use rasterizer::color::{interpolate_color, Rgb};
use rasterizer::control::{FrameState, Key, ROT_STEP, ZOOM_START, ZOOM_STEP};
use rasterizer::geometry::{edge_function, project_vertex, Triangle, Vec3, PROJ_D};
use rasterizer::line::{interpolate_line, Point};
use rasterizer::raster::{
    check_zbuff, fill_triangle, fragment_at, plot_fragment, put_pixel, Frame, Projected,
    CANVAS_PIXELS, DEPTH_FAR,
};
use rasterizer::scene::{create_objects, create_triangles, DrawMode, Object, MESH_BLUE, MESH_GREEN, MESH_RED};
use rasterizer::transform::{Mat4, Vec4};
use rasterizer::wire::{draw_line, draw_triangle_outline};

const RED: Rgb = Rgb { r: 255, g: 0, b: 0 };
const GREEN: Rgb = Rgb { r: 0, g: 255, b: 0 };
const BLUE: Rgb = Rgb { r: 0, g: 0, b: 255 };
const BLACK: Rgb = Rgb { r: 0, g: 0, b: 0 };

fn cell(x: i64, y: i64) -> usize {
    ((300 - y) * 800 + (400 + x)) as usize
}

fn pts(v: &[(i32, i32)]) -> Vec<Point> {
    v.iter().map(|&(x, y)| Point::new(x, y)).collect()
}

fn flat(a: (i32, i32), b: (i32, i32), c: (i32, i32), z: i32, color: Rgb) -> Projected {
    Projected {
        a: Point::new(a.0, a.1),
        b: Point::new(b.0, b.1),
        c: Point::new(c.0, c.1),
        za: z,
        zb: z,
        zc: z,
        ca: color,
        cb: color,
        cc: color,
    }
}

#[test]
fn line_shallow_points() {
    let line = interpolate_line(Point::new(0, 0), Point::new(5, 2));
    assert_eq!(line, pts(&[(0, 0), (1, 0), (2, 1), (3, 1), (4, 2), (5, 2)]));
}

#[test]
fn line_steep_points() {
    let line = interpolate_line(Point::new(0, 0), Point::new(-2, -7));
    assert_eq!(
        line,
        pts(&[(0, 0), (0, -1), (-1, -2), (-1, -3), (-1, -4), (-1, -5), (-2, -6), (-2, -7)])
    );
}

#[test]
fn line_ends_connected_and_swap_keeps_length() {
    let cases = [((0, 0), (5, 2)), ((-3, 4), (7, -9)), ((10, 10), (10, -5)), ((-6, 1), (2, 1))];
    for &((x0, y0), (x1, y1)) in cases.iter() {
        let p0 = Point::new(x0, y0);
        let p1 = Point::new(x1, y1);
        let fwd = interpolate_line(p0, p1);
        let back = interpolate_line(p1, p0);
        assert_eq!(fwd[0], p0);
        assert_eq!(*fwd.last().unwrap(), p1);
        assert_eq!(back[0], p1);
        assert_eq!(*back.last().unwrap(), p0);
        assert_eq!(fwd.len(), back.len());
        for w in fwd.windows(2) {
            assert!((w[1].x - w[0].x).abs() <= 1);
            assert!((w[1].y - w[0].y).abs() <= 1);
        }
    }
}

#[test]
fn line_degenerate_single_point() {
    let p = Point::new(3, -4);
    assert_eq!(interpolate_line(p, p), vec![p]);
    let mut frame = Frame::new();
    draw_line(&mut frame, p, p, RED, BLUE);
    assert_eq!(frame.pixels[cell(3, -4)], RED);
}

#[test]
fn color_blend_endpoints_and_steps() {
    let c0 = Rgb::new(0, 100, 200);
    let c1 = Rgb::new(255, 100, 0);
    let colors = interpolate_color(c0, c1, 4);
    assert_eq!(colors.len(), 5);
    assert_eq!(colors[0], c0);
    assert_eq!(colors[4], c1);
    assert_eq!(colors[1], Rgb::new(63, 100, 150));
    assert_eq!(colors[2], Rgb::new(127, 100, 100));
    for w in colors.windows(2) {
        assert!(w[0].r <= w[1].r);
        assert!(w[0].b >= w[1].b);
        assert_eq!(w[0].g, w[1].g);
    }
}

#[test]
fn color_blend_no_steps_stays_at_start() {
    assert_eq!(interpolate_color(RED, BLUE, 0), vec![RED]);
}

#[test]
fn centroid_is_average() {
    let p = Projected {
        a: Point::new(0, 0),
        b: Point::new(6, 0),
        c: Point::new(0, 6),
        za: 3000,
        zb: 3000,
        zc: 3003,
        ca: RED,
        cb: GREEN,
        cc: BLUE,
    };
    let (depth, color) = fragment_at(&p, Point::new(2, 2)).unwrap();
    assert_eq!(color, Rgb::new(85, 85, 85));
    assert_eq!(depth, 3001);
}

#[test]
fn small_triangle_nearest_centroid_pixel() {
    let p = Projected {
        a: Point::new(0, 0),
        b: Point::new(4, 0),
        c: Point::new(0, 4),
        za: 2048,
        zb: 2048,
        zc: 2048,
        ca: RED,
        cb: GREEN,
        cc: BLUE,
    };
    let (_, color) = fragment_at(&p, Point::new(1, 1)).unwrap();
    assert_eq!(color, Rgb::new(127, 63, 63));
    assert_eq!(fragment_at(&p, Point::new(0, 0)).unwrap().1, RED);
    assert_eq!(fragment_at(&p, Point::new(4, 0)).unwrap().1, GREEN);
    assert_eq!(fragment_at(&p, Point::new(0, 4)).unwrap().1, BLUE);
    assert!(fragment_at(&p, Point::new(3, 3)).is_none());
    assert!(fragment_at(&p, Point::new(-1, 0)).is_none());
}

#[test]
fn zero_area_triangle_covers_nothing() {
    let p = flat((0, 0), (2, 2), (4, 4), 2048, RED);
    assert!(fragment_at(&p, Point::new(2, 2)).is_none());
    let mut frame = Frame::new();
    fill_triangle(&p, &mut frame);
    assert_eq!(frame.pixels[cell(2, 2)], BLACK);
}

#[test]
fn nearer_triangle_wins_in_both_orders() {
    let near = flat((0, 0), (10, 0), (0, 10), 5 * 1024, RED);
    let far = flat((-2, -2), (12, -2), (-2, 12), 10 * 1024, GREEN);

    let mut frame = Frame::new();
    fill_triangle(&near, &mut frame);
    fill_triangle(&far, &mut frame);
    assert_eq!(frame.pixels[cell(1, 1)], RED);
    assert_eq!(frame.depth[cell(1, 1)], 5 * 1024);
    assert_eq!(frame.pixels[cell(-1, -1)], GREEN);

    let mut frame = Frame::new();
    fill_triangle(&far, &mut frame);
    fill_triangle(&near, &mut frame);
    assert_eq!(frame.pixels[cell(1, 1)], RED);
    assert_eq!(frame.depth[cell(1, 1)], 5 * 1024);
    assert_eq!(frame.pixels[cell(-1, -1)], GREEN);
}

#[test]
fn fragment_nearer_than_viewport_rejected() {
    let p = flat((0, 0), (10, 0), (0, 10), 512, RED);
    let mut frame = Frame::new();
    fill_triangle(&p, &mut frame);
    assert_eq!(frame.pixels[cell(1, 1)], BLACK);
    assert_eq!(frame.depth[cell(1, 1)], DEPTH_FAR);
}

#[test]
fn off_canvas_never_written() {
    let frame = Frame::new();
    assert!(!check_zbuff(800, 0, 2048, &frame));
    assert!(!check_zbuff(400, 0, 2048, &frame));
    assert!(!check_zbuff(0, -300, 2048, &frame));
    assert!(check_zbuff(399, 300, 2048, &frame));
    let mut frame = Frame::new();
    assert!(!plot_fragment(&mut frame, 800, 0, 2048, RED));
    assert!(frame.pixels.iter().all(|&c| c == BLACK));
    assert!(frame.depth.iter().all(|&d| d == DEPTH_FAR));
    assert!(plot_fragment(&mut frame, -400, -299, 2048, RED));
    assert_eq!(frame.pixels[CANVAS_PIXELS - 800], RED);
    assert_eq!(frame.depth[CANVAS_PIXELS - 800], 2048);
}

#[test]
fn depth_test_bounds() {
    let mut frame = Frame::new();
    assert!(plot_fragment(&mut frame, 0, 0, 4096, RED));
    assert!(!plot_fragment(&mut frame, 0, 0, 4097, GREEN));
    assert!(plot_fragment(&mut frame, 0, 0, 4096, BLUE));
    assert!(!plot_fragment(&mut frame, 0, 0, (PROJ_D - 1) as i128, GREEN));
    assert_eq!(frame.pixels[cell(0, 0)], BLUE);
}

#[test]
fn put_pixel_maps_to_device_cell() {
    let mut frame = Frame::new();
    put_pixel(&mut frame, -400, 300, GREEN);
    assert_eq!(frame.pixels[0], GREEN);
    put_pixel(&mut frame, 399, -299, BLUE);
    assert_eq!(frame.pixels[CANVAS_PIXELS - 1], BLUE);
}

#[test]
fn edge_function_sign_and_value() {
    let a = Point::new(4, 0);
    let b = Point::new(0, 4);
    assert_eq!(edge_function(a, b, Point::new(0, 0)), -16);
    assert_eq!(edge_function(b, a, Point::new(0, 0)), 16);
    assert_eq!(edge_function(a, b, Point::new(2, 2)), 0);
}

#[test]
fn projection_scales_to_canvas() {
    assert_eq!(project_vertex(Vec3::new(1024, 512, 2048), 1024), Some(Point::new(400, 150)));
    assert_eq!(project_vertex(Vec3::new(-1024, -512, 2048), 1024), Some(Point::new(-400, -150)));
    assert_eq!(project_vertex(Vec3::new(1, 1, 0), 1024), None);
    assert_eq!(project_vertex(Vec3::new(-1, 0, 3072), 1024), Some(Point::new(-1, 0)));
    assert_eq!(project_vertex(Vec3::new(i32::MAX, 0, 1), 1024), None);
}

#[test]
fn identity_transform_keeps_triangle() {
    let id = Mat4::identity();
    let p = Vec3::new(-7, 123456, 99);
    assert_eq!(id.transform_point3(p), Some(p));
    let t = Triangle { v0: (p, RED), v1: (Vec3::new(1, 2, 3), GREEN), v2: (Vec3::new(-1, -2, -3), BLUE) };
    let r = t.transform(&id).unwrap();
    assert_eq!(r.v0, t.v0);
    assert_eq!(r.v1, t.v1);
    assert_eq!(r.v2, t.v2);
}

#[test]
fn translation_and_scale_transform() {
    let m = Mat4 {
        x_axis: Vec4 { x: 2048, y: 0, z: 0, w: 0 },
        y_axis: Vec4 { x: 0, y: 1024, z: 0, w: 0 },
        z_axis: Vec4 { x: 0, y: 0, z: 1024, w: 0 },
        w_axis: Vec4 { x: 0, y: 0, z: 10240, w: 1024 },
    };
    assert_eq!(m.transform_point3(Vec3::new(3, -5, 7)), Some(Vec3::new(6, -5, 10247)));
    let big = Mat4 {
        x_axis: Vec4 { x: 1 << 20, y: 0, z: 0, w: 0 },
        ..m
    };
    assert_eq!(big.transform_point3(Vec3::new(1 << 30, 0, 0)), None);
}

#[test]
fn mesh_to_triangles() {
    let positions = vec![Vec3::new(0, 0, 0), Vec3::new(1, 0, 0), Vec3::new(0, 1, 0), Vec3::new(0, 0, 1)];
    let mesh = Rgb::new(MESH_RED, MESH_GREEN, MESH_BLUE);
    let tris = create_triangles(&positions, &vec![0, 1, 2, 2, 3, 0, 1]).unwrap();
    assert_eq!(tris.len(), 2);
    assert_eq!(tris[1].v0, (positions[2], mesh));
    assert_eq!(tris[1].v1, (positions[3], mesh));
    assert_eq!(tris[1].v2, (positions[0], mesh));
    assert!(create_triangles(&positions, &vec![0, 1, 4]).is_none());
    assert!(create_triangles(&positions, &vec![0, 1, 2, 9]).is_some());
}

#[test]
fn object_shader_and_draw() {
    let t = Triangle {
        v0: (Vec3::new(0, 0, 0), RED),
        v1: (Vec3::new(1024, 0, 0), GREEN),
        v2: (Vec3::new(0, 1024, 0), BLUE),
    };
    let obj = Object { triangles: vec![t] };
    let shader = Mat4 {
        w_axis: Vec4 { x: 0, y: 0, z: 2048, w: 1024 },
        ..Mat4::identity()
    };
    let moved = obj.apply_vertex_shader(shader).unwrap();
    assert_eq!(moved.triangles[0].v1.0, Vec3::new(1024, 0, 2048));
    let mut frame = Frame::new();
    moved.draw(&mut frame);
    // Corners project to (0, 0), (400, 0) and (0, 300).
    assert_eq!(frame.pixels[cell(0, 0)], RED);
    assert_eq!(frame.depth[cell(0, 0)], 2048);
    assert_ne!(frame.pixels[cell(10, 10)], BLACK);
    assert_eq!(frame.pixels[cell(-1, -1)], BLACK);
    assert_eq!(frame.pixels[cell(399, 299)], BLACK);

    let mut wire = Frame::new();
    moved.draw_wireframe(&mut wire);
    assert_eq!(wire.pixels[cell(0, 0)], RED);
    assert_eq!(wire.pixels[cell(10, 10)], BLACK);
    assert_ne!(wire.pixels[cell(200, 0)], BLACK);
    assert!(wire.depth.iter().all(|&d| d == DEPTH_FAR));
    assert!(obj.apply_vertex_shader(Mat4 { w_axis: Vec4 { x: i32::MAX, y: 0, z: 0, w: 1024 }, ..Mat4::identity() }).is_none());
}

#[test]
fn outline_draws_all_edges() {
    let mut frame = Frame::new();
    draw_triangle_outline(&mut frame, Point::new(0, 0), Point::new(4, 0), Point::new(0, 4), RED, GREEN, BLUE);
    assert_eq!(frame.pixels[cell(2, 0)], Rgb::new(127, 127, 0));
    assert_eq!(frame.pixels[cell(2, 2)], Rgb::new(0, 127, 127));
    assert_eq!(frame.pixels[cell(0, 2)], Rgb::new(127, 0, 127));
    assert_eq!(frame.pixels[cell(0, 0)], RED);
    assert_eq!(frame.pixels[cell(1, 1)], BLACK);
}

#[test]
fn line_off_canvas_points_dropped() {
    let mut frame = Frame::new();
    draw_line(&mut frame, Point::new(395, 0), Point::new(405, 0), RED, RED);
    assert_eq!(frame.pixels[cell(399, 0)], RED);
    assert_eq!(frame.pixels[cell(-400, 0)], BLACK);
    assert_eq!(frame.pixels[cell(-400, -1)], BLACK);
}

#[test]
fn keys_change_frame_state() {
    let s = FrameState::new();
    assert_eq!(s.zoom, ZOOM_START);
    assert_eq!(s.apply_key(Key::W).x_rot, ROT_STEP);
    assert_eq!(s.apply_key(Key::S).x_rot, -ROT_STEP);
    assert_eq!(s.apply_key(Key::A).y_rot, ROT_STEP);
    assert_eq!(s.apply_key(Key::D).y_rot, -ROT_STEP);
    assert_eq!(s.apply_key(Key::Equals).zoom, ZOOM_START - ZOOM_STEP);
    assert_eq!(s.apply_key(Key::Minus).zoom, ZOOM_START + ZOOM_STEP);
    assert_eq!(s.apply_key(Key::Other), s);
    let edge = FrameState { zoom: 0x1_0000_0000, ..s };
    assert_eq!(edge.apply_key(Key::Minus), edge);
}

#[test]
fn frame_clear_resets_cells() {
    let mut frame = Frame::new();
    assert!(plot_fragment(&mut frame, 5, 5, 3000, RED));
    frame.clear();
    assert_eq!(frame.pixels[cell(5, 5)], BLACK);
    assert_eq!(frame.depth[cell(5, 5)], DEPTH_FAR);
    assert_eq!(frame.pixels.len(), CANVAS_PIXELS);
}

#[test]
fn render_modes_fill_or_outline() {
    let t = Triangle {
        v0: (Vec3::new(0, 0, 2048), RED),
        v1: (Vec3::new(1024, 0, 2048), RED),
        v2: (Vec3::new(0, 1024, 2048), RED),
    };
    let obj = Object { triangles: vec![t] };
    let mut filled = Frame::new();
    obj.render(DrawMode::Filled, &mut filled);
    assert_eq!(filled.pixels[cell(20, 20)], RED);
    assert_eq!(filled.depth[cell(20, 20)], 2048);
    let mut wire = Frame::new();
    obj.render(DrawMode::Wireframe, &mut wire);
    assert_eq!(wire.pixels[cell(20, 20)], BLACK);
    assert_eq!(wire.pixels[cell(0, 20)], RED);
}

#[test]
fn far_projection_kept_while_it_fits() {
    assert_eq!(project_vertex(Vec3::new(21000, 0, 1), 1024), Some(Point::new(16_800_000, 0)));
    assert_eq!(project_vertex(Vec3::new(1 << 25, 0, 1024), 1024), Some(Point::new(26_214_400, 0)));
    assert_eq!(project_vertex(Vec3::new(0, 1 << 30, 1), 1024), None);
}

#[test]
fn triangle_with_far_corner_still_drawn_on_canvas() {
    let t = Triangle {
        v0: (Vec3::new(0, 0, 2048), RED),
        v1: (Vec3::new(21000, 0, 2), RED),
        v2: (Vec3::new(0, 1024, 2048), RED),
    };
    let obj = Object { triangles: vec![t] };
    let mut frame = Frame::new();
    obj.draw(&mut frame);
    assert_eq!(frame.pixels[cell(5, 5)], RED);
}

#[test]
fn objects_from_meshes() {
    let positions = vec![Vec3::new(0, 0, 0), Vec3::new(1, 0, 0), Vec3::new(0, 1, 0)];
    let good = (positions.clone(), vec![0, 1, 2]);
    let bad = (positions.clone(), vec![0, 1, 3]);
    let objects = create_objects(&vec![good.clone(), good.clone()]).unwrap();
    assert_eq!(objects.len(), 2);
    assert_eq!(objects[1].triangles.len(), 1);
    assert_eq!(objects[1].triangles[0].v2.0, positions[2]);
    assert!(create_objects(&vec![good, bad]).is_none());
    assert_eq!(create_objects(&vec![]).unwrap().len(), 0);
}

#[test]
fn nearest_of_three_wins_in_every_order() {
    let square = |z: i32, c: Rgb| Triangle {
        v0: (Vec3::new(-1024, -1024, z), c),
        v1: (Vec3::new(1024, -1024, z), c),
        v2: (Vec3::new(-1024, 1024, z), c),
    };
    let ts = [square(6144, GREEN), square(4096, RED), square(8192, BLUE)];
    let orders = [[0, 1, 2], [0, 2, 1], [1, 0, 2], [1, 2, 0], [2, 0, 1], [2, 1, 0]];
    for order in orders.iter() {
        let obj = Object { triangles: order.iter().map(|&j| ts[j]).collect() };
        let mut frame = Frame::new();
        obj.draw(&mut frame);
        assert_eq!(frame.pixels[cell(-10, -10)], RED);
        assert_eq!(frame.depth[cell(-10, -10)], 4096);
    }
}
