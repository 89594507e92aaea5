use rasterizer::mesh::Triangle;
use rasterizer::raster::{
    clear_frame, depth_test_and_write, draw_triangle, is_front_facing, new_depth_buffer,
    pixel_bounds, sample, texel_coord, PixelBounds, PixelSample, ScreenPoint, ScreenTriangle,
    FAR_DEPTH,
};
use rasterizer::render::{draw_mesh, indices_fit};

fn pt(x: i32, y: i32) -> ScreenPoint {
    ScreenPoint { x, y }
}

/// The triangle (0,0), (3,0), (0,3) in pixels: it covers the pixels with x + y <= 3.
fn corner_triangle() -> ScreenTriangle {
    ScreenTriangle { a: pt(0, 0), b: pt(3 * 256, 0), c: pt(0, 3 * 256) }
}

fn white_frame(w: usize, h: usize) -> Vec<u8> {
    let mut f = vec![0u8; w * h * 4];
    clear_frame(&mut f);
    f
}

fn pixel(frame: &[u8], w: usize, x: usize, y: usize) -> [u8; 4] {
    let i = (y * w + x) * 4;
    [frame[i], frame[i + 1], frame[i + 2], frame[i + 3]]
}

#[test]
fn front_facing_follows_signed_area() {
    assert!(is_front_facing(corner_triangle()));
    let t = corner_triangle();
    let swapped = ScreenTriangle { a: t.a, b: t.c, c: t.b };
    assert!(!is_front_facing(swapped));
    let flat = ScreenTriangle { a: pt(0, 0), b: pt(256, 256), c: pt(512, 512) };
    assert!(!is_front_facing(flat));
}

#[test]
fn bounds_are_clipped_to_the_frame() {
    let t = ScreenTriangle { a: pt(2 * 256 + 10, 3 * 256), b: pt(8 * 256, 3 * 256), c: pt(2 * 256 + 10, 9 * 256) };
    assert_eq!(pixel_bounds(t, 10, 5), Some(PixelBounds { min_x: 2, max_x: 8, min_y: 3, max_y: 4 }));
    let left = ScreenTriangle { a: pt(-900, 0), b: pt(-300, 0), c: pt(-600, 700) };
    assert_eq!(pixel_bounds(left, 10, 5), None);
    let below = ScreenTriangle { a: pt(0, 5 * 256), b: pt(256, 6 * 256), c: pt(0, 7 * 256) };
    assert_eq!(pixel_bounds(below, 10, 5), None);
}

#[test]
fn sample_edge_values_sum_to_twice_the_area() {
    let s = sample(corner_triangle(), 1, 1);
    assert_eq!(s, PixelSample { x: 1, y: 1, e1: 196608, e2: 196608, e3: 196608 });
    assert_eq!(s.e1 + s.e2 + s.e3, 768 * 768);
    let outside = sample(corner_triangle(), 3, 3);
    assert!(outside.e1 < 0);
}

#[test]
fn texel_coordinates_stay_in_the_image() {
    assert_eq!(texel_coord(2, 4), 2);
    assert_eq!(texel_coord(4, 4), 3);
    assert_eq!(texel_coord(5, 4), 3);
    assert_eq!(texel_coord(u32::MAX, 1), 0);
}

#[test]
fn cleared_frame_is_white_and_opaque() {
    let mut f = vec![7u8; 3 * 2 * 4];
    clear_frame(&mut f);
    assert!(f.iter().all(|b| *b == 255));
}

#[test]
fn fresh_depth_buffer_is_at_the_far_plane() {
    let d = new_depth_buffer(6);
    assert_eq!(d.len(), 6);
    assert!(d.iter().all(|c| *c == 1.0f32.to_bits()));
    assert_eq!(FAR_DEPTH, 1.0f32.to_bits());
}

#[test]
fn depth_test_keeps_the_nearer_fragment() {
    let mut depth = new_depth_buffer(2);
    let mut frame = white_frame(2, 1);
    assert!(depth_test_and_write(1, 0.5f32.to_bits(), [1, 2, 3, 4], &mut frame, &mut depth));
    assert_eq!(depth[1], 0.5f32.to_bits());
    assert_eq!(pixel(&frame, 2, 1, 0), [1, 2, 3, 4]);
    assert_eq!(pixel(&frame, 2, 0, 0), [255, 255, 255, 255]);
    assert!(!depth_test_and_write(1, 0.75f32.to_bits(), [9, 9, 9, 9], &mut frame, &mut depth));
    assert!(!depth_test_and_write(1, 0.5f32.to_bits(), [9, 9, 9, 9], &mut frame, &mut depth));
    assert_eq!(depth[1], 0.5f32.to_bits());
    assert_eq!(pixel(&frame, 2, 1, 0), [1, 2, 3, 4]);
    assert_eq!(depth[0], FAR_DEPTH);
}

#[test]
fn triangle_writes_exactly_the_pixels_it_covers() {
    let (w, h) = (4usize, 4usize);
    let mut frame = white_frame(w, h);
    let mut depth = new_depth_buffer(w * h);
    let depth_of = |_k: usize, _s: PixelSample| 0.5f32.to_bits();
    let shade = |_k: usize, _s: PixelSample| [10u8, 20, 30, 40];
    draw_triangle(0, corner_triangle(), w, h, &mut frame, &mut depth, &depth_of, &shade);
    for y in 0..h {
        for x in 0..w {
            if x + y <= 3 {
                assert_eq!(pixel(&frame, w, x, y), [10, 20, 30, 40], "pixel {x},{y}");
                assert_eq!(depth[y * w + x], 0.5f32.to_bits());
            } else {
                assert_eq!(pixel(&frame, w, x, y), [255, 255, 255, 255], "pixel {x},{y}");
                assert_eq!(depth[y * w + x], FAR_DEPTH);
            }
        }
    }
}

fn tri(v: [usize; 3]) -> Triangle {
    Triangle { verts: v, texes: [0, 0, 0], norms: [0, 0, 0], mtl: 0 }
}

fn corner_screen() -> Vec<Option<ScreenPoint>> {
    vec![Some(pt(0, 0)), Some(pt(3 * 256, 0)), Some(pt(0, 3 * 256))]
}

#[test]
fn empty_mesh_leaves_a_white_frame() {
    let (w, h) = (5usize, 4usize);
    let mut frame = white_frame(w, h);
    let mut depth = new_depth_buffer(w * h);
    let depth_of = |_k: usize, _s: PixelSample| 0u32;
    let shade = |_k: usize, _s: PixelSample| [0u8, 0, 0, 0];
    draw_mesh(&corner_screen(), &[], w, h, &mut frame, &mut depth, &depth_of, &shade);
    assert!(frame.iter().all(|b| *b == 255));
    assert!(depth.iter().all(|d| *d == FAR_DEPTH));
}

#[test]
fn back_facing_triangle_draws_nothing() {
    let (w, h) = (4usize, 4usize);
    let mut frame = white_frame(w, h);
    let mut depth = new_depth_buffer(w * h);
    let depth_of = |_k: usize, _s: PixelSample| 0.25f32.to_bits();
    let shade = |_k: usize, _s: PixelSample| [0u8, 0, 0, 255];
    draw_mesh(&corner_screen(), &[tri([0, 2, 1])], w, h, &mut frame, &mut depth, &depth_of, &shade);
    assert!(frame.iter().all(|b| *b == 255));
    assert!(depth.iter().all(|d| *d == FAR_DEPTH));
}

#[test]
fn out_of_range_vertex_culls_the_triangle() {
    let (w, h) = (4usize, 4usize);
    let mut frame = white_frame(w, h);
    let mut depth = new_depth_buffer(w * h);
    let screen = vec![Some(pt(0, 0)), Some(pt(3 * 256, 0)), None];
    let depth_of = |_k: usize, _s: PixelSample| 0.25f32.to_bits();
    let shade = |_k: usize, _s: PixelSample| [0u8, 0, 0, 255];
    draw_mesh(&screen, &[tri([0, 1, 2])], w, h, &mut frame, &mut depth, &depth_of, &shade);
    assert!(frame.iter().all(|b| *b == 255));
    assert!(depth.iter().all(|d| *d == FAR_DEPTH));
}

fn draw_two(order_front_last: bool) -> (Vec<u8>, Vec<u32>) {
    let (w, h) = (4usize, 4usize);
    let mut frame = white_frame(w, h);
    let mut depth = new_depth_buffer(w * h);
    // triangle 0 lies at depth 0.5, triangle 1 at depth 0.4
    let (back, front) = if order_front_last { (0usize, 1usize) } else { (1, 0) };
    let depth_of = move |k: usize, _s: PixelSample| if k == front { 0.4f32.to_bits() } else { 0.5f32.to_bits() };
    let shade = move |k: usize, _s: PixelSample| if k == back { [200u8, 0, 0, 255] } else { [0u8, 200, 0, 255] };
    draw_mesh(&corner_screen(), &[tri([0, 1, 2]), tri([0, 1, 2])], w, h, &mut frame, &mut depth, &depth_of, &shade);
    (frame, depth)
}

#[test]
fn nearer_triangle_owns_every_pixel_it_covers() {
    for front_last in [true, false] {
        let (frame, depth) = draw_two(front_last);
        for y in 0..4usize {
            for x in 0..4usize {
                if x + y <= 3 {
                    assert_eq!(pixel(&frame, 4, x, y), [0, 200, 0, 255]);
                    assert_eq!(depth[y * 4 + x], 0.4f32.to_bits());
                } else {
                    assert_eq!(pixel(&frame, 4, x, y), [255, 255, 255, 255]);
                }
            }
        }
    }
}

#[test]
fn shading_is_asked_only_for_visible_fragments() {
    let (w, h) = (4usize, 4usize);
    let mut frame = white_frame(w, h);
    let mut depth = vec![0.1f32.to_bits(); w * h];
    let depth_of = |_k: usize, _s: PixelSample| 0.5f32.to_bits();
    let shade = |_k: usize, _s: PixelSample| -> [u8; 4] { panic!("hidden fragment shaded") };
    draw_mesh(&corner_screen(), &[tri([0, 1, 2])], w, h, &mut frame, &mut depth, &depth_of, &shade);
    assert!(frame.iter().all(|b| *b == 255));
}

#[test]
fn index_check_finds_a_vertex_past_the_end() {
    assert!(indices_fit(3, &[tri([0, 1, 2]), tri([2, 1, 0])]));
    assert!(!indices_fit(3, &[tri([0, 1, 2]), tri([2, 3, 0])]));
    assert!(indices_fit(0, &[]));
}

#[test]
fn at_equal_depth_the_first_triangle_keeps_the_pixel() {
    let (w, h) = (4usize, 4usize);
    let mut frame = white_frame(w, h);
    let mut depth = new_depth_buffer(w * h);
    let depth_of = |_k: usize, _s: PixelSample| 0.5f32.to_bits();
    let shade = |k: usize, _s: PixelSample| [k as u8, 0, 0, 255];
    draw_mesh(&corner_screen(), &[tri([0, 1, 2]), tri([0, 1, 2])], w, h, &mut frame, &mut depth, &depth_of, &shade);
    assert_eq!(pixel(&frame, w, 0, 0), [0, 0, 0, 255]);
    assert_eq!(pixel(&frame, w, 1, 2), [0, 0, 0, 255]);
}
