//! Edge-function rasterization on fixed-point screen coordinates, with a
//! depth-tested frame of RGBA bytes.
use vstd::prelude::*;

verus! {

/// Fixed-point scale of screen coordinates: units per pixel.
pub const SUBPIXEL: i32 = 256;

/// The far plane: the bit pattern of the single-precision value 1.0. Depths
/// are non-negative single-precision values, whose bit patterns order as the
/// values do.
pub const FAR_DEPTH: u32 = 0x3f80_0000;

/// Largest width or height of a frame, in pixels.
pub const MAX_SIDE: usize = 1048576;

/// A projected vertex, in units of 1/256 pixel, origin at the top left.
#[derive(Clone, Copy, Debug, PartialEq, Eq, Structural)]
pub struct ScreenPoint {
    pub x: i32,
    pub y: i32,
}

/// Three projected vertices, in the order the mesh lists them.
#[derive(Clone, Copy, Debug, PartialEq, Eq, Structural)]
pub struct ScreenTriangle {
    pub a: ScreenPoint,
    pub b: ScreenPoint,
    pub c: ScreenPoint,
}

/// A pixel inside a triangle with its three edge values; divided by their sum
/// they are the barycentric weights of the vertices a, b and c.
#[derive(Clone, Copy, Debug, PartialEq, Eq, Structural)]
pub struct PixelSample {
    pub x: usize,
    pub y: usize,
    pub e1: i128,
    pub e2: i128,
    pub e3: i128,
}

/// The inclusive pixel rectangle a triangle is swept over.
#[derive(Clone, Copy, Debug, PartialEq, Eq, Structural)]
pub struct PixelBounds {
    pub min_x: usize,
    pub max_x: usize,
    pub min_y: usize,
    pub max_y: usize,
}

/// The edge function of the directed edge a -> b at the point (px, py).
pub open spec fn edge_spec(a: ScreenPoint, b: ScreenPoint, px: int, py: int) -> int {
    (py - a.y) * (b.x - a.x) - (px - a.x) * (b.y - a.y)
}

/// Twice the signed area of the triangle; positive when it faces the camera.
pub open spec fn area_spec(t: ScreenTriangle) -> int {
    (t.b.x - t.a.x) * (t.c.y - t.a.y) - (t.b.y - t.a.y) * (t.c.x - t.a.x)
}

pub open spec fn e1_spec(t: ScreenTriangle, x: int, y: int) -> int {
    edge_spec(t.b, t.c, x * 256, y * 256)
}

pub open spec fn e2_spec(t: ScreenTriangle, x: int, y: int) -> int {
    edge_spec(t.c, t.a, x * 256, y * 256)
}

pub open spec fn e3_spec(t: ScreenTriangle, x: int, y: int) -> int {
    edge_spec(t.a, t.b, x * 256, y * 256)
}

/// The pixel (x, y) is inside the closed triangle: no edge value is negative.
pub open spec fn covers(t: ScreenTriangle, x: int, y: int) -> bool {
    e1_spec(t, x, y) >= 0 && e2_spec(t, x, y) >= 0 && e3_spec(t, x, y) >= 0
}

/// What the rasterizer hands the per-pixel callbacks for the pixel (x, y).
pub open spec fn sample_at(t: ScreenTriangle, x: usize, y: usize) -> PixelSample {
    PixelSample {
        x,
        y,
        e1: e1_spec(t, x as int, y as int) as i128,
        e2: e2_spec(t, x as int, y as int) as i128,
        e3: e3_spec(t, x as int, y as int) as i128,
    }
}

pub open spec fn min3(a: int, b: int, c: int) -> int {
    if a <= b && a <= c {
        a
    } else if b <= c {
        b
    } else {
        c
    }
}

pub open spec fn max3(a: int, b: int, c: int) -> int {
    if a >= b && a >= c {
        a
    } else if b >= c {
        b
    } else {
        c
    }
}

pub open spec fn max_int(a: int, b: int) -> int {
    if a >= b {
        a
    } else {
        b
    }
}

pub open spec fn min_int(a: int, b: int) -> int {
    if a <= b {
        a
    } else {
        b
    }
}

/// Leftmost pixel column of the sweep: the triangle's leftmost pixel, but not
/// left of the frame.
pub open spec fn lo_x(t: ScreenTriangle) -> int {
    max_int(min3(t.a.x as int, t.b.x as int, t.c.x as int) / 256, 0)
}

pub open spec fn hi_x(t: ScreenTriangle, width: int) -> int {
    min_int(max3(t.a.x as int, t.b.x as int, t.c.x as int) / 256, width - 1)
}

pub open spec fn lo_y(t: ScreenTriangle) -> int {
    max_int(min3(t.a.y as int, t.b.y as int, t.c.y as int) / 256, 0)
}

pub open spec fn hi_y(t: ScreenTriangle, height: int) -> int {
    min_int(max3(t.a.y as int, t.b.y as int, t.c.y as int) / 256, height - 1)
}

/// Whether the triangle faces the camera: its signed area is positive.
pub fn is_front_facing(t: ScreenTriangle) -> (r: bool)
    ensures
        r == (area_spec(t) > 0),
{
    let dx1 = t.b.x as i128 - t.a.x as i128;
    let dy2 = t.c.y as i128 - t.a.y as i128;
    let dy1 = t.b.y as i128 - t.a.y as i128;
    let dx2 = t.c.x as i128 - t.a.x as i128;
    proof {
        lemma_product_bound(dx1 as int, dy2 as int);
        lemma_product_bound(dy1 as int, dx2 as int);
    }
    dx1 * dy2 - dy1 * dx2 > 0
}

proof fn lemma_product_bound(a: int, b: int)
    requires
        -0x1_0000_0000 <= a <= 0x1_0000_0000,
        -0x1_0000_0000 <= b <= 0x1_0000_0000,
    ensures
        -0x1_0000_0000_0000_0000 <= a * b <= 0x1_0000_0000_0000_0000,
{
    assert(-0x1_0000_0000_0000_0000 <= a * b <= 0x1_0000_0000_0000_0000) by (nonlinear_arith)
        requires
            -0x1_0000_0000 <= a <= 0x1_0000_0000,
            -0x1_0000_0000 <= b <= 0x1_0000_0000,
    ;
}

/// The edge function of a -> b at a point given in fixed-point units.
fn edge(a: ScreenPoint, b: ScreenPoint, px: i128, py: i128) -> (r: i128)
    requires
        0 <= px <= 0x1000_0000,
        0 <= py <= 0x1000_0000,
    ensures
        r == edge_spec(a, b, px as int, py as int),
        -0x2_0000_0000_0000_0000 <= r <= 0x2_0000_0000_0000_0000,
{
    let dy = py - a.y as i128;
    let dx = b.x as i128 - a.x as i128;
    let ex = px - a.x as i128;
    let ey = b.y as i128 - a.y as i128;
    proof {
        lemma_product_bound(dy as int, dx as int);
        lemma_product_bound(ex as int, ey as int);
    }
    dy * dx - ex * ey
}

/// The edge values of the pixel (x, y), its sample point being the pixel's
/// top-left corner.
pub fn sample(t: ScreenTriangle, x: usize, y: usize) -> (r: PixelSample)
    requires
        x < MAX_SIDE,
        y < MAX_SIDE,
    ensures
        r == sample_at(t, x, y),
        r.e1 as int == e1_spec(t, x as int, y as int),
        r.e2 as int == e2_spec(t, x as int, y as int),
        r.e3 as int == e3_spec(t, x as int, y as int),
{
    let px = x as i128 * 256;
    let py = y as i128 * 256;
    let e1 = edge(t.b, t.c, px, py);
    let e2 = edge(t.c, t.a, px, py);
    let e3 = edge(t.a, t.b, px, py);
    PixelSample { x, y, e1, e2, e3 }
}

/// Whether the pixel is inside the closed triangle.
pub fn is_inside(s: PixelSample) -> (r: bool)
    ensures
        r == (s.e1 >= 0 && s.e2 >= 0 && s.e3 >= 0),
{
    s.e1 >= 0 && s.e2 >= 0 && s.e3 >= 0
}

fn min3_i32(a: i32, b: i32, c: i32) -> (r: i32)
    ensures
        r == min3(a as int, b as int, c as int),
{
    if a <= b && a <= c {
        a
    } else if b <= c {
        b
    } else {
        c
    }
}

fn max3_i32(a: i32, b: i32, c: i32) -> (r: i32)
    ensures
        r == max3(a as int, b as int, c as int),
{
    if a >= b && a >= c {
        a
    } else if b >= c {
        b
    } else {
        c
    }
}

/// The first pixel of a span from the fixed-point coordinate `lo`.
fn first_pixel(lo: i32) -> (r: usize)
    ensures
        r == max_int(lo as int / 256, 0),
{
    if lo < 0 {
        proof {
            assert(lo as int / 256 <= 0) by (nonlinear_arith)
                requires
                    lo < 0,
            ;
        }
        0
    } else {
        (lo as u32 / 256) as usize
    }
}

/// The last pixel of a span from the fixed-point coordinate `hi`, within a
/// side of `side` pixels; None where the span ends left of or above the frame.
fn last_pixel(hi: i32, side: usize) -> (r: Option<usize>)
    requires
        0 < side <= MAX_SIDE,
    ensures
        r is None <==> hi as int / 256 < 0,
        r is Some ==> r->0 == min_int(hi as int / 256, side - 1),
{
    if hi < 0 {
        proof {
            assert(hi as int / 256 < 0) by (nonlinear_arith)
                requires
                    hi < 0,
            ;
        }
        None
    } else {
        let p = (hi as u32 / 256) as usize;
        if p > side - 1 {
            Some(side - 1)
        } else {
            Some(p)
        }
    }
}

/// The screen rectangle that holds every on-screen pixel of the triangle:
/// its bounding box in whole pixels, clipped to the frame; None where that is
/// empty.
pub fn pixel_bounds(t: ScreenTriangle, width: usize, height: usize) -> (r: Option<PixelBounds>)
    requires
        0 < width <= MAX_SIDE,
        0 < height <= MAX_SIDE,
    ensures
        r is None <==> (lo_x(t) > hi_x(t, width as int) || lo_y(t) > hi_y(t, height as int)),
        r is Some ==> {
            &&& r->0.min_x == lo_x(t)
            &&& r->0.max_x == hi_x(t, width as int)
            &&& r->0.min_y == lo_y(t)
            &&& r->0.max_y == hi_y(t, height as int)
        },
{
    let min_x = first_pixel(min3_i32(t.a.x, t.b.x, t.c.x));
    let min_y = first_pixel(min3_i32(t.a.y, t.b.y, t.c.y));
    let max_x = last_pixel(max3_i32(t.a.x, t.b.x, t.c.x), width);
    let max_y = last_pixel(max3_i32(t.a.y, t.b.y, t.c.y), height);
    match (max_x, max_y) {
        (Some(max_x), Some(max_y)) => {
            if min_x > max_x || min_y > max_y {
                None
            } else {
                Some(PixelBounds { min_x, max_x, min_y, max_y })
            }
        },
        _ => None,
    }
}


proof fn lemma_weighted_bounds(e1: int, e2: int, e3: int, a: int, b: int, c: int, p: int)
    requires
        e1 >= 0,
        e2 >= 0,
        e3 >= 0,
        e1 + e2 + e3 > 0,
        e1 * a + e2 * b + e3 * c == (e1 + e2 + e3) * p,
    ensures
        min3(a, b, c) <= p <= max3(a, b, c),
{
    let lo = min3(a, b, c);
    let hi = max3(a, b, c);
    let s = e1 + e2 + e3;
    assert(e1 * a <= e1 * hi && e2 * b <= e2 * hi && e3 * c <= e3 * hi) by (nonlinear_arith)
        requires
            e1 >= 0,
            e2 >= 0,
            e3 >= 0,
            a <= hi,
            b <= hi,
            c <= hi,
    ;
    assert(e1 * a >= e1 * lo && e2 * b >= e2 * lo && e3 * c >= e3 * lo) by (nonlinear_arith)
        requires
            e1 >= 0,
            e2 >= 0,
            e3 >= 0,
            a >= lo,
            b >= lo,
            c >= lo,
    ;
    assert(e1 * hi + e2 * hi + e3 * hi == s * hi) by (nonlinear_arith)
        requires
            s == e1 + e2 + e3,
    ;
    assert(e1 * lo + e2 * lo + e3 * lo == s * lo) by (nonlinear_arith)
        requires
            s == e1 + e2 + e3,
    ;
    assert(s * p <= s * hi);
    assert(s * p >= s * lo);
    assert(p <= hi) by (nonlinear_arith)
        requires
            s > 0,
            s * p <= s * hi,
    ;
    assert(p >= lo) by (nonlinear_arith)
        requires
            s > 0,
            s * p >= s * lo,
    ;
}

proof fn lemma_edge_identities(t: ScreenTriangle, px: int, py: int)
    ensures
        edge_spec(t.b, t.c, px, py) + edge_spec(t.c, t.a, px, py) + edge_spec(t.a, t.b, px, py)
            == area_spec(t),
        edge_spec(t.b, t.c, px, py) * t.a.x + edge_spec(t.c, t.a, px, py) * t.b.x + edge_spec(
            t.a,
            t.b,
            px,
            py,
        ) * t.c.x == area_spec(t) * px,
        edge_spec(t.b, t.c, px, py) * t.a.y + edge_spec(t.c, t.a, px, py) * t.b.y + edge_spec(
            t.a,
            t.b,
            px,
            py,
        ) * t.c.y == area_spec(t) * py,
{
    let (ax, ay) = (t.a.x as int, t.a.y as int);
    // coordinates relative to the vertex a
    let (bx, by, cx, cy) = (t.b.x - ax, t.b.y - ay, t.c.x - ax, t.c.y - ay);
    let (qx, qy) = (px - ax, py - ay);
    let e1 = edge_spec(t.b, t.c, px, py);
    let e2 = edge_spec(t.c, t.a, px, py);
    let e3 = edge_spec(t.a, t.b, px, py);
    let ar = area_spec(t);
    assert(ar == bx * cy - by * cx);
    assert(e3 == qy * bx - qx * by);
    assert(e2 == (qy - cy) * (0 - cx) - (qx - cx) * (0 - cy));
    assert(e2 == qx * cy - qy * cx) by (nonlinear_arith)
        requires
            e2 == (qy - cy) * (0 - cx) - (qx - cx) * (0 - cy),
    ;
    assert(e1 == (qy - by) * (cx - bx) - (qx - bx) * (cy - by));
    assert(e1 == ar - e2 - e3) by (nonlinear_arith)
        requires
            e1 == (qy - by) * (cx - bx) - (qx - bx) * (cy - by),
            e2 == qx * cy - qy * cx,
            e3 == qy * bx - qx * by,
            ar == bx * cy - by * cx,
    ;
    assert(e2 * bx + e3 * cx == ar * qx) by (nonlinear_arith)
        requires
            e2 == qx * cy - qy * cx,
            e3 == qy * bx - qx * by,
            ar == bx * cy - by * cx,
    ;
    assert(e2 * by + e3 * cy == ar * qy) by (nonlinear_arith)
        requires
            e2 == qx * cy - qy * cx,
            e3 == qy * bx - qx * by,
            ar == bx * cy - by * cx,
    ;
    assert(e1 * ax + e2 * (bx + ax) + e3 * (cx + ax) == (e1 + e2 + e3) * ax + (e2 * bx + e3
        * cx)) by (nonlinear_arith);
    assert(e1 * ay + e2 * (by + ay) + e3 * (cy + ay) == (e1 + e2 + e3) * ay + (e2 * by + e3
        * cy)) by (nonlinear_arith);
    assert(ar * ax + ar * qx == ar * px) by (nonlinear_arith)
        requires
            qx == px - ax,
    ;
    assert(ar * ay + ar * qy == ar * py) by (nonlinear_arith)
        requires
            qy == py - ay,
    ;
}

/// A pixel of the frame that a front-facing triangle covers lies in the
/// triangle's sweep rectangle.
pub proof fn lemma_covered_in_bounds(t: ScreenTriangle, x: int, y: int, width: int, height: int)
    requires
        area_spec(t) > 0,
        covers(t, x, y),
        0 <= x < width,
        0 <= y < height,
    ensures
        lo_x(t) <= x <= hi_x(t, width),
        lo_y(t) <= y <= hi_y(t, height),
{
    lemma_edge_identities(t, x * 256, y * 256);
    let e1 = e1_spec(t, x, y);
    let e2 = e2_spec(t, x, y);
    let e3 = e3_spec(t, x, y);
    lemma_weighted_bounds(e1, e2, e3, t.a.x as int, t.b.x as int, t.c.x as int, x * 256);
    lemma_weighted_bounds(e1, e2, e3, t.a.y as int, t.b.y as int, t.c.y as int, y * 256);
    lemma_pixel_of_span(min3(t.a.x as int, t.b.x as int, t.c.x as int), max3(t.a.x as int, t.b.x as int, t.c.x as int), x);
    lemma_pixel_of_span(min3(t.a.y as int, t.b.y as int, t.c.y as int), max3(t.a.y as int, t.b.y as int, t.c.y as int), y);
}

proof fn lemma_pixel_of_span(lo: int, hi: int, x: int)
    requires
        lo <= x * 256 <= hi,
    ensures
        lo / 256 <= x <= hi / 256,
{
    assert(lo / 256 <= x) by (nonlinear_arith)
        requires
            lo <= x * 256,
    ;
    assert(x <= hi / 256) by (nonlinear_arith)
        requires
            x * 256 <= hi,
    ;
}

/// The four bytes of pixel i hold the color c.
pub open spec fn pixel_is(f: Seq<u8>, i: int, c: [u8; 4]) -> bool {
    &&& f[4 * i] == c[0]
    &&& f[4 * i + 1] == c[1]
    &&& f[4 * i + 2] == c[2]
    &&& f[4 * i + 3] == c[3]
}

/// Pixel i has the same four bytes in both frames.
pub open spec fn pixel_same(f0: Seq<u8>, f1: Seq<u8>, i: int) -> bool {
    &&& f1[4 * i] == f0[4 * i]
    &&& f1[4 * i + 1] == f0[4 * i + 1]
    &&& f1[4 * i + 2] == f0[4 * i + 2]
    &&& f1[4 * i + 3] == f0[4 * i + 3]
}

/// What one fragment of triangle k does to pixel i: the depth callback gives a
/// depth d for the sample; where d is strictly less than the stored depth d0,
/// d is stored and the pixel takes the color the shading callback gives;
/// otherwise depth and pixel stay as they were.
pub open spec fn fragment_result<D, S>(
    k: usize,
    s: PixelSample,
    d0: u32,
    d1: u32,
    f0: Seq<u8>,
    f1: Seq<u8>,
    i: int,
    depth_of: D,
    shade: S,
) -> bool where D: Fn(usize, PixelSample) -> u32, S: Fn(usize, PixelSample) -> [u8; 4] {
    exists|d: u32|
        #[trigger] depth_of.ensures((k, s), d) && if d < d0 {
            d1 == d && exists|c: [u8; 4]| #[trigger]
                shade.ensures((k, s), c) && pixel_is(f1, i, c)
        } else {
            d1 == d0 && pixel_same(f0, f1, i)
        }
}

/// Index of the pixel (x, y) in a frame `width` pixels wide.
pub open spec fn pixel_index(x: int, y: int, width: int) -> int {
    y * width + x
}

/// The state of pixel (x, y) after triangle k was swept over it (`done`) or
/// before: only a covered pixel that was swept has met a fragment.
pub open spec fn pixel_outcome<D, S>(
    k: usize,
    t: ScreenTriangle,
    x: int,
    y: int,
    width: int,
    done: bool,
    d0: Seq<u32>,
    d1: Seq<u32>,
    f0: Seq<u8>,
    f1: Seq<u8>,
    depth_of: D,
    shade: S,
) -> bool where D: Fn(usize, PixelSample) -> u32, S: Fn(usize, PixelSample) -> [u8; 4] {
    let i = pixel_index(x, y, width);
    if done && covers(t, x, y) {
        fragment_result(k, sample_at(t, x as usize, y as usize), d0[i], d1[i], f0, f1, i, depth_of, shade)
    } else {
        d1[i] == d0[i] && pixel_same(f0, f1, i)
    }
}

/// A frame of `width` by `height` pixels: four bytes per pixel and one depth
/// cell per pixel.
pub open spec fn frame_shape(width: int, height: int, frame_len: int, depth_len: int) -> bool {
    &&& 0 < width <= MAX_SIDE
    &&& 0 < height <= MAX_SIDE
    &&& depth_len == width * height
    &&& frame_len == 4 * (width * height)
}

pub(crate) proof fn lemma_index_in_frame(x: int, y: int, width: int, height: int)
    requires
        0 <= x < width,
        0 <= y < height,
    ensures
        0 <= pixel_index(x, y, width) < width * height,
{
    assert(0 <= y * width + x < width * height) by (nonlinear_arith)
        requires
            0 <= x < width,
            0 <= y < height,
    ;
}

proof fn lemma_index_distinct(x1: int, y1: int, x2: int, y2: int, width: int)
    requires
        0 <= x1 < width,
        0 <= x2 < width,
        0 <= y1,
        0 <= y2,
        x1 != x2 || y1 != y2,
    ensures
        pixel_index(x1, y1, width) != pixel_index(x2, y2, width),
{
    if y1 == y2 {
    } else if y1 < y2 {
        assert(y1 * width + x1 < y2 * width + x2) by (nonlinear_arith)
            requires
                0 <= x1 < width,
                0 <= x2,
                y1 < y2,
        ;
    } else {
        assert(y2 * width + x2 < y1 * width + x1) by (nonlinear_arith)
            requires
                0 <= x2 < width,
                0 <= x1,
                y2 < y1,
        ;
    }
}

/// Paints every byte of the frame 255: a white, opaque background.
pub fn clear_frame(frame: &mut [u8])
    ensures
        final(frame)@.len() == old(frame)@.len(),
        forall|j: int| 0 <= j < final(frame)@.len() ==> final(frame)@[j] == 255,
{
    let n = frame.len();
    let mut j: usize = 0;
    while j < n
        invariant
            n == frame@.len(),
            frame@.len() == old(frame)@.len(),
            j <= n,
            forall|m: int| 0 <= m < j ==> frame@[m] == 255,
        decreases n - j,
    {
        frame[j] = 255;
        j = j + 1;
    }
}

/// A depth buffer of `len` cells, each at the far plane.
pub fn new_depth_buffer(len: usize) -> (r: Vec<u32>)
    ensures
        r@.len() == len,
        forall|j: int| 0 <= j < len ==> r@[j] == FAR_DEPTH,
{
    let mut r: Vec<u32> = Vec::with_capacity(len);
    let mut j: usize = 0;
    while j < len
        invariant
            j <= len,
            r@.len() == j,
            forall|m: int| 0 <= m < j ==> r@[m] == FAR_DEPTH,
        decreases len - j,
    {
        r.push(FAR_DEPTH);
        j = j + 1;
    }
    r
}

/// The depth test of one fragment at pixel i: a fragment strictly nearer than
/// the stored depth takes the cell and the pixel; any other leaves both.
pub fn depth_test_and_write(i: usize, d: u32, c: [u8; 4], frame: &mut [u8], depth: &mut [u32]) -> (r: bool)
    requires
        i < old(depth)@.len(),
        old(frame)@.len() == 4 * old(depth)@.len(),
    ensures
        r == (d < old(depth)@[i as int]),
        r ==> final(depth)@ == old(depth)@.update(i as int, d) && pixel_is(final(frame)@, i as int, c),
        !r ==> final(depth)@ == old(depth)@ && final(frame)@ == old(frame)@,
        final(frame)@.len() == old(frame)@.len(),
        forall|j: int| 0 <= j < final(frame)@.len() && (j < 4 * i || j >= 4 * i + 4) ==> final(frame)@[j] == old(frame)@[j],
{
    let n = frame.len();
    if d < depth[i] {
        depth[i] = d;
        frame[4 * i] = c[0];
        frame[4 * i + 1] = c[1];
        frame[4 * i + 2] = c[2];
        frame[4 * i + 3] = c[3];
        true
    } else {
        false
    }
}

/// One fragment of triangle k at pixel i: its depth is asked for, tested, and
/// only a fragment that passes is shaded.
fn shade_fragment<D, S>(
    k: usize,
    s: PixelSample,
    i: usize,
    frame: &mut [u8],
    depth: &mut [u32],
    depth_of: &D,
    shade: &S,
) where D: Fn(usize, PixelSample) -> u32, S: Fn(usize, PixelSample) -> [u8; 4]
    requires
        i < old(depth)@.len(),
        old(frame)@.len() == 4 * old(depth)@.len(),
        forall|k2: usize, s2: PixelSample| depth_of.requires((k2, s2)),
        forall|k2: usize, s2: PixelSample| shade.requires((k2, s2)),
    ensures
        fragment_result(k, s, old(depth)@[i as int], final(depth)@[i as int], old(frame)@, final(frame)@, i as int, *depth_of, *shade),
        final(frame)@.len() == old(frame)@.len(),
        final(depth)@.len() == old(depth)@.len(),
        forall|j: int| 0 <= j < final(depth)@.len() && j != i ==> final(depth)@[j] == old(depth)@[j],
        forall|j: int| 0 <= j < final(frame)@.len() && (j < 4 * i || j >= 4 * i + 4) ==> final(frame)@[j] == old(frame)@[j],
{
    let d = depth_of(k, s);
    if d < depth[i] {
        let c = shade(k, s);
        depth_test_and_write(i, d, c, frame, depth);
        assert(shade.ensures((k, s), c) && pixel_is(frame@, i as int, c));
    }
    assert(depth_of.ensures((k, s), d));
}

/// The state of pixel (x, y) when the sweep of triangle k has reached column
/// cx of row cy.
pub open spec fn swept_outcome<D, S>(
    k: usize,
    t: ScreenTriangle,
    x: int,
    y: int,
    width: int,
    cx: int,
    cy: int,
    d0: Seq<u32>,
    d1: Seq<u32>,
    f0: Seq<u8>,
    f1: Seq<u8>,
    depth_of: D,
    shade: S,
) -> bool where D: Fn(usize, PixelSample) -> u32, S: Fn(usize, PixelSample) -> [u8; 4] {
    pixel_outcome(k, t, x, y, width, y < cy || (y == cy && x < cx), d0, d1, f0, f1, depth_of, shade)
}

/// Draws triangle k: every pixel of the frame that the triangle covers meets
/// one fragment of it, and no other pixel changes. `depth_of` gives the
/// fragment's depth (the bit pattern of a non-negative single-precision
/// value), `shade` its color; `shade` is asked only for fragments that pass
/// the depth test.
pub fn draw_triangle<D, S>(
    k: usize,
    t: ScreenTriangle,
    width: usize,
    height: usize,
    frame: &mut [u8],
    depth: &mut [u32],
    depth_of: &D,
    shade: &S,
) where D: Fn(usize, PixelSample) -> u32, S: Fn(usize, PixelSample) -> [u8; 4]
    requires
        area_spec(t) > 0,
        frame_shape(width as int, height as int, old(frame)@.len() as int, old(depth)@.len() as int),
        forall|k2: usize, s2: PixelSample| depth_of.requires((k2, s2)),
        forall|k2: usize, s2: PixelSample| shade.requires((k2, s2)),
    ensures
        final(frame)@.len() == old(frame)@.len(),
        final(depth)@.len() == old(depth)@.len(),
        forall|x: int, y: int|
            0 <= x < width && 0 <= y < height ==> #[trigger] pixel_outcome(
                k,
                t,
                x,
                y,
                width as int,
                true,
                old(depth)@,
                final(depth)@,
                old(frame)@,
                final(frame)@,
                *depth_of,
                *shade,
            ),
{
    let ghost d0 = depth@;
    let ghost f0 = frame@;
    let ghost w = width as int;
    let ghost h = height as int;
    match pixel_bounds(t, width, height) {
        None => {
            assert forall|x: int, y: int| 0 <= x < width && 0 <= y < height implies #[trigger] pixel_outcome(
                k, t, x, y, w, true, d0, depth@, f0, frame@, *depth_of, *shade) by {
                if covers(t, x, y) {
                    lemma_covered_in_bounds(t, x, y, w, h);
                }
            }
        },
        Some(b) => {
            let mut y = b.min_y;
            assert forall|x2: int, y2: int| 0 <= x2 < width && 0 <= y2 < height implies #[trigger] swept_outcome(
                k, t, x2, y2, w, 0, y as int, d0, depth@, f0, frame@, *depth_of, *shade) by {
                if covers(t, x2, y2) {
                    lemma_covered_in_bounds(t, x2, y2, w, h);
                }
            }
            while y <= b.max_y
                invariant
                    frame_shape(w, h, frame@.len() as int, depth@.len() as int),
                    b.min_y <= y <= b.max_y + 1,
                    b.max_y < height,
                    b.min_x <= b.max_x,
                    b.max_x < width,
                    depth@.len() == d0.len(),
                    frame@.len() == f0.len(),
                    b.min_x == lo_x(t),
                    b.max_x == hi_x(t, w),
                    b.min_y == lo_y(t),
                    b.max_y == hi_y(t, h),
                    area_spec(t) > 0,
                    width == w,
                    height == h,
                    forall|k2: usize, s2: PixelSample| depth_of.requires((k2, s2)),
                    forall|k2: usize, s2: PixelSample| shade.requires((k2, s2)),
                    forall|x2: int, y2: int|
                        0 <= x2 < width && 0 <= y2 < height ==> #[trigger] swept_outcome(
                            k,
                            t,
                            x2,
                            y2,
                            w,
                            0,
                            y as int,
                            d0,
                            depth@,
                            f0,
                            frame@,
                            *depth_of,
                            *shade,
                        ),
                decreases b.max_y + 1 - y,
            {
                let mut x = b.min_x;
                assert forall|x2: int, y2: int| 0 <= x2 < width && 0 <= y2 < height implies #[trigger] swept_outcome(
                    k, t, x2, y2, w, x as int, y as int, d0, depth@, f0, frame@, *depth_of, *shade) by {
                    assert(swept_outcome(k, t, x2, y2, w, 0, y as int, d0, depth@, f0, frame@, *depth_of, *shade));
                    if covers(t, x2, y2) {
                        lemma_covered_in_bounds(t, x2, y2, w, h);
                    }
                }
                while x <= b.max_x
                    invariant
                        frame_shape(w, h, frame@.len() as int, depth@.len() as int),
                        b.min_y <= y <= b.max_y,
                        b.min_x <= x <= b.max_x + 1,
                        b.max_y < height,
                        b.max_x < width,
                        depth@.len() == d0.len(),
                        frame@.len() == f0.len(),
                        b.min_x == lo_x(t),
                        b.max_x == hi_x(t, w),
                        b.min_y == lo_y(t),
                        b.max_y == hi_y(t, h),
                        area_spec(t) > 0,
                        width == w,
                        height == h,
                        forall|k2: usize, s2: PixelSample| depth_of.requires((k2, s2)),
                        forall|k2: usize, s2: PixelSample| shade.requires((k2, s2)),
                        forall|x2: int, y2: int|
                            0 <= x2 < width && 0 <= y2 < height ==> #[trigger] swept_outcome(
                                k,
                                t,
                                x2,
                                y2,
                                w,
                                x as int,
                                y as int,
                                d0,
                                depth@,
                                f0,
                                frame@,
                                *depth_of,
                                *shade,
                            ),
                    decreases b.max_x + 1 - x,
                {
                    let ghost d1 = depth@;
                    let ghost f1 = frame@;
                    proof {
                        lemma_index_in_frame(x as int, y as int, w, h);
                    }
                    let depth_len = depth.len();
                    let i = y * width + x;
                    let s = sample(t, x, y);
                    if is_inside(s) {
                        shade_fragment(k, s, i, frame, depth, depth_of, shade);
                    }
                    proof {
                        assert forall|x2: int, y2: int| 0 <= x2 < width && 0 <= y2 < height implies #[trigger] swept_outcome(
                            k, t, x2, y2, w, x + 1, y as int, d0, depth@, f0, frame@, *depth_of, *shade) by {
                            assert(swept_outcome(k, t, x2, y2, w, x as int, y as int, d0, d1, f0, f1, *depth_of, *shade));
                            let j = pixel_index(x2, y2, w);
                            lemma_index_in_frame(x2, y2, w, h);
                            if x2 != x || y2 != y {
                                lemma_index_distinct(x2, y2, x as int, y as int, w);
                                assert(depth@[j] == d1[j]);
                                assert(pixel_same(f1, frame@, j));
                            } else {
                                assert(j == i);
                                assert(d1[j] == d0[j]);
                                assert(pixel_same(f0, f1, j));
                            }
                        }
                    }
                    x = x + 1;
                }
                proof {
                    assert forall|x2: int, y2: int| 0 <= x2 < width && 0 <= y2 < height implies #[trigger] swept_outcome(
                        k, t, x2, y2, w, 0, y + 1, d0, depth@, f0, frame@, *depth_of, *shade) by {
                        assert(swept_outcome(k, t, x2, y2, w, x as int, y as int, d0, depth@, f0, frame@, *depth_of, *shade));
                        if covers(t, x2, y2) {
                            lemma_covered_in_bounds(t, x2, y2, w, h);
                        }
                    }
                }
                y = y + 1;
            }
            assert forall|x2: int, y2: int| 0 <= x2 < width && 0 <= y2 < height implies #[trigger] pixel_outcome(
                k, t, x2, y2, w, true, d0, depth@, f0, frame@, *depth_of, *shade) by {
                assert(swept_outcome(k, t, x2, y2, w, 0, y as int, d0, depth@, f0, frame@, *depth_of, *shade));
                if covers(t, x2, y2) {
                    lemma_covered_in_bounds(t, x2, y2, w, h);
                }
            }
        },
    }
}

/// One coordinate of the texel that a texture lookup reads: the scaled,
/// rounded texture coordinate, kept inside an image side of `size` texels.
pub fn texel_coord(scaled: u32, size: u32) -> (r: u32)
    requires
        size > 0,
    ensures
        r < size,
        r == if scaled < size {
            scaled
        } else {
            (size - 1) as u32
        },
{
    if scaled < size {
        scaled
    } else {
        size - 1
    }
}

} // verus!


