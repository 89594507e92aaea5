//! One frame: every triangle of a projected mesh that is in front of the
//! camera and faces it is drawn, in mesh order, into a shared frame and depth
//! buffer.
use vstd::prelude::*;
use crate::mesh::Triangle;
use crate::raster::{
    FAR_DEPTH, lemma_index_in_frame,
    area_spec, covers, draw_triangle, frame_shape, is_front_facing, pixel_index, pixel_is,
    pixel_outcome, pixel_same, sample_at, fragment_result, PixelSample, ScreenPoint, ScreenTriangle,
};

verus! {

/// Triangle t of the mesh, all of whose vertices are inside the depth range
/// (projected), and which faces the camera.
pub open spec fn qualifies(screen: Seq<Option<ScreenPoint>>, t: Triangle) -> bool {
    &&& screen[t.verts[0] as int] is Some
    &&& screen[t.verts[1] as int] is Some
    &&& screen[t.verts[2] as int] is Some
    &&& area_spec(screen_triangle(screen, t)) > 0
}

pub open spec fn screen_triangle(screen: Seq<Option<ScreenPoint>>, t: Triangle) -> ScreenTriangle {
    ScreenTriangle {
        a: screen[t.verts[0] as int]->0,
        b: screen[t.verts[1] as int]->0,
        c: screen[t.verts[2] as int]->0,
    }
}

/// Every vertex index of every triangle is in the projected array.
pub open spec fn indices_in_range(screen_len: nat, tris: Seq<Triangle>) -> bool {
    forall|k: int, j: int| 0 <= k < tris.len() && 0 <= j < 3 ==> #[trigger] tris[k].verts[j] < screen_len
}

/// Triangle k meets pixel (x, y): it qualifies and covers the pixel.
pub open spec fn meets(screen: Seq<Option<ScreenPoint>>, tris: Seq<Triangle>, k: int, x: int, y: int) -> bool {
    qualifies(screen, tris[k]) && covers(screen_triangle(screen, tris[k]), x, y)
}

pub open spec fn sample_of(screen: Seq<Option<ScreenPoint>>, tris: Seq<Triangle>, k: int, x: int, y: int) -> PixelSample {
    sample_at(screen_triangle(screen, tris[k]), x as usize, y as usize)
}

/// The stored depth d1 at pixel (x, y) is not above the depth that triangle k
/// gave there, where it met the pixel.
pub open spec fn not_above<D>(
    screen: Seq<Option<ScreenPoint>>,
    tris: Seq<Triangle>,
    k: int,
    x: int,
    y: int,
    d1: u32,
    depth_of: D,
) -> bool where D: Fn(usize, PixelSample) -> u32 {
    meets(screen, tris, k, x, y) ==> exists|d: u32|
        #[trigger] depth_of.ensures((k as usize, sample_of(screen, tris, k, x, y)), d) && d1 <= d
}

/// The stored depth d1 at pixel (x, y) is strictly below the depth that
/// triangle k gave there, where it met the pixel.
pub open spec fn strictly_below<D>(
    screen: Seq<Option<ScreenPoint>>,
    tris: Seq<Triangle>,
    k: int,
    x: int,
    y: int,
    d1: u32,
    depth_of: D,
) -> bool where D: Fn(usize, PixelSample) -> u32 {
    meets(screen, tris, k, x, y) ==> exists|d: u32|
        #[trigger] depth_of.ensures((k as usize, sample_of(screen, tris, k, x, y)), d) && d1 < d
}

/// Pixel (x, y), with index i, holds triangle k's fragment: its depth and the
/// color that shading that fragment gave; every earlier triangle that met
/// the pixel gave a strictly greater depth there, so among the fragments of
/// least depth the pixel holds the first one drawn.
pub open spec fn owned_by<D, S>(
    screen: Seq<Option<ScreenPoint>>,
    tris: Seq<Triangle>,
    k: int,
    x: int,
    y: int,
    i: int,
    d1: Seq<u32>,
    f1: Seq<u8>,
    depth_of: D,
    shade: S,
) -> bool where D: Fn(usize, PixelSample) -> u32, S: Fn(usize, PixelSample) -> [u8; 4] {
    &&& meets(screen, tris, k, x, y)
    &&& depth_of.ensures((k as usize, sample_of(screen, tris, k, x, y)), d1[i])
    &&& exists|c: [u8; 4]|
        #[trigger] shade.ensures((k as usize, sample_of(screen, tris, k, x, y)), c) && pixel_is(f1, i, c)
    &&& forall|k2: int| 0 <= k2 < k ==> #[trigger] strictly_below(screen, tris, k2, x, y, d1[i], depth_of)
}

/// Pixel (x, y) after the first n triangles were drawn: its depth has not
/// risen, is not above any fragment of those triangles that met it, and the
/// pixel is as it was or holds the fragment of one of them whose depth is the
/// stored one, and which is strictly nearer than every earlier one that met
/// the pixel (at equal depth the first drawn keeps the pixel).
pub open spec fn pixel_after<D, S>(
    screen: Seq<Option<ScreenPoint>>,
    tris: Seq<Triangle>,
    n: int,
    x: int,
    y: int,
    width: int,
    d0: Seq<u32>,
    d1: Seq<u32>,
    f0: Seq<u8>,
    f1: Seq<u8>,
    depth_of: D,
    shade: S,
) -> bool where D: Fn(usize, PixelSample) -> u32, S: Fn(usize, PixelSample) -> [u8; 4] {
    let i = pixel_index(x, y, width);
    &&& d1[i] <= d0[i]
    &&& forall|k: int| 0 <= k < n ==> #[trigger] not_above(screen, tris, k, x, y, d1[i], depth_of)
    &&& (d1[i] == d0[i] && pixel_same(f0, f1, i)) || exists|k: int|
        0 <= k < n && #[trigger] owned_by(screen, tris, k, x, y, i, d1, f1, depth_of, shade)
}

proof fn lemma_pixel_step<D, S>(
    screen: Seq<Option<ScreenPoint>>,
    tris: Seq<Triangle>,
    n: int,
    x: int,
    y: int,
    width: int,
    drawn: bool,
    d0: Seq<u32>,
    d1: Seq<u32>,
    d2: Seq<u32>,
    f0: Seq<u8>,
    f1: Seq<u8>,
    f2: Seq<u8>,
    depth_of: D,
    shade: S,
) where D: Fn(usize, PixelSample) -> u32, S: Fn(usize, PixelSample) -> [u8; 4]
    requires
        0 <= n < tris.len(),
        0 <= x < width,
        0 <= y,
        0 <= pixel_index(x, y, width) < d0.len(),
        d1.len() == d0.len(),
        d2.len() == d0.len(),
        f1.len() == f0.len(),
        f2.len() == f0.len(),
        f0.len() == 4 * d0.len(),
        drawn == qualifies(screen, tris[n]),
        pixel_after(screen, tris, n, x, y, width, d0, d1, f0, f1, depth_of, shade),
        drawn ==> pixel_outcome(n as usize, screen_triangle(screen, tris[n]), x, y, width, true, d1, d2, f1, f2, depth_of, shade),
        !drawn ==> d2 == d1 && f2 == f1,
    ensures
        pixel_after(screen, tris, n + 1, x, y, width, d0, d2, f0, f2, depth_of, shade),
{
    let i = pixel_index(x, y, width);
    let s = sample_of(screen, tris, n, x, y);
    if drawn && covers(screen_triangle(screen, tris[n]), x, y) {
        assert(fragment_result(n as usize, s, d1[i], d2[i], f1, f2, i, depth_of, shade));
        let d = choose|d: u32| #[trigger] depth_of.ensures((n as usize, s), d) && if d < d1[i] {
            d2[i] == d && exists|c: [u8; 4]| #[trigger] shade.ensures((n as usize, s), c) && pixel_is(f2, i, c)
        } else {
            d2[i] == d1[i] && pixel_same(f1, f2, i)
        };
        if d < d1[i] {
            assert forall|k2: int| 0 <= k2 < n implies #[trigger] strictly_below(screen, tris, k2, x, y, d2[i], depth_of) by {
                assert(not_above(screen, tris, k2, x, y, d1[i], depth_of));
                if meets(screen, tris, k2, x, y) {
                    let s2 = sample_of(screen, tris, k2, x, y);
                    let e = choose|e: u32| #[trigger] depth_of.ensures((k2 as usize, s2), e) && d1[i] <= e;
                    assert(depth_of.ensures((k2 as usize, s2), e) && d2[i] < e);
                }
            }
            assert(owned_by(screen, tris, n, x, y, i, d2, f2, depth_of, shade));
            assert forall|k: int| 0 <= k < n + 1 implies #[trigger] not_above(screen, tris, k, x, y, d2[i], depth_of) by {
                if k < n {
                    assert(not_above(screen, tris, k, x, y, d1[i], depth_of));
                } else {
                    assert(depth_of.ensures((k as usize, sample_of(screen, tris, k, x, y)), d));
                }
            }
        } else {
            assert forall|k: int| 0 <= k < n + 1 implies #[trigger] not_above(screen, tris, k, x, y, d2[i], depth_of) by {
                if k < n {
                    assert(not_above(screen, tris, k, x, y, d1[i], depth_of));
                } else {
                    assert(depth_of.ensures((k as usize, sample_of(screen, tris, k, x, y)), d));
                }
            }
            if !(d1[i] == d0[i] && pixel_same(f0, f1, i)) {
                let k = choose|k: int| 0 <= k < n && #[trigger] owned_by(screen, tris, k, x, y, i, d1, f1, depth_of, shade);
                let sk = sample_of(screen, tris, k, x, y);
                let c = choose|c: [u8; 4]| #[trigger] shade.ensures((k as usize, sk), c) && pixel_is(f1, i, c);
                assert(shade.ensures((k as usize, sk), c) && pixel_is(f2, i, c));
                assert(owned_by(screen, tris, k, x, y, i, d2, f2, depth_of, shade));
            }
        }
    } else {
        assert(d2[i] == d1[i] && pixel_same(f1, f2, i));
        assert forall|k: int| 0 <= k < n + 1 implies #[trigger] not_above(screen, tris, k, x, y, d2[i], depth_of) by {
            if k < n {
                assert(not_above(screen, tris, k, x, y, d1[i], depth_of));
            }
        }
        if !(d1[i] == d0[i] && pixel_same(f0, f1, i)) {
            let k = choose|k: int| 0 <= k < n && #[trigger] owned_by(screen, tris, k, x, y, i, d1, f1, depth_of, shade);
            let sk = sample_of(screen, tris, k, x, y);
            let c = choose|c: [u8; 4]| #[trigger] shade.ensures((k as usize, sk), c) && pixel_is(f1, i, c);
            assert(shade.ensures((k as usize, sk), c) && pixel_is(f2, i, c));
            assert(owned_by(screen, tris, k, x, y, i, d2, f2, depth_of, shade));
        }
    }
}

/// Draws every triangle of a projected mesh, in order, into the frame.
/// `screen` holds each vertex's projected position, or None where the vertex
/// is outside the depth range; a triangle with such a vertex, or one that
/// does not face the camera, is skipped. For each pixel the result is: its
/// depth has not risen; it is not above the depth of any fragment that met
/// it; and the pixel is as it was, or holds the color of a fragment whose
/// depth is the stored one and which is strictly nearer than every fragment
/// drawn before it there (at equal depth the first drawn keeps the pixel). `depth_of` and `shade` receive the triangle's
/// index with each sample.
pub fn draw_mesh<D, S>(
    screen: &[Option<ScreenPoint>],
    tris: &[Triangle],
    width: usize,
    height: usize,
    frame: &mut [u8],
    depth: &mut [u32],
    depth_of: &D,
    shade: &S,
) where D: Fn(usize, PixelSample) -> u32, S: Fn(usize, PixelSample) -> [u8; 4]
    requires
        frame_shape(width as int, height as int, old(frame)@.len() as int, old(depth)@.len() as int),
        indices_in_range(screen@.len(), tris@),
        forall|k2: usize, s2: PixelSample| depth_of.requires((k2, s2)),
        forall|k2: usize, s2: PixelSample| shade.requires((k2, s2)),
    ensures
        final(frame)@.len() == old(frame)@.len(),
        final(depth)@.len() == old(depth)@.len(),
        forall|x: int, y: int|
            0 <= x < width && 0 <= y < height ==> #[trigger] pixel_after(
                screen@,
                tris@,
                tris@.len() as int,
                x,
                y,
                width as int,
                old(depth)@,
                final(depth)@,
                old(frame)@,
                final(frame)@,
                *depth_of,
                *shade,
            ),
{
    let ghost d0 = depth@;
    let ghost f0 = frame@;
    let ghost w = width as int;
    let ghost h = height as int;
    let mut k: usize = 0;
    assert forall|x: int, y: int| 0 <= x < width && 0 <= y < height implies #[trigger] pixel_after(
        screen@, tris@, 0, x, y, w, d0, depth@, f0, frame@, *depth_of, *shade) by {
    }
    while k < tris.len()
        invariant
            frame_shape(w, h, frame@.len() as int, depth@.len() as int),
            width == w,
            height == h,
            depth@.len() == d0.len(),
            frame@.len() == f0.len(),
            k <= tris@.len(),
            indices_in_range(screen@.len(), tris@),
            forall|k2: usize, s2: PixelSample| depth_of.requires((k2, s2)),
            forall|k2: usize, s2: PixelSample| shade.requires((k2, s2)),
            forall|x: int, y: int|
                0 <= x < width && 0 <= y < height ==> #[trigger] pixel_after(
                    screen@,
                    tris@,
                    k as int,
                    x,
                    y,
                    w,
                    d0,
                    depth@,
                    f0,
                    frame@,
                    *depth_of,
                    *shade,
                ),
        decreases tris@.len() - k,
    {
        let ghost d1 = depth@;
        let ghost f1 = frame@;
        let tri = tris[k];
        assert(tri.verts[0] < screen@.len() && tri.verts[1] < screen@.len() && tri.verts[2] < screen@.len());
        let mut drawn = false;
        match (screen[tri.verts[0]], screen[tri.verts[1]], screen[tri.verts[2]]) {
            (Some(a), Some(b), Some(c)) => {
                let t = ScreenTriangle { a, b, c };
                if is_front_facing(t) {
                    draw_triangle(k, t, width, height, frame, depth, depth_of, shade);
                    drawn = true;
                }
            },
            _ => {},
        }
        proof {
            assert(drawn == qualifies(screen@, tris@[k as int]));
            assert forall|x: int, y: int| 0 <= x < width && 0 <= y < height implies #[trigger] pixel_after(
                screen@, tris@, k + 1, x, y, w, d0, depth@, f0, frame@, *depth_of, *shade) by {
                assert(pixel_after(screen@, tris@, k as int, x, y, w, d0, d1, f0, f1, *depth_of, *shade));
                lemma_index_in_frame(x, y, w, h);
                if drawn {
                    assert(pixel_outcome(k, screen_triangle(screen@, tris@[k as int]), x, y, w, true, d1, depth@, f1, frame@, *depth_of, *shade));
                }
                lemma_pixel_step(screen@, tris@, k as int, x, y, w, drawn, d0, d1, depth@, f0, f1, frame@, *depth_of, *shade);
            }
        }
        k = k + 1;
    }
}

/// A mesh of one triangle that does not face the camera (its corners run
/// clockwise on screen) leaves a white frame white and the depth buffer as it
/// was.
pub proof fn lemma_back_face_silence<D, S>(
    screen: Seq<Option<ScreenPoint>>,
    tris: Seq<Triangle>,
    width: int,
    height: int,
    d0: Seq<u32>,
    d1: Seq<u32>,
    f0: Seq<u8>,
    f1: Seq<u8>,
    depth_of: D,
    shade: S,
) where D: Fn(usize, PixelSample) -> u32, S: Fn(usize, PixelSample) -> [u8; 4]
    requires
        frame_shape(width, height, f0.len() as int, d0.len() as int),
        tris.len() == 1,
        indices_in_range(screen.len(), tris),
        area_spec(screen_triangle(screen, tris[0])) <= 0,
        forall|j: int| 0 <= j < f0.len() ==> f0[j] == 255,
        forall|x: int, y: int|
            0 <= x < width && 0 <= y < height ==> #[trigger] pixel_after(
                screen,
                tris,
                1,
                x,
                y,
                width,
                d0,
                d1,
                f0,
                f1,
                depth_of,
                shade,
            ),
    ensures
        forall|x: int, y: int|
            0 <= x < width && 0 <= y < height ==> {
                let i = #[trigger] pixel_index(x, y, width);
                &&& d1[i] == d0[i]
                &&& pixel_is(f1, i, [255u8, 255u8, 255u8, 255u8])
            },
{
    assert forall|x: int, y: int| 0 <= x < width && 0 <= y < height implies {
        let i = #[trigger] pixel_index(x, y, width);
        &&& d1[i] == d0[i]
        &&& pixel_is(f1, i, [255u8, 255u8, 255u8, 255u8])
    } by {
        let i = pixel_index(x, y, width);
        lemma_index_in_frame(x, y, width, height);
        assert(pixel_after(screen, tris, 1, x, y, width, d0, d1, f0, f1, depth_of, shade));
        assert(!meets(screen, tris, 0, x, y));
        if !(d1[i] == d0[i] && pixel_same(f0, f1, i)) {
            let k = choose|k: int| 0 <= k < 1 && #[trigger] owned_by(screen, tris, k, x, y, i, d1, f1, depth_of, shade);
            assert(k == 0);
        }
        assert(f0[4 * i] == 255 && f0[4 * i + 1] == 255 && f0[4 * i + 2] == 255 && f0[4 * i + 3] == 255);
    }
}

/// On a fresh frame (white, every depth at the far plane), a single triangle
/// that faces the camera and whose fragments all lie nearer than the far plane
/// writes exactly the pixels it covers: each of them holds a depth nearer than
/// the far plane and the color of its fragment, and every other pixel stays
/// white at the far plane.
pub proof fn lemma_coverage<D, S>(
    screen: Seq<Option<ScreenPoint>>,
    tris: Seq<Triangle>,
    width: int,
    height: int,
    d0: Seq<u32>,
    d1: Seq<u32>,
    f0: Seq<u8>,
    f1: Seq<u8>,
    depth_of: D,
    shade: S,
) where D: Fn(usize, PixelSample) -> u32, S: Fn(usize, PixelSample) -> [u8; 4]
    requires
        frame_shape(width, height, f0.len() as int, d0.len() as int),
        tris.len() == 1,
        indices_in_range(screen.len(), tris),
        qualifies(screen, tris[0]),
        forall|j: int| 0 <= j < f0.len() ==> f0[j] == 255,
        forall|j: int| 0 <= j < d0.len() ==> d0[j] == FAR_DEPTH,
        forall|s: PixelSample, d: u32| #[trigger] depth_of.ensures((0usize, s), d) ==> d < FAR_DEPTH,
        forall|x: int, y: int|
            0 <= x < width && 0 <= y < height ==> #[trigger] pixel_after(
                screen,
                tris,
                1,
                x,
                y,
                width,
                d0,
                d1,
                f0,
                f1,
                depth_of,
                shade,
            ),
    ensures
        forall|x: int, y: int|
            0 <= x < width && 0 <= y < height ==> {
                let i = #[trigger] pixel_index(x, y, width);
                let s = sample_at(screen_triangle(screen, tris[0]), x as usize, y as usize);
                &&& (d1[i] < FAR_DEPTH <==> covers(screen_triangle(screen, tris[0]), x, y))
                &&& covers(screen_triangle(screen, tris[0]), x, y) ==> exists|c: [u8; 4]|
                    #[trigger] shade.ensures((0usize, s), c) && pixel_is(f1, i, c)
                &&& !covers(screen_triangle(screen, tris[0]), x, y) ==> pixel_is(
                    f1,
                    i,
                    [255u8, 255u8, 255u8, 255u8],
                )
            },
{
    assert forall|x: int, y: int| 0 <= x < width && 0 <= y < height implies {
        let i = #[trigger] pixel_index(x, y, width);
        let s = sample_at(screen_triangle(screen, tris[0]), x as usize, y as usize);
        &&& (d1[i] < FAR_DEPTH <==> covers(screen_triangle(screen, tris[0]), x, y))
        &&& covers(screen_triangle(screen, tris[0]), x, y) ==> exists|c: [u8; 4]|
            #[trigger] shade.ensures((0usize, s), c) && pixel_is(f1, i, c)
        &&& !covers(screen_triangle(screen, tris[0]), x, y) ==> pixel_is(
            f1,
            i,
            [255u8, 255u8, 255u8, 255u8],
        )
    } by {
        let i = pixel_index(x, y, width);
        let t = screen_triangle(screen, tris[0]);
        lemma_index_in_frame(x, y, width, height);
        assert(pixel_after(screen, tris, 1, x, y, width, d0, d1, f0, f1, depth_of, shade));
        assert(d0[i] == FAR_DEPTH);
        assert(f0[4 * i] == 255 && f0[4 * i + 1] == 255 && f0[4 * i + 2] == 255 && f0[4 * i + 3] == 255);
        if covers(t, x, y) {
            assert(not_above(screen, tris, 0, x, y, d1[i], depth_of));
            let d = choose|d: u32| #[trigger] depth_of.ensures((0usize, sample_of(screen, tris, 0, x, y)), d) && d1[i] <= d;
            assert(d < FAR_DEPTH);
            let k = choose|k: int| 0 <= k < 1 && #[trigger] owned_by(screen, tris, k, x, y, i, d1, f1, depth_of, shade);
            assert(k == 0);
        } else {
            assert(!meets(screen, tris, 0, x, y));
            if !(d1[i] == d0[i] && pixel_same(f0, f1, i)) {
                let k = choose|k: int| 0 <= k < 1 && #[trigger] owned_by(screen, tris, k, x, y, i, d1, f1, depth_of, shade);
                assert(k == 0);
            }
        }
    }
}

/// A triangle with a vertex outside the depth range (projected as None) is
/// rejected whole: it meets no pixel, so no pixel holds its fragment and its
/// depths bound no stored depth; every pixel is as it was or holds the
/// fragment of another triangle.
pub proof fn lemma_clipped_triangle_silent<D, S>(
    screen: Seq<Option<ScreenPoint>>,
    tris: Seq<Triangle>,
    k: int,
    width: int,
    height: int,
    d0: Seq<u32>,
    d1: Seq<u32>,
    f0: Seq<u8>,
    f1: Seq<u8>,
    depth_of: D,
    shade: S,
) where D: Fn(usize, PixelSample) -> u32, S: Fn(usize, PixelSample) -> [u8; 4]
    requires
        0 <= k < tris.len(),
        screen[tris[k].verts[0] as int] is None || screen[tris[k].verts[1] as int] is None
            || screen[tris[k].verts[2] as int] is None,
        forall|x: int, y: int|
            0 <= x < width && 0 <= y < height ==> #[trigger] pixel_after(
                screen,
                tris,
                tris.len() as int,
                x,
                y,
                width,
                d0,
                d1,
                f0,
                f1,
                depth_of,
                shade,
            ),
    ensures
        forall|x: int, y: int|
            0 <= x < width && 0 <= y < height ==> {
                let i = #[trigger] pixel_index(x, y, width);
                &&& !meets(screen, tris, k, x, y)
                &&& !owned_by(screen, tris, k, x, y, i, d1, f1, depth_of, shade)
                &&& (d1[i] == d0[i] && pixel_same(f0, f1, i)) || exists|k2: int|
                    0 <= k2 < tris.len() && k2 != k && #[trigger] owned_by(
                        screen,
                        tris,
                        k2,
                        x,
                        y,
                        i,
                        d1,
                        f1,
                        depth_of,
                        shade,
                    )
            },
{
    assert forall|x: int, y: int| 0 <= x < width && 0 <= y < height implies {
        let i = #[trigger] pixel_index(x, y, width);
        &&& !meets(screen, tris, k, x, y)
        &&& !owned_by(screen, tris, k, x, y, i, d1, f1, depth_of, shade)
        &&& (d1[i] == d0[i] && pixel_same(f0, f1, i)) || exists|k2: int|
            0 <= k2 < tris.len() && k2 != k && #[trigger] owned_by(screen, tris, k2, x, y, i, d1, f1, depth_of, shade)
    } by {
        let i = pixel_index(x, y, width);
        assert(pixel_after(screen, tris, tris.len() as int, x, y, width, d0, d1, f0, f1, depth_of, shade));
        assert(!qualifies(screen, tris[k]));
        if !(d1[i] == d0[i] && pixel_same(f0, f1, i)) {
            let k2 = choose|k2: int| 0 <= k2 < tris.len() && #[trigger] owned_by(screen, tris, k2, x, y, i, d1, f1, depth_of, shade);
            assert(k2 != k);
        }
    }
}

/// Whether every vertex index of every triangle is in a projected array of
/// `screen_len` entries.
pub fn indices_fit(screen_len: usize, tris: &[Triangle]) -> (r: bool)
    ensures
        r == indices_in_range(screen_len as nat, tris@),
{
    let mut k: usize = 0;
    while k < tris.len()
        invariant
            k <= tris@.len(),
            forall|k2: int, j: int| 0 <= k2 < k && 0 <= j < 3 ==> #[trigger] tris@[k2].verts[j] < screen_len,
        decreases tris@.len() - k,
    {
        let t = tris[k];
        if t.verts[0] >= screen_len || t.verts[1] >= screen_len || t.verts[2] >= screen_len {
            assert(!(t.verts[0] < screen_len && t.verts[1] < screen_len && t.verts[2] < screen_len));
            return false;
        }
        assert forall|k2: int, j: int| 0 <= k2 < k + 1 && 0 <= j < 3 implies #[trigger] tris@[k2].verts[j] < screen_len by {
            if k2 == k {
                assert(j == 0 || j == 1 || j == 2);
            }
        }
        k = k + 1;
    }
    true
}

} // verus!

