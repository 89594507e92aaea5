//! Index topology of the built-in procedural meshes: the parametric
//! cylinder and cone, and the fixed cube, wall, letter N and letter P.
use vstd::prelude::*;
use crate::mesh::Triangle;

verus! {

/// Largest number of segments of a procedural cylinder.
pub const MAX_SEGMENTS: usize = 1048576;

pub open spec fn cylinder_corners(n: int, k: int) -> (int, int, int) {
    let i = k / 4;
    let next = (i + 1) % n;
    if k % 4 == 0 {
        (i, next, i + n)
    } else if k % 4 == 1 {
        (i + n, next, next + n)
    } else if k % 4 == 2 {
        (next, i, 2 * n)
    } else {
        (i + n, next + n, 2 * n + 1)
    }
}

/// Triangle k of a closed cylinder of n segments. Vertices 0..n are the
/// bottom ring, n..2n the top ring (vertex i + n above vertex i), 2n the
/// bottom center and 2n + 1 the top center. Segment i = k / 4 gives four
/// triangles, k % 4 being their material: two for the side between ring
/// vertices i and i + 1 (mod n), then one for each cap.
pub open spec fn cylinder_triangle(n: int, k: int) -> Triangle {
    let (a, b, c) = cylinder_corners(n, k);
    Triangle {
        verts: [a as usize, b as usize, c as usize],
        texes: [0, 0, 0],
        norms: [0, 0, 0],
        mtl: (k % 4) as usize,
    }
}

fn flat(a: usize, b: usize, c: usize, mtl: usize) -> (t: Triangle)
    ensures
        t == flat_spec(a, b, c, mtl),
{
    Triangle { verts: [a, b, c], texes: [0, 0, 0], norms: [0, 0, 0], mtl }
}

/// The triangles of a closed cylinder of n segments, over 2n + 2 vertices.
pub fn cylinder_triangles(n: usize) -> (r: Vec<Triangle>)
    requires
        0 < n <= MAX_SEGMENTS,
    ensures
        r@.len() == 4 * n,
        forall|k: int| 0 <= k < 4 * n ==> #[trigger] r@[k] == cylinder_triangle(n as int, k),
        forall|k: int, j: int|
            0 <= k < 4 * n && 0 <= j < 3 ==> #[trigger] r@[k].verts[j] < 2 * n + 2,
{
    let mut r: Vec<Triangle> = Vec::new();
    let mut i: usize = 0;
    while i < n
        invariant
            0 < n <= MAX_SEGMENTS,
            i <= n,
            r@.len() == 4 * i,
            forall|k: int| 0 <= k < 4 * i ==> #[trigger] r@[k] == cylinder_triangle(n as int, k),
        decreases n - i,
    {
        let next = (i + 1) % n;
        r.push(flat(i, next, i + n, 0));
        r.push(flat(i + n, next, next + n, 1));
        r.push(flat(next, i, 2 * n, 2));
        r.push(flat(i + n, next + n, 2 * n + 1, 3));
        proof {
            assert forall|k: int| 0 <= k < 4 * (i + 1) implies #[trigger] r@[k] == cylinder_triangle(n as int, k) by {
                if k >= 4 * i {
                    let j = k - 4 * i;
                    assert(k / 4 == i as int && k % 4 == j) by (nonlinear_arith)
                        requires
                            k == 4 * i + j,
                            0 <= j < 4,
                    ;
                }
            }
        }
        i = i + 1;
    }
    assert forall|k: int, j: int| 0 <= k < 4 * n && 0 <= j < 3 implies #[trigger] r@[k].verts[j] < 2 * n + 2 by {
        assert(r@[k] == cylinder_triangle(n as int, k));
        assert(0 <= k / 4 < n) by (nonlinear_arith)
            requires
                0 <= k < 4 * n,
        ;
        assert(0 <= (k / 4 + 1) % (n as int) < n);
    }
    r
}


pub open spec fn flat_spec(a: usize, b: usize, c: usize, mtl: usize) -> Triangle {
    Triangle { verts: [a, b, c], texes: [0, 0, 0], norms: [0, 0, 0], mtl }
}

/// Triangle k of a cone of n segments. Vertices 0..n are the base ring, n
/// the apex and n + 1 the center of the base. The first n triangles are the
/// sides, side i joining ring vertices i and i + 1 (mod n) to the apex, with
/// material i; the next n close the base, base i with material n + i % 2.
pub open spec fn cone_triangle(n: int, k: int) -> Triangle {
    if k < n {
        flat_spec(k as usize, ((k + 1) % n) as usize, n as usize, k as usize)
    } else {
        let i = k - n;
        flat_spec(i as usize, (n + 1) as usize, ((i + 1) % n) as usize, (n + i % 2) as usize)
    }
}

/// The triangles of a cone of n segments, over n + 2 vertices.
pub fn cone_triangles(n: usize) -> (r: Vec<Triangle>)
    requires
        0 < n <= MAX_SEGMENTS,
    ensures
        r@.len() == 2 * n,
        forall|k: int| 0 <= k < 2 * n ==> #[trigger] r@[k] == cone_triangle(n as int, k),
{
    let mut r: Vec<Triangle> = Vec::new();
    let mut i: usize = 0;
    while i < n
        invariant
            0 < n <= MAX_SEGMENTS,
            i <= n,
            r@.len() == i,
            forall|k: int| 0 <= k < i ==> #[trigger] r@[k] == cone_triangle(n as int, k),
        decreases n - i,
    {
        r.push(flat(i, (i + 1) % n, n, i));
        i = i + 1;
    }
    let mut i: usize = 0;
    while i < n
        invariant
            0 < n <= MAX_SEGMENTS,
            i <= n,
            r@.len() == n + i,
            forall|k: int| 0 <= k < n + i ==> #[trigger] r@[k] == cone_triangle(n as int, k),
        decreases n - i,
    {
        r.push(flat(i, n + 1, (i + 1) % n, n + i % 2));
        i = i + 1;
    }
    r
}

/// The triangles of the cube with corners at (±1, ±1, ±1), 8 vertices; each triangle's material is the
/// index of its color in the mesh's palette of 12.
pub open spec fn cube_spec() -> Seq<Triangle> {
    seq![
        flat_spec(0, 1, 2, 0),
        flat_spec(0, 2, 3, 1),
        flat_spec(4, 6, 5, 2),
        flat_spec(4, 7, 6, 3),
        flat_spec(0, 3, 7, 4),
        flat_spec(0, 7, 4, 5),
        flat_spec(1, 5, 6, 6),
        flat_spec(1, 6, 2, 7),
        flat_spec(0, 4, 5, 8),
        flat_spec(0, 5, 1, 9),
        flat_spec(3, 2, 6, 10),
        flat_spec(3, 6, 7, 11),
    ]
}

pub fn cube_triangles() -> (r: Vec<Triangle>)
    ensures
        r@ == cube_spec(),
{
    let mut r: Vec<Triangle> = Vec::new();
    r.push(flat(0, 1, 2, 0));
    r.push(flat(0, 2, 3, 1));
    r.push(flat(4, 6, 5, 2));
    r.push(flat(4, 7, 6, 3));
    r.push(flat(0, 3, 7, 4));
    r.push(flat(0, 7, 4, 5));
    r.push(flat(1, 5, 6, 6));
    r.push(flat(1, 6, 2, 7));
    r.push(flat(0, 4, 5, 8));
    r.push(flat(0, 5, 1, 9));
    r.push(flat(3, 2, 6, 10));
    r.push(flat(3, 6, 7, 11));
    assert(r@ =~= cube_spec());
    r
}

/// The triangles of the letter N, a prism of 20 vertices (10 on the front face, 10 on the back); each triangle's material is the
/// index of its color in the mesh's palette of 6.
pub open spec fn letter_n_spec() -> Seq<Triangle> {
    seq![
        flat_spec(0, 2, 1, 0),
        flat_spec(1, 2, 3, 0),
        flat_spec(8, 6, 7, 0),
        flat_spec(7, 6, 5, 0),
        flat_spec(8, 9, 4, 0),
        flat_spec(3, 4, 9, 0),
        flat_spec(10, 11, 12, 1),
        flat_spec(11, 13, 12, 1),
        flat_spec(18, 17, 16, 1),
        flat_spec(15, 16, 17, 1),
        flat_spec(18, 14, 19, 1),
        flat_spec(13, 19, 14, 1),
        flat_spec(0, 11, 10, 2),
        flat_spec(11, 0, 1, 2),
        flat_spec(6, 15, 5, 2),
        flat_spec(15, 6, 16, 2),
        flat_spec(4, 2, 14, 3),
        flat_spec(2, 12, 14, 3),
        flat_spec(7, 17, 9, 3),
        flat_spec(9, 17, 19, 3),
        flat_spec(4, 14, 8, 4),
        flat_spec(8, 14, 18, 4),
        flat_spec(3, 9, 13, 4),
        flat_spec(19, 13, 9, 4),
        flat_spec(1, 3, 13, 5),
        flat_spec(1, 13, 11, 5),
        flat_spec(7, 5, 15, 5),
        flat_spec(7, 15, 17, 5),
        flat_spec(0, 12, 2, 5),
        flat_spec(0, 10, 12, 5),
        flat_spec(8, 16, 6, 5),
        flat_spec(8, 18, 16, 5),
    ]
}

pub fn letter_n_triangles() -> (r: Vec<Triangle>)
    ensures
        r@ == letter_n_spec(),
{
    let mut r: Vec<Triangle> = Vec::new();
    r.push(flat(0, 2, 1, 0));
    r.push(flat(1, 2, 3, 0));
    r.push(flat(8, 6, 7, 0));
    r.push(flat(7, 6, 5, 0));
    r.push(flat(8, 9, 4, 0));
    r.push(flat(3, 4, 9, 0));
    r.push(flat(10, 11, 12, 1));
    r.push(flat(11, 13, 12, 1));
    r.push(flat(18, 17, 16, 1));
    r.push(flat(15, 16, 17, 1));
    r.push(flat(18, 14, 19, 1));
    r.push(flat(13, 19, 14, 1));
    r.push(flat(0, 11, 10, 2));
    r.push(flat(11, 0, 1, 2));
    r.push(flat(6, 15, 5, 2));
    r.push(flat(15, 6, 16, 2));
    r.push(flat(4, 2, 14, 3));
    r.push(flat(2, 12, 14, 3));
    r.push(flat(7, 17, 9, 3));
    r.push(flat(9, 17, 19, 3));
    r.push(flat(4, 14, 8, 4));
    r.push(flat(8, 14, 18, 4));
    r.push(flat(3, 9, 13, 4));
    r.push(flat(19, 13, 9, 4));
    r.push(flat(1, 3, 13, 5));
    r.push(flat(1, 13, 11, 5));
    r.push(flat(7, 5, 15, 5));
    r.push(flat(7, 15, 17, 5));
    r.push(flat(0, 12, 2, 5));
    r.push(flat(0, 10, 12, 5));
    r.push(flat(8, 16, 6, 5));
    r.push(flat(8, 18, 16, 5));
    assert(r@ =~= letter_n_spec());
    r
}

/// The triangles of the letter P, a prism of 22 vertices (11 on the front face, 11 on the back); each triangle's material is the
/// index of its color in the mesh's palette of 2.
pub open spec fn p_shape_spec() -> Seq<Triangle> {
    seq![
        flat_spec(0, 4, 1, 0),
        flat_spec(4, 0, 2, 0),
        flat_spec(3, 6, 5, 0),
        flat_spec(6, 3, 7, 0),
        flat_spec(9, 2, 8, 0),
        flat_spec(2, 9, 10, 0),
        flat_spec(11, 12, 15, 0),
        flat_spec(15, 13, 11, 0),
        flat_spec(14, 16, 17, 0),
        flat_spec(17, 18, 14, 0),
        flat_spec(20, 19, 13, 0),
        flat_spec(20, 13, 21, 0),
        flat_spec(13, 2, 0, 1),
        flat_spec(0, 11, 13, 1),
        flat_spec(20, 9, 8, 1),
        flat_spec(8, 19, 20, 1),
        flat_spec(18, 7, 4, 1),
        flat_spec(4, 15, 18, 1),
        flat_spec(1, 3, 12, 1),
        flat_spec(14, 12, 3, 1),
        flat_spec(5, 6, 16, 1),
        flat_spec(17, 16, 6, 1),
        flat_spec(2, 10, 13, 1),
        flat_spec(21, 13, 10, 1),
        flat_spec(0, 1, 12, 1),
        flat_spec(12, 11, 0, 1),
        flat_spec(8, 2, 13, 1),
        flat_spec(13, 19, 8, 1),
        flat_spec(3, 5, 16, 1),
        flat_spec(16, 14, 3, 1),
        flat_spec(10, 9, 21, 1),
        flat_spec(20, 21, 9, 1),
        flat_spec(4, 2, 15, 1),
        flat_spec(13, 15, 2, 1),
        flat_spec(6, 7, 17, 1),
        flat_spec(18, 17, 7, 1),
    ]
}

#[verifier::rlimit(40)]
pub fn p_shape_triangles() -> (r: Vec<Triangle>)
    ensures
        r@ == p_shape_spec(),
{
    let mut r: Vec<Triangle> = Vec::new();
    r.push(flat(0, 4, 1, 0));
    r.push(flat(4, 0, 2, 0));
    r.push(flat(3, 6, 5, 0));
    r.push(flat(6, 3, 7, 0));
    r.push(flat(9, 2, 8, 0));
    r.push(flat(2, 9, 10, 0));
    r.push(flat(11, 12, 15, 0));
    r.push(flat(15, 13, 11, 0));
    r.push(flat(14, 16, 17, 0));
    r.push(flat(17, 18, 14, 0));
    r.push(flat(20, 19, 13, 0));
    r.push(flat(20, 13, 21, 0));
    r.push(flat(13, 2, 0, 1));
    r.push(flat(0, 11, 13, 1));
    r.push(flat(20, 9, 8, 1));
    r.push(flat(8, 19, 20, 1));
    r.push(flat(18, 7, 4, 1));
    r.push(flat(4, 15, 18, 1));
    r.push(flat(1, 3, 12, 1));
    r.push(flat(14, 12, 3, 1));
    r.push(flat(5, 6, 16, 1));
    r.push(flat(17, 16, 6, 1));
    r.push(flat(2, 10, 13, 1));
    r.push(flat(21, 13, 10, 1));
    r.push(flat(0, 1, 12, 1));
    r.push(flat(12, 11, 0, 1));
    r.push(flat(8, 2, 13, 1));
    r.push(flat(13, 19, 8, 1));
    r.push(flat(3, 5, 16, 1));
    r.push(flat(16, 14, 3, 1));
    r.push(flat(10, 9, 21, 1));
    r.push(flat(20, 21, 9, 1));
    r.push(flat(4, 2, 15, 1));
    r.push(flat(13, 15, 2, 1));
    r.push(flat(6, 7, 17, 1));
    r.push(flat(18, 17, 7, 1));
    assert(r@ =~= p_shape_spec());
    r
}

/// The triangles of a flat wall of 4 vertices; each triangle's material is the
/// index of its color in the mesh's palette of 1.
pub open spec fn wall_spec() -> Seq<Triangle> {
    seq![
        flat_spec(0, 1, 2, 0),
        flat_spec(3, 2, 1, 0),
    ]
}

pub fn wall_triangles() -> (r: Vec<Triangle>)
    ensures
        r@ == wall_spec(),
{
    let mut r: Vec<Triangle> = Vec::new();
    r.push(flat(0, 1, 2, 0));
    r.push(flat(3, 2, 1, 0));
    assert(r@ =~= wall_spec());
    r
}

} // verus!
