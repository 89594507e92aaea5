//! The indexed mesh model: triangles refer to positions, texture coordinates,
//! normals and materials by index.
use vstd::prelude::*;

verus! {

/// One triangle of a mesh.
/// - `verts`: 0-based indices into the position array.
/// - `texes`: 1-based indices into the texture-coordinate array; 0 where the
///   source gave none.
/// - `norms`: 1-based indices into the normal array; 0 where the source gave
///   none.
/// - `mtl`: index into the mesh's material table; every triangle that names a
///   material shares that one entry.
#[derive(Clone, Copy, Debug, PartialEq, Eq)]
pub struct Triangle {
    pub verts: [usize; 3],
    pub texes: [usize; 3],
    pub norms: [usize; 3],
    pub mtl: usize,
}

/// Which entries of the mesh's normal array shade the triangle's three
/// corners: the triangle's own normals where it names all three, else the
/// per-vertex normals at its vertex indices.
pub open spec fn normal_slots_spec(t: Triangle) -> [usize; 3] {
    if t.norms[0] > 0 && t.norms[1] > 0 && t.norms[2] > 0 {
        [(t.norms[0] - 1) as usize, (t.norms[1] - 1) as usize, (t.norms[2] - 1) as usize]
    } else {
        t.verts
    }
}

/// Which texture coordinates the triangle's corners use: only where it names
/// all three and all are in the array of `n` coordinates.
pub open spec fn texcoord_slots_spec(t: Triangle, n: nat) -> Option<[usize; 3]> {
    if t.texes[0] > 0 && t.texes[1] > 0 && t.texes[2] > 0 && t.texes[0] <= n && t.texes[1] <= n
        && t.texes[2] <= n {
        Some([(t.texes[0] - 1) as usize, (t.texes[1] - 1) as usize, (t.texes[2] - 1) as usize])
    } else {
        None
    }
}

pub fn normal_slots(t: &Triangle) -> (r: [usize; 3])
    ensures
        r == normal_slots_spec(*t),
{
    if t.norms[0] > 0 && t.norms[1] > 0 && t.norms[2] > 0 {
        [t.norms[0] - 1, t.norms[1] - 1, t.norms[2] - 1]
    } else {
        t.verts
    }
}

pub fn texcoord_slots(t: &Triangle, n: usize) -> (r: Option<[usize; 3]>)
    ensures
        r == texcoord_slots_spec(*t, n as nat),
{
    if t.texes[0] > 0 && t.texes[1] > 0 && t.texes[2] > 0 && t.texes[0] <= n && t.texes[1] <= n
        && t.texes[2] <= n {
        Some([t.texes[0] - 1, t.texes[1] - 1, t.texes[2] - 1])
    } else {
        None
    }
}

} // verus!
