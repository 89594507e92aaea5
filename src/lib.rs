//! A software rasterizer for triangle meshes: the parts of the pipeline that
//! decide which pixels a triangle covers, which fragment owns each pixel, and
//! how Wavefront .obj / .mtl text becomes an indexed mesh.
//!
//! - `raster`: edge functions on fixed-point screen coordinates, the sweep of
//!   one triangle over its pixel rectangle, and the depth test.
//! - `render`: one frame over a projected mesh, with culling.
//! - `mesh`: the indexed triangle and how its corners find their normals and
//!   texture coordinates.
//! - `lex`, `obj`, `mtl`: the .obj and .mtl readers, fed line by line.
//! - `shapes`: the topology of built-in procedural meshes.
//!
//! Depths, colors and shading are computed by the caller, per fragment, in
//! callbacks; depths are bit patterns of non-negative single-precision values.
use vstd::prelude::*;

pub mod lex;
pub mod mesh;
pub mod mtl;
pub mod obj;
pub mod raster;
pub mod render;
pub mod shapes;

verus! {

} // verus!
