//! Mesh geometry as plain data: vertices and faces.
//!
//! The render core does not parse model files; a host supplies decoded
//! geometry in this form (vertex positions in integer world units,
//! faces as vertex indices with an optional per-face material), and
//! [`crate::triangle::Mesh::load`] fans it into triangles.

use vstd::prelude::*;
use crate::vec3::Vec3;
use crate::material::{Material, mat_wf};

verus! {

/// A polygonal face: three or four vertex indices and an optional
/// material binding.
pub enum Face {
    Triangle(i32, i32, i32, Option<Material>),
    Quad(i32, i32, i32, i32, Option<Material>),
}

/// Well-formedness of a face's material binding.
pub open spec fn face_wf(f: Face) -> bool {
    match f {
        Face::Triangle(_, _, _, m) => match m {
            Some(mm) => mat_wf(mm),
            None => true,
        },
        Face::Quad(_, _, _, _, m) => match m {
            Some(mm) => mat_wf(mm),
            None => true,
        },
    }
}

/// Every vertex index of the face lies in a table of `nverts` entries.
pub open spec fn face_in_range(f: Face, nverts: int) -> bool {
    match f {
        Face::Triangle(i0, i1, i2, _) => 0 <= i0 < nverts && 0 <= i1 < nverts && 0 <= i2
            < nverts,
        Face::Quad(i0, i1, i2, i3, _) => 0 <= i0 < nverts && 0 <= i1 < nverts && 0 <= i2 < nverts
            && 0 <= i3 < nverts,
    }
}

/// Decoded mesh geometry: faces over a shared vertex table.
pub struct Obj {
    pub faces: Vec<Face>,
    pub vertices: Vec<Vec3>,
}

/// Well-formedness of decoded geometry: all face materials well-formed
/// and every vertex within the coordinate budget.
pub open spec fn obj_wf(o: Obj) -> bool {
    &&& forall|i: int| 0 <= i < o.faces@.len() ==> face_wf(#[trigger] o.faces@[i])
    &&& forall|i: int|
        0 <= i < o.vertices@.len() ==> crate::vec3::vec_in(
            #[trigger] o.vertices@[i],
            crate::COORD_MAX as int,
        )
}

} // verus!
