//! The output mesh model and the generation error type.

use vstd::prelude::*;
use crate::coord::{coord_bounded, Coord};
use crate::map::DensityMapError;
use crate::triangle::Triangle;

verus! {

/// Coordinate bound kept by every point of a generated mesh (milli-units).
pub const MESH_COORD_LIMIT: i64 = 0x200_0000_0000;

/// Some triangle of the list refers to point index `i`.
pub open spec fn point_referenced(triangles: Seq<Triangle>, i: int) -> bool {
    exists|t: int| 0 <= t < triangles.len() && (#[trigger] triangles[t]).references(i)
}

/// Density mesh: a point list and triangles indexing into it.
#[derive(Clone, Debug, Default)]
pub struct DensityMesh {
    /// List of points.
    pub points: Vec<Coord>,
    /// List of triangles.
    pub triangles: Vec<Triangle>,
}

impl DensityMesh {
    /// Every triangle indexes into the point list, every point is referenced
    /// by at least one triangle, and all points are in the working
    /// coordinate range.
    pub open spec fn wf(self) -> bool {
        &&& crate::triangle::triangles_in_range(self.triangles@, self.points@.len() as int)
        &&& forall|i: int|
            0 <= i < self.points@.len() ==> #[trigger] point_referenced(self.triangles@, i)
        &&& forall|i: int|
            0 <= i < self.points@.len() ==> coord_bounded(
                (#[trigger] self.points@[i]).x as int,
                self.points@[i].y as int,
                MESH_COORD_LIMIT as int,
            )
    }

    /// Create an empty mesh.
    pub fn new_empty() -> (r: DensityMesh)
        ensures
            r.points@.len() == 0,
            r.triangles@.len() == 0,
            r.wf(),
    {
        DensityMesh { points: Vec::new(), triangles: Vec::new() }
    }
}

/// In a well-formed mesh, every point index appearing in any triangle is
/// below the point count, and every point is referenced by at least one
/// triangle: no triangle dangles and no point is an orphan.
pub proof fn lemma_mesh_indices(m: DensityMesh)
    requires
        m.wf(),
    ensures
        forall|t: int|
            0 <= t < m.triangles@.len() ==> (#[trigger] m.triangles@[t]).a < m.points@.len()
                && m.triangles@[t].b < m.points@.len() && m.triangles@[t].c < m.points@.len(),
        forall|i: int| 0 <= i < m.points@.len() ==> #[trigger] point_referenced(m.triangles@, i),
{
    assert forall|t: int| 0 <= t < m.triangles@.len() implies (#[trigger] m.triangles@[t]).a
        < m.points@.len() && m.triangles@[t].b < m.points@.len() && m.triangles@[t].c
        < m.points@.len() by {
        assert(m.triangles@[t].in_range(m.points@.len() as int));
    }
}

/// Error thrown during density mesh generation.
#[derive(Clone, Debug)]
pub enum GenerateDensityMeshError {
    /// Density map error.
    DensityMap(DensityMapError),
    /// Trying to process an uninitialized generator.
    UninitializedGenerator,
    /// Trying to process a generator that already completed its mesh; the
    /// finished mesh is handed back.
    AlreadyCompleted(DensityMesh),
    /// Failed points triangulation.
    FailedTriangulation,
}

} // verus!
