//! The resumable mesh generation state machine.

use vstd::prelude::*;
use crate::coord::{coord_bounded, Coord, COORD_LIMIT};
use crate::map::DensityMap;
use crate::mesh::{DensityMesh, GenerateDensityMeshError};
use crate::settings::GenerateDensityMeshSettings;
use crate::scalar::div_trunc;
use crate::triangle::{triangles_in_range, Triangle};
use crate::process_status::ProcessStatus;
use crate::utils::{
    bake_final_mesh, delaunay_of, extrude, extrude_offset, first_match, is_triangle_visible,
    lemma_bound_widen, outline_of, points_bounded, spec_triangle_visible, triangulate,
};

verus! {

/// A cell admitted as a placement candidate, with its position in scaled
/// milli-units, its density and steepness numerators, and its local squared
/// minimal separation (in squared milli-units).
#[derive(Clone, Copy, Debug, PartialEq, Eq, Structural)]
pub struct Candidate {
    /// Cell position in scaled milli-units.
    pub point: Coord,
    /// Density numerator over 255.
    pub value: u8,
    /// Steepness numerator over 3060.
    pub steepness: u16,
    /// Local squared minimal separation, squared milli-units.
    pub lpss: i64,
}

/// Squared distance between two points, in squared milli-units.
pub open spec fn sqr_dist(p: Coord, q: Coord) -> int {
    (p.x - q.x) * (p.x - q.x) + (p.y - q.y) * (p.y - q.y)
}

/// The candidate keeps more than its local separation from every accepted
/// point.
pub open spec fn candidate_far(points: Seq<Coord>, c: Candidate) -> bool {
    forall|j: int| 0 <= j < points.len() ==> sqr_dist(#[trigger] points[j], c.point) > c.lpss
}

/// Every remaining candidate is far from every accepted point.
pub open spec fn all_candidates_far(points: Seq<Coord>, rem: Seq<Candidate>) -> bool {
    forall|i: int| 0 <= i < rem.len() ==> candidate_far(points, #[trigger] rem[i])
}

/// The candidates that keep their distance from every accepted point, in
/// order.
pub open spec fn far_filter(rem: Seq<Candidate>, points: Seq<Coord>) -> Seq<Candidate> {
    rem.filter(|c: Candidate| candidate_far(points, c))
}

/// Filtering one more candidate keeps it exactly when it is far enough.
pub proof fn lemma_far_filter_push(s: Seq<Candidate>, c: Candidate, points: Seq<Coord>)
    ensures
        far_filter(s.push(c), points) == (if candidate_far(points, c) {
            far_filter(s, points).push(c)
        } else {
            far_filter(s, points)
        }),
{
    reveal(Seq::filter);
    assert(s.push(c).drop_last() =~= s);
    assert(s.push(c).last() == c);
    assert(s.push(c).len() == s.len() + 1);
}

/// Far-filtering an empty candidate list gives an empty list.
pub proof fn lemma_far_filter_empty(points: Seq<Coord>)
    ensures
        far_filter(Seq::<Candidate>::empty(), points) == Seq::<Candidate>::empty(),
{
    reveal(Seq::filter);
}

/// Far-filtering cannot grow the candidate list.
pub proof fn lemma_far_filter_len(s: Seq<Candidate>, points: Seq<Coord>)
    ensures
        far_filter(s, points).len() <= s.len(),
    decreases s.len(),
{
    reveal(Seq::filter);
    if s.len() > 0 {
        lemma_far_filter_len(s.drop_last(), points);
    }
}

/// When every candidate is far enough, far-filtering keeps them all.
pub proof fn lemma_far_filter_all(s: Seq<Candidate>, points: Seq<Coord>)
    requires
        all_candidates_far(points, s),
    ensures
        far_filter(s, points) == s,
    decreases s.len(),
{
    reveal(Seq::filter);
    if s.len() > 0 {
        assert forall|i: int| 0 <= i < s.drop_last().len() implies candidate_far(
            points,
            #[trigger] s.drop_last()[i],
        ) by {
            assert(s.drop_last()[i] == s[i]);
            assert(candidate_far(points, s[i]));
        }
        lemma_far_filter_all(s.drop_last(), points);
        assert(candidate_far(points, s[s.len() - 1]));
        assert(s.drop_last().push(s.last()) =~= s);
    } else {
        assert(far_filter(s, points) =~= s);
    }
}

/// A candidate too close to an accepted point makes far-filtering strictly
/// shrink.
pub proof fn lemma_far_filter_shrinks(s: Seq<Candidate>, points: Seq<Coord>, i: int)
    requires
        0 <= i < s.len(),
        !candidate_far(points, s[i]),
    ensures
        far_filter(s, points).len() < s.len(),
    decreases s.len(),
{
    reveal(Seq::filter);
    lemma_far_filter_len(s.drop_last(), points);
    if i < s.len() - 1 {
        assert(s.drop_last()[i] == s[i]);
        lemma_far_filter_shrinks(s.drop_last(), points, i);
    }
}

/// The cell's density and steepness are both above their thresholds.
pub open spec fn cell_admitted(m: DensityMap, st: GenerateDensityMeshSettings, i: int) -> bool {
    1000 * m.data@[i] > 255 * st.visibility_threshold && 1000 * m.steepness@[i] > 3060
        * st.steepness_threshold
}

/// The candidate record of cell `i`.
pub open spec fn candidate_at(m: DensityMap, st: GenerateDensityMeshSettings, i: int) -> Candidate {
    let scale = if m.scale > 1 {
        m.scale as int
    } else {
        1int
    };
    let x = i % (m.width as int);
    let y = i / (m.width as int);
    let sep = st.points_separation.spec_local(m.steepness@[i] as int);
    Candidate {
        point: Coord { x: (x * scale * 1000) as i64, y: (y * scale * 1000) as i64 },
        value: m.data@[i],
        steepness: m.steepness@[i],
        lpss: (sep * sep) as i64,
    }
}

/// All admitted cells of the map, in row-major cell order, as candidates.
pub open spec fn candidates_of(m: DensityMap, st: GenerateDensityMeshSettings) -> Seq<Candidate> {
    Seq::new(m.data@.len(), |i: int| i).filter(|i: int| cell_admitted(m, st, i)).map_values(
        |i: int| candidate_at(m, st, i),
    )
}

/// How many border points a chunk edge of `dim` cells gets for a maximal
/// separation of `max_sep` milli-units.
pub open spec fn chunk_count(dim: int, max_sep: int) -> int {
    div_trunc(dim * 1000, max_sep) + 1
}

/// The mesh-aligned border points seeded for a tileable chunk: the four
/// corners, then evenly spaced points along the top and bottom edges, then
/// along the left and right edges.
pub open spec fn chunk_points(w: int, h: int, max_sep: int) -> Seq<Coord> {
    let hc = chunk_count(w, max_sep);
    let vc = chunk_count(h, max_sep);
    seq![
        Coord { x: 0, y: 0 },
        Coord { x: ((w - 1) * 1000) as i64, y: 0 },
        Coord { x: ((w - 1) * 1000) as i64, y: ((h - 1) * 1000) as i64 },
        Coord { x: 0, y: ((h - 1) * 1000) as i64 },
    ] + Seq::new(
        (2 * (hc - 1)) as nat,
        |t: int|
            {
                let v = (div_trunc(w * 1000 * (t / 2 + 1), hc)) as i64;
                if t % 2 == 0 {
                    Coord { x: v, y: 0 }
                } else {
                    Coord { x: v, y: ((h - 1) * 1000) as i64 }
                }
            },
    ) + Seq::new(
        (2 * (vc - 1)) as nat,
        |t: int|
            {
                let v = (div_trunc(h * 1000 * (t / 2 + 1), vc)) as i64;
                if t % 2 == 0 {
                    Coord { x: 0, y: v }
                } else {
                    Coord { x: ((w - 1) * 1000) as i64, y: v }
                }
            },
    )
}

/// The scaled map size in milli-units stays in the working coordinate range,
/// so every candidate and chunk point does too.
pub open spec fn map_in_working_range(m: DensityMap) -> bool {
    let scale = if m.scale > 1 {
        m.scale as int
    } else {
        1int
    };
    &&& m.width * scale * 1000 <= COORD_LIMIT
    &&& m.height * scale * 1000 <= COORD_LIMIT
}

/// Density mesh generator state machine. It allows processing the mesh
/// generation in steps, tracking progress, and resuming after every step.
#[derive(Clone, Debug)]
pub enum DensityMeshGenerator {
    /// No work was handed to the generator yet.
    Uninitialized,
    /// Greedy point placement.
    FindingPoints {
        /// Generation settings for the run.
        settings: GenerateDensityMeshSettings,
        /// The density field being meshed.
        map: DensityMap,
        /// Stall budget: failed placement attempts left before giving up.
        tries: usize,
        /// Candidates not yet consumed.
        remaining: Vec<Candidate>,
        /// Accepted points.
        points: Vec<Coord>,
        /// Candidates consumed so far.
        progress_current: usize,
        /// Total number of candidates at the start.
        progress_limit: usize,
    },
    /// Triangulation of the accepted points.
    Triangulate {
        /// Generation settings for the run.
        settings: GenerateDensityMeshSettings,
        /// The density field being meshed.
        map: DensityMap,
        /// Accepted points.
        points: Vec<Coord>,
        /// Total number of candidates at the start.
        progress_limit: usize,
    },
    /// Dropping triangles whose sampled density is mostly invisible.
    RemoveInvisibleTriangles {
        /// Generation settings for the run.
        settings: GenerateDensityMeshSettings,
        /// The density field being meshed.
        map: DensityMap,
        /// Accepted points.
        points: Vec<Coord>,
        /// Triangles so far.
        triangles: Vec<Triangle>,
        /// Total number of candidates at the start.
        progress_limit: usize,
    },
    /// Adding the extruded skirt around the outline.
    Extrude {
        /// Accepted points.
        points: Vec<Coord>,
        /// Triangles so far.
        triangles: Vec<Triangle>,
        /// Extrusion size in milli-units.
        size: i64,
        /// Total number of candidates at the start.
        progress_limit: usize,
    },
    /// Pruning unreferenced points and renumbering.
    BakeFinalMesh {
        /// Accepted points.
        points: Vec<Coord>,
        /// Triangles so far.
        triangles: Vec<Triangle>,
        /// Total number of candidates at the start.
        progress_limit: usize,
    },
    /// The mesh is ready.
    Completed {
        /// The finished mesh.
        mesh: DensityMesh,
        /// Total number of candidates at the start.
        progress_limit: usize,
    },
}

impl DensityMeshGenerator {
    /// The state carries data the pipeline can keep working on: maps and
    /// settings are well formed, points are in the working range, triangles
    /// index into the points.
    pub open spec fn wf(self) -> bool {
        match self {
            DensityMeshGenerator::Uninitialized => true,
            DensityMeshGenerator::FindingPoints {
                settings,
                map,
                remaining,
                points,
                progress_current,
                progress_limit,
                ..
            } => {
                &&& settings.wf()
                &&& map.wf()
                &&& progress_current <= progress_limit
                &&& points_bounded(points@, COORD_LIMIT as int)
                &&& forall|i: int|
                    0 <= i < remaining@.len() ==> coord_bounded(
                        (#[trigger] remaining@[i]).point.x as int,
                        remaining@[i].point.y as int,
                        COORD_LIMIT as int,
                    ) && 0 <= remaining@[i].lpss
            },
            DensityMeshGenerator::Triangulate { settings, map, points, .. } => {
                &&& settings.wf()
                &&& map.wf()
                &&& points_bounded(points@, COORD_LIMIT as int)
            },
            DensityMeshGenerator::RemoveInvisibleTriangles { settings, map, points, triangles, .. } => {
                &&& settings.wf()
                &&& map.wf()
                &&& points_bounded(points@, COORD_LIMIT as int)
                &&& triangles_in_range(triangles@, points@.len() as int)
                &&& 3 * triangles@.len() <= usize::MAX
            },
            DensityMeshGenerator::Extrude { points, triangles, size, .. } => {
                &&& points_bounded(points@, COORD_LIMIT as int)
                &&& triangles_in_range(triangles@, points@.len() as int)
                &&& 3 * triangles@.len() <= usize::MAX
                &&& points@.len() + 3 * triangles@.len() <= usize::MAX
                &&& 0 <= size <= crate::settings::SEPARATION_LIMIT
            },
            DensityMeshGenerator::BakeFinalMesh { points, triangles, .. } => {
                &&& points_bounded(points@, crate::mesh::MESH_COORD_LIMIT as int)
                &&& triangles_in_range(triangles@, points@.len() as int)
            },
            DensityMeshGenerator::Completed { mesh, .. } => mesh.wf(),
        }
    }

    /// How far the pipeline still is from completion, for termination: the
    /// phase order.
    pub open spec fn phase_rank(self) -> int {
        match self {
            DensityMeshGenerator::Completed { .. } => 0,
            DensityMeshGenerator::BakeFinalMesh { .. } => 1,
            DensityMeshGenerator::Extrude { .. } => 2,
            DensityMeshGenerator::RemoveInvisibleTriangles { .. } => 3,
            DensityMeshGenerator::Triangulate { .. } => 4,
            DensityMeshGenerator::FindingPoints { .. } => 5,
            DensityMeshGenerator::Uninitialized => 6,
        }
    }

    /// Work left within the point-finding phase: twice the remaining
    /// candidates, plus one while no accepted point crowds any of them.
    pub open spec fn finding_measure(self) -> int {
        match self {
            DensityMeshGenerator::FindingPoints { remaining, points, .. } => 2 * remaining@.len()
                + (if all_candidates_far(points@, remaining@) {
                1int
            } else {
                0int
            }),
            _ => 0,
        }
    }

    /// The stall budget left within the point-finding phase.
    pub open spec fn tries_left(self) -> int {
        match self {
            DensityMeshGenerator::FindingPoints { tries, .. } => tries as int,
            _ => 0,
        }
    }

    /// One processing step strictly shrinks the phase, the point-finding
    /// measure, or the stall budget, in that order.
    pub open spec fn step_shrinks(pre: Self, post: Self) -> bool {
        ||| post.phase_rank() < pre.phase_rank()
        ||| (post.phase_rank() == pre.phase_rank() && post.finding_measure()
            < pre.finding_measure())
        ||| (post.phase_rank() == pre.phase_rank() && post.finding_measure()
            == pre.finding_measure() && post.tries_left() < pre.tries_left())
    }

    /// Accepted points while finding points.
    pub open spec fn points_count(self) -> int {
        match self {
            DensityMeshGenerator::FindingPoints { points, .. } => points@.len() as int,
            _ => 0,
        }
    }

    /// Remaining candidates while finding points.
    pub open spec fn remaining_count(self) -> int {
        match self {
            DensityMeshGenerator::FindingPoints { remaining, .. } => remaining@.len() as int,
            _ => 0,
        }
    }

    /// What the point-finding step does: drop crowded candidates when points
    /// were accepted, then accept a candidate of maximal steepness, spend a
    /// stall try, or move to triangulation.
    pub open spec fn finding_step_spec(
        settings: GenerateDensityMeshSettings,
        map: DensityMap,
        tries: int,
        remaining: Seq<Candidate>,
        points: Seq<Coord>,
        progress_limit: int,
        r: Result<Self, GenerateDensityMeshError>,
    ) -> bool {
        let filtered = if points.len() > 0 {
            far_filter(remaining, points)
        } else {
            remaining
        };
        &&& r is Ok
        &&& {
            let g = r->Ok_0;
            if filtered.len() == 0 && points.len() > 0 {
                Self::is_triangulate_state(settings, map, points, progress_limit, g)
            } else if filtered.len() > 0 {
                Self::accepted_state(settings, map, filtered, points, progress_limit, g)
            } else {
                if tries > 0 {
                    g matches DensityMeshGenerator::FindingPoints {
                        settings: s2,
                        map: m2,
                        tries: t2,
                        remaining: r2,
                        points: p2,
                        progress_current: pc2,
                        progress_limit: pl2,
                    } && s2 == settings && m2 == map && pl2 == progress_limit && r2@ == remaining
                        && p2@ == points && t2 == tries - 1 && pc2 == (if progress_limit
                        >= remaining.len() {
                        progress_limit - remaining.len()
                    } else {
                        0int
                    })
                } else {
                    Self::is_triangulate_state(settings, map, points, progress_limit, g)
                }
            }
        }
    }

    /// The generator moved to triangulation, carrying its data unchanged.
    pub open spec fn is_triangulate_state(
        settings: GenerateDensityMeshSettings,
        map: DensityMap,
        points: Seq<Coord>,
        progress_limit: int,
        g: Self,
    ) -> bool {
        g matches DensityMeshGenerator::Triangulate {
            settings: s2,
            map: m2,
            points: p2,
            progress_limit: pl2,
        } && s2 == settings && m2 == map && p2@ == points && pl2 == progress_limit
    }

    /// The generator accepted one candidate of maximal steepness out of the
    /// surviving ones and reset its stall budget.
    pub open spec fn accepted_state(
        settings: GenerateDensityMeshSettings,
        map: DensityMap,
        filtered: Seq<Candidate>,
        points: Seq<Coord>,
        progress_limit: int,
        g: Self,
    ) -> bool {
        g matches DensityMeshGenerator::FindingPoints {
            settings: s2,
            map: m2,
            tries: t2,
            remaining: r2,
            points: p2,
            progress_current: pc2,
            progress_limit: pl2,
        } && s2 == settings && m2 == map && pl2 == progress_limit && r2@ == filtered && t2 == (
        if settings.max_iterations >= 1 {
            settings.max_iterations as int
        } else {
            1int
        }) && p2@.len() == points.len() + 1 && p2@.drop_last() == points && (exists|k: int|
            0 <= k < filtered.len() && p2@.last() == (#[trigger] filtered[k]).point && (forall|
                j: int,
            |
                0 <= j < filtered.len() ==> (#[trigger] filtered[j]).steepness
                    <= filtered[k].steepness) && (forall|j: int|
                k < j < filtered.len() ==> (#[trigger] filtered[j]).steepness
                    < filtered[k].steepness)) && pc2 == (if progress_limit >= filtered.len() {
            progress_limit - filtered.len()
        } else {
            0int
        })
    }

    /// What one processing step does, for each phase.
    pub open spec fn process_spec(pre: Self, r: Result<Self, GenerateDensityMeshError>) -> bool {
        match pre {
            DensityMeshGenerator::Uninitialized => r matches Err(
                GenerateDensityMeshError::UninitializedGenerator,
            ),
            DensityMeshGenerator::Completed { mesh, .. } => r matches Err(
                GenerateDensityMeshError::AlreadyCompleted(m),
            ) && m == mesh,
            DensityMeshGenerator::FindingPoints {
                settings,
                map,
                tries,
                remaining,
                points,
                progress_current,
                progress_limit,
            } => Self::finding_step_spec(
                settings,
                map,
                tries as int,
                remaining@,
                points@,
                progress_limit as int,
                r,
            ),
            DensityMeshGenerator::Triangulate { settings, map, points, progress_limit } => {
                Self::triangulate_step_spec(settings, map, points@, progress_limit as int, r)
            },
            DensityMeshGenerator::RemoveInvisibleTriangles {
                settings,
                map,
                points,
                triangles,
                progress_limit,
            } => {
                let kept = triangles@.filter(
                    |t: Triangle|
                        spec_triangle_visible(
                            points@[t.a as int],
                            points@[t.b as int],
                            points@[t.c as int],
                            map,
                            settings.visibility_threshold as int,
                        ),
                );
                &&& (r is Err ==> r->Err_0 is FailedTriangulation)
                &&& (r is Ok <==> !(settings.extrude_size is Some && points@.len() + 3 * kept.len()
                    > usize::MAX))
                &&& (r is Ok ==> Self::after_filter(
                    settings,
                    points@,
                    progress_limit as int,
                    kept,
                    r->Ok_0,
                ))
            },
            DensityMeshGenerator::Extrude { points, triangles, size, progress_limit } => {
                let ol = outline_of(triangles@);
                &&& r is Ok
                &&& (r->Ok_0 matches DensityMeshGenerator::BakeFinalMesh {
                    points: p2,
                    triangles: t2,
                    progress_limit: pl2,
                } && pl2 == progress_limit && p2@ == points@ + crate::utils::extrude_offsets_seq(
                    points@,
                    ol,
                    size as int,
                ) && t2@ == triangles@ + crate::utils::skirt_triangles_seq(
                    points@.len() as int,
                    ol,
                ))
            },
            DensityMeshGenerator::BakeFinalMesh { points, triangles, progress_limit } => {
                &&& r is Ok
                &&& (r->Ok_0 matches DensityMeshGenerator::Completed { mesh, progress_limit: pl2 }
                    && pl2 == progress_limit && mesh.wf() && exists|m: Seq<Option<usize>>|
                    crate::utils::bake_selection(points@, triangles@, mesh, m))
            },
        }
    }

    /// What the triangulation step does: it succeeds exactly when the point
    /// set is not degenerate, the backend finds a triangulation, and (when a
    /// skirt is to be added right away) the skirt's point indices fit; the
    /// carried triangles are exactly the backend's.
    pub open spec fn triangulate_step_spec(
        settings: GenerateDensityMeshSettings,
        map: DensityMap,
        points: Seq<Coord>,
        progress_limit: int,
        r: Result<Self, GenerateDensityMeshError>,
    ) -> bool {
        let ts = delaunay_of(points)->0;
        let needs_room = settings.keep_invisible_triangles && settings.extrude_size is Some;
        &&& (r is Err ==> r->Err_0 is FailedTriangulation)
        &&& (r is Ok <==> (!crate::utils::degenerate_points(points) && delaunay_of(points) is Some
            && (needs_room ==> points.len() + 3 * ts.len() <= usize::MAX)))
        &&& (r is Ok ==> Self::after_triangulate(
            settings,
            map,
            points,
            progress_limit,
            ts,
            r->Ok_0,
        ))
    }

    /// The phase after triangulation: filter invisible triangles unless they
    /// are kept, then extrude if a skirt is asked for, else bake.
    pub open spec fn after_triangulate(
        settings: GenerateDensityMeshSettings,
        map: DensityMap,
        points: Seq<Coord>,
        progress_limit: int,
        ts: Seq<Triangle>,
        g: Self,
    ) -> bool {
        if !settings.keep_invisible_triangles {
            g matches DensityMeshGenerator::RemoveInvisibleTriangles {
                settings: s2,
                map: m2,
                points: p2,
                triangles: t2,
                progress_limit: pl2,
            } && s2 == settings && m2 == map && p2@ == points && t2@ == ts && pl2 == progress_limit
        } else {
            Self::after_filter(settings, points, progress_limit, ts, g)
        }
    }

    /// The phase after the visibility filter (or instead of it): extrude if a
    /// skirt is asked for, else bake.
    pub open spec fn after_filter(
        settings: GenerateDensityMeshSettings,
        points: Seq<Coord>,
        progress_limit: int,
        ts: Seq<Triangle>,
        g: Self,
    ) -> bool {
        match settings.extrude_size {
            Some(size) => g matches DensityMeshGenerator::Extrude {
                points: p2,
                triangles: t2,
                size: sz2,
                progress_limit: pl2,
            } && p2@ == points && t2@ == ts && sz2 == size && pl2 == progress_limit,
            None => g matches DensityMeshGenerator::BakeFinalMesh {
                points: p2,
                triangles: t2,
                progress_limit: pl2,
            } && p2@ == points && t2@ == ts && pl2 == progress_limit,
        }
    }
}

impl Default for DensityMeshGenerator {
    /// A generator with no work handed to it.
    fn default() -> (r: DensityMeshGenerator)
        ensures
            r is Uninitialized,
    {
        DensityMeshGenerator::Uninitialized
    }
}

/// Relies on `std::time::Instant` as an opaque monotonic clock reading.
#[verifier::external_type_specification]
#[verifier::external_body]
pub struct ExInstant(std::time::Instant);

/// Relies on `std::time::Instant::now`: an opaque reading of a monotonic
/// clock; nothing is promised of its value.
#[verifier::external_body]
fn clock_now() -> std::time::Instant {
    std::time::Instant::now()
}

/// Relies on `std::time::Instant::elapsed`: the whole milliseconds since the
/// reading was taken. The result depends on the clock, so nothing is promised
/// of it.
#[verifier::external_body]
fn elapsed_millis(start: &std::time::Instant) -> u128 {
    start.elapsed().as_millis()
}

/// The candidate keeps more than its local separation from every accepted
/// point.
fn candidate_is_far(points: &Vec<Coord>, c: Candidate) -> (r: bool)
    requires
        crate::utils::points_bounded(points@, COORD_LIMIT as int),
        coord_bounded(c.point.x as int, c.point.y as int, COORD_LIMIT as int),
    ensures
        r == candidate_far(points@, c),
{
    let n = points.len();
    let mut j: usize = 0;
    while j < n
        invariant
            n == points@.len(),
            j <= n,
            crate::utils::points_bounded(points@, COORD_LIMIT as int),
            coord_bounded(c.point.x as int, c.point.y as int, COORD_LIMIT as int),
            forall|l: int| 0 <= l < j ==> sqr_dist(#[trigger] points@[l], c.point) > c.lpss,
        decreases n - j,
    {
        let d = points[j].sub(c.point);
        let sq: i128 = d.sqr_magnitude();
        if !(sq > c.lpss as i128) {
            return false;
        }
        j = j + 1;
    }
    true
}

/// Drop every candidate within its local separation of an accepted point.
fn filter_candidates(remaining: Vec<Candidate>, points: &Vec<Coord>) -> (r: Vec<Candidate>)
    requires
        crate::utils::points_bounded(points@, COORD_LIMIT as int),
        forall|i: int|
            0 <= i < remaining@.len() ==> coord_bounded(
                (#[trigger] remaining@[i]).point.x as int,
                remaining@[i].point.y as int,
                COORD_LIMIT as int,
            ) && 0 <= remaining@[i].lpss,
    ensures
        r@ == far_filter(remaining@, points@),
        forall|i: int|
            0 <= i < r@.len() ==> coord_bounded(
                (#[trigger] r@[i]).point.x as int,
                r@[i].point.y as int,
                COORD_LIMIT as int,
            ) && 0 <= r@[i].lpss,
{
    let n = remaining.len();
    let mut r: Vec<Candidate> = Vec::new();
    let mut i: usize = 0;
    proof {
        assert(remaining@.subrange(0, 0) =~= Seq::<Candidate>::empty());
        lemma_far_filter_empty(points@);
        assert(r@ =~= far_filter(remaining@.subrange(0, 0), points@));
    }
    while i < n
        invariant
            n == remaining@.len(),
            i <= n,
            crate::utils::points_bounded(points@, COORD_LIMIT as int),
            forall|l: int|
                0 <= l < remaining@.len() ==> coord_bounded(
                    (#[trigger] remaining@[l]).point.x as int,
                    remaining@[l].point.y as int,
                    COORD_LIMIT as int,
                ) && 0 <= remaining@[l].lpss,
            r@ == far_filter(remaining@.subrange(0, i as int), points@),
            forall|l: int|
                0 <= l < r@.len() ==> coord_bounded(
                    (#[trigger] r@[l]).point.x as int,
                    r@[l].point.y as int,
                    COORD_LIMIT as int,
                ) && 0 <= r@[l].lpss,
        decreases n - i,
    {
        let c = remaining[i];
        let keep = candidate_is_far(points, c);
        let ghost prefix = remaining@.subrange(0, i as int);
        if keep {
            r.push(c);
        }
        proof {
            assert(remaining@.subrange(0, i + 1) =~= prefix.push(c));
            lemma_far_filter_push(prefix, c, points@);
        }
        i = i + 1;
    }
    proof {
        assert(remaining@.subrange(0, n as int) =~= remaining@);
    }
    r
}

/// The index of a candidate with maximal steepness (the last one on ties).
fn pick_max_steepness(remaining: &Vec<Candidate>) -> (r: usize)
    requires
        remaining@.len() > 0,
    ensures
        r < remaining@.len(),
        forall|j: int|
            0 <= j < remaining@.len() ==> (#[trigger] remaining@[j]).steepness
                <= remaining@[r as int].steepness,
        forall|j: int|
            r < j < remaining@.len() ==> (#[trigger] remaining@[j]).steepness
                < remaining@[r as int].steepness,
{
    let n = remaining.len();
    let mut best: usize = 0;
    let mut i: usize = 1;
    while i < n
        invariant
            n == remaining@.len(),
            1 <= i <= n,
            best < i,
            forall|j: int|
                0 <= j < i ==> (#[trigger] remaining@[j]).steepness
                    <= remaining@[best as int].steepness,
            forall|j: int|
                best < j < i ==> (#[trigger] remaining@[j]).steepness
                    < remaining@[best as int].steepness,
        decreases n - i,
    {
        if remaining[i].steepness >= remaining[best].steepness {
            best = i;
        }
        i = i + 1;
    }
    best
}

impl DensityMeshGenerator {
    /// Create a new generator over the map: seed points, chunk border points
    /// when asked for, and every admitted cell as a candidate.
    pub fn new(points: Vec<Coord>, map: DensityMap, settings: GenerateDensityMeshSettings) -> (r:
        DensityMeshGenerator)
        requires
            map.wf(),
            settings.wf(),
            map_in_working_range(map),
            crate::utils::points_bounded(points@, COORD_LIMIT as int),
            settings.is_chunk ==> map.width >= 1 && map.height >= 1,
        ensures
            r.wf(),
            r matches DensityMeshGenerator::FindingPoints {
                settings: s2,
                map: m2,
                tries,
                remaining,
                points: p2,
                progress_current,
                progress_limit,
            } && s2 == settings && m2 == map && tries == settings.max_iterations && remaining@
                == candidates_of(map, settings) && p2@ == points@ + (if settings.is_chunk {
                chunk_points(
                    map.width as int,
                    map.height as int,
                    settings.points_separation.spec_maximum() as int,
                )
            } else {
                Seq::<Coord>::empty()
            }) && progress_current == 0 && progress_limit == remaining@.len(),
    {
        let mut points = points;
        let ghost seeds = points@;
        if settings.is_chunk {
            push_chunk_points(&mut points, &map, &settings);
        } else {
            proof {
                assert(points@ =~= seeds + Seq::<Coord>::empty());
            }
        }
        let remaining = collect_candidates(&map, &settings);
        let progress_limit = remaining.len();
        DensityMeshGenerator::FindingPoints {
            tries: settings.max_iterations,
            settings,
            map,
            remaining,
            points,
            progress_current: 0,
            progress_limit,
        }
    }

    /// Whether mesh generation is done.
    pub fn is_done(&self) -> (r: bool)
        ensures
            r == (self is Completed),
    {
        match self {
            DensityMeshGenerator::Completed { .. } => true,
            _ => false,
        }
    }

    /// The generated mesh when completed, otherwise the generator itself.
    pub fn get_mesh_or_self(self) -> (r: Result<DensityMesh, DensityMeshGenerator>)
        ensures
            self is Completed ==> (r matches Ok(m) && (self
                matches DensityMeshGenerator::Completed { mesh, .. } && m == mesh)),
            !(self is Completed) ==> (r matches Err(g) && g == self),
    {
        match self {
            DensityMeshGenerator::Completed { mesh, .. } => Ok(mesh),
            g => Err(g),
        }
    }

    /// The generated mesh, when one is ready.
    pub fn mesh(&self) -> (r: Option<&DensityMesh>)
        ensures
            r is Some <==> self is Completed,
            r matches Some(m) ==> (self matches DensityMeshGenerator::Completed { mesh, .. }
                && *m == mesh),
    {
        match self {
            DensityMeshGenerator::Completed { mesh, .. } => Some(mesh),
            _ => None,
        }
    }

    /// The generated mesh, when one is ready, consuming the generator.
    pub fn into_mesh(self) -> (r: Option<DensityMesh>)
        ensures
            r is Some <==> self is Completed,
            r matches Some(m) ==> (self matches DensityMeshGenerator::Completed { mesh, .. }
                && m == mesh),
    {
        match self {
            DensityMeshGenerator::Completed { mesh, .. } => Some(mesh),
            _ => None,
        }
    }

    /// Processing progress as `(consumed candidates, total candidates,
    /// completed fraction in permille)`.
    pub fn progress(&self) -> (r: (usize, usize, u32))
        requires
            self.wf(),
        ensures
            r.0 <= r.1,
            r.2 <= 1000,
            ({
                match *self {
                    DensityMeshGenerator::Uninitialized => r == (0usize, 0usize, 0u32),
                    DensityMeshGenerator::FindingPoints {
                        progress_current,
                        progress_limit,
                        ..
                    } => r.0 == progress_current && r.1 == progress_limit && r.2 as int == (
                    if progress_limit > 0 {
                        progress_current * 1000 / (progress_limit as int)
                    } else {
                        0int
                    }),
                    _ => r.0 == r.1 && r.2 == 1000,
                }
            }),
    {
        match self {
            DensityMeshGenerator::Uninitialized => (0, 0, 0),
            DensityMeshGenerator::FindingPoints { progress_current, progress_limit, .. } => {
                let c = *progress_current;
                let l = *progress_limit;
                let permille: u32 = if l > 0 {
                    proof {
                        lemma_permille_bound(c as int, l as int);
                    }
                    (((c as u128) * 1000) / (l as u128)) as u32
                } else {
                    0
                };
                (c, l, permille)
            },
            DensityMeshGenerator::Triangulate { progress_limit, .. } => (
                *progress_limit,
                *progress_limit,
                1000,
            ),
            DensityMeshGenerator::RemoveInvisibleTriangles { progress_limit, .. } => (
                *progress_limit,
                *progress_limit,
                1000,
            ),
            DensityMeshGenerator::Extrude { progress_limit, .. } => (
                *progress_limit,
                *progress_limit,
                1000,
            ),
            DensityMeshGenerator::BakeFinalMesh { progress_limit, .. } => (
                *progress_limit,
                *progress_limit,
                1000,
            ),
            DensityMeshGenerator::Completed { progress_limit, .. } => (
                *progress_limit,
                *progress_limit,
                1000,
            ),
        }
    }

    /// Perform one processing step: one candidate accept or reject cycle, or
    /// one whole triangulate, filter, extrude or bake pass. Processing an
    /// uninitialized or completed generator is misuse and fails.
    pub fn process(self) -> (r: Result<DensityMeshGenerator, GenerateDensityMeshError>)
        requires
            self.wf(),
        ensures
            DensityMeshGenerator::process_spec(self, r),
            r is Ok ==> r->Ok_0.wf(),
            r is Ok ==> DensityMeshGenerator::step_shrinks(self, r->Ok_0),
            self is FindingPoints && r is Ok && r->Ok_0 is FindingPoints ==> r->Ok_0.points_count()
                >= self.points_count() && r->Ok_0.remaining_count() <= self.remaining_count(),
    {
        match self {
            DensityMeshGenerator::Uninitialized => Err(
                GenerateDensityMeshError::UninitializedGenerator,
            ),
            DensityMeshGenerator::Completed { mesh, .. } => Err(
                GenerateDensityMeshError::AlreadyCompleted(mesh),
            ),
            DensityMeshGenerator::FindingPoints {
                settings,
                map,
                tries,
                remaining,
                points,
                progress_current,
                progress_limit,
            } => step_finding_points(
                settings,
                map,
                tries,
                remaining,
                points,
                progress_current,
                progress_limit,
            ),
            DensityMeshGenerator::Triangulate { settings, map, points, progress_limit } => {
                step_triangulate(settings, map, points, progress_limit)
            },
            DensityMeshGenerator::RemoveInvisibleTriangles {
                settings,
                map,
                points,
                triangles,
                progress_limit,
            } => step_remove_invisible(settings, map, points, triangles, progress_limit),
            DensityMeshGenerator::Extrude { points, triangles, size, progress_limit } => {
                step_extrude(points, triangles, size, progress_limit)
            },
            DensityMeshGenerator::BakeFinalMesh { points, triangles, progress_limit } => {
                let mesh = bake_final_mesh(points, triangles);
                Ok(DensityMeshGenerator::Completed { mesh, progress_limit })
            },
        }
    }

    /// Process steps until the mesh is done, returning it, or the first
    /// error: the outcome of iterating [`DensityMeshGenerator::process_spec`]
    /// until a completed state or an error.
    pub fn process_wait(self) -> (r: Result<DensityMesh, GenerateDensityMeshError>)
        requires
            self.wf(),
        ensures
            DensityMeshGenerator::wait_contract(self, r),
        decreases self.phase_rank(), self.finding_measure(), self.tries_left(),
    {
        let ghost pre = self;
        match self.process() {
            Err(e) => {
                proof {
                    assert(DensityMeshGenerator::fails_with(pre, e));
                }
                Err(e)
            },
            Ok(g) => {
                let ghost mid = g;
                match g {
                    DensityMeshGenerator::Completed { mesh, progress_limit } => {
                        proof {
                            DensityMeshGenerator::lemma_steps_prepend(pre, mid, mid, 0);
                            DensityMeshGenerator::lemma_reaches_completed_intro(
                                pre,
                                mesh,
                                progress_limit,
                                1,
                            );
                        }
                        Ok(mesh)
                    },
                    g2 => {
                        let r = g2.process_wait();
                        proof {
                            DensityMeshGenerator::lemma_chain_prepend(pre, mid, r);
                        }
                        r
                    },
                }
            },
        }
    }

    /// Process steps until the mesh is done or the time budget is spent.
    /// Preemption granularity is one phase step, so a single triangulation,
    /// filter, extrusion or bake pass can exceed the requested budget.
    /// Returns the state to resume from, with `MeshChanged` exactly when the
    /// mesh completed within the budget and `InProgress` when time ran out
    /// first; the returned state is reached from this one by processing
    /// steps.
    pub fn process_wait_timeout(self, timeout_millis: u128) -> (r: Result<
        (DensityMeshGenerator, ProcessStatus),
        GenerateDensityMeshError,
    >)
        requires
            self.wf(),
        ensures
            DensityMeshGenerator::timeout_outcome(self, r),
    {
        let start = clock_now();
        self.process_wait_timeout_from(&start, timeout_millis)
    }

    /// The timeout loop, resumed from a running clock.
    fn process_wait_timeout_from(
        self,
        start: &std::time::Instant,
        timeout_millis: u128,
    ) -> (r: Result<(DensityMeshGenerator, ProcessStatus), GenerateDensityMeshError>)
        requires
            self.wf(),
        ensures
            DensityMeshGenerator::timeout_outcome(self, r),
        decreases self.phase_rank(), self.finding_measure(), self.tries_left(),
    {
        let ghost pre = self;
        match self.process() {
            Err(e) => {
                proof {
                    assert(DensityMeshGenerator::fails_with(pre, e));
                }
                Err(e)
            },
            Ok(g) => {
                let ghost mid = g;
                proof {
                    DensityMeshGenerator::lemma_steps_prepend(pre, mid, mid, 0);
                }
                if g.is_done() {
                    Ok((g, ProcessStatus::MeshChanged))
                } else if elapsed_millis(start) > timeout_millis {
                    Ok((g, ProcessStatus::InProgress))
                } else {
                    let r = g.process_wait_timeout_from(start, timeout_millis);
                    proof {
                        DensityMeshGenerator::lemma_timeout_prepend(pre, mid, r);
                    }
                    r
                }
            },
        }
    }

    /// Like [`DensityMeshGenerator::process_wait_timeout`], invoking the
    /// callback with `(consumed, total, permille)` once up front and after
    /// every step.
    pub fn process_wait_timeout_tracked<F: Fn(usize, usize, u32)>(
        self,
        f: F,
        timeout_millis: u128,
    ) -> (r: Result<(DensityMeshGenerator, ProcessStatus), GenerateDensityMeshError>)
        requires
            self.wf(),
            forall|args: (usize, usize, u32)| #[trigger] f.requires(args),
        ensures
            DensityMeshGenerator::timeout_outcome(self, r),
    {
        let start = clock_now();
        let (c, l, p) = self.progress();
        f(c, l, p);
        self.process_wait_timeout_tracked_from(f, &start, timeout_millis)
    }

    /// The tracked timeout loop, resumed from a running clock.
    fn process_wait_timeout_tracked_from<F: Fn(usize, usize, u32)>(
        self,
        f: F,
        start: &std::time::Instant,
        timeout_millis: u128,
    ) -> (r: Result<(DensityMeshGenerator, ProcessStatus), GenerateDensityMeshError>)
        requires
            self.wf(),
            forall|args: (usize, usize, u32)| #[trigger] f.requires(args),
        ensures
            DensityMeshGenerator::timeout_outcome(self, r),
        decreases self.phase_rank(), self.finding_measure(), self.tries_left(),
    {
        let ghost pre = self;
        match self.process() {
            Err(e) => {
                proof {
                    assert(DensityMeshGenerator::fails_with(pre, e));
                }
                Err(e)
            },
            Ok(g) => {
                let ghost mid = g;
                proof {
                    DensityMeshGenerator::lemma_steps_prepend(pre, mid, mid, 0);
                }
                let (c, l, p) = g.progress();
                f(c, l, p);
                if g.is_done() {
                    Ok((g, ProcessStatus::MeshChanged))
                } else if elapsed_millis(start) > timeout_millis {
                    Ok((g, ProcessStatus::InProgress))
                } else {
                    let r = g.process_wait_timeout_tracked_from(f, start, timeout_millis);
                    proof {
                        DensityMeshGenerator::lemma_timeout_prepend(pre, mid, r);
                    }
                    r
                }
            },
        }
    }

    /// Process steps until the mesh is done, invoking the callback with
    /// `(consumed, total, permille)` once up front and after every step.
    pub fn process_wait_tracked<F: Fn(usize, usize, u32)>(self, f: F) -> (r: Result<
        DensityMesh,
        GenerateDensityMeshError,
    >)
        requires
            self.wf(),
            forall|args: (usize, usize, u32)| #[trigger] f.requires(args),
        ensures
            DensityMeshGenerator::wait_contract(self, r),
    {
        let (c, l, p) = self.progress();
        f(c, l, p);
        self.process_wait_tracked_steps(f)
    }

    /// The tracked wait loop, after the up-front callback.
    fn process_wait_tracked_steps<F: Fn(usize, usize, u32)>(self, f: F) -> (r: Result<
        DensityMesh,
        GenerateDensityMeshError,
    >)
        requires
            self.wf(),
            forall|args: (usize, usize, u32)| #[trigger] f.requires(args),
        ensures
            DensityMeshGenerator::wait_contract(self, r),
        decreases self.phase_rank(), self.finding_measure(), self.tries_left(),
    {
        let ghost pre = self;
        match self.process() {
            Err(e) => {
                proof {
                    assert(DensityMeshGenerator::fails_with(pre, e));
                }
                Err(e)
            },
            Ok(g) => {
                let ghost mid = g;
                let (c, l, p) = g.progress();
                f(c, l, p);
                match g {
                    DensityMeshGenerator::Completed { mesh, progress_limit } => {
                        proof {
                            DensityMeshGenerator::lemma_steps_prepend(pre, mid, mid, 0);
                            DensityMeshGenerator::lemma_reaches_completed_intro(
                                pre,
                                mesh,
                                progress_limit,
                                1,
                            );
                        }
                        Ok(mesh)
                    },
                    g2 => {
                        let r = g2.process_wait_tracked_steps(f);
                        proof {
                            DensityMeshGenerator::lemma_chain_prepend(pre, mid, r);
                        }
                        r
                    },
                }
            },
        }
    }

    /// The full contract of the waiting drivers: the outcome of a chain of
    /// processing steps, a well-formed mesh on success, and the misuse
    /// errors on terminal inputs.
    pub open spec fn wait_contract(g: Self, r: Result<DensityMesh, GenerateDensityMeshError>)
        -> bool {
        &&& (r is Ok ==> r->Ok_0.wf())
        &&& DensityMeshGenerator::chain_outcome(g, r)
        &&& (g is Uninitialized ==> (r matches Err(
            GenerateDensityMeshError::UninitializedGenerator,
        )))
        &&& (g is Completed ==> (r matches Err(GenerateDensityMeshError::AlreadyCompleted(m)) && (
        g matches DensityMeshGenerator::Completed { mesh, .. } && m == mesh)))
    }

    /// The generator `g2` is reached from `g` by one or more processing
    /// steps, each allowed by [`DensityMeshGenerator::process_spec`].
    pub open spec fn steps_reach(g: Self, g2: Self, fuel: nat) -> bool
        decreases fuel,
    {
        fuel > 0 && exists|mid: DensityMeshGenerator|
            #[trigger] DensityMeshGenerator::process_spec(g, Ok(mid)) && (mid == g2
                || DensityMeshGenerator::steps_reach(mid, g2, (fuel - 1) as nat))
    }

    /// One processing step from `g` fails with `e`.
    pub open spec fn fails_with(g: Self, e: GenerateDensityMeshError) -> bool {
        DensityMeshGenerator::process_spec(g, Err(e))
    }

    /// Some chain of processing steps from `g` reaches a completed state
    /// carrying this mesh.
    pub open spec fn reaches_completed(g: Self, mesh: DensityMesh) -> bool {
        exists|fuel: nat, pl: usize|
            #[trigger] DensityMeshGenerator::steps_reach(
                g,
                DensityMeshGenerator::Completed { mesh, progress_limit: pl },
                fuel,
            )
    }

    /// Some chain of processing steps from `g` reaches a state whose next
    /// step fails with `e`.
    pub open spec fn fails_later(g: Self, e: GenerateDensityMeshError) -> bool {
        exists|fuel: nat, mid: DensityMeshGenerator|
            #[trigger] DensityMeshGenerator::steps_reach(g, mid, fuel)
                && DensityMeshGenerator::fails_with(mid, e)
    }

    /// The driver outcome is what a chain of processing steps gives: a mesh
    /// carried by a completed state the chain reaches, or the first error a
    /// step of the chain hits.
    pub open spec fn chain_outcome(g: Self, r: Result<DensityMesh, GenerateDensityMeshError>)
        -> bool {
        match r {
            Ok(mesh) => DensityMeshGenerator::reaches_completed(g, mesh),
            Err(e) => DensityMeshGenerator::fails_with(g, e)
                || DensityMeshGenerator::fails_later(g, e),
        }
    }

    /// A reached completed state witnesses [`DensityMeshGenerator::reaches_completed`].
    proof fn lemma_reaches_completed_intro(g: Self, mesh: DensityMesh, pl: usize, fuel: nat)
        requires
            DensityMeshGenerator::steps_reach(
                g,
                DensityMeshGenerator::Completed { mesh, progress_limit: pl },
                fuel,
            ),
        ensures
            DensityMeshGenerator::reaches_completed(g, mesh),
    {
    }

    /// A reached failing state witnesses [`DensityMeshGenerator::fails_later`].
    proof fn lemma_fails_later_intro(
        g: Self,
        mid: Self,
        e: GenerateDensityMeshError,
        fuel: nat,
    )
        requires
            DensityMeshGenerator::steps_reach(g, mid, fuel),
            DensityMeshGenerator::fails_with(mid, e),
        ensures
            DensityMeshGenerator::fails_later(g, e),
    {
    }

    /// The timed driver outcome: an error is hit by the chain as in
    /// [`DensityMeshGenerator::chain_outcome`]; a success hands back a
    /// well-formed state the chain reaches, `MeshChanged` exactly when it is
    /// completed.
    pub open spec fn timeout_outcome(
        g: Self,
        r: Result<(DensityMeshGenerator, ProcessStatus), GenerateDensityMeshError>,
    ) -> bool {
        match r {
            Ok((g2, status)) => {
                &&& g2.wf()
                &&& (status is MeshChanged <==> g2 is Completed)
                &&& !(status is Idle)
                &&& exists|fuel: nat| #[trigger] DensityMeshGenerator::steps_reach(g, g2, fuel)
            },
            Err(e) => DensityMeshGenerator::fails_with(g, e)
                || DensityMeshGenerator::fails_later(g, e),
        }
    }

    /// Reachability extends backwards across one allowed step.
    proof fn lemma_steps_prepend(g: Self, g1: Self, target: Self, fuel: nat)
        requires
            DensityMeshGenerator::process_spec(g, Ok(g1)),
            g1 == target || DensityMeshGenerator::steps_reach(g1, target, fuel),
        ensures
            DensityMeshGenerator::steps_reach(g, target, (fuel + 1) as nat),
    {
    }

    /// A chain outcome extends backwards across one allowed step.
    proof fn lemma_chain_prepend(
        g: Self,
        g1: Self,
        r: Result<DensityMesh, GenerateDensityMeshError>,
    )
        requires
            DensityMeshGenerator::process_spec(g, Ok(g1)),
            DensityMeshGenerator::chain_outcome(g1, r),
        ensures
            DensityMeshGenerator::chain_outcome(g, r),
    {
        match r {
            Ok(mesh) => {
                let (fuel, pl) = choose|fuel: nat, pl: usize|
                    #[trigger] DensityMeshGenerator::steps_reach(
                        g1,
                        DensityMeshGenerator::Completed { mesh, progress_limit: pl },
                        fuel,
                    );
                DensityMeshGenerator::lemma_steps_prepend(
                    g,
                    g1,
                    DensityMeshGenerator::Completed { mesh, progress_limit: pl },
                    fuel,
                );
                DensityMeshGenerator::lemma_reaches_completed_intro(g, mesh, pl, (fuel + 1) as nat);
            },
            Err(e) => {
                if DensityMeshGenerator::fails_with(g1, e) {
                    DensityMeshGenerator::lemma_steps_prepend(g, g1, g1, 0);
                    DensityMeshGenerator::lemma_fails_later_intro(g, g1, e, 1);
                } else {
                    let (fuel, mid) = choose|fuel: nat, mid: DensityMeshGenerator|
                        #[trigger] DensityMeshGenerator::steps_reach(g1, mid, fuel)
                            && DensityMeshGenerator::fails_with(mid, e);
                    DensityMeshGenerator::lemma_steps_prepend(g, g1, mid, fuel);
                    DensityMeshGenerator::lemma_fails_later_intro(g, mid, e, (fuel + 1) as nat);
                }
            },
        }
    }

    /// A timed outcome extends backwards across one allowed step.
    proof fn lemma_timeout_prepend(
        g: Self,
        g1: Self,
        r: Result<(DensityMeshGenerator, ProcessStatus), GenerateDensityMeshError>,
    )
        requires
            DensityMeshGenerator::process_spec(g, Ok(g1)),
            DensityMeshGenerator::timeout_outcome(g1, r),
        ensures
            DensityMeshGenerator::timeout_outcome(g, r),
    {
        match r {
            Ok((g2, status)) => {
                let fuel = choose|fuel: nat|
                    #[trigger] DensityMeshGenerator::steps_reach(g1, g2, fuel);
                DensityMeshGenerator::lemma_steps_prepend(g, g1, g2, fuel);
            },
            Err(e) => {
                if DensityMeshGenerator::fails_with(g1, e) {
                    DensityMeshGenerator::lemma_steps_prepend(g, g1, g1, 0);
                    DensityMeshGenerator::lemma_fails_later_intro(g, g1, e, 1);
                } else {
                    let (fuel, mid) = choose|fuel: nat, mid: DensityMeshGenerator|
                        #[trigger] DensityMeshGenerator::steps_reach(g1, mid, fuel)
                            && DensityMeshGenerator::fails_with(mid, e);
                    DensityMeshGenerator::lemma_steps_prepend(g, g1, mid, fuel);
                    DensityMeshGenerator::lemma_fails_later_intro(g, mid, e, (fuel + 1) as nat);
                }
            },
        }
    }
}


/// A consumed count within its limit gives a permille within one thousand.
proof fn lemma_permille_bound(c: int, l: int)
    requires
        0 <= c <= l,
        l > 0,
    ensures
        0 <= c * 1000 / l <= 1000,
{
    assert(c * 1000 <= l * 1000) by (nonlinear_arith)
        requires c <= l;
    assert(c * 1000 / l <= l * 1000 / l) by (nonlinear_arith)
        requires l > 0, c * 1000 <= l * 1000;
    assert(l * 1000 / l == 1000) by (nonlinear_arith)
        requires l > 0;
    assert(c * 1000 / l >= 0) by (nonlinear_arith)
        requires c >= 0, l > 0;
}

/// A dimension in range with its scale is in range alone.
proof fn lemma_dim_milli_bound(w: int, scale: int)
    requires
        w >= 0,
        scale >= 1,
        w * scale * 1000 <= COORD_LIMIT,
    ensures
        0 <= w * 1000 <= COORD_LIMIT,
{
    assert(w * 1000 <= w * scale * 1000 && w * 1000 >= 0) by (nonlinear_arith)
        requires w >= 0, scale >= 1;
}

/// An intermediate chunk border point lies within the edge.
proof fn lemma_frac_bound(a: int, i: int, hc: int)
    requires
        0 <= a,
        1 <= i < hc,
    ensures
        0 <= a * i / hc <= a,
{
    assert(0 <= a * i) by (nonlinear_arith)
        requires 0 <= a, 1 <= i;
    assert(a * i / hc >= 0) by (nonlinear_arith)
        requires 0 <= a * i, hc >= 1;
    assert(a * i <= a * hc) by (nonlinear_arith)
        requires 0 <= a, i <= hc;
    assert(a * i / hc <= a * hc / hc) by (nonlinear_arith)
        requires a * i <= a * hc, hc >= 1;
    assert(a * hc / hc == a) by (nonlinear_arith)
        requires hc >= 1;
}

/// A row-major cell index decomposes into an in-bounds column and row.
proof fn lemma_cell_xy(i: int, w: int, h: int)
    requires
        0 <= i < w * h,
        w >= 1,
    ensures
        0 <= i % w < w,
        0 <= i / w < h,
{
    assert(0 <= i % w < w && i == w * (i / w) + i % w) by (nonlinear_arith)
        requires w >= 1, i >= 0;
    if i / w >= h {
        assert(w * (i / w) >= w * h) by (nonlinear_arith)
            requires i / w >= h, w >= 1;
    }
    assert(i / w >= 0) by (nonlinear_arith)
        requires i >= 0, w >= 1;
}

/// A scaled cell coordinate in milli-units stays within the working range.
proof fn lemma_cell_coord_bound(x: int, scale: int, w: int)
    requires
        0 <= x < w,
        scale >= 1,
        w * scale * 1000 <= COORD_LIMIT,
    ensures
        0 <= x * scale * 1000 <= COORD_LIMIT,
{
    assert(0 <= x * scale * 1000 && x * scale * 1000 <= w * scale * 1000) by (nonlinear_arith)
        requires 0 <= x < w, scale >= 1;
}

/// Append the mesh-aligned border points of a tileable chunk.
fn push_chunk_points(
    points: &mut Vec<Coord>,
    map: &DensityMap,
    settings: &GenerateDensityMeshSettings,
)
    requires
        map.wf(),
        settings.wf(),
        settings.is_chunk,
        map_in_working_range(*map),
        map.width >= 1,
        map.height >= 1,
        points_bounded(old(points)@, COORD_LIMIT as int),
    ensures
        final(points)@ == old(points)@ + chunk_points(
            map.width as int,
            map.height as int,
            settings.points_separation.spec_maximum() as int,
        ),
        points_bounded(final(points)@, COORD_LIMIT as int),
{
    let ghost base = points@;
    let w = map.width;
    let h = map.height;
    let max_sep = settings.points_separation.maximum();
    proof {
        let scale = if map.scale > 1 { map.scale as int } else { 1int };
        lemma_dim_milli_bound(w as int, scale);
        lemma_dim_milli_bound(h as int, scale);
    }
    let w1000: u64 = (w as u64) * 1000;
    let h1000: u64 = (h as u64) * 1000;
    let hc: u64 = w1000 / (max_sep as u64) + 1;
    let vc: u64 = h1000 / (max_sep as u64) + 1;
    proof {
        assert(hc == chunk_count(w as int, max_sep as int));
        assert(vc == chunk_count(h as int, max_sep as int));
        assert(w1000 as int / (max_sep as int) <= w1000 as int) by (nonlinear_arith)
            requires max_sep >= 1, w1000 >= 0;
        assert(h1000 as int / (max_sep as int) <= h1000 as int) by (nonlinear_arith)
            requires max_sep >= 1, h1000 >= 0;
    }
    let cx: i64 = ((w - 1) as u64 * 1000) as i64;
    let cy: i64 = ((h - 1) as u64 * 1000) as i64;
    points.push(Coord { x: 0, y: 0 });
    points.push(Coord { x: cx, y: 0 });
    points.push(Coord { x: cx, y: cy });
    points.push(Coord { x: 0, y: cy });
    let ghost corners = seq![
        Coord { x: 0, y: 0 },
        Coord { x: cx, y: 0 },
        Coord { x: cx, y: cy },
        Coord { x: 0, y: cy },
    ];
    let ghost hfun = |t: int|
        {
            let v = (div_trunc(w as int * 1000 * (t / 2 + 1), hc as int)) as i64;
            if t % 2 == 0 {
                Coord { x: v, y: 0 }
            } else {
                Coord { x: v, y: cy }
            }
        };
    let ghost vfun = |t: int|
        {
            let v = (div_trunc(h as int * 1000 * (t / 2 + 1), vc as int)) as i64;
            if t % 2 == 0 {
                Coord { x: 0, y: v }
            } else {
                Coord { x: cx, y: v }
            }
        };
    proof {
        assert(points@ =~= base + corners + Seq::new(0nat, hfun));
    }
    let mut i: u64 = 1;
    while i < hc
        invariant
            1 <= i <= hc,
            hc == chunk_count(w as int, max_sep as int),
            w1000 == w * 1000,
            w1000 <= COORD_LIMIT,
            h1000 == h * 1000,
            h1000 <= COORD_LIMIT,
            w >= 1,
            h >= 1,
            max_sep >= 1,
            cx == (w - 1) * 1000,
            cy == (h - 1) * 1000,
            hfun == (|t: int|
                {
                    let v = (div_trunc(w as int * 1000 * (t / 2 + 1), hc as int)) as i64;
                    if t % 2 == 0 {
                        Coord { x: v, y: 0 }
                    } else {
                        Coord { x: v, y: cy }
                    }
                }),
            hc <= w1000 + 1,
            points@ == base + corners + Seq::new((2 * (i - 1)) as nat, hfun),
            points_bounded(base, COORD_LIMIT as int),
        decreases hc - i,
    {
        proof {
            assert(w1000 as int * (i as int) <= 0x2_0000_0000_0000_0000_0000) by (nonlinear_arith)
                requires 0 <= w1000 <= 0x100_0000_0000, 0 <= i <= 0x100_0000_0001;
            lemma_frac_bound(w1000 as int, i as int, hc as int);
        }
        let v: i64 = (((w1000 as u128) * (i as u128)) / (hc as u128)) as i64;
        let ghost pre = points@;
        points.push(Coord { x: v, y: 0 });
        points.push(Coord { x: v, y: cy });
        proof {
            assert(points@ =~= base + corners + Seq::new((2 * i) as nat, hfun)) by {
                assert(hfun(2 * (i - 1)) == Coord { x: v, y: 0 });
                assert(hfun(2 * (i - 1) + 1) == Coord { x: v, y: cy });
                assert(points@ =~= pre.push(Coord { x: v, y: 0 }).push(Coord { x: v, y: cy }));
            }
        }
        i = i + 1;
    }
    let ghost hpart = base + corners + Seq::new((2 * (hc - 1)) as nat, hfun);
    proof {
        assert(points@ == hpart);
        assert(points@ =~= hpart + Seq::new(0nat, vfun));
    }
    let mut j: u64 = 1;
    while j < vc
        invariant
            1 <= j <= vc,
            vc == chunk_count(h as int, max_sep as int),
            w1000 == w * 1000,
            w1000 <= COORD_LIMIT,
            h1000 == h * 1000,
            h1000 <= COORD_LIMIT,
            w >= 1,
            h >= 1,
            max_sep >= 1,
            cx == (w - 1) * 1000,
            cy == (h - 1) * 1000,
            vfun == (|t: int|
                {
                    let v = (div_trunc(h as int * 1000 * (t / 2 + 1), vc as int)) as i64;
                    if t % 2 == 0 {
                        Coord { x: 0, y: v }
                    } else {
                        Coord { x: cx, y: v }
                    }
                }),
            vc <= h1000 + 1,
            points@ == hpart + Seq::new((2 * (j - 1)) as nat, vfun),
            hpart == base + corners + Seq::new((2 * (hc - 1)) as nat, hfun),
            points_bounded(base, COORD_LIMIT as int),
        decreases vc - j,
    {
        proof {
            assert(h1000 as int * (j as int) <= 0x2_0000_0000_0000_0000_0000) by (nonlinear_arith)
                requires 0 <= h1000 <= 0x100_0000_0000, 0 <= j <= 0x100_0000_0001;
            lemma_frac_bound(h1000 as int, j as int, vc as int);
        }
        let v: i64 = (((h1000 as u128) * (j as u128)) / (vc as u128)) as i64;
        let ghost pre = points@;
        points.push(Coord { x: 0, y: v });
        points.push(Coord { x: cx, y: v });
        proof {
            assert(points@ =~= hpart + Seq::new((2 * j) as nat, vfun)) by {
                assert(vfun(2 * (j - 1)) == Coord { x: 0, y: v });
                assert(vfun(2 * (j - 1) + 1) == Coord { x: cx, y: v });
                assert(points@ =~= pre.push(Coord { x: 0, y: v }).push(Coord { x: cx, y: v }));
            }
        }
        j = j + 1;
    }
    proof {
        assert(points@ =~= base + chunk_points(
            map.width as int,
            map.height as int,
            settings.points_separation.spec_maximum() as int,
        ));
        assert forall|l: int| 0 <= l < points@.len() implies coord_bounded(
            (#[trigger] points@[l]).x as int,
            points@[l].y as int,
            COORD_LIMIT as int,
        ) by {
            if l < base.len() {
                assert(points@[l] == base[l]);
                assert(coord_bounded(base[l].x as int, base[l].y as int, COORD_LIMIT as int));
            } else {
                let t = l - base.len() - 4;
                if t >= 0 {
                    if t < 2 * (chunk_count(w as int, max_sep as int) - 1) {
                        lemma_frac_bound(w as int * 1000, t / 2 + 1, chunk_count(w as int, max_sep as int));
                    } else {
                        let t2 = t - 2 * (chunk_count(w as int, max_sep as int) - 1);
                        lemma_frac_bound(h as int * 1000, t2 / 2 + 1, chunk_count(h as int, max_sep as int));
                    }
                }
            }
        }
    }
}

/// Every admitted cell of the map, in row-major order, as a candidate.
fn collect_candidates(map: &DensityMap, settings: &GenerateDensityMeshSettings) -> (r: Vec<
    Candidate,
>)
    requires
        map.wf(),
        settings.wf(),
        map_in_working_range(*map),
    ensures
        r@ == candidates_of(*map, *settings),
        forall|i: int|
            0 <= i < r@.len() ==> coord_bounded(
                (#[trigger] r@[i]).point.x as int,
                r@[i].point.y as int,
                COORD_LIMIT as int,
            ) && 0 <= r@[i].lpss,
{
    let ghost adm = |i: int| cell_admitted(*map, *settings, i);
    let ghost mk = |i: int| candidate_at(*map, *settings, i);
    let n = map.data.len();
    let scale_eff: usize = if map.scale > 1 {
        map.scale
    } else {
        1
    };
    let mut r: Vec<Candidate> = Vec::new();
    let mut i: usize = 0;
    proof {
        crate::utils::lemma_filter_all(Seq::<int>::empty(), adm);
        assert(Seq::new(0nat, |l: int| l) =~= Seq::<int>::empty());
        assert(r@ =~= Seq::new(0nat, |l: int| l).filter(adm).map_values(mk));
    }
    while i < n
        invariant
            n == map.data@.len(),
            map.wf(),
            settings.wf(),
            map_in_working_range(*map),
            scale_eff == (if map.scale > 1 {
                map.scale as int
            } else {
                1int
            }),
            i <= n,
            adm == (|l: int| cell_admitted(*map, *settings, l)),
            mk == (|l: int| candidate_at(*map, *settings, l)),
            r@ == Seq::new(i as nat, |l: int| l).filter(adm).map_values(mk),
            forall|l: int|
                0 <= l < r@.len() ==> coord_bounded(
                    (#[trigger] r@[l]).point.x as int,
                    r@[l].point.y as int,
                    COORD_LIMIT as int,
                ) && 0 <= r@[l].lpss,
        decreases n - i,
    {
        proof {
            if map.width == 0 {
                assert(map.width * map.height == 0) by (nonlinear_arith)
                    requires map.width == 0;
            }
            lemma_cell_xy(i as int, map.width as int, map.height as int);
        }
        let v = map.data[i];
        let s = map.steepness[i];
        let admitted = 1000 * (v as i128) > 255 * (settings.visibility_threshold as i128) && 1000
            * (s as i128) > 3060 * (settings.steepness_threshold as i128);
        let ghost prefix = Seq::new(i as nat, |l: int| l);
        let ghost pre_r = r@;
        if admitted {
            let x = i % map.width;
            let y = i / map.width;
            proof {
                lemma_cell_coord_bound(x as int, scale_eff as int, map.width as int);
                lemma_cell_coord_bound(y as int, scale_eff as int, map.height as int);
            }
            let px: i64 = (((x as u128) * (scale_eff as u128)) * 1000) as i64;
            let py: i64 = (((y as u128) * (scale_eff as u128)) * 1000) as i64;
            let local = settings.points_separation.local(s);
            proof {
                assert(local * local <= crate::settings::SEPARATION_LIMIT
                    * crate::settings::SEPARATION_LIMIT && local * local >= 0) by (nonlinear_arith)
                    requires 0 <= local <= crate::settings::SEPARATION_LIMIT;
            }
            let lpss: i64 = local * local;
            let c = Candidate { point: Coord { x: px, y: py }, value: v, steepness: s, lpss };
            proof {
                assert(c == candidate_at(*map, *settings, i as int));
            }
            r.push(c);
        }
        proof {
            assert(Seq::new((i + 1) as nat, |l: int| l) =~= prefix.push(i as int));
            crate::utils::lemma_filter_push(prefix, i as int, adm);
            if adm(i as int) {
                assert(r@ =~= prefix.filter(adm).map_values(mk).push(mk(i as int)));
                assert(r@ =~= Seq::new((i + 1) as nat, |l: int| l).filter(adm).map_values(mk));
            } else {
                assert(r@ =~= Seq::new((i + 1) as nat, |l: int| l).filter(adm).map_values(mk));
            }
        }
        i = i + 1;
    }
    proof {
        assert(Seq::new(n as nat, |l: int| l) =~= Seq::new(map.data@.len(), |l: int| l));
    }
    r
}

/// Triangles passing the visibility test, in order.
fn filter_visible(
    triangles: Vec<Triangle>,
    points: &Vec<Coord>,
    map: &DensityMap,
    settings: &GenerateDensityMeshSettings,
) -> (r: Vec<Triangle>)
    requires
        map.wf(),
        points_bounded(points@, COORD_LIMIT as int),
        triangles_in_range(triangles@, points@.len() as int),
    ensures
        r@ == triangles@.filter(
            |t: Triangle|
                spec_triangle_visible(
                    points@[t.a as int],
                    points@[t.b as int],
                    points@[t.c as int],
                    *map,
                    settings.visibility_threshold as int,
                ),
        ),
        triangles_in_range(r@, points@.len() as int),
        r@.len() <= triangles@.len(),
{
    let ghost pred = |t: Triangle|
        spec_triangle_visible(
            points@[t.a as int],
            points@[t.b as int],
            points@[t.c as int],
            *map,
            settings.visibility_threshold as int,
        );
    let n = triangles.len();
    let mut r: Vec<Triangle> = Vec::new();
    let mut i: usize = 0;
    proof {
        crate::utils::lemma_filter_all(Seq::<Triangle>::empty(), pred);
        assert(triangles@.subrange(0, 0) =~= Seq::<Triangle>::empty());
        triangles@.subrange(0, 0).lemma_filter_len(pred);
    }
    while i < n
        invariant
            n == triangles@.len(),
            i <= n,
            map.wf(),
            points_bounded(points@, COORD_LIMIT as int),
            triangles_in_range(triangles@, points@.len() as int),
            pred == (|t: Triangle|
                spec_triangle_visible(
                    points@[t.a as int],
                    points@[t.b as int],
                    points@[t.c as int],
                    *map,
                    settings.visibility_threshold as int,
                )),
            r@ == triangles@.subrange(0, i as int).filter(pred),
            triangles_in_range(r@, points@.len() as int),
            r@.len() <= i,
        decreases n - i,
    {
        let t = triangles[i];
        proof {
            assert(triangles@[i as int].in_range(points@.len() as int));
        }
        let visible = is_triangle_visible(points[t.a], points[t.b], points[t.c], map, settings);
        let ghost prefix = triangles@.subrange(0, i as int);
        let ghost pre_r = r@;
        if visible {
            r.push(t);
        }
        proof {
            assert(triangles@.subrange(0, i + 1) =~= prefix.push(t));
            crate::utils::lemma_filter_push(prefix, t, pred);
            assert forall|l: int| 0 <= l < r@.len() implies (#[trigger] r@[l]).in_range(
                points@.len() as int,
            ) by {
                if l < pre_r.len() {
                    assert(r@[l] == pre_r[l]);
                    assert(pre_r[l].in_range(points@.len() as int));
                } else {
                    assert(r@[l] == t);
                }
            }
        }
        i = i + 1;
    }
    proof {
        assert(triangles@.subrange(0, n as int) =~= triangles@);
        triangles@.lemma_filter_len(pred);
    }
    r
}

/// A successful first-match search lands within the outline.
proof fn lemma_first_match_in_range(ol: Seq<(int, int, int)>, a: int, use_to: bool)
    ensures
        first_match(ol, a, 0, use_to) >= 0 ==> first_match(ol, a, 0, use_to) < ol.len(),
{
    lemma_first_match_range(ol, a, 0, use_to);
}

proof fn lemma_first_match_range(ol: Seq<(int, int, int)>, a: int, i: int, use_to: bool)
    ensures
        first_match(ol, a, i, use_to) >= 0 ==> i <= first_match(ol, a, i, use_to) < ol.len(),
    decreases ol.len() - i,
{
    if 0 <= i < ol.len() {
        lemma_first_match_range(ol, a, i + 1, use_to);
    }
}

/// The skirt triangles built by extrusion, element for element, form the
/// skirt sequence.
proof fn lemma_skirts_match(points_len: int, ol: Seq<(int, int, int)>, skirts: Seq<Triangle>)
    requires
        skirts.len() == 2 * ol.len(),
        forall|k: int|
            0 <= k < ol.len() ==> {
                let ea = first_match(ol, (#[trigger] ol[k]).1, 0, false);
                let eb0 = first_match(ol, ol[k].2, 0, false);
                let eb = if eb0 >= 0 {
                    eb0
                } else {
                    0int
                };
                &&& 0 <= ea < ol.len()
                &&& 0 <= eb < ol.len()
                &&& skirts[2 * k] == (Triangle {
                    a: ol[k].2 as usize,
                    b: ol[k].1 as usize,
                    c: (points_len + ea) as usize,
                })
                &&& skirts[2 * k + 1] == (Triangle {
                    a: (points_len + ea) as usize,
                    b: (points_len + eb) as usize,
                    c: ol[k].2 as usize,
                })
            },
    ensures
        skirts == crate::utils::skirt_triangles_seq(points_len, ol),
{
    let expect = crate::utils::skirt_triangles_seq(points_len, ol);
    assert forall|t: int| 0 <= t < skirts.len() implies skirts[t] == expect[t] by {
        let k = t / 2;
        assert(t == 2 * k || t == 2 * k + 1);
    }
    assert(skirts =~= expect);
}


/// The point-finding step of [`DensityMeshGenerator::process`].
#[verifier::rlimit(100)]
fn step_finding_points(
    settings: GenerateDensityMeshSettings,
    map: DensityMap,
    tries: usize,
    remaining: Vec<Candidate>,
    points: Vec<Coord>,
    progress_current: usize,
    progress_limit: usize,
) -> (r: Result<DensityMeshGenerator, GenerateDensityMeshError>)
    requires
        settings.wf(),
        map.wf(),
        points_bounded(points@, COORD_LIMIT as int),
        forall|i: int|
            0 <= i < remaining@.len() ==> coord_bounded(
                (#[trigger] remaining@[i]).point.x as int,
                remaining@[i].point.y as int,
                COORD_LIMIT as int,
            ) && 0 <= remaining@[i].lpss,
    ensures
        DensityMeshGenerator::finding_step_spec(
            settings,
            map,
            tries as int,
            remaining@,
            points@,
            progress_limit as int,
            r,
        ),
        r is Ok ==> r->Ok_0.wf(),
        r is Ok ==> DensityMeshGenerator::step_shrinks(
            DensityMeshGenerator::FindingPoints {
                settings,
                map,
                tries,
                remaining,
                points,
                progress_current,
                progress_limit,
            },
            r->Ok_0,
        ),
        (r is Ok && r->Ok_0 is FindingPoints) ==> r->Ok_0.remaining_count() <= remaining@.len()
            && r->Ok_0.points_count() >= points@.len(),
{
    let mut remaining = remaining;
    let mut points = points;
    let ghost pre_points = points@;
    let ghost pre_remaining = remaining@;
    if points.len() > 0 {
        remaining = filter_candidates(remaining, &points);
        if remaining.len() == 0 {
            return Ok(
                DensityMeshGenerator::Triangulate { settings, map, points, progress_limit },
            );
        }
    }
    if remaining.len() > 0 {
        let ghost filtered = remaining@;
        let k = pick_max_steepness(&remaining);
        let chosen = remaining[k];
        points.push(chosen.point);
        let new_tries: usize = if settings.max_iterations >= 1 {
            settings.max_iterations
        } else {
            1
        };
        let pc: usize = if progress_limit >= remaining.len() {
            progress_limit - remaining.len()
        } else {
            0
        };
        proof {
            assert(points@.drop_last() =~= pre_points);
            assert(points@.last() == filtered[k as int].point);
            if pre_points.len() > 0 {
                if all_candidates_far(pre_points, pre_remaining) {
                    lemma_far_filter_all(pre_remaining, pre_points);
                } else {
                    let bad = choose|i: int|
                        0 <= i < pre_remaining.len() && !candidate_far(
                            pre_points,
                            #[trigger] pre_remaining[i],
                        );
                    lemma_far_filter_shrinks(pre_remaining, pre_points, bad);
                }
            }
            let ck = remaining@[k as int];
            assert(coord_bounded(ck.point.x as int, ck.point.y as int, COORD_LIMIT as int) && 0
                <= ck.lpss);
            assert(sqr_dist(ck.point, ck.point) == 0) by (nonlinear_arith);
            assert(points@[points@.len() - 1] == ck.point);
            assert(!candidate_far(points@, ck));
            assert(!all_candidates_far(points@, remaining@));
        }
        Ok(
            DensityMeshGenerator::FindingPoints {
                settings,
                map,
                tries: new_tries,
                remaining,
                points,
                progress_current: pc,
                progress_limit,
            },
        )
    } else {
        if tries > 0 {
            let pc: usize = if progress_limit >= remaining.len() {
                progress_limit - remaining.len()
            } else {
                0
            };
            Ok(
                DensityMeshGenerator::FindingPoints {
                    settings,
                    map,
                    tries: tries - 1,
                    remaining,
                    points,
                    progress_current: pc,
                    progress_limit,
                },
            )
        } else {
            Ok(DensityMeshGenerator::Triangulate { settings, map, points, progress_limit })
        }
    }
}

/// The triangulation step of [`DensityMeshGenerator::process`].
#[verifier::rlimit(100)]
fn step_triangulate(
    settings: GenerateDensityMeshSettings,
    map: DensityMap,
    points: Vec<Coord>,
    progress_limit: usize,
) -> (r: Result<DensityMeshGenerator, GenerateDensityMeshError>)
    requires
        settings.wf(),
        map.wf(),
        points_bounded(points@, COORD_LIMIT as int),
    ensures
        DensityMeshGenerator::triangulate_step_spec(
            settings,
            map,
            points@,
            progress_limit as int,
            r,
        ),
        r is Ok ==> r->Ok_0.wf(),
        r is Ok ==> r->Ok_0.phase_rank() < 4,
{
    let ghost pts = points@;
    match triangulate(&points) {
        Err(e) => Err(e),
        Ok(triangles) => {
            let ghost ts = triangles@;
            if !settings.keep_invisible_triangles {
                let g = DensityMeshGenerator::RemoveInvisibleTriangles {
                    settings,
                    map,
                    points,
                    triangles,
                    progress_limit,
                };
                proof {
                    assert(DensityMeshGenerator::after_triangulate(
                        settings,
                        map,
                        pts,
                        progress_limit as int,
                        delaunay_of(pts)->0,
                        g,
                    ));
                }
                Ok(g)
            } else {
                match settings.extrude_size {
                    Some(size) => {
                        if points.len() <= usize::MAX - 3 * triangles.len() {
                            let g = DensityMeshGenerator::Extrude {
                                points,
                                triangles,
                                size,
                                progress_limit,
                            };
                            proof {
                                assert(DensityMeshGenerator::after_triangulate(
                                    settings,
                                    map,
                                    pts,
                                    progress_limit as int,
                                    delaunay_of(pts)->0,
                                    g,
                                ));
                            }
                            Ok(g)
                        } else {
                            Err(GenerateDensityMeshError::FailedTriangulation)
                        }
                    },
                    None => {
                        let g = DensityMeshGenerator::BakeFinalMesh {
                            points,
                            triangles,
                            progress_limit,
                        };
                        proof {
                            assert(DensityMeshGenerator::after_triangulate(
                                settings,
                                map,
                                pts,
                                progress_limit as int,
                                delaunay_of(pts)->0,
                                g,
                            ));
                        }
                        Ok(g)
                    },
                }
            }
        },
    }
}

/// The visibility-filter step of [`DensityMeshGenerator::process`].
#[verifier::rlimit(100)]
fn step_remove_invisible(
    settings: GenerateDensityMeshSettings,
    map: DensityMap,
    points: Vec<Coord>,
    triangles: Vec<Triangle>,
    progress_limit: usize,
) -> (r: Result<DensityMeshGenerator, GenerateDensityMeshError>)
    requires
        settings.wf(),
        map.wf(),
        points_bounded(points@, COORD_LIMIT as int),
        triangles_in_range(triangles@, points@.len() as int),
        3 * triangles@.len() <= usize::MAX,
    ensures
        ({
            let pre = DensityMeshGenerator::RemoveInvisibleTriangles {
                settings,
                map,
                points,
                triangles,
                progress_limit,
            };
            &&& DensityMeshGenerator::process_spec(pre, r)
            &&& r is Ok ==> r->Ok_0.wf()
            &&& r is Ok ==> DensityMeshGenerator::step_shrinks(pre, r->Ok_0)
        }),
{
    let ghost pre_triangles = triangles@;
    let kept = filter_visible(triangles, &points, &map, &settings);
    match settings.extrude_size {
        Some(size) => {
            if points.len() <= usize::MAX - 3 * kept.len() {
                Ok(
                    DensityMeshGenerator::Extrude {
                        points,
                        triangles: kept,
                        size,
                        progress_limit,
                    },
                )
            } else {
                Err(GenerateDensityMeshError::FailedTriangulation)
            }
        },
        None => Ok(
            DensityMeshGenerator::BakeFinalMesh { points, triangles: kept, progress_limit },
        ),
    }
}

/// The extrusion step of [`DensityMeshGenerator::process`].
#[verifier::rlimit(100)]
fn step_extrude(
    points: Vec<Coord>,
    triangles: Vec<Triangle>,
    size: i64,
    progress_limit: usize,
) -> (r: Result<DensityMeshGenerator, GenerateDensityMeshError>)
    requires
        points_bounded(points@, COORD_LIMIT as int),
        triangles_in_range(triangles@, points@.len() as int),
        3 * triangles@.len() <= usize::MAX,
        points@.len() + 3 * triangles@.len() <= usize::MAX,
        0 <= size <= crate::settings::SEPARATION_LIMIT,
    ensures
        ({
            let pre = DensityMeshGenerator::Extrude { points, triangles, size, progress_limit };
            &&& DensityMeshGenerator::process_spec(pre, r)
            &&& r is Ok ==> r->Ok_0.wf()
            &&& r is Ok ==> DensityMeshGenerator::step_shrinks(pre, r->Ok_0)
        }),
{
    let mut points = points;
    let mut triangles = triangles;
    let ghost pre_points = points@;
    let ghost pre_triangles = triangles@;
    let ghost ol = outline_of(triangles@);
    proof {
        lemma_bound_widen(
            points@,
            COORD_LIMIT as int,
            crate::mesh::MESH_COORD_LIMIT as int - 2 * crate::settings::SEPARATION_LIMIT as int,
        );
    }
    let (mut offs, mut skirts) = extrude(&points, &triangles, size);
    proof {
        assert(offs@ =~= crate::utils::extrude_offsets_seq(pre_points, ol, size as int));
        lemma_skirts_match(pre_points.len() as int, ol, skirts@);
    }
    points.append(&mut offs);
    triangles.append(&mut skirts);
    proof {
        lemma_bound_widen(pre_points, COORD_LIMIT as int, crate::mesh::MESH_COORD_LIMIT as int);
        assert forall|i: int| 0 <= i < points@.len() implies coord_bounded(
            (#[trigger] points@[i]).x as int,
            points@[i].y as int,
            crate::mesh::MESH_COORD_LIMIT as int,
        ) by {
            if i < pre_points.len() {
                assert(points@[i] == pre_points[i]);
            }
        }
        assert forall|i: int| 0 <= i < triangles@.len() implies (#[trigger] triangles@[i]).in_range(
            points@.len() as int,
        ) by {
            if i < pre_triangles.len() {
                assert(triangles@[i] == pre_triangles[i]);
                assert(pre_triangles[i].in_range(pre_points.len() as int));
            } else {
                let t = i - pre_triangles.len();
                let k = t / 2;
                assert(0 <= k < ol.len());
                assert(0 <= ol[k].1 < pre_points.len() && 0 <= ol[k].2 < pre_points.len());
                lemma_first_match_in_range(ol, ol[k].1, false);
                lemma_first_match_in_range(ol, ol[k].2, false);
            }
        }
    }
    Ok(DensityMeshGenerator::BakeFinalMesh { points, triangles, progress_limit })
}


} // verus!
