//! Live density mesh: incremental regional updates of an existing mesh.

use vstd::prelude::*;
use crate::coord::{coord_bounded, Coord, COORD_LIMIT};
use crate::generator::DensityMeshGenerator;
use crate::map::DensityMap;
use crate::mesh::{DensityMesh, GenerateDensityMeshError, MESH_COORD_LIMIT};
use crate::scalar::div_trunc;
use crate::settings::{GenerateDensityMeshSettings, SEPARATION_LIMIT};
use crate::triangle::{triangles_in_range, Triangle};
use crate::utils::{bake_final_mesh, first_match, points_bounded, spec_min3, spec_max3, spec_shared_corners};

verus! {

/// Coordinate bound kept by every point of the accumulated live mesh
/// (milli-units): translated sub-meshes are clamped into this working range.
pub const LIVE_COORD_LIMIT: i64 = 0x80_0000_0000;

/// Bound on the scaled size of a live density map, in milli-units.
pub const LIVE_MAP_LIMIT: i64 = 0x40_0000_0000;

/// Live density mesh processing status.
#[derive(Clone, Copy, Debug, PartialEq, Eq, Structural)]
pub enum LiveProcessStatus {
    /// There are no pending changes.
    Idle,
    /// There are changes waiting for processing.
    InProgress,
    /// The inner mesh was updated during the last processing step.
    MeshChanged,
}

/// An axis-aligned bounding box in milli-units.
#[derive(Clone, Copy, Debug, PartialEq, Eq, Structural)]
pub struct BoundingBox {
    /// Lower corner.
    pub min: Coord,
    /// Upper corner.
    pub max: Coord,
}

/// Two boxes overlap: strict on every side.
pub open spec fn spec_boxes_overlap(amin: Coord, amax: Coord, bmin: Coord, bmax: Coord) -> bool {
    amax.x > bmin.x && amax.y > bmin.y && amin.x < bmax.x && amin.y < bmax.y
}

/// The triangle's bounding box overlaps the given box.
pub open spec fn tri_overlaps(points: Seq<Coord>, t: Triangle, bb: BoundingBox) -> bool {
    let pa = points[t.a as int];
    let pb = points[t.b as int];
    let pc = points[t.c as int];
    let mn = Coord {
        x: spec_min3(pa.x as int, pb.x as int, pc.x as int) as i64,
        y: spec_min3(pa.y as int, pb.y as int, pc.y as int) as i64,
    };
    let mx = Coord {
        x: spec_max3(pa.x as int, pb.x as int, pc.x as int) as i64,
        y: spec_max3(pa.y as int, pb.y as int, pc.y as int) as i64,
    };
    spec_boxes_overlap(mn, mx, bb.min, bb.max)
}

/// The triangles whose boxes stay clear of the box, in order.
pub open spec fn keep_filter(ts: Seq<Triangle>, points: Seq<Coord>, bb: BoundingBox) -> Seq<
    Triangle,
> {
    ts.filter(|t: Triangle| !tri_overlaps(points, t, bb))
}

/// The triangles whose boxes meet the box, in order.
pub open spec fn overlap_filter(ts: Seq<Triangle>, points: Seq<Coord>, bb: BoundingBox) -> Seq<
    Triangle,
> {
    ts.filter(|t: Triangle| tri_overlaps(points, t, bb))
}

proof fn lemma_keep_filter_push(s: Seq<Triangle>, t: Triangle, points: Seq<Coord>, bb: BoundingBox)
    ensures
        keep_filter(s.push(t), points, bb) == (if !tri_overlaps(points, t, bb) {
            keep_filter(s, points, bb).push(t)
        } else {
            keep_filter(s, points, bb)
        }),
        overlap_filter(s.push(t), points, bb) == (if tri_overlaps(points, t, bb) {
            overlap_filter(s, points, bb).push(t)
        } else {
            overlap_filter(s, points, bb)
        }),
{
    reveal(Seq::filter);
    assert(s.push(t).drop_last() =~= s);
    assert(s.push(t).last() == t);
    assert(s.push(t).len() == s.len() + 1);
}

proof fn lemma_keep_filter_empty(points: Seq<Coord>, bb: BoundingBox)
    ensures
        keep_filter(Seq::<Triangle>::empty(), points, bb) == Seq::<Triangle>::empty(),
        overlap_filter(Seq::<Triangle>::empty(), points, bb) == Seq::<Triangle>::empty(),
{
    reveal(Seq::filter);
}

/// A recorded outline edge: the positions (within the outline) of the edges
/// leaving the edge's two endpoints, the edge's origin point, and the
/// right-perpendicular of its direction.
pub open spec fn record_of(ol: Seq<(int, int, int)>, points: Seq<Coord>, k: int) -> (
    int,
    int,
    Coord,
    Coord,
) {
    let pos_a = first_match(ol, ol[k].1, 0, false);
    let pb0 = first_match(ol, ol[k].2, 0, false);
    let pos_b = if pb0 >= 0 {
        pb0
    } else {
        0int
    };
    let o = points[ol[k].1];
    let n = crate::utils::spec_perp(crate::utils::spec_sub(points[ol[k].2], o).spec_normalized());
    (pos_a, pos_b, o, n)
}

/// The point is on the inner side (or on) the half-plane through `o` with
/// normal `n`.
pub open spec fn side_le(p: Coord, o: Coord, n: Coord) -> bool {
    (p.x - o.x) * n.x + (p.y - o.y) * n.y <= 0
}

/// The centroid of three points, componentwise, rounded towards zero.
pub open spec fn spec_centroid(pa: Coord, pb: Coord, pc: Coord) -> Coord {
    Coord {
        x: div_trunc(pa.x + pb.x + pc.x, 3) as i64,
        y: div_trunc(pa.y + pb.y + pc.y, 3) as i64,
    }
}

/// Walk the first `i` outline records: count how many share one vertex with
/// the triangle (and how many of those lie fully inside the record's
/// half-plane), and whether a record sharing a whole edge put the centroid on
/// the far side, which discards the triangle outright. A degenerate triangle
/// sharing all three corners counts as sharing an edge.
pub open spec fn stitch_scan(
    ol: Seq<(usize, usize, Coord, Coord)>,
    i: int,
    t: Triangle,
    pa: Coord,
    pb: Coord,
    pc: Coord,
    cen: Coord,
) -> (int, int, bool)
    decreases i,
{
    if i <= 0 {
        (0, 0, false)
    } else {
        let (s, c, dead) = stitch_scan(ol, i - 1, t, pa, pb, pc, cen);
        if dead {
            (s, c, true)
        } else {
            let e = ol[i - 1];
            let sh = spec_shared_corners(
                t.a as int,
                t.b as int,
                t.c as int,
                e.0 as int,
                e.1 as int,
            );
            if sh == 1 {
                (
                    s + 1,
                    c + (if side_le(pa, e.2, e.3) && side_le(pb, e.2, e.3) && side_le(pc, e.2, e.3) {
                        1int
                    } else {
                        0int
                    }),
                    false,
                )
            } else if sh >= 2 {
                if side_le(cen, e.2, e.3) {
                    (s, c, true)
                } else {
                    (s, c, false)
                }
            } else {
                (s, c, false)
            }
        }
    }
}

/// Whether a stitched-in triangle is kept: not discarded by an edge-sharing
/// record, and fewer than half of its vertex-sharing records see it fully on
/// the far side.
pub open spec fn stitch_keep(ol: Seq<(usize, usize, Coord, Coord)>, points: Seq<Coord>, t: Triangle)
    -> bool {
    let pa = points[t.a as int];
    let pb = points[t.b as int];
    let pc = points[t.c as int];
    let cen = spec_centroid(pa, pb, pc);
    let sc = stitch_scan(ol, ol.len() as int, t, pa, pb, pc, cen);
    !sc.2 && (sc.0 == 0 || sc.1 < sc.0 / 2)
}

/// The stitched-in triangles that survive, in order.
pub open spec fn stitch_filter(
    ts: Seq<Triangle>,
    ol: Seq<(usize, usize, Coord, Coord)>,
    points: Seq<Coord>,
) -> Seq<Triangle> {
    ts.filter(|t: Triangle| stitch_keep(ol, points, t))
}

proof fn lemma_stitch_filter_push(
    s: Seq<Triangle>,
    t: Triangle,
    ol: Seq<(usize, usize, Coord, Coord)>,
    points: Seq<Coord>,
)
    ensures
        stitch_filter(s.push(t), ol, points) == (if stitch_keep(ol, points, t) {
            stitch_filter(s, ol, points).push(t)
        } else {
            stitch_filter(s, ol, points)
        }),
{
    reveal(Seq::filter);
    assert(s.push(t).drop_last() =~= s);
    assert(s.push(t).last() == t);
    assert(s.push(t).len() == s.len() + 1);
}

proof fn lemma_stitch_filter_empty(ol: Seq<(usize, usize, Coord, Coord)>, points: Seq<Coord>)
    ensures
        stitch_filter(Seq::<Triangle>::empty(), ol, points) == Seq::<Triangle>::empty(),
{
    reveal(Seq::filter);
}

/// Clamp a milli-unit value into the live working range.
pub open spec fn clamp_live(v: int) -> i64 {
    if v > LIVE_COORD_LIMIT {
        LIVE_COORD_LIMIT
    } else if v < -LIVE_COORD_LIMIT {
        (-LIVE_COORD_LIMIT) as i64
    } else {
        v as i64
    }
}

/// A point translated by the region offset, clamped into the live working
/// range.
pub open spec fn spec_translate(p: Coord, d: Coord) -> Coord {
    Coord { x: clamp_live(p.x + d.x), y: clamp_live(p.y + d.y) }
}

/// One queued region change.
#[derive(Clone, Debug)]
pub struct QueuedChange {
    /// The affected region, in scaled milli-units.
    pub bbox: BoundingBox,
    /// Settings for regenerating the region.
    pub settings: GenerateDensityMeshSettings,
}

/// A region change being processed: the affected box, the recorded outline
/// edges of the removed mesh part, and the nested generator over the cropped
/// field.
#[derive(Clone, Debug)]
pub struct RegionChange {
    /// The affected region, in scaled milli-units.
    pub bbox: BoundingBox,
    /// Recorded outline edges: outline positions of the edges leaving each
    /// endpoint, the origin point, and the edge direction's perpendicular.
    pub outline: Vec<(usize, usize, Coord, Coord)>,
    /// The generator re-meshing the cropped region.
    pub generator: DensityMeshGenerator,
}

/// Density mesh with support for interactive region changes: it patches the
/// density field, re-meshes the affected region with a nested generator, and
/// stitches the result back into the accumulated mesh.
#[derive(Clone, Debug)]
pub struct LiveDensityMesh {
    /// The density field.
    pub map: DensityMap,
    /// The accumulated mesh, once one was generated.
    pub mesh: Option<DensityMesh>,
    /// Pending region changes, oldest first.
    pub queue: Vec<QueuedChange>,
    /// The region change being processed, if any.
    pub current: Option<RegionChange>,
}

impl LiveDensityMesh {
    /// What every operation preserves: the map is well formed with fresh
    /// steepness and fits the live working range; the accumulated mesh is
    /// well formed within the live coordinate range; queued boxes and the
    /// in-flight change carry workable data.
    pub open spec fn inv(self) -> bool {
        let scale = if self.map.scale > 1 {
            self.map.scale as int
        } else {
            1int
        };
        &&& self.map.wf()
        &&& self.map.steepness_consistent()
        &&& self.map.width * scale * 1000 <= LIVE_MAP_LIMIT
        &&& self.map.height * scale * 1000 <= LIVE_MAP_LIMIT
        &&& match self.mesh {
            Some(m) => m.wf() && points_bounded(m.points@, LIVE_COORD_LIMIT as int),
            None => true,
        }
        &&& forall|i: int|
            0 <= i < self.queue@.len() ==> (#[trigger] self.queue@[i]).settings.wf()
                && coord_bounded(
                self.queue@[i].bbox.min.x as int,
                self.queue@[i].bbox.min.y as int,
                LIVE_MAP_LIMIT as int + SEPARATION_LIMIT as int,
            ) && coord_bounded(
                self.queue@[i].bbox.max.x as int,
                self.queue@[i].bbox.max.y as int,
                LIVE_MAP_LIMIT as int + SEPARATION_LIMIT as int,
            )
        &&& match self.current {
            Some(rc) => {
                &&& rc.generator.wf()
                &&& !(rc.generator is Uninitialized)
                &&& !(rc.generator is Completed)
                &&& coord_bounded(
                    rc.bbox.min.x as int,
                    rc.bbox.min.y as int,
                    LIVE_MAP_LIMIT as int + SEPARATION_LIMIT as int,
                )
                &&& forall|i: int|
                    0 <= i < rc.outline@.len() ==> coord_bounded(
                        (#[trigger] rc.outline@[i]).2.x as int,
                        rc.outline@[i].2.y as int,
                        LIVE_COORD_LIMIT as int,
                    ) && coord_bounded(
                        rc.outline@[i].3.x as int,
                        rc.outline@[i].3.y as int,
                        crate::scalar::MILLI as int,
                    )
            },
            None => true,
        }
    }

    /// No work is pending or in flight.
    pub open spec fn is_idle(self) -> bool {
        self.current is None && self.queue@.len() == 0
    }

    /// Create a new live density mesh: the whole field is queued as the first
    /// region to mesh.
    pub fn new(map: DensityMap, settings: GenerateDensityMeshSettings) -> (r: LiveDensityMesh)
        requires
            map.wf(),
            map.steepness_consistent(),
            settings.wf(),
            map.width * (if map.scale > 1 {
                map.scale as int
            } else {
                1int
            }) * 1000 <= LIVE_MAP_LIMIT,
            map.height * (if map.scale > 1 {
                map.scale as int
            } else {
                1int
            }) * 1000 <= LIVE_MAP_LIMIT,
        ensures
            r.inv(),
            r.map == map,
            r.mesh is None,
            r.current is None,
            r.queue@.len() == 1,
            r.queue@[0].settings == settings,
            r.queue@[0].bbox.min == (Coord { x: 0, y: 0 }),
            ({
                let s = if map.scale > 1 {
                    map.scale as int
                } else {
                    1int
                };
                r.queue@[0].bbox.max == (Coord {
                    x: (map.width * s * 1000) as i64,
                    y: (map.height * s * 1000) as i64,
                })
            }),
    {
        let scale_eff: usize = if map.scale > 1 {
            map.scale
        } else {
            1
        };
        proof {
            lemma_scaled_dim(map.width as int, scale_eff as int, LIVE_MAP_LIMIT as int);
            lemma_scaled_dim(map.height as int, scale_eff as int, LIVE_MAP_LIMIT as int);
        }
        let tx: i64 = (((map.width as u128) * (scale_eff as u128)) * 1000) as i64;
        let ty: i64 = (((map.height as u128) * (scale_eff as u128)) * 1000) as i64;
        let bbox = BoundingBox { min: Coord { x: 0, y: 0 }, max: Coord { x: tx, y: ty } };
        let mut queue: Vec<QueuedChange> = Vec::new();
        queue.push(QueuedChange { bbox, settings });
        LiveDensityMesh { map, mesh: None, queue, current: None }
    }

    /// The density field.
    pub fn map(&self) -> (r: &DensityMap)
        ensures
            *r == self.map,
    {
        &self.map
    }

    /// The accumulated mesh, if one was generated already.
    pub fn mesh(&self) -> (r: Option<&DensityMesh>)
        ensures
            r is Some <==> self.mesh is Some,
            r is Some ==> *r->0 == self.mesh->0,
    {
        self.mesh.as_ref()
    }

    /// Whether changes are left to process.
    pub fn in_progress(&self) -> (r: bool)
        ensures
            r == !self.is_idle(),
    {
        self.current.is_some() || self.queue.len() > 0
    }

    /// Apply new raw bytes to a rectangle of the field and queue the affected
    /// region (the rectangle expanded by the extrusion size on all sides) for
    /// re-meshing. The change itself is generated without a skirt.
    pub fn change_map(
        &mut self,
        col: usize,
        row: usize,
        width: usize,
        height: usize,
        data: Vec<u8>,
        settings: GenerateDensityMeshSettings,
    ) -> (r: Result<(), crate::map::DensityMapError>)
        requires
            old(self).inv(),
            settings.wf(),
            col + width <= old(self).map.width,
            row + height <= old(self).map.height,
        ensures
            final(self).inv(),
            r is Err <==> data@.len() != width * height,
            r is Err ==> *final(self) == *old(self),
            r is Err ==> r->Err_0 == crate::map::DensityMapError::WrongDataLength(
                data@.len() as usize,
                (width * height) as usize,
            ),
            r is Ok ==> ({
                let s = if old(self).map.scale > 1 {
                    old(self).map.scale as int
                } else {
                    1int
                };
                let extra = match settings.extrude_size {
                    Some(e) => e as int,
                    None => 0int,
                };
                final(self).queue@ == old(self).queue@.push(
                    QueuedChange {
                        bbox: BoundingBox {
                            min: Coord {
                                x: (col * s * 1000 - extra) as i64,
                                y: (row * s * 1000 - extra) as i64,
                            },
                            max: Coord {
                                x: ((col + width) * s * 1000 + extra) as i64,
                                y: ((row + height) * s * 1000 + extra) as i64,
                            },
                        },
                        settings: GenerateDensityMeshSettings { extrude_size: None, ..settings },
                    },
                )
            }),
            r is Ok ==> {
                &&& final(self).map.width == old(self).map.width
                &&& final(self).map.height == old(self).map.height
                &&& final(self).map.scale == old(self).map.scale
                &&& forall|x: int, y: int|
                    0 <= x < final(self).map.width && 0 <= y < final(self).map.height
                        ==> #[trigger] crate::map::cell_at(
                        final(self).map.data@,
                        final(self).map.width as int,
                        x,
                        y,
                    ) == crate::map::patched_cell(
                        old(self).map.data@,
                        final(self).map.width as int,
                        data@,
                        col as int,
                        row as int,
                        width as int,
                        height as int,
                        x,
                        y,
                    )
                &&& final(self).queue@.len() == old(self).queue@.len() + 1
                &&& final(self).mesh == old(self).mesh
                &&& final(self).current == old(self).current
            },
    {
        let scale_eff: usize = if self.map.scale > 1 {
            self.map.scale
        } else {
            1
        };
        proof {
            lemma_scaled_dim(self.map.width as int, scale_eff as int, LIVE_MAP_LIMIT as int);
            lemma_scaled_dim(self.map.height as int, scale_eff as int, LIVE_MAP_LIMIT as int);
            lemma_scaled_dim_le(
                col as int,
                width as int,
                self.map.width as int,
                scale_eff as int,
                LIVE_MAP_LIMIT as int,
            );
            lemma_scaled_dim_le(
                row as int,
                height as int,
                self.map.height as int,
                scale_eff as int,
                LIVE_MAP_LIMIT as int,
            );
        }
        match self.map.change(col, row, width, height, data) {
            Err(e) => Err(e),
            Ok(()) => {
                let mut settings2 = settings;
                let extra: i64 = match settings2.extrude_size {
                    Some(e) => e,
                    None => 0,
                };
                settings2.extrude_size = None;
                let fx: i64 = ((col as u128 * scale_eff as u128) * 1000) as i64 - extra;
                let fy: i64 = ((row as u128 * scale_eff as u128) * 1000) as i64 - extra;
                let tx: i64 = (((col + width) as u128 * scale_eff as u128) * 1000) as i64 + extra;
                let ty: i64 = (((row + height) as u128 * scale_eff as u128) * 1000) as i64 + extra;
                self.queue.push(
                    QueuedChange {
                        bbox: BoundingBox {
                            min: Coord { x: fx, y: fy },
                            max: Coord { x: tx, y: ty },
                        },
                        settings: settings2,
                    },
                );
                Ok(())
            },
        }
    }
}

impl LiveDensityMesh {
    /// Pending changes, for termination.
    pub open spec fn q_len(self) -> int {
        self.queue@.len() as int
    }

    /// Whether a change is in flight, for termination.
    pub open spec fn cur_flag(self) -> int {
        if self.current is Some {
            1
        } else {
            0
        }
    }

    /// The in-flight generator's phase, for termination.
    pub open spec fn g_phase(self) -> int {
        match self.current {
            Some(rc) => rc.generator.phase_rank(),
            None => 0,
        }
    }

    /// The in-flight generator's point-finding measure, for termination.
    pub open spec fn g_fm(self) -> int {
        match self.current {
            Some(rc) => rc.generator.finding_measure(),
            None => 0,
        }
    }

    /// The in-flight generator's stall budget, for termination.
    pub open spec fn g_tries(self) -> int {
        match self.current {
            Some(rc) => rc.generator.tries_left(),
            None => 0,
        }
    }

    /// One processing step that stays in progress strictly shrinks the queue,
    /// starts a change, or advances the in-flight generator.
    pub open spec fn live_shrinks(pre: Self, post: Self) -> bool {
        ||| post.q_len() < pre.q_len()
        ||| (post.q_len() == pre.q_len() && post.cur_flag() < pre.cur_flag())
        ||| (post.q_len() == pre.q_len() && post.cur_flag() == pre.cur_flag() && post.g_phase()
            < pre.g_phase())
        ||| (post.q_len() == pre.q_len() && post.cur_flag() == pre.cur_flag() && post.g_phase()
            == pre.g_phase() && post.g_fm() < pre.g_fm())
        ||| (post.q_len() == pre.q_len() && post.cur_flag() == pre.cur_flag() && post.g_phase()
            == pre.g_phase() && post.g_fm() == pre.g_fm() && post.g_tries() < pre.g_tries())
    }
}

/// The pixel-cell window of a region box: each corner clamped to the grid
/// origin and divided by one thousand, rounding towards zero, giving
/// `(column, row, width, height)`.
pub open spec fn box_cells(bb: BoundingBox) -> (int, int, int, int) {
    let fx = div_trunc(
        if bb.min.x > 0 {
            bb.min.x as int
        } else {
            0
        },
        1000,
    );
    let fy = div_trunc(
        if bb.min.y > 0 {
            bb.min.y as int
        } else {
            0
        },
        1000,
    );
    let tx = div_trunc(
        if bb.max.x > 0 {
            bb.max.x as int
        } else {
            0
        },
        1000,
    );
    let ty = div_trunc(
        if bb.max.y > 0 {
            bb.max.y as int
        } else {
            0
        },
        1000,
    );
    (
        fx,
        fy,
        if tx >= fx {
            tx - fx
        } else {
            0
        },
        if ty >= fy {
            ty - fy
        } else {
            0
        },
    )
}

/// A completed sub-mesh's points, translated into world space and clamped
/// into the live working range.
pub open spec fn translated_of(m: DensityMesh, d: Coord) -> Seq<Coord> {
    Seq::new(m.points@.len(), |i: int| spec_translate(m.points@[i], d))
}

/// `m` is the concatenation of the kept mesh and a stitched-in sub-mesh: the
/// new points follow the kept ones, the new triangles are renumbered past
/// the kept point count.
pub open spec fn merged_views(acc: DensityMesh, add: DensityMesh, m: DensityMesh) -> bool {
    &&& m.points@ == acc.points@ + add.points@
    &&& m.triangles@.len() == acc.triangles@.len() + add.triangles@.len()
    &&& forall|k: int|
        0 <= k < acc.triangles@.len() ==> #[trigger] m.triangles@[k] == acc.triangles@[k]
    &&& forall|k: int|
        0 <= k < add.triangles@.len() ==> #[trigger] m.triangles@[acc.triangles@.len() + k]
            == (Triangle {
            a: (add.triangles@[k].a + acc.points@.len()) as usize,
            b: (add.triangles@[k].b + acc.points@.len()) as usize,
            c: (add.triangles@[k].c + acc.points@.len()) as usize,
        })
}

/// `nm` is what retiring a completed region mesh `gm` gives: its points
/// translated into world space; adopted outright when no mesh existed yet,
/// and otherwise stitched against the recorded outline, pruned, and
/// concatenated onto the kept mesh (which stands unchanged only in the
/// point-count overflow case no real mesh reaches).
pub open spec fn retired_mesh(
    old_mesh: Option<DensityMesh>,
    rc: RegionChange,
    gm: DensityMesh,
    nm: DensityMesh,
) -> bool {
    let translated = translated_of(gm, rc.bbox.min);
    match old_mesh {
        None => nm.points@ == translated && nm.triangles@ == gm.triangles@,
        Some(acc) => {
            let filtered = stitch_filter(gm.triangles@, rc.outline@, translated);
            exists|baked: DensityMesh, bm: Seq<Option<usize>>|
                #[trigger] crate::utils::bake_selection(translated, filtered, baked, bm) && (
                if acc.points@.len() + baked.points@.len() <= usize::MAX {
                    merged_views(acc, baked, nm)
                } else {
                    nm == acc
                })
        },
    }
}

/// The in-flight change advanced by one generator step: box and outline
/// records unchanged, the nested generator stepped as its own contract
/// allows, and not yet completed.
pub open spec fn advanced_in_flight(rc: RegionChange, rc2: RegionChange) -> bool {
    &&& rc2.bbox == rc.bbox
    &&& rc2.outline@ == rc.outline@
    &&& DensityMeshGenerator::process_spec(rc.generator, Ok(rc2.generator))
    &&& !(rc2.generator is Completed)
}

/// The settings a region's nested generator runs with: as queued, except
/// that chunk seeding is disabled over an empty crop (whose border points
/// would not exist).
pub open spec fn live_settings_of(
    s: GenerateDensityMeshSettings,
    m2: DensityMap,
) -> GenerateDensityMeshSettings {
    if s.is_chunk && (m2.width == 0 || m2.height == 0) {
        GenerateDensityMeshSettings { is_chunk: false, ..s }
    } else {
        s
    }
}

/// A freshly started region generator: finding points over the crop of the
/// field at the box's cell window, seeded with the given points (plus chunk
/// border points when asked for), with every admitted crop cell a candidate.
pub open spec fn gen_started(
    gen: DensityMeshGenerator,
    map: DensityMap,
    bb: BoundingBox,
    s0: GenerateDensityMeshSettings,
    seeds: Seq<Coord>,
) -> bool {
    let cells = box_cells(bb);
    gen matches DensityMeshGenerator::FindingPoints {
        settings: st2,
        map: m2,
        tries,
        remaining,
        points: p2,
        progress_current,
        progress_limit,
    } && {
        &&& crate::map::crop_of(m2, map, cells.0, cells.1, cells.2, cells.3)
        &&& st2 == live_settings_of(s0, m2)
        &&& p2@ == seeds + (if st2.is_chunk {
            crate::generator::chunk_points(
                m2.width as int,
                m2.height as int,
                st2.points_separation.spec_maximum() as int,
            )
        } else {
            Seq::<Coord>::empty()
        })
        &&& remaining@ == crate::generator::candidates_of(m2, st2)
        &&& tries == st2.max_iterations
        &&& progress_current == 0
        &&& progress_limit == remaining@.len()
    }
}

/// What dequeuing the next change does: the queue loses its head; with no
/// mesh yet a fresh generator starts unseeded over the crop; with a mesh,
/// its triangles are split at the box, the clear ones are baked back in, and
/// a generator seeded with the removed part's outline starts over the crop.
/// (A mesh so large that its triangle count cannot be tripled in a `usize`
/// is put back untouched; no real mesh reaches that size.)
pub open spec fn dequeued_spec(pre: LiveDensityMesh, post: LiveDensityMesh) -> bool {
    &&& post.queue@ == pre.queue@.subrange(1, pre.queue@.len() as int)
    &&& post.map == pre.map
    &&& match pre.mesh {
        None => post.mesh is None && dequeued_fresh(pre.map, pre.queue@[0], post.current),
        Some(acc) => {
            if 3 * acc.triangles@.len() > usize::MAX {
                post.mesh == pre.mesh && post.current is None
            } else {
                dequeued_split(pre.map, acc, pre.queue@[0], post.mesh, post.current)
            }
        },
    }
}

/// The change a fresh (meshless) dequeue starts: an unseeded generator over
/// the crop, with no outline records.
pub open spec fn dequeued_fresh(
    map: DensityMap,
    qc: QueuedChange,
    current: Option<RegionChange>,
) -> bool {
    current matches Some(rc) && rc.bbox == qc.bbox && rc.outline@.len() == 0 && gen_started(
        rc.generator,
        map,
        qc.bbox,
        qc.settings,
        Seq::<Coord>::empty(),
    )
}

/// `m` is a baking (pruning and renumbering) of the given points and
/// triangles.
pub open spec fn baked_of(points: Seq<Coord>, triangles: Seq<Triangle>, m: DensityMesh) -> bool {
    exists|bm: Seq<Option<usize>>|
        #[trigger] crate::utils::bake_selection(points, triangles, m, bm)
}

/// The mesh split and change a dequeue over an existing mesh performs: the
/// clear triangles are baked back in, and a generator seeded with the
/// removed part's outline records starts over the crop.
pub open spec fn dequeued_split(
    map: DensityMap,
    acc: DensityMesh,
    qc: QueuedChange,
    mesh: Option<DensityMesh>,
    current: Option<RegionChange>,
) -> bool {
    let removed = overlap_filter(acc.triangles@, acc.points@, qc.bbox);
    let kept = keep_filter(acc.triangles@, acc.points@, qc.bbox);
    let ol = crate::utils::outline_of(removed);
    &&& (mesh matches Some(m1) && baked_of(acc.points@, kept, m1))
    &&& (current matches Some(rc) && {
        &&& rc.bbox == qc.bbox
        &&& rc.outline@.len() == ol.len()
        &&& forall|k: int|
            0 <= k < ol.len() ==> {
                let rec = record_of(ol, acc.points@, k);
                &&& (#[trigger] rc.outline@[k]).0 as int == rec.0
                &&& rc.outline@[k].1 as int == rec.1
                &&& rc.outline@[k].2 == rec.2
                &&& rc.outline@[k].3 == rec.3
            }
        &&& gen_started(
            rc.generator,
            map,
            qc.bbox,
            qc.settings,
            Seq::new(
                ol.len(),
                |k: int| crate::utils::spec_sub(record_of(ol, acc.points@, k).2, qc.bbox.min),
            ),
        )
    })
}

/// What retiring a completed region does: the change leaves flight, queue
/// and field stand, and the mesh becomes the retired sub-mesh per
/// [`retired_mesh`], for the mesh some completed generator step produced.
pub open spec fn retirement_spec(
    pre: LiveDensityMesh,
    rc: RegionChange,
    post: LiveDensityMesh,
) -> bool {
    &&& post.current is None
    &&& post.queue@ == pre.queue@
    &&& post.map == pre.map
    &&& (post.mesh matches Some(nm) && exists|gm: DensityMesh, pl: usize|
        #[trigger] DensityMeshGenerator::process_spec(
            rc.generator,
            Ok(DensityMeshGenerator::Completed { mesh: gm, progress_limit: pl }),
        ) && retired_mesh(pre.mesh, rc, gm, nm))
}

/// A concrete completed generator step witnesses [`retirement_spec`].
proof fn lemma_retirement_intro(
    pre: LiveDensityMesh,
    rc: RegionChange,
    post: LiveDensityMesh,
    gm: DensityMesh,
    pl: usize,
)
    requires
        post.current is None,
        post.queue@ == pre.queue@,
        post.map == pre.map,
        post.mesh is Some,
        retired_mesh(pre.mesh, rc, gm, post.mesh->0),
        DensityMeshGenerator::process_spec(
            rc.generator,
            Ok(DensityMeshGenerator::Completed { mesh: gm, progress_limit: pl }),
        ),
    ensures
        retirement_spec(pre, rc, post),
{
}

/// A concrete baking witnesses the stitched case of [`retired_mesh`].
proof fn lemma_retired_some_intro(
    acc: DensityMesh,
    rc: RegionChange,
    gm: DensityMesh,
    baked: DensityMesh,
    bm: Seq<Option<usize>>,
    nm: DensityMesh,
)
    requires
        crate::utils::bake_selection(
            translated_of(gm, rc.bbox.min),
            stitch_filter(gm.triangles@, rc.outline@, translated_of(gm, rc.bbox.min)),
            baked,
            bm,
        ),
        if acc.points@.len() + baked.points@.len() <= usize::MAX {
            merged_views(acc, baked, nm)
        } else {
            nm == acc
        },
    ensures
        retired_mesh(Some(acc), rc, gm, nm),
{
}

/// Split the accumulated mesh at the region box: bake the clear triangles
/// back into a mesh, and start a generator over the crop, seeded with the
/// removed part's outline records translated into the crop's frame.
#[verifier::rlimit(100)]
fn dequeue_split_mesh(
    map: &DensityMap,
    acc: DensityMesh,
    bbox: BoundingBox,
    settings: GenerateDensityMeshSettings,
    fx: usize,
    fy: usize,
    cw: usize,
    ch: usize,
) -> (r: (DensityMesh, RegionChange))
    requires
        map.wf(),
        ({
            let scale = if map.scale > 1 {
                map.scale as int
            } else {
                1int
            };
            map.width * scale * 1000 <= LIVE_MAP_LIMIT && map.height * scale * 1000
                <= LIVE_MAP_LIMIT
        }),
        acc.wf(),
        points_bounded(acc.points@, LIVE_COORD_LIMIT as int),
        3 * acc.triangles@.len() <= usize::MAX,
        settings.wf(),
        coord_bounded(
            bbox.min.x as int,
            bbox.min.y as int,
            LIVE_MAP_LIMIT as int + SEPARATION_LIMIT as int,
        ),
        box_cells(bbox) == (fx as int, fy as int, cw as int, ch as int),
    ensures
        dequeued_split(
            *map,
            acc,
            QueuedChange { bbox, settings },
            Some(r.0),
            Some(r.1),
        ),
        r.0.wf(),
        points_bounded(r.0.points@, LIVE_COORD_LIMIT as int),
        r.1.bbox == bbox,
        r.1.generator.wf(),
        !(r.1.generator is Uninitialized),
        !(r.1.generator is Completed),
        forall|i: int|
            0 <= i < r.1.outline@.len() ==> coord_bounded(
                (#[trigger] r.1.outline@[i]).2.x as int,
                r.1.outline@[i].2.y as int,
                LIVE_COORD_LIMIT as int,
            ) && coord_bounded(
                r.1.outline@[i].3.x as int,
                r.1.outline@[i].3.y as int,
                crate::scalar::MILLI as int,
            ),
{
    let ghost acc0 = acc;
    let DensityMesh { points: acc_points, triangles: acc_triangles } = acc;
    let ghost acc_pts = acc_points@;
    let ghost acc_tris = acc_triangles@;
    let (kept, removed) = partition_triangles(acc_triangles, &acc_points, bbox);
    proof {
        assert(3 * removed@.len() <= usize::MAX) by {
            acc_tris.lemma_filter_len(|t: Triangle| tri_overlaps(acc_pts, t, bbox));
        }
    }
    let outline = crate::utils::collect_outline(&removed);
    proof {
        assert forall|k: int| 0 <= k < outline@.len() implies (#[trigger] outline@[k]).1
            < acc_points@.len() && outline@[k].2 < acc_points@.len() by {
            let ed = outline@[k];
            assert(removed@[ed.0 as int].in_range(acc_points@.len() as int));
        }
    }
    let records = build_outline_records(&outline, &acc_points);
    let ghost ol = crate::utils::outline_of(removed@);
    let mut seeds: Vec<Coord> = Vec::new();
    let rn = records.len();
    let mut ri: usize = 0;
    while ri < rn
        invariant
            rn == records@.len(),
            ri <= rn,
            ol == crate::utils::edge_triples_view(outline@),
            rn == ol.len(),
            coord_bounded(
                bbox.min.x as int,
                bbox.min.y as int,
                LIVE_MAP_LIMIT as int + SEPARATION_LIMIT as int,
            ),
            forall|l: int|
                0 <= l < records@.len() ==> {
                    let rec = record_of(ol, acc_pts, l);
                    &&& coord_bounded(
                        (#[trigger] records@[l]).2.x as int,
                        records@[l].2.y as int,
                        LIVE_COORD_LIMIT as int,
                    )
                    &&& records@[l].2 == rec.2
                },
            seeds@.len() == ri,
            forall|l: int|
                0 <= l < ri ==> #[trigger] seeds@[l] == crate::utils::spec_sub(
                    record_of(ol, acc_pts, l).2,
                    bbox.min,
                ),
            points_bounded(seeds@, COORD_LIMIT as int),
        decreases rn - ri,
    {
        let rec = records[ri];
        let sd = rec.2.sub(bbox.min);
        seeds.push(sd);
        ri = ri + 1;
    }
    proof {
        assert(seeds@ =~= Seq::new(
            ol.len(),
            |k: int| crate::utils::spec_sub(record_of(ol, acc_pts, k).2, bbox.min),
        ));
    }
    let ghost kept_seq = kept@;
    let baked_kept = bake_final_mesh(acc_points, kept);
    let ghost baked_kept0 = baked_kept;
    let bkl = baked_kept.points.len();
    proof {
        assert(baked_kept0.points@.len() == bkl);
        lemma_bake_bounds(
            acc_pts,
            keep_filter(acc_tris, acc_pts, bbox),
            baked_kept,
            LIVE_COORD_LIMIT as int,
        );
    }
    let crop = map.crop(fx, fy, cw, ch);
    proof {
        lemma_crop_in_range(
            map.width as int,
            map.height as int,
            crop.width as int,
            crop.height as int,
            if map.scale > 1 {
                map.scale as int
            } else {
                1int
            },
        );
    }
    let mut st = settings;
    if st.is_chunk && (crop.unscaled_width() == 0 || crop.unscaled_height() == 0) {
        st.is_chunk = false;
    }
    let generator = DensityMeshGenerator::new(seeds, crop, st);
    let r = (baked_kept, RegionChange { bbox, outline: records, generator });
    proof {
        let qcv = QueuedChange { bbox, settings };
        let removed_v = overlap_filter(acc0.triangles@, acc0.points@, qcv.bbox);
        let kept_v = keep_filter(acc0.triangles@, acc0.points@, qcv.bbox);
        let ol_v = crate::utils::outline_of(removed_v);
        assert(removed_v == removed@);
        assert(kept_v == kept_seq);
        assert(ol_v == ol);
        let bkm2 = choose|bm: Seq<Option<usize>>|
            crate::utils::bake_selection(acc_pts, kept_seq, baked_kept0, bm);
        assert(crate::utils::bake_selection(acc0.points@, kept_v, r.0, bkm2));
        assert(baked_of(acc0.points@, kept_v, r.0));
        assert(r.1.bbox == qcv.bbox);
        assert(r.1.outline@.len() == ol_v.len());
        assert forall|k: int| 0 <= k < ol_v.len() implies {
            let rec = record_of(ol_v, acc0.points@, k);
            &&& (#[trigger] r.1.outline@[k]).0 as int == rec.0
            &&& r.1.outline@[k].1 as int == rec.1
            &&& r.1.outline@[k].2 == rec.2
            &&& r.1.outline@[k].3 == rec.3
        } by {
            assert(records@[k].2 == record_of(ol, acc_pts, k).2);
        }
        assert(gen_started(
            r.1.generator,
            *map,
            qcv.bbox,
            qcv.settings,
            Seq::new(
                ol_v.len(),
                |k: int| crate::utils::spec_sub(record_of(ol_v, acc0.points@, k).2, qcv.bbox.min),
            ),
        ));
        assert(dequeued_split(*map, acc0, qcv, Some(r.0), Some(r.1)));
    }
    r
}

/// What one processing step may do, by branch: an idle mesh stays idle and
/// untouched; an error comes from the in-flight generator's step and clears
/// it; a dequeue follows [`dequeued_spec`]; an in-flight advance follows
/// [`advanced_in_flight`]; a mesh change follows [`retirement_spec`]. The
/// field itself never changes.
pub open spec fn step_allowed(
    pre: LiveDensityMesh,
    post: LiveDensityMesh,
    r: Result<LiveProcessStatus, GenerateDensityMeshError>,
) -> bool {
    &&& post.map == pre.map
    &&& (pre.is_idle() ==> r is Ok && r->Ok_0 is Idle && post == pre)
    &&& (r is Ok && r->Ok_0 is Idle ==> post.is_idle())
    &&& (r matches Err(e) ==> (pre.current matches Some(rc)
        && DensityMeshGenerator::process_spec(rc.generator, Err(e)) && post.current is None
        && post.queue@ == pre.queue@ && post.mesh == pre.mesh))
    &&& ((!pre.is_idle() && pre.current is None) ==> (r is Ok && dequeued_spec(pre, post) && (
    r->Ok_0 is InProgress || r->Ok_0 is Idle)))
    &&& (pre.current matches Some(rc) ==> ((r is Ok && r->Ok_0 is InProgress) ==> (post.queue@
        == pre.queue@ && post.mesh == pre.mesh && (post.current matches Some(rc2)
        && advanced_in_flight(rc, rc2)))))
    &&& ((r is Ok && r->Ok_0 is MeshChanged) ==> (pre.current matches Some(rc)
        && retirement_spec(pre, rc, post)))
}

/// One allowed step that stays in progress.
pub open spec fn live_step_ip(pre: LiveDensityMesh, mid: LiveDensityMesh) -> bool {
    step_allowed(pre, mid, Ok(LiveProcessStatus::InProgress))
}

/// `mid` is reached from `pre` by one or more allowed in-progress steps.
pub open spec fn live_reaches(pre: LiveDensityMesh, mid: LiveDensityMesh, fuel: nat) -> bool
    decreases fuel,
{
    fuel > 0 && exists|m2: LiveDensityMesh|
        #[trigger] live_step_ip(pre, m2) && (m2 == mid || live_reaches(m2, mid, (fuel - 1) as nat))
}

/// One allowed step that ends the wait: it returns `Idle` or `MeshChanged`.
pub open spec fn stop_step(pre: LiveDensityMesh, post: LiveDensityMesh) -> bool {
    ||| step_allowed(pre, post, Ok(LiveProcessStatus::Idle))
    ||| step_allowed(pre, post, Ok(LiveProcessStatus::MeshChanged))
}

/// A successful wait: zero or more allowed in-progress steps followed by one
/// stopping step, so at most one region change is retired per call.
pub open spec fn stops_ok(pre: LiveDensityMesh, post: LiveDensityMesh) -> bool {
    ||| stop_step(pre, post)
    ||| exists|mid: LiveDensityMesh, fuel: nat|
        #[trigger] live_reaches(pre, mid, fuel) && stop_step(mid, post)
}

/// A failed wait: zero or more allowed in-progress steps followed by one
/// step whose nested generator fails with `e`.
pub open spec fn stops_err(
    pre: LiveDensityMesh,
    post: LiveDensityMesh,
    e: GenerateDensityMeshError,
) -> bool {
    ||| step_allowed(pre, post, Err(e))
    ||| exists|mid: LiveDensityMesh, fuel: nat|
        #[trigger] live_reaches(pre, mid, fuel) && step_allowed(mid, post, Err(e))
}

/// The outcome of waiting: allowed steps until the first `Idle` or
/// `MeshChanged` status, or until the first error, which comes from the
/// nested generator.
pub open spec fn live_stops(
    pre: LiveDensityMesh,
    post: LiveDensityMesh,
    r: Result<(), GenerateDensityMeshError>,
) -> bool {
    match r {
        Ok(_) => stops_ok(pre, post),
        Err(e) => stops_err(pre, post, e),
    }
}

/// A single in-progress step witnesses reachability.
proof fn lemma_live_reach_one(pre: LiveDensityMesh, mid: LiveDensityMesh)
    requires
        live_step_ip(pre, mid),
    ensures
        live_reaches(pre, mid, 1),
{
}

/// Reachability extends backwards across one in-progress step.
proof fn lemma_live_reach_prepend(
    pre: LiveDensityMesh,
    mid: LiveDensityMesh,
    target: LiveDensityMesh,
    fuel: nat,
)
    requires
        live_step_ip(pre, mid),
        mid == target || live_reaches(mid, target, fuel),
    ensures
        live_reaches(pre, target, (fuel + 1) as nat),
{
}

/// A reached stopping step witnesses a successful wait.
proof fn lemma_stops_ok_later(
    pre: LiveDensityMesh,
    mid: LiveDensityMesh,
    post: LiveDensityMesh,
    fuel: nat,
)
    requires
        live_reaches(pre, mid, fuel),
        stop_step(mid, post),
    ensures
        stops_ok(pre, post),
{
}

/// A reached failing step witnesses a failed wait.
proof fn lemma_stops_err_later(
    pre: LiveDensityMesh,
    mid: LiveDensityMesh,
    post: LiveDensityMesh,
    e: GenerateDensityMeshError,
    fuel: nat,
)
    requires
        live_reaches(pre, mid, fuel),
        step_allowed(mid, post, Err(e)),
    ensures
        stops_err(pre, post, e),
{
}

/// A wait outcome extends backwards across one in-progress step.
proof fn lemma_live_stops_prepend(
    pre: LiveDensityMesh,
    mid: LiveDensityMesh,
    post: LiveDensityMesh,
    r: Result<(), GenerateDensityMeshError>,
)
    requires
        live_step_ip(pre, mid),
        live_stops(mid, post, r),
    ensures
        live_stops(pre, post, r),
{
    match r {
        Ok(_) => {
            if stop_step(mid, post) {
                lemma_live_reach_one(pre, mid);
                lemma_stops_ok_later(pre, mid, post, 1);
            } else {
                let (m2, fuel) = choose|m2: LiveDensityMesh, fuel: nat|
                    #[trigger] live_reaches(mid, m2, fuel) && stop_step(m2, post);
                lemma_live_reach_prepend(pre, mid, m2, fuel);
                lemma_stops_ok_later(pre, m2, post, (fuel + 1) as nat);
            }
        },
        Err(e) => {
            if step_allowed(mid, post, Err(e)) {
                lemma_live_reach_one(pre, mid);
                lemma_stops_err_later(pre, mid, post, e, 1);
            } else {
                let (m2, fuel) = choose|m2: LiveDensityMesh, fuel: nat|
                    #[trigger] live_reaches(mid, m2, fuel) && step_allowed(m2, post, Err(e));
                lemma_live_reach_prepend(pre, mid, m2, fuel);
                lemma_stops_err_later(pre, m2, post, e, (fuel + 1) as nat);
            }
        },
    }
}

impl LiveDensityMesh {
    /// Perform one processing step: advance the in-flight region change by
    /// one generator step (stitching its mesh in when it completes), or
    /// start the next queued change by splitting the accumulated mesh at the
    /// region's boundary and seeding a nested generator with the boundary
    /// outline. Each branch's effect is pinned by its named contract:
    /// [`advanced_in_flight`], [`retirement_spec`] and [`dequeued_spec`].
    #[verifier::rlimit(100)]
    pub fn process(&mut self) -> (r: Result<LiveProcessStatus, GenerateDensityMeshError>)
        requires
            old(self).inv(),
        ensures
            final(self).inv(),
            r is Ok && r->Ok_0 is InProgress ==> LiveDensityMesh::live_shrinks(
                *old(self),
                *final(self),
            ),
            step_allowed(*old(self), *final(self), r),
    {
        if self.queue.len() == 0 && self.current.is_none() {
            return Ok(LiveProcessStatus::Idle);
        }
        let cur = self.current.take();
        match cur {
            Some(rc) => {
                let ghost rc0 = rc;
                let RegionChange { bbox, outline, generator } = rc;
                match generator.process() {
                    Err(e) => Err(e),
                    Ok(g) => {
                        match g {
                            DensityMeshGenerator::Completed { mesh, progress_limit } => {
                                let ghost gm0 = mesh;
                                let ghost pl0 = progress_limit;
                                let translated = translate_points(mesh.points, bbox.min);
                                proof {
                                    assert(translated@ =~= translated_of(gm0, rc0.bbox.min));
                                }
                                let acc_opt = self.mesh.take();
                                match acc_opt {
                                    None => {
                                        let adopted = DensityMesh {
                                            points: translated,
                                            triangles: mesh.triangles,
                                        };
                                        proof {
                                            crate::utils::lemma_bound_widen(
                                                adopted.points@,
                                                LIVE_COORD_LIMIT as int,
                                                MESH_COORD_LIMIT as int,
                                            );
                                        }
                                        self.mesh = Some(adopted);
                                        proof {
                                            lemma_retirement_intro(
                                                *old(self),
                                                rc0,
                                                *self,
                                                gm0,
                                                pl0,
                                            );
                                        }
                                    },
                                    Some(acc) => {
                                        let ghost acc0 = acc;
                                        proof {
                                            crate::utils::lemma_bound_widen(
                                                translated@,
                                                LIVE_COORD_LIMIT as int,
                                                MESH_COORD_LIMIT as int,
                                            );
                                        }
                                        let filtered = filter_stitch(
                                            mesh.triangles,
                                            &outline,
                                            &translated,
                                        );
                                        let baked = bake_final_mesh(translated, filtered);
                                        let ghost tpts = translated_of(gm0, rc0.bbox.min);
                                        let ghost ftris = stitch_filter(
                                            gm0.triangles@,
                                            rc0.outline@,
                                            tpts,
                                        );
                                        let ghost baked0 = baked;
                                        let ghost bm = choose|bm: Seq<Option<usize>>|
                                            crate::utils::bake_selection(tpts, ftris, baked0, bm);
                                        let bl = baked.points.len();
                                        proof {
                                            lemma_bake_bounds(
                                                tpts,
                                                ftris,
                                                baked,
                                                LIVE_COORD_LIMIT as int,
                                            );
                                        }
                                        if acc.points.len() <= usize::MAX - bl {
                                            let merged = merge_meshes(acc, baked);
                                            self.mesh = Some(merged);
                                        } else {
                                            self.mesh = Some(acc);
                                        }
                                        proof {
                                            lemma_retired_some_intro(
                                                acc0,
                                                rc0,
                                                gm0,
                                                baked0,
                                                bm,
                                                self.mesh->0,
                                            );
                                            lemma_retirement_intro(
                                                *old(self),
                                                rc0,
                                                *self,
                                                gm0,
                                                pl0,
                                            );
                                        }
                                    },
                                }
                                Ok(LiveProcessStatus::MeshChanged)
                            },
                            g2 => {
                                proof {
                                    assert(!(g2 is Uninitialized));
                                }
                                self.current = Some(
                                    RegionChange { bbox, outline, generator: g2 },
                                );
                                Ok(LiveProcessStatus::InProgress)
                            },
                        }
                    },
                }
            },
            None => {
                let qc = self.queue.remove(0);
                let ghost pre_queue = old(self).queue@;
                proof {
                    assert(self.queue@ =~= pre_queue.subrange(1, pre_queue.len() as int));
                    assert forall|i: int| 0 <= i < self.queue@.len() implies (
                    #[trigger] self.queue@[i]).settings.wf() && coord_bounded(
                        self.queue@[i].bbox.min.x as int,
                        self.queue@[i].bbox.min.y as int,
                        LIVE_MAP_LIMIT as int + SEPARATION_LIMIT as int,
                    ) && coord_bounded(
                        self.queue@[i].bbox.max.x as int,
                        self.queue@[i].bbox.max.y as int,
                        LIVE_MAP_LIMIT as int + SEPARATION_LIMIT as int,
                    ) by {
                        assert(self.queue@[i] == pre_queue[i + 1]);
                        assert(pre_queue[i + 1].settings.wf());
                    }
                }
                let QueuedChange { bbox, settings } = qc;
                let fx: usize = (if bbox.min.x > 0 {
                    bbox.min.x as u64
                } else {
                    0
                } / 1000) as usize;
                let fy: usize = (if bbox.min.y > 0 {
                    bbox.min.y as u64
                } else {
                    0
                } / 1000) as usize;
                let tx: usize = (if bbox.max.x > 0 {
                    bbox.max.x as u64
                } else {
                    0
                } / 1000) as usize;
                let ty: usize = (if bbox.max.y > 0 {
                    bbox.max.y as u64
                } else {
                    0
                } / 1000) as usize;
                let cw: usize = if tx >= fx {
                    tx - fx
                } else {
                    0
                };
                let ch: usize = if ty >= fy {
                    ty - fy
                } else {
                    0
                };
                proof {
                    assert(fx as int == box_cells(bbox).0 && fy as int == box_cells(bbox).1);
                    assert(tx as int == div_trunc(
                        if bbox.max.x > 0 {
                            bbox.max.x as int
                        } else {
                            0
                        },
                        1000,
                    ));
                    assert(ty as int == div_trunc(
                        if bbox.max.y > 0 {
                            bbox.max.y as int
                        } else {
                            0
                        },
                        1000,
                    ));
                    assert(box_cells(bbox) == (fx as int, fy as int, cw as int, ch as int));
                }
                let acc_opt = self.mesh.take();
                match acc_opt {
                    Some(acc) => {
                        let ghost acc0 = acc;
                        let DensityMesh { points: acc_points, triangles: acc_triangles } = acc;
                        if acc_triangles.len() > usize::MAX / 3 {
                            self.mesh = Some(
                                DensityMesh { points: acc_points, triangles: acc_triangles },
                            );
                        } else {
                            let acc = DensityMesh { points: acc_points, triangles: acc_triangles };
                            let (m1, rc) = dequeue_split_mesh(
                                &self.map,
                                acc,
                                bbox,
                                settings,
                                fx,
                                fy,
                                cw,
                                ch,
                            );
                            self.mesh = Some(m1);
                            self.current = Some(rc);
                            proof {
                                assert(dequeued_spec(*old(self), *self));
                            }
                        }
                    },
                    None => {
                        let crop = self.map.crop(fx, fy, cw, ch);
                        proof {
                            lemma_crop_in_range(
                                self.map.width as int,
                                self.map.height as int,
                                crop.width as int,
                                crop.height as int,
                                if self.map.scale > 1 {
                                    self.map.scale as int
                                } else {
                                    1int
                                },
                            );
                        }
                        let mut st = settings;
                        if st.is_chunk && (crop.unscaled_width() == 0 || crop.unscaled_height()
                            == 0) {
                            st.is_chunk = false;
                        }
                        let generator = DensityMeshGenerator::new(Vec::new(), crop, st);
                        self.current = Some(
                            RegionChange { bbox, outline: Vec::new(), generator },
                        );
                        proof {
                            assert(dequeued_fresh(old(self).map, old(self).queue@[0], self.current));
                            assert(dequeued_spec(*old(self), *self));
                        }
                    },
                }
                if self.queue.len() == 0 && self.current.is_none() {
                    Ok(LiveProcessStatus::Idle)
                } else {
                    Ok(LiveProcessStatus::InProgress)
                }
            },
        }
    }

    /// Process steps until nothing is pending or the mesh was updated: at
    /// most one region is retired per call, so the call returns at the first
    /// idle state or mesh change.
    pub fn process_wait(&mut self) -> (r: Result<(), GenerateDensityMeshError>)
        requires
            old(self).inv(),
        ensures
            final(self).inv(),
            final(self).map == old(self).map,
            live_stops(*old(self), *final(self), r),
            old(self).is_idle() ==> r is Ok && *final(self) == *old(self),
            r is Ok ==> final(self).is_idle() || final(self).mesh is Some,
        decreases
            old(self).q_len(),
            old(self).cur_flag(),
            old(self).g_phase(),
            old(self).g_fm(),
            old(self).g_tries(),
    {
        let ghost pre = *old(self);
        let status = self.process();
        let ghost mid = *self;
        match status {
            Err(e) => {
                proof {
                    assert(step_allowed(pre, mid, Err(e)));
                }
                Err(e)
            },
            Ok(LiveProcessStatus::Idle) => {
                proof {
                    assert(stop_step(pre, mid));
                }
                Ok(())
            },
            Ok(LiveProcessStatus::MeshChanged) => {
                proof {
                    assert(stop_step(pre, mid));
                }
                Ok(())
            },
            Ok(LiveProcessStatus::InProgress) => {
                let r = self.process_wait();
                proof {
                    assert(live_step_ip(pre, mid));
                    lemma_live_stops_prepend(pre, mid, *self, r);
                }
                r
            },
        }
    }
}

/// A crop of an in-range map is in the generator's working range.
proof fn lemma_crop_in_range(w: int, h: int, cw: int, ch: int, scale: int)
    requires
        0 <= cw <= w,
        0 <= ch <= h,
        scale >= 1,
        w * scale * 1000 <= LIVE_MAP_LIMIT,
        h * scale * 1000 <= LIVE_MAP_LIMIT,
    ensures
        cw * scale * 1000 <= COORD_LIMIT,
        ch * scale * 1000 <= COORD_LIMIT,
{
    assert(cw * scale * 1000 <= w * scale * 1000 && ch * scale * 1000 <= h * scale * 1000)
        by (nonlinear_arith)
        requires 0 <= cw <= w, 0 <= ch <= h, scale >= 1;
}

/// The triangle's bounding box meets the given box.
fn tri_box_overlaps(points: &Vec<Coord>, t: Triangle, bb: BoundingBox) -> (r: bool)
    requires
        t.in_range(points@.len() as int),
    ensures
        r == tri_overlaps(points@, t, bb),
{
    let pa = points[t.a];
    let pb = points[t.b];
    let pc = points[t.c];
    let mnx = crate::utils::min3(pa.x, pb.x, pc.x);
    let mny = crate::utils::min3(pa.y, pb.y, pc.y);
    let mxx = crate::utils::max3(pa.x, pb.x, pc.x);
    let mxy = crate::utils::max3(pa.y, pb.y, pc.y);
    mxx > bb.min.x && mxy > bb.min.y && mnx < bb.max.x && mny < bb.max.y
}

/// Split the triangles into those clear of the box and those meeting it.
fn partition_triangles(triangles: Vec<Triangle>, points: &Vec<Coord>, bb: BoundingBox) -> (r: (
    Vec<Triangle>,
    Vec<Triangle>,
))
    requires
        triangles_in_range(triangles@, points@.len() as int),
    ensures
        r.0@ == keep_filter(triangles@, points@, bb),
        r.1@ == overlap_filter(triangles@, points@, bb),
        triangles_in_range(r.0@, points@.len() as int),
        triangles_in_range(r.1@, points@.len() as int),
{
    let n = triangles.len();
    let mut kept: Vec<Triangle> = Vec::new();
    let mut removed: Vec<Triangle> = Vec::new();
    let mut i: usize = 0;
    proof {
        lemma_keep_filter_empty(points@, bb);
        assert(triangles@.subrange(0, 0) =~= Seq::<Triangle>::empty());
    }
    while i < n
        invariant
            n == triangles@.len(),
            i <= n,
            triangles_in_range(triangles@, points@.len() as int),
            kept@ == keep_filter(triangles@.subrange(0, i as int), points@, bb),
            removed@ == overlap_filter(triangles@.subrange(0, i as int), points@, bb),
            triangles_in_range(kept@, points@.len() as int),
            triangles_in_range(removed@, points@.len() as int),
        decreases n - i,
    {
        let t = triangles[i];
        proof {
            assert(triangles@[i as int].in_range(points@.len() as int));
        }
        let ghost prefix = triangles@.subrange(0, i as int);
        let ghost pre_k = kept@;
        let ghost pre_r = removed@;
        if tri_box_overlaps(points, t, bb) {
            removed.push(t);
        } else {
            kept.push(t);
        }
        proof {
            assert(triangles@.subrange(0, i + 1) =~= prefix.push(t));
            lemma_keep_filter_push(prefix, t, points@, bb);
            assert forall|l: int| 0 <= l < kept@.len() implies (#[trigger] kept@[l]).in_range(
                points@.len() as int,
            ) by {
                if l < pre_k.len() {
                    assert(kept@[l] == pre_k[l]);
                    assert(pre_k[l].in_range(points@.len() as int));
                }
            }
            assert forall|l: int| 0 <= l < removed@.len() implies (#[trigger] removed@[l]).in_range(
                points@.len() as int,
            ) by {
                if l < pre_r.len() {
                    assert(removed@[l] == pre_r[l]);
                    assert(pre_r[l].in_range(points@.len() as int));
                }
            }
        }
        i = i + 1;
    }
    proof {
        assert(triangles@.subrange(0, n as int) =~= triangles@);
    }
    (kept, removed)
}

/// Build the stitching records of the outline edges: the outline positions
/// of the edges leaving each endpoint, the origin point, and the edge
/// direction's right-perpendicular.
fn build_outline_records(outline: &Vec<(usize, usize, usize)>, points: &Vec<Coord>) -> (r: Vec<
    (usize, usize, Coord, Coord),
>)
    requires
        points_bounded(points@, LIVE_COORD_LIMIT as int),
        forall|k: int|
            0 <= k < outline@.len() ==> (#[trigger] outline@[k]).1 < points@.len()
                && outline@[k].2 < points@.len(),
    ensures
        r@.len() == outline@.len(),
        ({
            let olv = crate::utils::edge_triples_view(outline@);
            forall|k: int|
                0 <= k < r@.len() ==> {
                    let rec = record_of(olv, points@, k);
                    &&& (#[trigger] r@[k]).0 == rec.0
                    &&& r@[k].1 == rec.1
                    &&& r@[k].2 == rec.2
                    &&& r@[k].3 == rec.3
                    &&& coord_bounded(r@[k].2.x as int, r@[k].2.y as int, LIVE_COORD_LIMIT as int)
                    &&& coord_bounded(
                        r@[k].3.x as int,
                        r@[k].3.y as int,
                        crate::scalar::MILLI as int,
                    )
                }
        }),
{
    let ghost olv = crate::utils::edge_triples_view(outline@);
    let n = outline.len();
    let mut r: Vec<(usize, usize, Coord, Coord)> = Vec::new();
    let mut k: usize = 0;
    while k < n
        invariant
            n == outline@.len(),
            olv == crate::utils::edge_triples_view(outline@),
            points_bounded(points@, LIVE_COORD_LIMIT as int),
            forall|l: int|
                0 <= l < outline@.len() ==> (#[trigger] outline@[l]).1 < points@.len()
                    && outline@[l].2 < points@.len(),
            k <= n,
            r@.len() == k,
            forall|l: int|
                0 <= l < k ==> {
                    let rec = record_of(olv, points@, l);
                    &&& (#[trigger] r@[l]).0 == rec.0
                    &&& r@[l].1 == rec.1
                    &&& r@[l].2 == rec.2
                    &&& r@[l].3 == rec.3
                    &&& coord_bounded(r@[l].2.x as int, r@[l].2.y as int, LIVE_COORD_LIMIT as int)
                    &&& coord_bounded(
                        r@[l].3.x as int,
                        r@[l].3.y as int,
                        crate::scalar::MILLI as int,
                    )
                },
        decreases n - k,
    {
        let entry = outline[k];
        proof {
            assert(olv[k as int] == (entry.0 as int, entry.1 as int, entry.2 as int));
        }
        let pos_a: usize = match crate::utils::find_first_match(outline, entry.1, false) {
            Some(l) => l,
            None => {
                proof {
                    crate::utils::lemma_first_match_misses(olv, entry.1 as int, 0, k as int, false);
                }
                0
            },
        };
        let pos_b: usize = match crate::utils::find_first_match(outline, entry.2, false) {
            Some(l) => l,
            None => 0,
        };
        let o = points[entry.1];
        let nvec = points[entry.2].sub(o).normalized().right();
        r.push((pos_a, pos_b, o, nvec));
        k = k + 1;
    }
    r
}

/// Whether a stitched-in triangle is kept against the recorded outline.
fn stitch_keep_exec(
    ol: &Vec<(usize, usize, Coord, Coord)>,
    points: &Vec<Coord>,
    t: Triangle,
) -> (r: bool)
    requires
        t.in_range(points@.len() as int),
        points_bounded(points@, LIVE_COORD_LIMIT as int),
        forall|i: int|
            0 <= i < ol@.len() ==> coord_bounded(
                (#[trigger] ol@[i]).2.x as int,
                ol@[i].2.y as int,
                LIVE_COORD_LIMIT as int,
            ) && coord_bounded(ol@[i].3.x as int, ol@[i].3.y as int, crate::scalar::MILLI as int),
    ensures
        r == stitch_keep(ol@, points@, t),
{
    let pa = points[t.a];
    let pb = points[t.b];
    let pc = points[t.c];
    let cx = crate::scalar::div_trunc_i128(pa.x as i128 + pb.x as i128 + pc.x as i128, 3);
    let cy = crate::scalar::div_trunc_i128(pa.y as i128 + pb.y as i128 + pc.y as i128, 3);
    proof {
        lemma_centroid_bound(pa.x as int, pb.x as int, pc.x as int);
        lemma_centroid_bound(pa.y as int, pb.y as int, pc.y as int);
    }
    let cen = Coord { x: cx as i64, y: cy as i64 };
    proof {
        assert(cen == spec_centroid(pa, pb, pc));
    }
    let n = ol.len();
    let mut samples: usize = 0;
    let mut count: usize = 0;
    let mut i: usize = 0;
    while i < n
        invariant
            n == ol@.len(),
            i <= n,
            t.in_range(points@.len() as int),
            points_bounded(points@, LIVE_COORD_LIMIT as int),
            forall|l: int|
                0 <= l < ol@.len() ==> coord_bounded(
                    (#[trigger] ol@[l]).2.x as int,
                    ol@[l].2.y as int,
                    LIVE_COORD_LIMIT as int,
                ) && coord_bounded(
                    ol@[l].3.x as int,
                    ol@[l].3.y as int,
                    crate::scalar::MILLI as int,
                ),
            pa == points@[t.a as int],
            pb == points@[t.b as int],
            pc == points@[t.c as int],
            cen == spec_centroid(pa, pb, pc),
            coord_bounded(cen.x as int, cen.y as int, LIVE_COORD_LIMIT as int),
            samples <= i,
            count <= samples,
            (samples as int, count as int, false) == stitch_scan(
                ol@,
                i as int,
                t,
                pa,
                pb,
                pc,
                cen,
            ),
        decreases n - i,
    {
        let e = ol[i];
        let sh = crate::utils::does_triangle_share_edge(t.a, t.b, t.c, e.0, e.1);
        if sh == 1 {
            samples = samples + 1;
            if side_le_exec(pa, e.2, e.3) && side_le_exec(pb, e.2, e.3) && side_le_exec(
                pc,
                e.2,
                e.3,
            ) {
                count = count + 1;
            }
        } else if sh >= 2 {
            if side_le_exec(cen, e.2, e.3) {
                proof {
                    lemma_stitch_scan_dead(ol@, i + 1, n as int, t, pa, pb, pc, cen);
                }
                return false;
            }
        }
        i = i + 1;
    }
    samples == 0 || count < samples / 2
}

/// Once a scan is discarded it stays discarded.
proof fn lemma_stitch_scan_dead(
    ol: Seq<(usize, usize, Coord, Coord)>,
    i: int,
    n: int,
    t: Triangle,
    pa: Coord,
    pb: Coord,
    pc: Coord,
    cen: Coord,
)
    requires
        0 < i <= n <= ol.len(),
        stitch_scan(ol, i, t, pa, pb, pc, cen).2,
    ensures
        stitch_scan(ol, n, t, pa, pb, pc, cen).2,
    decreases n - i,
{
    if i < n {
        lemma_stitch_scan_dead(ol, i + 1, n, t, pa, pb, pc, cen);
    }
}

/// The point is on or behind the record's half-plane.
fn side_le_exec(p: Coord, o: Coord, n: Coord) -> (r: bool)
    requires
        coord_bounded(p.x as int, p.y as int, 4 * COORD_LIMIT as int),
        coord_bounded(o.x as int, o.y as int, 4 * COORD_LIMIT as int),
        coord_bounded(n.x as int, n.y as int, 4 * COORD_LIMIT as int),
    ensures
        r == side_le(p, o, n),
{
    proof {
        crate::utils::lemma_diff_prod_bound((p.x - o.x) as int, n.x as int);
        crate::utils::lemma_diff_prod_bound((p.y - o.y) as int, n.y as int);
    }
    let dx: i128 = p.x as i128 - o.x as i128;
    let dy: i128 = p.y as i128 - o.y as i128;
    dx * (n.x as i128) + dy * (n.y as i128) <= 0
}

/// The centroid of live-range points is in live range.
proof fn lemma_centroid_bound(a: int, b: int, c: int)
    requires
        -LIVE_COORD_LIMIT as int <= a <= LIVE_COORD_LIMIT as int,
        -LIVE_COORD_LIMIT as int <= b <= LIVE_COORD_LIMIT as int,
        -LIVE_COORD_LIMIT as int <= c <= LIVE_COORD_LIMIT as int,
    ensures
        -3 * LIVE_COORD_LIMIT as int <= a + b + c <= 3 * LIVE_COORD_LIMIT as int,
        -LIVE_COORD_LIMIT as int <= div_trunc(a + b + c, 3) <= LIVE_COORD_LIMIT as int,
{
    let s = a + b + c;
    if s >= 0 {
        assert(s / 3 <= (3 * LIVE_COORD_LIMIT as int) / 3) by (nonlinear_arith)
            requires 0 <= s <= 3 * LIVE_COORD_LIMIT as int;
        assert((3 * LIVE_COORD_LIMIT as int) / 3 == LIVE_COORD_LIMIT as int) by (nonlinear_arith);
        assert(s / 3 >= 0) by (nonlinear_arith)
            requires s >= 0;
    } else {
        assert((-s) / 3 <= (3 * LIVE_COORD_LIMIT as int) / 3) by (nonlinear_arith)
            requires 0 <= -s <= 3 * LIVE_COORD_LIMIT as int;
        assert((3 * LIVE_COORD_LIMIT as int) / 3 == LIVE_COORD_LIMIT as int) by (nonlinear_arith);
        assert((-s) / 3 >= 0) by (nonlinear_arith)
            requires s < 0;
    }
}

/// The surviving stitched-in triangles, in order.
fn filter_stitch(
    triangles: Vec<Triangle>,
    ol: &Vec<(usize, usize, Coord, Coord)>,
    points: &Vec<Coord>,
) -> (r: Vec<Triangle>)
    requires
        triangles_in_range(triangles@, points@.len() as int),
        points_bounded(points@, LIVE_COORD_LIMIT as int),
        forall|i: int|
            0 <= i < ol@.len() ==> coord_bounded(
                (#[trigger] ol@[i]).2.x as int,
                ol@[i].2.y as int,
                LIVE_COORD_LIMIT as int,
            ) && coord_bounded(ol@[i].3.x as int, ol@[i].3.y as int, crate::scalar::MILLI as int),
    ensures
        r@ == stitch_filter(triangles@, ol@, points@),
        triangles_in_range(r@, points@.len() as int),
{
    let n = triangles.len();
    let mut r: Vec<Triangle> = Vec::new();
    let mut i: usize = 0;
    proof {
        lemma_stitch_filter_empty(ol@, points@);
        assert(triangles@.subrange(0, 0) =~= Seq::<Triangle>::empty());
    }
    while i < n
        invariant
            n == triangles@.len(),
            i <= n,
            triangles_in_range(triangles@, points@.len() as int),
            points_bounded(points@, LIVE_COORD_LIMIT as int),
            forall|l: int|
                0 <= l < ol@.len() ==> coord_bounded(
                    (#[trigger] ol@[l]).2.x as int,
                    ol@[l].2.y as int,
                    LIVE_COORD_LIMIT as int,
                ) && coord_bounded(
                    ol@[l].3.x as int,
                    ol@[l].3.y as int,
                    crate::scalar::MILLI as int,
                ),
            r@ == stitch_filter(triangles@.subrange(0, i as int), ol@, points@),
            triangles_in_range(r@, points@.len() as int),
        decreases n - i,
    {
        let t = triangles[i];
        proof {
            assert(triangles@[i as int].in_range(points@.len() as int));
        }
        let ghost prefix = triangles@.subrange(0, i as int);
        let ghost pre_r = r@;
        if stitch_keep_exec(ol, points, t) {
            r.push(t);
        }
        proof {
            assert(triangles@.subrange(0, i + 1) =~= prefix.push(t));
            lemma_stitch_filter_push(prefix, t, ol@, points@);
            assert forall|l: int| 0 <= l < r@.len() implies (#[trigger] r@[l]).in_range(
                points@.len() as int,
            ) by {
                if l < pre_r.len() {
                    assert(r@[l] == pre_r[l]);
                    assert(pre_r[l].in_range(points@.len() as int));
                }
            }
        }
        i = i + 1;
    }
    proof {
        assert(triangles@.subrange(0, n as int) =~= triangles@);
    }
    r
}

/// Translate every point by the region offset, clamped into the live range.
fn translate_points(points: Vec<Coord>, d: Coord) -> (r: Vec<Coord>)
    requires
        points_bounded(points@, MESH_COORD_LIMIT as int),
        coord_bounded(d.x as int, d.y as int, LIVE_MAP_LIMIT as int + SEPARATION_LIMIT as int),
    ensures
        r@.len() == points@.len(),
        forall|i: int| 0 <= i < r@.len() ==> #[trigger] r@[i] == spec_translate(points@[i], d),
        points_bounded(r@, LIVE_COORD_LIMIT as int),
{
    let n = points.len();
    let mut r: Vec<Coord> = Vec::new();
    let mut i: usize = 0;
    while i < n
        invariant
            n == points@.len(),
            i <= n,
            points_bounded(points@, MESH_COORD_LIMIT as int),
            coord_bounded(d.x as int, d.y as int, LIVE_MAP_LIMIT as int + SEPARATION_LIMIT as int),
            r@.len() == i,
            forall|l: int| 0 <= l < i ==> #[trigger] r@[l] == spec_translate(points@[l], d),
            points_bounded(r@, LIVE_COORD_LIMIT as int),
        decreases n - i,
    {
        let p = points[i];
        let x = clamp_live_exec(p.x + d.x);
        let y = clamp_live_exec(p.y + d.y);
        r.push(Coord { x, y });
        i = i + 1;
    }
    r
}

/// Clamp a milli-unit value into the live working range.
fn clamp_live_exec(v: i64) -> (r: i64)
    ensures
        r == clamp_live(v as int),
{
    if v > LIVE_COORD_LIMIT {
        LIVE_COORD_LIMIT
    } else if v < -LIVE_COORD_LIMIT {
        -LIVE_COORD_LIMIT
    } else {
        v
    }
}

/// Concatenate an accumulated mesh and a freshly stitched sub-mesh: the new
/// points follow the kept ones and the new triangles are renumbered past the
/// kept point count.
fn merge_meshes(acc: DensityMesh, add: DensityMesh) -> (r: DensityMesh)
    requires
        acc.wf(),
        add.wf(),
        points_bounded(acc.points@, LIVE_COORD_LIMIT as int),
        points_bounded(add.points@, LIVE_COORD_LIMIT as int),
        acc.points@.len() + add.points@.len() <= usize::MAX,
    ensures
        r.wf(),
        points_bounded(r.points@, LIVE_COORD_LIMIT as int),
        r.points@ == acc.points@ + add.points@,
        r.triangles@.len() == acc.triangles@.len() + add.triangles@.len(),
        forall|k: int|
            0 <= k < acc.triangles@.len() ==> #[trigger] r.triangles@[k] == acc.triangles@[k],
        forall|k: int|
            0 <= k < add.triangles@.len() ==> #[trigger] r.triangles@[acc.triangles@.len() + k]
                == (Triangle {
                a: (add.triangles@[k].a + acc.points@.len()) as usize,
                b: (add.triangles@[k].b + acc.points@.len()) as usize,
                c: (add.triangles@[k].c + acc.points@.len()) as usize,
            }),
{
    let mut points = acc.points;
    let mut add_points = add.points;
    let count = points.len();
    let ghost acc_pts = points@;
    let ghost acc_tris = acc.triangles@;
    let ghost add_pts = add_points@;
    let ghost add_tris = add.triangles@;
    points.append(&mut add_points);
    let mut triangles = acc.triangles;
    let add_triangles = add.triangles;
    let n = add_triangles.len();
    let mut k: usize = 0;
    while k < n
        invariant
            add_triangles@ == add_tris,
            n == add_tris.len(),
            k <= n,
            count == acc_pts.len(),
            points@ == acc_pts + add_pts,
            count + add_pts.len() <= usize::MAX,
            triangles_in_range(add_tris, add_pts.len() as int),
            triangles@.len() == acc_tris.len() + k,
            forall|l: int| 0 <= l < acc_tris.len() ==> #[trigger] triangles@[l] == acc_tris[l],
            forall|l: int|
                0 <= l < k ==> #[trigger] triangles@[acc_tris.len() + l] == (Triangle {
                    a: (add_tris[l].a + count) as usize,
                    b: (add_tris[l].b + count) as usize,
                    c: (add_tris[l].c + count) as usize,
                }),
        decreases n - k,
    {
        let t = add_triangles[k];
        proof {
            assert(add_tris[k as int].in_range(add_pts.len() as int));
        }
        triangles.push(Triangle { a: t.a + count, b: t.b + count, c: t.c + count });
        k = k + 1;
    }
    let r = DensityMesh { points, triangles };
    proof {
        assert forall|l: int| 0 <= l < r.triangles@.len() implies (#[trigger] r.triangles@[l]).in_range(
            r.points@.len() as int,
        ) by {
            if l < acc_tris.len() {
                assert(r.triangles@[l] == acc_tris[l]);
                assert(acc_tris[l].in_range(acc_pts.len() as int));
            } else {
                let l2 = l - acc_tris.len();
                assert(r.triangles@[acc_tris.len() + l2] == (Triangle {
                    a: (add_tris[l2].a + count) as usize,
                    b: (add_tris[l2].b + count) as usize,
                    c: (add_tris[l2].c + count) as usize,
                }));
                assert(add_tris[l2].in_range(add_pts.len() as int));
            }
        }
        assert forall|j: int| 0 <= j < r.points@.len() implies crate::mesh::point_referenced(
            r.triangles@,
            j,
        ) by {
            if j < acc_pts.len() {
                assert(crate::mesh::point_referenced(acc_tris, j));
                let kk = choose|kk: int|
                    0 <= kk < acc_tris.len() && (#[trigger] acc_tris[kk]).references(j);
                assert(r.triangles@[kk].references(j));
            } else {
                let j2 = j - acc_pts.len();
                assert(crate::mesh::point_referenced(add_tris, j2));
                let kk = choose|kk: int|
                    0 <= kk < add_tris.len() && (#[trigger] add_tris[kk]).references(j2);
                assert(add_tris[kk].in_range(add_pts.len() as int));
                assert(r.triangles@[acc_tris.len() + kk].references(j));
            }
        }
        assert forall|j: int| 0 <= j < r.points@.len() implies coord_bounded(
            (#[trigger] r.points@[j]).x as int,
            r.points@[j].y as int,
            LIVE_COORD_LIMIT as int,
        ) by {
            if j < acc_pts.len() {
                assert(r.points@[j] == acc_pts[j]);
                assert(coord_bounded(acc_pts[j].x as int, acc_pts[j].y as int, LIVE_COORD_LIMIT as int));
            } else {
                assert(r.points@[j] == add_pts[j - acc_pts.len()]);
                assert(coord_bounded(
                    add_pts[j - acc_pts.len()].x as int,
                    add_pts[j - acc_pts.len()].y as int,
                    LIVE_COORD_LIMIT as int,
                ));
            }
        }
        assert forall|j: int| 0 <= j < r.points@.len() implies coord_bounded(
            (#[trigger] r.points@[j]).x as int,
            r.points@[j].y as int,
            MESH_COORD_LIMIT as int,
        ) by {
            assert(coord_bounded(r.points@[j].x as int, r.points@[j].y as int, LIVE_COORD_LIMIT as int));
        }
    }
    r
}

/// The points selected by baking stay in any range the originals were in.
proof fn lemma_bake_bounds(
    points: Seq<Coord>,
    triangles: Seq<Triangle>,
    r: DensityMesh,
    b: int,
)
    requires
        exists|m: Seq<Option<usize>>| crate::utils::bake_selection(points, triangles, r, m),
        points_bounded(points, b),
        r.points@.len() <= usize::MAX,
    ensures
        points_bounded(r.points@, b),
{
    let m = choose|m: Seq<Option<usize>>| crate::utils::bake_selection(points, triangles, r, m);
    assert forall|j: int| 0 <= j < r.points@.len() implies coord_bounded(
        (#[trigger] r.points@[j]).x as int,
        r.points@[j].y as int,
        b,
    ) by {
        assert(crate::utils::map_hits(m, j));
        let i = choose|i: int| 0 <= i < m.len() && #[trigger] m[i] == Some(j as usize);
        assert(m[i] is Some);
        assert(m[i]->0 == j as usize);
        assert(j as usize as int == j);
        assert(r.points@[m[i]->0 as int] == points[i]);
        assert(coord_bounded(points[i].x as int, points[i].y as int, b));
    }
}

/// A scaled dimension in the live range fits intermediate arithmetic.
proof fn lemma_scaled_dim(w: int, scale: int, limit: int)
    requires
        w >= 0,
        scale >= 1,
        w * scale * 1000 <= limit,
    ensures
        0 <= w * scale * 1000,
        w * scale <= limit,
{
    assert(0 <= w * scale * 1000 && w * scale <= w * scale * 1000) by (nonlinear_arith)
        requires w >= 0, scale >= 1;
}

/// A scaled prefix coordinate stays within the live range.
proof fn lemma_scaled_dim_le(col: int, width: int, w: int, scale: int, limit: int)
    requires
        col >= 0,
        width >= 0,
        col + width <= w,
        scale >= 1,
        w * scale * 1000 <= limit,
    ensures
        0 <= col * scale * 1000 <= limit,
        0 <= (col + width) * scale * 1000 <= limit,
{
    assert(0 <= col * scale * 1000 <= w * scale * 1000 && 0 <= (col + width) * scale * 1000 <= w
        * scale * 1000) by (nonlinear_arith)
        requires 0 <= col, 0 <= width, col + width <= w, scale >= 1;
}

} // verus!
