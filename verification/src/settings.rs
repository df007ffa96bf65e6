//! Generation settings, in milli-unit fixed point.

use vstd::prelude::*;
use crate::scalar::div_trunc;

verus! {

/// Largest separation or extrusion size the pipeline accepts, in milli-units
/// (a little over a thousand pixels): keeps squared separations, scaled miter
/// offsets and region boxes comfortably within the exact integer ranges the
/// pipeline's arithmetic is proven for.
pub const SEPARATION_LIMIT: i64 = 0x10_0000;

/// Point separation source, values in milli-units.
#[derive(Clone, Copy, Debug, PartialEq, Eq, Structural)]
pub enum PointsSeparation {
    /// Each point has a constant minimal separation.
    Constant(i64),
    /// The local minimal separation depends on the steepness value: steepness
    /// zero maps to the second value (the widest spacing), full steepness to
    /// the first (the tightest). `(min, max)`
    SteepnessMapping(i64, i64),
}

impl PointsSeparation {
    /// Every separation value is positive and within the working range.
    pub open spec fn wf(self) -> bool {
        match self {
            PointsSeparation::Constant(v) => 0 < v <= SEPARATION_LIMIT,
            PointsSeparation::SteepnessMapping(f, t) => 0 < f <= SEPARATION_LIMIT && 0 < t
                <= SEPARATION_LIMIT,
        }
    }

    /// Returns the maximum of the possible separation values.
    pub fn maximum(&self) -> (r: i64)
        ensures
            r == self.spec_maximum(),
    {
        match self {
            PointsSeparation::Constant(v) => *v,
            PointsSeparation::SteepnessMapping(_, v) => *v,
        }
    }

    /// Ghost mirror of [`PointsSeparation::maximum`].
    pub open spec fn spec_maximum(self) -> i64 {
        match self {
            PointsSeparation::Constant(v) => v,
            PointsSeparation::SteepnessMapping(_, v) => v,
        }
    }

    /// Ghost mirror of [`PointsSeparation::local`]: the separation for a
    /// steepness numerator `s` (over 3060), interpolated between the widest
    /// spacing at steepness zero and the tightest at full steepness.
    pub open spec fn spec_local(self, s: int) -> int {
        match self {
            PointsSeparation::Constant(v) => v as int,
            PointsSeparation::SteepnessMapping(f, t) => {
                let cl = if s < 0 {
                    0
                } else if s > 3060 {
                    3060
                } else {
                    s
                };
                t + div_trunc((f - t) * cl, 3060)
            },
        }
    }

    /// The local separation for a steepness numerator (over 3060): constant,
    /// or linearly interpolated from the steepness, the steepness clamped to
    /// at most one whole unit first.
    pub fn local(&self, s: u16) -> (r: i64)
        requires
            self.wf(),
        ensures
            r == self.spec_local(s as int),
            0 <= r <= SEPARATION_LIMIT,
    {
        match self {
            PointsSeparation::Constant(v) => *v,
            PointsSeparation::SteepnessMapping(f, t) => {
                let cl: i64 = if s > 3060 {
                    3060
                } else {
                    s as i64
                };
                let d: i64 = *f - *t;
                proof {
                    lemma_lerp_bounds(*f as int, *t as int, cl as int);
                }
                let r = if d >= 0 {
                    let q: u64 = ((d as u64) * (cl as u64)) / 3060;
                    proof {
                        assert((d as u64) * (cl as u64) == (*f - *t) * cl) by (nonlinear_arith)
                            requires d == *f - *t, d >= 0, cl >= 0;
                    }
                    *t + (q as i64)
                } else {
                    let q: u64 = (((-d) as u64) * (cl as u64)) / 3060;
                    proof {
                        assert(((-d) as u64) * (cl as u64) == (*t - *f) * cl) by (nonlinear_arith)
                            requires -d == *t - *f, -d >= 0, cl >= 0;
                        assert((-((*f - *t) * cl)) == (*t - *f) * cl) by (nonlinear_arith)
                            requires cl >= 0;
                    }
                    *t - (q as i64)
                };
                r
            },
        }
    }
}

/// Interpolating between two separations within range stays within range.
proof fn lemma_lerp_bounds(f: int, t: int, cl: int)
    requires
        0 <= f <= SEPARATION_LIMIT,
        0 <= t <= SEPARATION_LIMIT,
        0 <= cl <= 3060,
    ensures
        f >= t ==> 0 <= (f - t) * cl / 3060 <= SEPARATION_LIMIT - t,
        f < t ==> 0 <= (t - f) * cl / 3060 <= t,
{
    if f >= t {
        assert(0 <= (f - t) * cl <= (f - t) * 3060) by (nonlinear_arith)
            requires 0 <= f - t, 0 <= cl <= 3060;
        assert((f - t) * cl / 3060 <= (f - t) * 3060 / 3060) by (nonlinear_arith)
            requires 0 <= (f - t) * cl <= (f - t) * 3060;
        assert((f - t) * 3060 / 3060 == f - t) by (nonlinear_arith);
        assert(0 <= (f - t) * cl / 3060) by (nonlinear_arith)
            requires 0 <= (f - t) * cl;
    } else {
        assert(0 <= (t - f) * cl <= (t - f) * 3060) by (nonlinear_arith)
            requires 0 <= t - f, 0 <= cl <= 3060;
        assert((t - f) * cl / 3060 <= (t - f) * 3060 / 3060) by (nonlinear_arith)
            requires 0 <= (t - f) * cl <= (t - f) * 3060;
        assert((t - f) * 3060 / 3060 == t - f) by (nonlinear_arith);
        assert(0 <= (t - f) * cl / 3060) by (nonlinear_arith)
            requires 0 <= (t - f) * cl;
    }
}

/// Settings of density mesh generation. Thresholds are milli-units of the
/// normalized density and steepness (so `10` stands for 0.01); separations
/// and the extrusion size are milli-units of a pixel.
#[derive(Clone, Copy, Debug, PartialEq, Eq, Structural)]
pub struct GenerateDensityMeshSettings {
    /// Minimal points separation.
    pub points_separation: PointsSeparation,
    /// Minimal visibility threshold.
    pub visibility_threshold: i64,
    /// Minimal steepness threshold.
    pub steepness_threshold: i64,
    /// Limit of iterations when no next point can be found.
    pub max_iterations: usize,
    /// Optional extrusion size.
    pub extrude_size: Option<i64>,
    /// Pre-seed mesh-aligned border points, for tileable chunks.
    pub is_chunk: bool,
    /// Keep invisible triangles.
    pub keep_invisible_triangles: bool,
}

impl GenerateDensityMeshSettings {
    /// Separation and extrusion sizes are in the working range.
    pub open spec fn wf(self) -> bool {
        &&& self.points_separation.wf()
        &&& match self.extrude_size {
            Some(e) => 0 < e <= SEPARATION_LIMIT,
            None => true,
        }
    }
}

impl Default for GenerateDensityMeshSettings {
    /// The documented defaults: constant separation of ten pixels,
    /// visibility and steepness thresholds of one hundredth, thirty-two
    /// iterations, no extrusion, no chunk seeding, invisible triangles
    /// dropped.
    fn default() -> (r: GenerateDensityMeshSettings)
        ensures
            r.points_separation == PointsSeparation::Constant(10000i64),
            r.visibility_threshold == 10,
            r.steepness_threshold == 10,
            r.max_iterations == 32,
            r.extrude_size is None,
            !r.is_chunk,
            !r.keep_invisible_triangles,
            r.wf(),
    {
        GenerateDensityMeshSettings {
            points_separation: PointsSeparation::Constant(10000),
            visibility_threshold: 10,
            steepness_threshold: 10,
            max_iterations: 32,
            extrude_size: None,
            is_chunk: false,
            keep_invisible_triangles: false,
        }
    }
}

} // verus!
