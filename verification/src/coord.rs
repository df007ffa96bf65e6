//! Point coordinates in milli-unit fixed point.

use vstd::prelude::*;
use crate::scalar::{div_trunc, div_trunc_i128, is_sqrt_of, isqrt_u128, sqrt_floor, MILLI};

verus! {

/// Bound kept by every coordinate the pipeline produces; leaves ample head
/// room in `i64` for sums, differences and offsets of a few coordinates.
pub const COORD_LIMIT: i64 = 0x100_0000_0000;

/// Point coordinate, each component in milli-units (thousandths of a pixel).
///
/// `Coord { x: 1500, y: -2000 }` is the point (1.5, -2).
#[derive(Clone, Copy, Debug, PartialEq, Eq, Structural)]
pub struct Coord {
    /// X value in milli-units.
    pub x: i64,
    /// Y value in milli-units.
    pub y: i64,
}

/// Both components of the mathematical point `(x, y)` lie within `b`.
pub open spec fn coord_bounded(x: int, y: int, b: int) -> bool {
    -b <= x <= b && -b <= y <= b
}

impl Coord {
    /// The coordinate is within the range the pipeline works in.
    pub open spec fn wf(self) -> bool {
        coord_bounded(self.x as int, self.y as int, COORD_LIMIT as int)
    }

    /// Create a new point coordinate from milli-unit components.
    pub fn new(x: i64, y: i64) -> (r: Coord)
        ensures
            r.x == x,
            r.y == y,
    {
        Coord { x, y }
    }

    /// Componentwise sum.
    pub fn add(self, other: Coord) -> (r: Coord)
        requires
            coord_bounded(self.x as int, self.y as int, 4 * COORD_LIMIT as int),
            coord_bounded(other.x as int, other.y as int, 4 * COORD_LIMIT as int),
        ensures
            r.x == self.x + other.x,
            r.y == self.y + other.y,
    {
        Coord { x: self.x + other.x, y: self.y + other.y }
    }

    /// Componentwise difference.
    pub fn sub(self, other: Coord) -> (r: Coord)
        requires
            coord_bounded(self.x as int, self.y as int, 4 * COORD_LIMIT as int),
            coord_bounded(other.x as int, other.y as int, 4 * COORD_LIMIT as int),
        ensures
            r.x == self.x - other.x,
            r.y == self.y - other.y,
    {
        Coord { x: self.x - other.x, y: self.y - other.y }
    }

    /// Componentwise negation.
    pub fn neg(self) -> (r: Coord)
        requires
            coord_bounded(self.x as int, self.y as int, 8 * COORD_LIMIT as int),
        ensures
            r.x == -self.x,
            r.y == -self.y,
    {
        Coord { x: -self.x, y: -self.y }
    }

    /// The right-hand perpendicular: turns a direction a quarter turn
    /// clockwise in a Y-down coordinate system.
    pub fn right(self) -> (r: Coord)
        requires
            coord_bounded(self.x as int, self.y as int, 8 * COORD_LIMIT as int),
        ensures
            r.x == self.y,
            r.y == -self.x,
    {
        Coord { x: self.y, y: -self.x }
    }

    /// Dot product, exact (the operands are milli-units, so the result
    /// carries a factor of one million).
    pub fn dot(self, other: Coord) -> (r: i128)
        requires
            coord_bounded(self.x as int, self.y as int, 8 * COORD_LIMIT as int),
            coord_bounded(other.x as int, other.y as int, 8 * COORD_LIMIT as int),
        ensures
            r == self.x * other.x + self.y * other.y,
    {
        proof {
            lemma_coord_prod_bound(self.x as int, other.x as int);
            lemma_coord_prod_bound(self.y as int, other.y as int);
        }
        (self.x as i128) * (other.x as i128) + (self.y as i128) * (other.y as i128)
    }

    /// Squared length, exact (in squared milli-units).
    pub fn sqr_magnitude(self) -> (r: i128)
        requires
            coord_bounded(self.x as int, self.y as int, 8 * COORD_LIMIT as int),
        ensures
            r == self.x * self.x + self.y * self.y,
            r >= 0,
    {
        proof {
            lemma_coord_prod_bound(self.x as int, self.x as int);
            lemma_coord_prod_bound(self.y as int, self.y as int);
            assert(self.x * self.x >= 0 && self.y * self.y >= 0) by (nonlinear_arith);
        }
        (self.x as i128) * (self.x as i128) + (self.y as i128) * (self.y as i128)
    }

    /// Length in milli-units, rounded down.
    pub fn magnitude(self) -> (r: i64)
        requires
            coord_bounded(self.x as int, self.y as int, 8 * COORD_LIMIT as int),
        ensures
            r == self.spec_magnitude(),
            0 <= r <= 16 * COORD_LIMIT,
    {
        proof {
            lemma_coord_prod_bound(self.x as int, self.x as int);
            lemma_coord_prod_bound(self.y as int, self.y as int);
        }
        let sq: i128 = self.sqr_magnitude();
        let r: u128 = isqrt_u128(sq as u128);
        proof {
            assert(r <= 0x1000_0000_0000) by (nonlinear_arith)
                requires
                    r >= 0,
                    r * r <= sq,
                    sq <= 0x80_0000_0000_0000_0000_0000;
        }
        r as i64
    }

    /// Ghost mirror of [`Coord::magnitude`].
    pub open spec fn spec_magnitude(self) -> int {
        sqrt_floor((self.x * self.x + self.y * self.y) as nat) as int
    }

    /// Ghost mirror of [`Coord::normalized`]: the square root is taken at
    /// milli-unit precision (of the squared magnitude scaled by one million),
    /// so the divisor is the vector's length in milli-milli-units, within one
    /// of exact.
    pub open spec fn spec_normalized(self) -> Coord {
        let m = sqrt_floor(((self.x * self.x + self.y * self.y) * 1000000) as nat) as int;
        if m == 0 {
            Coord { x: 0, y: 0 }
        } else {
            Coord {
                x: div_trunc(self.x * 1000000, m) as i64,
                y: div_trunc(self.y * 1000000, m) as i64,
            }
        }
    }

    /// Direction of the vector, scaled to unit length: for every nonzero
    /// vector the result's magnitude is within a few milli-units of one
    /// whole unit (1000 milli-units), the root being taken at scaled
    /// precision before dividing. The zero vector stays zero.
    pub fn normalized(self) -> (r: Coord)
        requires
            coord_bounded(self.x as int, self.y as int, 8 * COORD_LIMIT as int),
        ensures
            r == self.spec_normalized(),
            coord_bounded(r.x as int, r.y as int, MILLI as int),
    {
        proof {
            lemma_coord_prod_bound(self.x as int, self.x as int);
            lemma_coord_prod_bound(self.y as int, self.y as int);
        }
        let sq: i128 = self.sqr_magnitude();
        let scaled: u128 = (sq as u128) * 1000000;
        let m: u128 = isqrt_u128(scaled);
        if m == 0 {
            Coord { x: 0, y: 0 }
        } else {
            proof {
                assert(m <= 0x40_0000_0000_0000) by (nonlinear_arith)
                    requires
                        m >= 0,
                        m * m <= scaled,
                        scaled <= 0x800_0000_0000_0000_0000_0000_0000;
                lemma_scaled_root_dominates(self.x as int, self.y as int, m as int);
                lemma_div_trunc_scale_bound(self.x as int * 1000, m as int);
                lemma_div_trunc_scale_bound(self.y as int * 1000, m as int);
                assert(self.x * 1000 * 1000 == self.x * 1000000 && self.y * 1000 * 1000 == self.y
                    * 1000000) by (nonlinear_arith);
                lemma_coord_prod_bound(self.x as int, 1000000);
                lemma_coord_prod_bound(self.y as int, 1000000);
            }
            let x = div_trunc_i128((self.x as i128) * 1000000, m as i128);
            let y = div_trunc_i128((self.y as i128) * 1000000, m as i128);
            Coord { x: x as i64, y: y as i64 }
        }
    }

    /// Scale a short vector (such as a normalized direction) by a milli-unit
    /// factor: the true product divided by one thousand, rounded towards
    /// zero.
    pub fn scaled(self, factor: i64) -> (r: Coord)
        requires
            coord_bounded(self.x as int, self.y as int, 2 * MILLI as int),
            -8 * COORD_LIMIT as int <= factor <= 8 * COORD_LIMIT as int,
        ensures
            r == self.spec_scaled(factor as int),
            r.x as int == div_trunc(self.x * factor, MILLI as int),
            r.y as int == div_trunc(self.y * factor, MILLI as int),
            coord_bounded(r.x as int, r.y as int, 16 * COORD_LIMIT as int),
    {
        proof {
            lemma_short_prod_div_bound(self.x as int, factor as int);
            lemma_short_prod_div_bound(self.y as int, factor as int);
        }
        let x = div_trunc_i128((self.x as i128) * (factor as i128), MILLI as i128);
        let y = div_trunc_i128((self.y as i128) * (factor as i128), MILLI as i128);
        Coord { x: x as i64, y: y as i64 }
    }

    /// Ghost mirror of [`Coord::scaled`].
    pub open spec fn spec_scaled(self, factor: int) -> Coord {
        Coord {
            x: div_trunc(self.x * factor, MILLI as int) as i64,
            y: div_trunc(self.y * factor, MILLI as int) as i64,
        }
    }
}

/// The floor square root of the million-scaled squared magnitude is at least
/// a thousand times each component's magnitude.
proof fn lemma_scaled_root_dominates(x: int, y: int, m: int)
    requires
        crate::scalar::is_sqrt_of((x * x + y * y) * 1000000, m),
    ensures
        m >= x * 1000,
        m >= -(x * 1000),
        m >= y * 1000,
        m >= -(y * 1000),
{
    assert((x * 1000) * (x * 1000) <= (x * x + y * y) * 1000000 && (y * 1000) * (y * 1000) <= (x
        * x + y * y) * 1000000) by (nonlinear_arith);
    if m < x * 1000 {
        assert((m + 1) * (m + 1) <= (x * 1000) * (x * 1000)) by (nonlinear_arith)
            requires 0 <= m, m < x * 1000;
    }
    if m < -(x * 1000) {
        assert((m + 1) * (m + 1) <= (x * 1000) * (x * 1000)) by (nonlinear_arith)
            requires 0 <= m, m < -(x * 1000);
    }
    if m < y * 1000 {
        assert((m + 1) * (m + 1) <= (y * 1000) * (y * 1000)) by (nonlinear_arith)
            requires 0 <= m, m < y * 1000;
    }
    if m < -(y * 1000) {
        assert((m + 1) * (m + 1) <= (y * 1000) * (y * 1000)) by (nonlinear_arith)
            requires 0 <= m, m < -(y * 1000);
    }
}

/// Dividing `x * 1000` by anything at least `|x|` stays within 1000.
proof fn lemma_div_trunc_scale_bound(x: int, m: int)
    requires
        m >= x,
        m >= -x,
        m > 0,
    ensures
        -1000 <= div_trunc(x * 1000, m) <= 1000,
{
    if x >= 0 {
        assert(x * 1000 <= m * 1000) by (nonlinear_arith)
            requires x <= m;
        assert(x * 1000 / m <= m * 1000 / m) by (nonlinear_arith)
            requires m > 0, x * 1000 <= m * 1000;
        assert(m * 1000 / m == 1000) by (nonlinear_arith)
            requires m > 0;
        assert(x * 1000 / m >= 0) by (nonlinear_arith)
            requires m > 0, x >= 0;
    } else {
        let y = -x;
        assert(y * 1000 <= m * 1000) by (nonlinear_arith)
            requires y <= m;
        assert(y * 1000 / m <= m * 1000 / m) by (nonlinear_arith)
            requires m > 0, y * 1000 <= m * 1000;
        assert(m * 1000 / m == 1000) by (nonlinear_arith)
            requires m > 0;
        assert(y * 1000 / m >= 0) by (nonlinear_arith)
            requires m > 0, y >= 0;
        assert(-(x * 1000) == y * 1000) by (nonlinear_arith)
            requires y == -x;
    }
}

/// Product of two in-range coordinate components stays far within `i128`.
proof fn lemma_coord_prod_bound(a: int, c: int)
    requires
        -8 * COORD_LIMIT as int <= a <= 8 * COORD_LIMIT as int,
        -8 * COORD_LIMIT as int <= c <= 8 * COORD_LIMIT as int,
    ensures
        -0x40_0000_0000_0000_0000_0000 <= a * c <= 0x40_0000_0000_0000_0000_0000,
{
    let b = 8 * COORD_LIMIT as int;
    assert(-(b * b) <= a * c <= b * b) by (nonlinear_arith)
        requires -b <= a <= b, -b <= c <= b, b >= 0;
    assert(b * b == 0x40_0000_0000_0000_0000_0000) by (nonlinear_arith)
        requires b == 8 * COORD_LIMIT as int, COORD_LIMIT == 0x100_0000_0000;
}

/// A product of a short component (within two whole units) and a factor
/// within the working range, divided back by one thousand, stays within
/// sixteen times the coordinate limit.
proof fn lemma_short_prod_div_bound(a: int, factor: int)
    requires
        -2 * MILLI as int <= a <= 2 * MILLI as int,
        -8 * COORD_LIMIT as int <= factor <= 8 * COORD_LIMIT as int,
    ensures
        -16000 * COORD_LIMIT as int <= a * factor <= 16000 * COORD_LIMIT as int,
        -16 * COORD_LIMIT as int <= div_trunc(a * factor, MILLI as int) <= 16 * COORD_LIMIT as int,
{
    let p = a * factor;
    let bp = 16000 * COORD_LIMIT as int;
    assert(-bp <= p <= bp) by (nonlinear_arith)
        requires
            p == a * factor,
            -2000 <= a <= 2000,
            -8 * COORD_LIMIT as int <= factor <= 8 * COORD_LIMIT as int,
            bp == 16000 * COORD_LIMIT as int,
            COORD_LIMIT == 0x100_0000_0000;
    if p >= 0 {
        assert(p / 1000 <= bp / 1000) by (nonlinear_arith)
            requires 0 <= p <= bp;
        assert(bp / 1000 == 16 * COORD_LIMIT as int) by (nonlinear_arith)
            requires bp == 16000 * COORD_LIMIT as int, COORD_LIMIT == 0x100_0000_0000;
        assert(p / 1000 >= 0) by (nonlinear_arith)
            requires p >= 0;
    } else {
        assert((-p) / 1000 <= bp / 1000) by (nonlinear_arith)
            requires 0 <= -p <= bp;
        assert(bp / 1000 == 16 * COORD_LIMIT as int) by (nonlinear_arith)
            requires bp == 16000 * COORD_LIMIT as int, COORD_LIMIT == 0x100_0000_0000;
        assert((-p) / 1000 >= 0) by (nonlinear_arith)
            requires p < 0;
    }
}

} // verus!
