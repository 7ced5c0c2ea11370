//! Three-component fixed-point vectors.
//!
//! `Vec3` carries a position, velocity or acceleration in milliunits.
//! Its mathematical counterpart `V3` has unbounded integer components;
//! all vector arithmetic is specified over `V3` so contracts never
//! depend on machine widths.

use vstd::prelude::*;
use crate::fixed::{tdiv, sqrt_floor, is_sqrt_floor, lemma_sqrt_floor_exists,
    lemma_sqrt_floor_unique, lemma_sqrt_floor_monotone, lemma_sqrt_floor_square,
    lemma_tdiv_bounded, isqrt};

verus! {

/// Mathematical three-vector over the integers.
pub ghost struct V3 {
    pub x: int,
    pub y: int,
    pub z: int,
}

impl V3 {
    pub open spec fn zero() -> V3 {
        V3 { x: 0, y: 0, z: 0 }
    }

    pub open spec fn add(self, o: V3) -> V3 {
        V3 { x: self.x + o.x, y: self.y + o.y, z: self.z + o.z }
    }

    pub open spec fn sub(self, o: V3) -> V3 {
        V3 { x: self.x - o.x, y: self.y - o.y, z: self.z - o.z }
    }

    pub open spec fn scale(self, k: int) -> V3 {
        V3 { x: self.x * k, y: self.y * k, z: self.z * k }
    }

    /// Componentwise truncating division by a positive `k`.
    pub open spec fn tdiv_by(self, k: int) -> V3 {
        V3 { x: tdiv(self.x, k), y: tdiv(self.y, k), z: tdiv(self.z, k) }
    }

    /// Every component lies in `[-b, b]`.
    pub open spec fn within(self, b: int) -> bool {
        &&& -b <= self.x <= b
        &&& -b <= self.y <= b
        &&& -b <= self.z <= b
    }

    /// Squared Euclidean distance to `o`.
    pub open spec fn dist_sq(self, o: V3) -> int {
        let dx = self.x - o.x;
        let dy = self.y - o.y;
        let dz = self.z - o.z;
        dx * dx + dy * dy + dz * dz
    }

    /// Euclidean distance to `o`, rounded down.
    pub open spec fn dist(self, o: V3) -> int {
        sqrt_floor(self.dist_sq(o))
    }
}

impl V3 {
    /// Magnitude, rounded down.
    pub open spec fn mag(self) -> int {
        sqrt_floor(self.x * self.x + self.y * self.y + self.z * self.z)
    }

    /// Componentwise clamp into `[lo, hi]`.
    pub open spec fn clamp_each(self, lo: int, hi: int) -> V3 {
        V3 {
            x: crate::fixed::spec_clamp(self.x, lo, hi),
            y: crate::fixed::spec_clamp(self.y, lo, hi),
            z: crate::fixed::spec_clamp(self.z, lo, hi),
        }
    }

    /// The vector scaled down onto the ball of radius `m` when its
    /// magnitude exceeds `m`; unchanged otherwise.
    pub open spec fn clamp_mag(self, m: int) -> V3 {
        let d = self.mag();
        if d <= m {
            self
        } else {
            V3 { x: tdiv(self.x * m, d), y: tdiv(self.y * m, d), z: tdiv(self.z * m, d) }
        }
    }
}

/// Each component's magnitude is at most the vector's magnitude.
pub proof fn lemma_mag_dominates(v: V3)
    requires
        v.within(0x2000_0000),
    ensures
        v.mag() >= 0,
        -v.mag() <= v.x <= v.mag(),
        -v.mag() <= v.y <= v.mag(),
        -v.mag() <= v.z <= v.mag(),
{
    let sq = v.x * v.x + v.y * v.y + v.z * v.z;
    assert(v.x * v.x >= 0 && v.y * v.y >= 0 && v.z * v.z >= 0) by (nonlinear_arith);
    lemma_sqrt_floor_monotone(v.x * v.x, sq);
    lemma_sqrt_floor_monotone(v.y * v.y, sq);
    lemma_sqrt_floor_monotone(v.z * v.z, sq);
    if v.x >= 0 {
        lemma_sqrt_floor_square(v.x);
    } else {
        lemma_sqrt_floor_square(-v.x);
        assert((-v.x) * (-v.x) == v.x * v.x) by (nonlinear_arith);
    }
    if v.y >= 0 {
        lemma_sqrt_floor_square(v.y);
    } else {
        lemma_sqrt_floor_square(-v.y);
        assert((-v.y) * (-v.y) == v.y * v.y) by (nonlinear_arith);
    }
    if v.z >= 0 {
        lemma_sqrt_floor_square(v.z);
    } else {
        lemma_sqrt_floor_square(-v.z);
        assert((-v.z) * (-v.z) == v.z * v.z) by (nonlinear_arith);
    }
    lemma_sqrt_floor_exists(sq);
}

/// A magnitude-clamped vector stays within `m` on every component.
pub proof fn lemma_clamp_mag_within(v: V3, m: int)
    requires
        m > 0,
        v.within(0x2000_0000),
    ensures
        v.clamp_mag(m).within(m),
{
    lemma_mag_dominates(v);
    let d = v.mag();
    if d <= m {
    } else {
        assert(-(m * d) <= v.x * m <= m * d) by (nonlinear_arith)
            requires m > 0, d > 0, -d <= v.x <= d;
        assert(-(m * d) <= v.y * m <= m * d) by (nonlinear_arith)
            requires m > 0, d > 0, -d <= v.y <= d;
        assert(-(m * d) <= v.z * m <= m * d) by (nonlinear_arith)
            requires m > 0, d > 0, -d <= v.z <= d;
        lemma_tdiv_bounded(v.x * m, d, m);
        lemma_tdiv_bounded(v.y * m, d, m);
        lemma_tdiv_bounded(v.z * m, d, m);
    }
}

/// A fixed-point three-vector in milliunits.
#[derive(Clone, Copy, Debug, PartialEq, Eq, Structural)]
pub struct Vec3 {
    pub x: i64,
    pub y: i64,
    pub z: i64,
}

impl View for Vec3 {
    type V = V3;

    open spec fn view(&self) -> V3 {
        V3 { x: self.x as int, y: self.y as int, z: self.z as int }
    }
}

impl Vec3 {
    pub fn new(x: i64, y: i64, z: i64) -> (r: Vec3)
        ensures
            r@ == (V3 { x: x as int, y: y as int, z: z as int }),
    {
        Vec3 { x, y, z }
    }

    pub fn zero() -> (r: Vec3)
        ensures
            r@ == V3::zero(),
    {
        Vec3 { x: 0, y: 0, z: 0 }
    }

    pub fn add(self, o: Vec3) -> (r: Vec3)
        requires
            i64::MIN <= self@.x + o@.x <= i64::MAX,
            i64::MIN <= self@.y + o@.y <= i64::MAX,
            i64::MIN <= self@.z + o@.z <= i64::MAX,
        ensures
            r@ == self@.add(o@),
    {
        Vec3 { x: self.x + o.x, y: self.y + o.y, z: self.z + o.z }
    }

    pub fn sub(self, o: Vec3) -> (r: Vec3)
        requires
            i64::MIN <= self@.x - o@.x <= i64::MAX,
            i64::MIN <= self@.y - o@.y <= i64::MAX,
            i64::MIN <= self@.z - o@.z <= i64::MAX,
        ensures
            r@ == self@.sub(o@),
    {
        Vec3 { x: self.x - o.x, y: self.y - o.y, z: self.z - o.z }
    }

    pub fn scale(self, k: i64) -> (r: Vec3)
        requires
            i64::MIN <= self@.x * k <= i64::MAX,
            i64::MIN <= self@.y * k <= i64::MAX,
            i64::MIN <= self@.z * k <= i64::MAX,
        ensures
            r@ == self@.scale(k as int),
    {
        Vec3 { x: self.x * k, y: self.y * k, z: self.z * k }
    }

    /// Componentwise truncating division by a positive `k`.
    pub fn div_by(self, k: i64) -> (r: Vec3)
        requires
            k > 0,
            self@.within(i64::MAX as int),
        ensures
            r@ == self@.tdiv_by(k as int),
    {
        Vec3 { x: self.x / k, y: self.y / k, z: self.z / k }
    }

    /// Componentwise clamp into `[lo, hi]`.
    pub fn clamp_each(self, lo: i64, hi: i64) -> (r: Vec3)
        requires
            lo <= hi,
        ensures
            r@ == self@.clamp_each(lo as int, hi as int),
            r@.within(if -lo > hi { -lo as int } else { hi as int }),
    {
        Vec3 {
            x: crate::fixed::clamp_i64(self.x, lo, hi),
            y: crate::fixed::clamp_i64(self.y, lo, hi),
            z: crate::fixed::clamp_i64(self.z, lo, hi),
        }
    }

    /// Clamp the vector's magnitude to at most `m` by scaling it down;
    /// a vector already within `m` is returned unchanged.
    pub fn clamp_mag(self, m: i64) -> (r: Vec3)
        requires
            0 < m <= 0x2000_0000,
            self@.within(0x2000_0000),
        ensures
            r@ == self@.clamp_mag(m as int),
            r@.within(m as int) || self@.mag() <= m && r == self,
    {
        proof {
            lemma_mag_dominates(self@);
            lemma_clamp_mag_within(self@, m as int);
        }
        let zero = Vec3 { x: 0, y: 0, z: 0 };
        let d = self.dist(zero);
        proof {
            assert(self@.dist_sq(zero@) == self@.x * self@.x + self@.y * self@.y + self@.z
                * self@.z);
        }
        if d <= m as u64 {
            self
        } else {
            proof {
                assert(d * d <= 3 * (0x2000_0000i64 * 0x2000_0000i64)) by (nonlinear_arith)
                    requires
                        is_sqrt_floor(self@.dist_sq(zero@), d as int),
                        self@.within(0x2000_0000),
                        zero@ == V3::zero(),
                ;
                assert(d <= 0x4000_0000) by (nonlinear_arith)
                    requires 0 <= d, d * d <= 3 * (0x2000_0000i64 * 0x2000_0000i64);
                assert(-(0x2000_0000i64 * 0x2000_0000i64) <= self.x * m <= 0x2000_0000i64
                    * 0x2000_0000i64) by (nonlinear_arith)
                    requires -0x2000_0000 <= self.x <= 0x2000_0000, 0 < m <= 0x2000_0000;
                assert(-(0x2000_0000i64 * 0x2000_0000i64) <= self.y * m <= 0x2000_0000i64
                    * 0x2000_0000i64) by (nonlinear_arith)
                    requires -0x2000_0000 <= self.y <= 0x2000_0000, 0 < m <= 0x2000_0000;
                assert(-(0x2000_0000i64 * 0x2000_0000i64) <= self.z * m <= 0x2000_0000i64
                    * 0x2000_0000i64) by (nonlinear_arith)
                    requires -0x2000_0000 <= self.z <= 0x2000_0000, 0 < m <= 0x2000_0000;
            }
            let di = d as i64;
            Vec3 { x: (self.x * m) / di, y: (self.y * m) / di, z: (self.z * m) / di }
        }
    }

    /// Squared Euclidean distance to `o`.  Components must be small
    /// enough that it fits in a machine word.
    pub fn dist_sq(self, o: Vec3) -> (r: u64)
        requires
            self@.within(0x2000_0000),
            o@.within(0x2000_0000),
        ensures
            r == self@.dist_sq(o@),
    {
        let dx = self.x - o.x;
        let dy = self.y - o.y;
        let dz = self.z - o.z;
        proof {
            assert(dx * dx <= 0x4000_0000i64 * 0x4000_0000i64 && dx * dx >= 0) by (nonlinear_arith)
                requires -0x4000_0000 <= dx <= 0x4000_0000;
            assert(dy * dy <= 0x4000_0000i64 * 0x4000_0000i64 && dy * dy >= 0) by (nonlinear_arith)
                requires -0x4000_0000 <= dy <= 0x4000_0000;
            assert(dz * dz <= 0x4000_0000i64 * 0x4000_0000i64 && dz * dz >= 0) by (nonlinear_arith)
                requires -0x4000_0000 <= dz <= 0x4000_0000;
        }
        let dsq: i64 = dx * dx + dy * dy + dz * dz;
        dsq as u64
    }

    /// Euclidean distance to `o`, rounded down.  Components must be
    /// small enough that the squared distance fits in a machine word.
    pub fn dist(self, o: Vec3) -> (r: u64)
        requires
            self@.within(0x2000_0000),
            o@.within(0x2000_0000),
        ensures
            r == self@.dist(o@),
            is_sqrt_floor(self@.dist_sq(o@), r as int),
    {
        let dx = self.x - o.x;
        let dy = self.y - o.y;
        let dz = self.z - o.z;
        proof {
            assert(dx * dx <= 0x4000_0000i64 * 0x4000_0000i64 && dx * dx >= 0) by (nonlinear_arith)
                requires -0x4000_0000 <= dx <= 0x4000_0000;
            assert(dy * dy <= 0x4000_0000i64 * 0x4000_0000i64 && dy * dy >= 0) by (nonlinear_arith)
                requires -0x4000_0000 <= dy <= 0x4000_0000;
            assert(dz * dz <= 0x4000_0000i64 * 0x4000_0000i64 && dz * dz >= 0) by (nonlinear_arith)
                requires -0x4000_0000 <= dz <= 0x4000_0000;
        }
        let dsq: i64 = dx * dx + dy * dy + dz * dz;
        isqrt(dsq as u64)
    }
}

} // verus!
