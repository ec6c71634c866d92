//! The source of randomness: a small, seedable generator behind exact
//! range contracts.
//!
//! Everything the renderer consumes from it is an integer in a caller-given
//! range, so all logic downstream of a draw is verified for every value the
//! generator could produce.

use vstd::prelude::*;

use crate::fixed::FP_ONE;
use crate::vec3::{sv_bounded, Vec3};

verus! {

#[verifier::external_type_specification]
#[verifier::external_body]
pub struct ExSmallRng(rand::rngs::SmallRng);

/// A per-worker random source; never shared between threads.
pub struct RngSource {
    pub inner: rand::rngs::SmallRng,
}

impl RngSource {
    /// Relies on `SeedableRng::seed_from_u64` of `rand::rngs::SmallRng`: a
    /// deterministic generator from a seed.
    #[verifier::external_body]
    pub fn from_seed(seed: u64) -> (r: RngSource) {
        RngSource { inner: <rand::rngs::SmallRng as rand::SeedableRng>::seed_from_u64(seed) }
    }

    /// Relies on `rand::Rng::gen_range` over a nonempty inclusive range: the
    /// draw lies within it.
    #[verifier::external_body]
    pub fn gen_range_i64(&mut self, lo: i64, hi: i64) -> (r: i64)
        requires
            lo <= hi,
        ensures
            lo <= r <= hi,
    {
        rand::Rng::gen_range(&mut self.inner, lo..=hi)
    }

    /// A fixed-point scalar in `[0, 1)`.
    pub fn unit_scalar(&mut self) -> (r: i64)
        ensures
            0 <= r < FP_ONE,
    {
        self.gen_range_i64(0, FP_ONE - 1)
    }

    /// A vector drawn uniformly from the cube `[-1, 1]^3`, redrawn a bounded
    /// number of times until it falls inside the unit ball; the final draw
    /// falls back to the cube sample itself so the loop always terminates.
    pub fn in_unit_sphere(&mut self) -> (r: Vec3)
        ensures
            sv_bounded(r@, FP_ONE as int),
    {
        let mut tries: usize = 0;
        loop
            invariant
                tries <= 32,
            decreases 32 - tries,
        {
            let v = Vec3::new(
                self.gen_range_i64(-FP_ONE, FP_ONE),
                self.gen_range_i64(-FP_ONE, FP_ONE),
                self.gen_range_i64(-FP_ONE, FP_ONE),
            );
            if v.length_squared() <= FP_ONE {
                return v;
            }
            if tries >= 32 {
                return v;
            }
            tries = tries + 1;
        }
    }

    /// A point drawn from the lens disk of the given radius: redrawn a
    /// bounded number of times until it falls inside the disk, with the
    /// final draw clamped to the axes' range either way.
    pub fn in_unit_disk(&mut self, radius: i64) -> (r: (i64, i64))
        requires
            0 <= radius <= FP_ONE as int,
        ensures
            -radius <= r.0 <= radius,
            -radius <= r.1 <= radius,
    {
        let mut tries: usize = 0;
        loop
            invariant
                tries <= 32,
                0 <= radius <= FP_ONE as int,
            decreases 32 - tries,
        {
            let x = self.gen_range_i64(-radius, radius);
            let y = self.gen_range_i64(-radius, radius);
            proof {
                crate::vec3::mul_bound(x as int, x as int, 65536, 65536);
                crate::vec3::mul_bound(y as int, y as int, 65536, 65536);
                crate::vec3::mul_bound(radius as int, radius as int, 65536, 65536);
            }
            if x * x + y * y <= radius * radius {
                return (x, y);
            }
            if tries >= 32 {
                return (x, y);
            }
            tries = tries + 1;
        }
    }

    /// A near-unit direction: the unit vector of a ball sample, or an axis
    /// direction when the sample degenerates to zero.
    pub fn unit_vector(&mut self) -> (r: Vec3)
        ensures
            sv_bounded(r@, FP_ONE as int),
            r@ != crate::vec3::sv_zero(),
    {
        let v = self.in_unit_sphere();
        if v.near_zero() {
            Vec3::new(FP_ONE, 0, 0)
        } else {
            v.unit()
        }
    }
}

} // verus!
