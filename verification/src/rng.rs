//! Randomness for sampling: the `rand` crate behind a trusted wrapper,
//! and the rejection samplers the tracer builds on it.
//!
//! Every contract here states only what holds of every possible draw;
//! nothing about any particular value is assumed.

use vstd::prelude::*;
use crate::fx::SCALE;
use crate::vec3::{dot_wide, Vec3};

verus! {

/// Declares `rand`'s standard generator so that it can appear in the
/// signatures of the sampling functions; its state stays opaque here.
#[verifier::external_type_specification]
#[verifier::external_body]
pub struct ExStdRng(rand::rngs::StdRng);

/// Relies on `rand::Rng::gen_range` over `lo..hi`: returns a value drawn
/// from `[lo, hi)`, and panics only on an empty range, which the
/// precondition rules out.
#[verifier::external_body]
fn rand_range(rng: &mut rand::rngs::StdRng, lo: i64, hi: i64) -> (r: i64)
    requires
        lo < hi,
    ensures
        lo <= r < hi,
{
    rand::Rng::gen_range(rng, lo..hi)
}

/// A scalar drawn from `[lo, hi)`.
pub fn random_scalar(rng: &mut rand::rngs::StdRng, lo: i64, hi: i64) -> (r: i64)
    requires
        lo < hi,
    ensures
        lo <= r < hi,
{
    rand_range(rng, lo, hi)
}

/// A scalar drawn from `[0, 1)`, for probabilistic branch decisions.
pub fn random_unit_scalar(rng: &mut rand::rngs::StdRng) -> (r: i64)
    ensures
        0 <= r < SCALE,
{
    rand_range(rng, 0, SCALE)
}

impl Vec3 {
    /// A vector whose components are drawn independently from `[lo, hi)`.
    pub fn random(rng: &mut rand::rngs::StdRng, lo: i64, hi: i64) -> (r: Vec3)
        requires
            lo < hi,
        ensures
            lo <= r.x < hi,
            lo <= r.y < hi,
            lo <= r.z < hi,
    {
        let x = rand_range(rng, lo, hi);
        let y = rand_range(rng, lo, hi);
        let z = rand_range(rng, lo, hi);
        Vec3 { x, y, z }
    }

    /// A point inside the open unit ball, found by rejection sampling
    /// over the enclosing cube; after a bounded number of rejections the
    /// centre itself is returned, which is inside every ball.
    pub fn random_in_unit_sphere(rng: &mut rand::rngs::StdRng) -> (r: Vec3)
        ensures
            dot_wide(r, r) < (SCALE as int) * (SCALE as int),
            r.bounded(SCALE as int),
    {
        let mut tries: u32 = 64;
        while tries > 0
            decreases tries,
        {
            let v = Vec3::random(rng, -SCALE, SCALE);
            proof {
                crate::vec3::lemma_dot_wide_bound(v, v, SCALE as int);
            }
            let w: i128 = (v.x as i128) * (v.x as i128) + (v.y as i128) * (v.y as i128)
                + (v.z as i128) * (v.z as i128);
            if w < (SCALE as i128) * (SCALE as i128) {
                return v;
            }
            tries = tries - 1;
        }
        Vec3 { x: 0, y: 0, z: 0 }
    }

    /// A unit-ball sample flipped, if needed, to the side of `normal`:
    /// its unscaled dot product with `normal` is never negative.
    pub fn random_in_hemisphere(rng: &mut rand::rngs::StdRng, normal: Vec3) -> (r: Vec3)
        requires
            normal.bounded(0x4_0000),
        ensures
            dot_wide(r, r) < (SCALE as int) * (SCALE as int),
            r.bounded(SCALE as int),
            dot_wide(r, normal) >= 0,
    {
        let in_unit_sphere = Vec3::random_in_unit_sphere(rng);
        proof {
            crate::vec3::lemma_dot_wide_bound2(in_unit_sphere, normal, SCALE as int, 0x4_0000);
        }
        let d: i128 = (in_unit_sphere.x as i128) * (normal.x as i128) + (in_unit_sphere.y
            as i128) * (normal.y as i128) + (in_unit_sphere.z as i128) * (normal.z as i128);
        if d > 0 {
            in_unit_sphere
        } else {
            proof {
                let flipped = Vec3 {
                    x: -in_unit_sphere.x as i64,
                    y: -in_unit_sphere.y as i64,
                    z: -in_unit_sphere.z as i64,
                };
                assert(dot_wide(flipped, flipped) == dot_wide(in_unit_sphere, in_unit_sphere)
                    && dot_wide(flipped, normal) == -dot_wide(in_unit_sphere, normal))
                    by (nonlinear_arith)
                    requires
                        flipped.x == -in_unit_sphere.x,
                        flipped.y == -in_unit_sphere.y,
                        flipped.z == -in_unit_sphere.z,
                        dot_wide(flipped, flipped) == flipped.x * flipped.x + flipped.y
                            * flipped.y + flipped.z * flipped.z,
                        dot_wide(in_unit_sphere, in_unit_sphere) == in_unit_sphere.x
                            * in_unit_sphere.x + in_unit_sphere.y * in_unit_sphere.y
                            + in_unit_sphere.z * in_unit_sphere.z,
                        dot_wide(flipped, normal) == flipped.x * normal.x + flipped.y * normal.y
                            + flipped.z * normal.z,
                        dot_wide(in_unit_sphere, normal) == in_unit_sphere.x * normal.x
                            + in_unit_sphere.y * normal.y + in_unit_sphere.z * normal.z,
                ;
            }
            in_unit_sphere.neg()
        }
    }

    /// A point inside the unit disk in the plane `z = 0`, by the same
    /// bounded rejection sampling as the ball.
    pub fn random_in_unit_disk(rng: &mut rand::rngs::StdRng) -> (r: Vec3)
        ensures
            dot_wide(r, r) < (SCALE as int) * (SCALE as int),
            r.bounded(SCALE as int),
            r.z == 0,
    {
        let mut tries: u32 = 64;
        while tries > 0
            decreases tries,
        {
            let x = rand_range(rng, -SCALE, SCALE);
            let y = rand_range(rng, -SCALE, SCALE);
            proof {
                crate::fx::lemma_mul_abs_bound(x as int, x as int, SCALE as int, SCALE as int);
                crate::fx::lemma_mul_abs_bound(y as int, y as int, SCALE as int, SCALE as int);
            }
            let w: i128 = (x as i128) * (x as i128) + (y as i128) * (y as i128);
            if w < (SCALE as i128) * (SCALE as i128) {
                return Vec3 { x, y, z: 0 };
            }
            tries = tries - 1;
        }
        Vec3 { x: 0, y: 0, z: 0 }
    }
}

} // verus!
