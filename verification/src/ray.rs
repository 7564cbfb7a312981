//! Rays: an origin, a direction and a time tag for motion blur.

use vstd::prelude::*;
use crate::fx::{fx_mul, fx_mul_spec, lemma_div_scale_range, lemma_mul_abs_bound};
use crate::vec3::Vec3;

verus! {

/// Componentwise bound on ray origins and sphere centres (2048 units).
pub const POS_BOUND: i64 = 0x800_0000;

/// Componentwise bound on ray directions (512 units).
pub const DIR_BOUND: i64 = 0x200_0000;

/// Upper cap on the ray parameter `t` (65536 units).
pub const T_CAP: i64 = 0x1_0000_0000;

pub struct Ray {
    pub orig: Vec3,
    pub dir: Vec3,
    pub tm: i64,
}

impl Ray {
    /// The bounds under which every intersection computation on this ray
    /// stays inside the fixed-point arithmetic.
    pub open spec fn wf(self) -> bool {
        &&& self.orig.bounded(POS_BOUND as int)
        &&& self.dir.bounded(DIR_BOUND as int)
        &&& -T_CAP <= self.tm <= T_CAP
    }

    /// The point `orig + t * dir`, componentwise in fixed-point form.
    pub open spec fn at_spec(self, t: int) -> Vec3 {
        Vec3 {
            x: (self.orig.x + fx_mul_spec(t, self.dir.x as int)) as i64,
            y: (self.orig.y + fx_mul_spec(t, self.dir.y as int)) as i64,
            z: (self.orig.z + fx_mul_spec(t, self.dir.z as int)) as i64,
        }
    }

    pub fn new(origin: Vec3, direction: Vec3, time: i64) -> (r: Ray)
        ensures
            r.orig == origin,
            r.dir == direction,
            r.tm == time,
    {
        Ray { orig: origin, dir: direction, tm: time }
    }

    pub fn origin(&self) -> (r: Vec3)
        ensures
            r == self.orig,
    {
        self.orig
    }

    pub fn direction(&self) -> (r: Vec3)
        ensures
            r == self.dir,
    {
        self.dir
    }

    pub fn time(&self) -> (r: i64)
        ensures
            r == self.tm,
    {
        self.tm
    }

    /// Evaluates the ray at parameter `t`; the cap on `t` and the
    /// well-formedness bounds keep every product in range.
    pub fn at(&self, t: i64) -> (r: Vec3)
        requires
            self.wf(),
            -T_CAP <= t <= T_CAP,
        ensures
            r == self.at_spec(t as int),
            r.x == self.orig.x + fx_mul_spec(t as int, self.dir.x as int),
            r.y == self.orig.y + fx_mul_spec(t as int, self.dir.y as int),
            r.z == self.orig.z + fx_mul_spec(t as int, self.dir.z as int),
            r.bounded(0x400_0000_0000),
    {
        proof {
            lemma_mul_abs_bound(t as int, self.dir.x as int, T_CAP as int, DIR_BOUND as int);
            lemma_mul_abs_bound(t as int, self.dir.y as int, T_CAP as int, DIR_BOUND as int);
            lemma_mul_abs_bound(t as int, self.dir.z as int, T_CAP as int, DIR_BOUND as int);
            lemma_div_scale_range(t * self.dir.x);
            lemma_div_scale_range(t * self.dir.y);
            lemma_div_scale_range(t * self.dir.z);
        }
        Vec3 {
            x: self.orig.x + fx_mul(t, self.dir.x),
            y: self.orig.y + fx_mul(t, self.dir.y),
            z: self.orig.z + fx_mul(t, self.dir.z),
        }
    }
}

} // verus!
