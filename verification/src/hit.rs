//! The record an intersection query hands back, with its normal always
//! oriented against the incoming ray.

use vstd::prelude::*;
use crate::mat::Material;
use crate::ray::{Ray, T_CAP};
use crate::sphere::{lemma_surface_hit_shrink, Surface};
use crate::vec3::{dot_wide, Vec3};
use crate::fx::SCALE;

verus! {

pub struct HitRecord {
    pub p: Vec3,
    pub normal: Vec3,
    pub mat: Material,
    pub t: i64,
    pub front_face: bool,
}

impl HitRecord {
    /// Stores `outward_normal` oriented against the ray: `front_face` is
    /// true exactly when the ray direction and the outward normal point
    /// into each other, and the stored normal flips sign otherwise.
    pub fn set_face_normal(&mut self, r: &Ray, outward_normal: Vec3)
        requires
            r.dir.bounded(0x200_0000),
            outward_normal.bounded(0x4_0000),
        ensures
            final(self).front_face == (dot_wide(r.dir, outward_normal) < 0),
            final(self).normal == if dot_wide(r.dir, outward_normal) < 0 {
                outward_normal
            } else {
                (Vec3 {
                    x: -outward_normal.x as i64,
                    y: -outward_normal.y as i64,
                    z: -outward_normal.z as i64,
                })
            },
            final(self).p == old(self).p,
            final(self).t == old(self).t,
            final(self).mat == old(self).mat,
    {
        let d = r.direction().dot(outward_normal);
        proof {
            crate::vec3::lemma_dot_wide_bound(r.dir, outward_normal, 0x200_0000);
            crate::fx::lemma_div_scale_range(dot_wide(r.dir, outward_normal));
        }
        self.front_face = d < 0;
        self.normal = if self.front_face {
            outward_normal
        } else {
            outward_normal.neg()
        };
    }
}

/// An ordered collection of surfaces; its intersection is the nearest hit
/// over all of them.
pub struct World {
    pub surfaces: Vec<Surface>,
}

/// Every surface of the world misses the ray over `[t_min, t_max]`.
pub open spec fn all_miss(world: World, r: Ray, t_min: int, t_max: int) -> bool {
    forall|i: int|
        0 <= i < world.surfaces@.len() ==> (#[trigger] world.surfaces@[i]).hit_spec(
            r, t_min, t_max) is None
}

/// `rec` is the nearest hit of the world over `[t_min, t_max]`: it is
/// some surface's hit over the full interval, and no surface hits at a
/// smaller parameter.
pub open spec fn is_nearest_hit(world: World, r: Ray, t_min: int, t_max: int, rec: HitRecord)
    -> bool {
    &&& exists|i: int|
        0 <= i < world.surfaces@.len() && (#[trigger] world.surfaces@[i]).hit_spec(
            r, t_min, t_max) == Some(rec)
    &&& forall|i: int|
        0 <= i < world.surfaces@.len() ==> match (#[trigger] world.surfaces@[i]).hit_spec(
            r, t_min, t_max) {
            Some(h) => rec.t <= h.t,
            None => true,
        }
}

impl World {
    pub open spec fn wf(self) -> bool {
        forall|i: int| 0 <= i < self.surfaces@.len() ==> (#[trigger] self.surfaces@[i]).wf()
    }

    /// The ray's time tag suits every surface of the world.
    pub open spec fn time_ok(self, r: Ray) -> bool {
        forall|i: int| 0 <= i < self.surfaces@.len() ==> (#[trigger] self.surfaces@[i]).time_ok(
            r)
    }

    /// Every surface's motion interval covers `[t0, t1]`, so any ray
    /// whose time lies there suits the whole world.
    pub open spec fn time_window_ok(self, t0: int, t1: int) -> bool {
        forall|i: int| 0 <= i < self.surfaces@.len() ==> (#[trigger] self.surfaces@[i]).time_window_ok(
            t0, t1)
    }

    pub fn new() -> (w: World)
        ensures
            w.surfaces@.len() == 0,
    {
        World { surfaces: Vec::new() }
    }

    pub fn push(&mut self, s: Surface)
        ensures
            final(self).surfaces@ == old(self).surfaces@.push(s),
    {
        self.surfaces.push(s);
    }

    pub fn len(&self) -> (n: usize)
        ensures
            n == self.surfaces@.len(),
    {
        self.surfaces.len()
    }

    /// The nearest intersection in `[t_min, t_max]` over all surfaces:
    /// the result is some surface's hit over the full interval, no
    /// surface hits nearer, and a miss means every surface misses.
    pub fn hit(&self, r: &Ray, t_min: i64, t_max: i64) -> (res: Option<HitRecord>)
        requires
            self.wf(),
            r.wf(),
            self.time_ok(*r),
            dot_wide(r.dir, r.dir) >= SCALE as int,
            0 <= t_min <= t_max <= T_CAP,
        ensures
            match res {
                Some(rec) => {
                    &&& is_nearest_hit(*self, *r, t_min as int, t_max as int, rec)
                    &&& t_min <= rec.t <= t_max
                    &&& rec.normal.bounded(131073)
                    &&& rec.mat.wf()
                },
                None => all_miss(*self, *r, t_min as int, t_max as int),
            },
    {
        let mut tmp_rec: Option<HitRecord> = None;
        let mut closest: i64 = t_max;
        let mut k: usize = 0;
        while k < self.surfaces.len()
            invariant
                0 <= k <= self.surfaces@.len(),
                self.wf(),
                r.wf(),
                self.time_ok(*r),
                dot_wide(r.dir, r.dir) >= SCALE as int,
                0 <= t_min <= t_max <= T_CAP,
                t_min <= closest <= t_max,
                match tmp_rec {
                    Some(h) => {
                        &&& closest == h.t
                        &&& exists|i: int| 0 <= i < k && (#[trigger] self.surfaces@[i]).hit_spec(
                            *r, t_min as int, t_max as int) == Some(h)
                    },
                    None => closest == t_max,
                },
                forall|i: int| 0 <= i < k ==> match (#[trigger] self.surfaces@[i]).hit_spec(*r,
                    t_min as int, t_max as int) {
                    Some(h) => closest <= h.t && tmp_rec is Some,
                    None => true,
                },
                tmp_rec is None ==> forall|i: int| 0 <= i < k ==> (
                #[trigger] self.surfaces@[i]).hit_spec(*r, t_min as int, t_max as int) is None,
            decreases self.surfaces@.len() - k,
        {
            let s = self.surfaces[k];
            let res_k = s.hit(r, t_min, closest);
            proof {
                lemma_surface_hit_shrink(s, *r, t_min as int, t_max as int, closest as int);
            }
            match res_k {
                Some(rec) => {
                    closest = rec.t;
                    tmp_rec = Some(rec);
                },
                None => {},
            }
            k = k + 1;
        }
        proof {
            if tmp_rec is Some {
                let h = tmp_rec->Some_0;
                let i = choose|i: int|
                    0 <= i < self.surfaces@.len() && (#[trigger] self.surfaces@[i]).hit_spec(
                        *r, t_min as int, t_max as int) == Some(h);
                crate::sphere::lemma_surface_hit_bounds(self.surfaces@[i], *r, t_min as int,
                    t_max as int);
            }
        }
        tmp_rec
    }
}

} // verus!
