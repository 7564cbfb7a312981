//! The camera: an orthonormal basis derived from the look direction, a
//! focus-plane viewport, a lens disk for depth of field, and a shutter
//! interval for motion blur.
//!
//! The tangent of half the vertical field of view is taken as an input
//! (already in fixed-point form), since evaluating the tangent itself is
//! no part of the geometry here.

use vstd::prelude::*;
use crate::fx::{
    fx_mul, fx_mul_spec, lemma_div_scale_range, lemma_mul_abs_bound, SCALE,
};
use crate::ray::{Ray, T_CAP};
use crate::rng::random_scalar;
use crate::vec3::{cross_spec, dot_wide, unit_spec, Vec3};

verus! {

/// Bound on the camera position, leaving room for the lens offset under
/// the ray-origin bound.
pub const CAM_POS_BOUND: i64 = 0x7E0_0000;

pub struct Camera {
    pub origin: Vec3,
    pub lower_left_corner: Vec3,
    pub horizontal: Vec3,
    pub vertical: Vec3,
    pub cu: Vec3,
    pub cv: Vec3,
    pub lens_radius: i64,
    pub time0: i64,
    pub time1: i64,
}

/// The ray the camera casts for image-plane position `(s, t)`, given the
/// lens-disk sample and the shutter-time draw.
pub open spec fn get_ray_spec(cam: Camera, s: int, t: int, disk: Vec3, td: i64) -> Ray {
    let rdx = fx_mul_spec(cam.lens_radius as int, disk.x as int);
    let rdy = fx_mul_spec(cam.lens_radius as int, disk.y as int);
    let offx = fx_mul_spec(rdx, cam.cu.x as int) + fx_mul_spec(rdy, cam.cv.x as int);
    let offy = fx_mul_spec(rdx, cam.cu.y as int) + fx_mul_spec(rdy, cam.cv.y as int);
    let offz = fx_mul_spec(rdx, cam.cu.z as int) + fx_mul_spec(rdy, cam.cv.z as int);
    Ray {
        orig: Vec3 {
            x: (cam.origin.x + offx) as i64,
            y: (cam.origin.y + offy) as i64,
            z: (cam.origin.z + offz) as i64,
        },
        dir: Vec3 {
            x: (cam.lower_left_corner.x - cam.origin.x + fx_mul_spec(s, cam.horizontal.x as int)
                + fx_mul_spec(t, cam.vertical.x as int) - offx) as i64,
            y: (cam.lower_left_corner.y - cam.origin.y + fx_mul_spec(s, cam.horizontal.y as int)
                + fx_mul_spec(t, cam.vertical.y as int) - offy) as i64,
            z: (cam.lower_left_corner.z - cam.origin.z + fx_mul_spec(s, cam.horizontal.z as int)
                + fx_mul_spec(t, cam.vertical.z as int) - offz) as i64,
        },
        tm: td,
    }
}

impl Camera {
    /// The bounds every constructed camera satisfies; they keep each ray
    /// cast by `get_ray` well-formed.
    pub open spec fn wf(self) -> bool {
        &&& self.origin.bounded(CAM_POS_BOUND as int)
        &&& self.horizontal.bounded(4300000)
        &&& self.vertical.bounded(4300000)
        &&& self.cu.bounded(SCALE as int + 257)
        &&& self.cv.bounded(132104)
        &&& 0 <= self.lens_radius <= 8 * SCALE as int
        &&& -8800000 <= self.lower_left_corner.x - self.origin.x <= 8800000
        &&& -8800000 <= self.lower_left_corner.y - self.origin.y <= 8800000
        &&& -8800000 <= self.lower_left_corner.z - self.origin.z <= 8800000
        &&& self.lower_left_corner.bounded(0x900_0000)
        &&& -T_CAP <= self.time0 < self.time1 <= T_CAP
    }

    /// Builds the camera. `half_height` is the tangent of half the
    /// vertical field of view, in fixed-point form; the caps on the
    /// viewport extents keep the image-plane geometry inside the bounds
    /// that ray casting needs.
    #[verifier::rlimit(100)]
    pub fn new(
        lookfrom: Vec3,
        lookat: Vec3,
        vup: Vec3,
        half_height: i64,
        aspect_ratio: i64,
        aperture: i64,
        focus_dist: i64,
        time0: i64,
        time1: i64,
    ) -> (cam: Camera)
        requires
            lookfrom.bounded(CAM_POS_BOUND as int),
            lookat.bounded(CAM_POS_BOUND as int),
            vup.bounded(4 * SCALE as int),
            ({
                let dv = Vec3 {
                    x: (lookfrom.x - lookat.x) as i64,
                    y: (lookfrom.y - lookat.y) as i64,
                    z: (lookfrom.z - lookat.z) as i64,
                };
                &&& dot_wide(dv, dv) >= (SCALE as int) * (SCALE as int)
                &&& dot_wide(cross_spec(vup, unit_spec(dv)), cross_spec(vup, unit_spec(dv)))
                    >= (SCALE as int) * (SCALE as int)
            }),
            0 < half_height <= 16 * SCALE as int,
            0 < aspect_ratio <= 16 * SCALE as int,
            0 <= aperture <= 16 * SCALE as int,
            4096 <= focus_dist <= 64 * SCALE as int,
            fx_mul_spec(focus_dist as int, fx_mul_spec(aspect_ratio as int, 2 * half_height))
                <= 64 * SCALE as int,
            fx_mul_spec(focus_dist as int, 2 * half_height) <= 32 * SCALE as int,
            -T_CAP <= time0 < time1 <= T_CAP,
        ensures
            cam.wf(),
            cam.origin == lookfrom,
            cam.time0 == time0,
            cam.time1 == time1,
            cam.lens_radius == fx_mul_spec(32768, aperture as int),
            ({
                let dv = Vec3 {
                    x: (lookfrom.x - lookat.x) as i64,
                    y: (lookfrom.y - lookat.y) as i64,
                    z: (lookfrom.z - lookat.z) as i64,
                };
                let cw = unit_spec(dv);
                let cu = unit_spec(cross_spec(vup, cw));
                let cv = cross_spec(cw, cu);
                let vh = 2 * half_height;
                let vw = fx_mul_spec(aspect_ratio as int, vh as int);
                let kh = fx_mul_spec(focus_dist as int, vw);
                let kv = fx_mul_spec(focus_dist as int, vh as int);
                &&& cam.cu == cu
                &&& cam.cv == cv
                &&& cam.horizontal == (Vec3 {
                    x: fx_mul_spec(kh, cu.x as int) as i64,
                    y: fx_mul_spec(kh, cu.y as int) as i64,
                    z: fx_mul_spec(kh, cu.z as int) as i64,
                })
                &&& cam.vertical == (Vec3 {
                    x: fx_mul_spec(kv, cv.x as int) as i64,
                    y: fx_mul_spec(kv, cv.y as int) as i64,
                    z: fx_mul_spec(kv, cv.z as int) as i64,
                })
                &&& cam.lower_left_corner == (Vec3 {
                    x: (lookfrom.x - fx_mul_spec(32768, cam.horizontal.x as int) - fx_mul_spec(
                        32768, cam.vertical.x as int) - fx_mul_spec(
                        focus_dist as int, cw.x as int)) as i64,
                    y: (lookfrom.y - fx_mul_spec(32768, cam.horizontal.y as int) - fx_mul_spec(
                        32768, cam.vertical.y as int) - fx_mul_spec(
                        focus_dist as int, cw.y as int)) as i64,
                    z: (lookfrom.z - fx_mul_spec(32768, cam.horizontal.z as int) - fx_mul_spec(
                        32768, cam.vertical.z as int) - fx_mul_spec(
                        focus_dist as int, cw.z as int)) as i64,
                })
            }),
    {
        let dv = lookfrom.sub(lookat);
        proof {
            crate::vec3::lemma_dot_wide_self_nonneg(dv);
            crate::vec3::lemma_dot_wide_bound(dv, dv, 0x1000_0000);
            lemma_div_scale_range(dot_wide(dv, dv));
            crate::fx::lemma_sqrt_floor_is_sqrt(
                ((dot_wide(dv, dv) / SCALE as int) * SCALE as int) as nat);
            let l = crate::vec3::length_spec(dv);
            assert(l >= SCALE as int) by (nonlinear_arith)
                requires
                    l >= 0,
                    (l + 1) * (l + 1) > 65536 * 65536,
            ;
        }
        let cw = dv.unit_vector();
        let cr = vup.cross(cw);
        proof {
            crate::vec3::lemma_dot_wide_self_nonneg(cr);
            crate::vec3::lemma_dot_wide_bound(cr, cr, 0x200_0002);
            lemma_div_scale_range(dot_wide(cr, cr));
            crate::fx::lemma_sqrt_floor_is_sqrt(
                ((dot_wide(cr, cr) / SCALE as int) * SCALE as int) as nat);
            let l = crate::vec3::length_spec(cr);
            assert(l >= SCALE as int) by (nonlinear_arith)
                requires
                    l >= 0,
                    (l + 1) * (l + 1) > 65536 * 65536,
            ;
        }
        let cu = cr.unit_vector();
        let cv = cw.cross(cu);
        proof {
            lemma_cv_bound(cw, cu);
        }
        let vh = 2 * half_height;
        proof {
            lemma_mul_abs_bound(aspect_ratio as int, vh as int, 1048576, 2097152);
            lemma_div_scale_range(aspect_ratio * vh);
            assert(aspect_ratio * vh >= 0) by (nonlinear_arith)
                requires
                    aspect_ratio >= 0,
                    vh >= 0,
            ;
            vstd::arithmetic::div_mod::lemma_div_pos_is_pos(aspect_ratio * vh, SCALE as int);
        }
        let vw = fx_mul(aspect_ratio, vh);
        proof {
            lemma_mul_abs_bound(focus_dist as int, vw as int, 4194304, 33554432);
            lemma_div_scale_range(focus_dist * vw);
            assert(focus_dist * vw >= 0) by (nonlinear_arith)
                requires
                    focus_dist >= 0,
                    vw >= 0,
            ;
            vstd::arithmetic::div_mod::lemma_div_pos_is_pos(focus_dist * vw, SCALE as int);
            lemma_mul_abs_bound(focus_dist as int, vh as int, 4194304, 2097152);
            lemma_div_scale_range(focus_dist * vh);
            assert(focus_dist * vh >= 0) by (nonlinear_arith)
                requires
                    focus_dist >= 0,
                    vh >= 0,
            ;
            vstd::arithmetic::div_mod::lemma_div_pos_is_pos(focus_dist * vh, SCALE as int);
        }
        let kh = fx_mul(focus_dist, vw);
        let kv = fx_mul(focus_dist, vh);
        proof {
            lemma_extent_scale(kh as int, cu.x as int);
            lemma_extent_scale(kh as int, cu.y as int);
            lemma_extent_scale(kh as int, cu.z as int);
        }
        let h = cu.scale(kh);
        proof {
            lemma_extent_scale_cv(kv as int, cv.x as int);
            lemma_extent_scale_cv(kv as int, cv.y as int);
            lemma_extent_scale_cv(kv as int, cv.z as int);
        }
        let v = cv.scale(kv);
        proof {
            lemma_mul_abs_bound(32768, h.x as int, 32768, 4300000);
            lemma_mul_abs_bound(32768, h.y as int, 32768, 4300000);
            lemma_mul_abs_bound(32768, h.z as int, 32768, 4300000);
            lemma_div_scale_range(32768 * h.x);
            lemma_div_scale_range(32768 * h.y);
            lemma_div_scale_range(32768 * h.z);
            lemma_mul_abs_bound(32768, v.x as int, 32768, 4300000);
            lemma_mul_abs_bound(32768, v.y as int, 32768, 4300000);
            lemma_mul_abs_bound(32768, v.z as int, 32768, 4300000);
            lemma_div_scale_range(32768 * v.x);
            lemma_div_scale_range(32768 * v.y);
            lemma_div_scale_range(32768 * v.z);
            lemma_extent_scale(focus_dist as int, cw.x as int);
            lemma_extent_scale(focus_dist as int, cw.y as int);
            lemma_extent_scale(focus_dist as int, cw.z as int);
            lemma_mul_abs_bound(32768, aperture as int, 32768, 1048576);
            lemma_div_scale_range(32768 * aperture);
            vstd::arithmetic::div_mod::lemma_div_pos_is_pos(32768 * aperture, SCALE as int);
            assert(32768 * aperture >= 0);
        }
        let llc = lookfrom.sub(h.scale(32768)).sub(v.scale(32768)).sub(cw.scale(focus_dist));
        Camera {
            origin: lookfrom,
            horizontal: h,
            vertical: v,
            lower_left_corner: llc,
            cu,
            cv,
            lens_radius: fx_mul(32768, aperture),
            time0,
            time1,
        }
    }

    /// Casts the ray for image coordinates `(s, t)`: the origin is
    /// offset by a random lens-disk sample, the target is the matching
    /// point of the focus plane, and the time is drawn from the shutter
    /// interval. The result is the deterministic cast of some such pair
    /// of draws.
    pub fn get_ray(&self, rng: &mut rand::rngs::StdRng, s: i64, t: i64) -> (r: Ray)
        requires
            self.wf(),
            0 <= s <= 2 * SCALE as int,
            0 <= t <= 2 * SCALE as int,
        ensures
            r.wf(),
            self.time0 <= r.tm < self.time1,
            exists|disk: Vec3, td: i64|
                {
                    &&& dot_wide(disk, disk) < (SCALE as int) * (SCALE as int)
                    &&& disk.bounded(SCALE as int)
                    &&& disk.z == 0
                    &&& self.time0 <= td < self.time1
                    &&& r == get_ray_spec(*self, s as int, t as int, disk, td)
                },
    {
        let disk = Vec3::random_in_unit_disk(rng);
        proof {
            lemma_mul_abs_bound(self.lens_radius as int, disk.x as int, 524288, 65536);
            lemma_mul_abs_bound(self.lens_radius as int, disk.y as int, 524288, 65536);
            lemma_div_scale_range(self.lens_radius * disk.x);
            lemma_div_scale_range(self.lens_radius * disk.y);
        }
        let rdx = fx_mul(self.lens_radius, disk.x);
        let rdy = fx_mul(self.lens_radius, disk.y);
        proof {
            lemma_mul_abs_bound(rdx as int, self.cu.x as int, 524289, 65793);
            lemma_mul_abs_bound(rdx as int, self.cu.y as int, 524289, 65793);
            lemma_mul_abs_bound(rdx as int, self.cu.z as int, 524289, 65793);
            lemma_div_scale_range(rdx * self.cu.x);
            lemma_div_scale_range(rdx * self.cu.y);
            lemma_div_scale_range(rdx * self.cu.z);
            lemma_mul_abs_bound(rdy as int, self.cv.x as int, 524289, 132104);
            lemma_mul_abs_bound(rdy as int, self.cv.y as int, 524289, 132104);
            lemma_mul_abs_bound(rdy as int, self.cv.z as int, 524289, 132104);
            lemma_div_scale_range(rdy * self.cv.x);
            lemma_div_scale_range(rdy * self.cv.y);
            lemma_div_scale_range(rdy * self.cv.z);
            lemma_mul_abs_bound(s as int, self.horizontal.x as int, 131072, 4300000);
            lemma_mul_abs_bound(s as int, self.horizontal.y as int, 131072, 4300000);
            lemma_mul_abs_bound(s as int, self.horizontal.z as int, 131072, 4300000);
            lemma_div_scale_range(s * self.horizontal.x);
            lemma_div_scale_range(s * self.horizontal.y);
            lemma_div_scale_range(s * self.horizontal.z);
            lemma_mul_abs_bound(t as int, self.vertical.x as int, 131072, 4300000);
            lemma_mul_abs_bound(t as int, self.vertical.y as int, 131072, 4300000);
            lemma_mul_abs_bound(t as int, self.vertical.z as int, 131072, 4300000);
            lemma_div_scale_range(t * self.vertical.x);
            lemma_div_scale_range(t * self.vertical.y);
            lemma_div_scale_range(t * self.vertical.z);
        }
        let offset = self.cu.scale(rdx).add(self.cv.scale(rdy));
        let origin = self.origin.add(offset);
        let base = self.lower_left_corner.sub(self.origin);
        let dir = base.add(self.horizontal.scale(s)).add(self.vertical.scale(t)).sub(offset);
        let td = random_scalar(rng, self.time0, self.time1);
        let ray = Ray::new(origin, dir, td);
        proof {
            assert(dot_wide(disk, disk) < (SCALE as int) * (SCALE as int) && disk.bounded(
                SCALE as int) && disk.z == 0 && self.time0 <= td < self.time1 && ray
                == get_ray_spec(*self, s as int, t as int, disk, td));
        }
        ray
    }
}

/// One component of the cross product of the two near-unit basis vectors
/// stays within two units.
proof fn lemma_cv_bound(cw: Vec3, cu: Vec3)
    requires
        cw.bounded(SCALE as int + 257),
        cu.bounded(SCALE as int + 257),
    ensures
        cross_spec(cw, cu).bounded(132104),
{
    lemma_mul_abs_bound(cw.y as int, cu.z as int, 65793, 65793);
    lemma_mul_abs_bound(cw.z as int, cu.y as int, 65793, 65793);
    lemma_mul_abs_bound(cw.z as int, cu.x as int, 65793, 65793);
    lemma_mul_abs_bound(cw.x as int, cu.z as int, 65793, 65793);
    lemma_mul_abs_bound(cw.x as int, cu.y as int, 65793, 65793);
    lemma_mul_abs_bound(cw.y as int, cu.x as int, 65793, 65793);
    lemma_div_scale_range(cw.y * cu.z);
    lemma_div_scale_range(cw.z * cu.y);
    lemma_div_scale_range(cw.z * cu.x);
    lemma_div_scale_range(cw.x * cu.z);
    lemma_div_scale_range(cw.x * cu.y);
    lemma_div_scale_range(cw.y * cu.x);
}

/// A viewport extent (at most 64 units) times a unit-basis component
/// stays within the horizontal/vertical bound.
proof fn lemma_extent_scale(k: int, c: int)
    requires
        0 <= k <= 64 * SCALE as int,
        -(SCALE as int + 257) <= c <= SCALE as int + 257,
    ensures
        -4300000 <= fx_mul_spec(k, c) <= 4300000,
        i64::MIN <= fx_mul_spec(k, c) <= i64::MAX,
{
    lemma_mul_abs_bound(k, c, 4194304, 65793);
    lemma_div_scale_range(k * c);
}

/// The same, for the slightly wider second basis vector.
proof fn lemma_extent_scale_cv(k: int, c: int)
    requires
        0 <= k <= 32 * SCALE as int,
        -132104 <= c <= 132104,
    ensures
        -4300000 <= fx_mul_spec(k, c) <= 4300000,
        i64::MIN <= fx_mul_spec(k, c) <= i64::MAX,
{
    lemma_mul_abs_bound(k, c, 2097152, 132104);
    lemma_div_scale_range(k * c);
}

} // verus!
