//! Static and linearly moving spheres, and the closed-form ray
//! intersection they share.
//!
//! The intersection solves the fixed-point quadratic
//! `a t^2 + 2 half_b t + c = 0` built from the ray and the sphere, takes
//! the nearer root when it lies in `[t_min, t_max]`, the farther root
//! otherwise, and rejects the rest. Every step of that computation is a
//! specification function here, so `hit` is pinned to its result exactly.

use vstd::prelude::*;
use vstd::arithmetic::div_mod::{
    lemma_div_is_ordered, lemma_div_multiples_vanish, lemma_multiply_divide_le,
};
use crate::fx::{
    fx_div, fx_mul, fx_sqrt, fx_div_spec, fx_mul_spec, fx_sqrt_spec,
    lemma_div_bound_pos_divisor, lemma_div_scale_range, lemma_mul_abs_bound,
    lemma_sqrt_floor_is_sqrt, lemma_sqrt_floor_unique, sqrt_floor, SCALE,
};
use crate::hit::HitRecord;
use crate::mat::Material;
use crate::ray::{Ray, DIR_BOUND, POS_BOUND, T_CAP};
use crate::vec3::{dot_spec, dot_wide, Vec3};

verus! {

/// The vector from the sphere's centre to the ray origin.
pub open spec fn oc_of(center: Vec3, r: Ray) -> Vec3 {
    Vec3 {
        x: (r.orig.x - center.x) as i64,
        y: (r.orig.y - center.y) as i64,
        z: (r.orig.z - center.z) as i64,
    }
}

/// Leading coefficient of the intersection quadratic: `|dir|^2`.
pub open spec fn quad_a(r: Ray) -> int {
    dot_spec(r.dir, r.dir)
}

/// Half the linear coefficient: `oc . dir`.
pub open spec fn quad_half_b(center: Vec3, r: Ray) -> int {
    dot_spec(oc_of(center, r), r.dir)
}

/// Constant coefficient: `|oc|^2 - radius^2`.
pub open spec fn quad_c(center: Vec3, radius: int, r: Ray) -> int {
    dot_spec(oc_of(center, r), oc_of(center, r)) - fx_mul_spec(radius, radius)
}

/// The discriminant `half_b^2 - a c`; the ray misses exactly when it is
/// negative.
pub open spec fn quad_disc(center: Vec3, radius: int, r: Ray) -> int {
    fx_mul_spec(quad_half_b(center, r), quad_half_b(center, r)) - fx_mul_spec(
        quad_a(r), quad_c(center, radius, r))
}

/// The nearer quadratic root, `(-half_b - sqrt(disc)) / a`.
pub open spec fn root_near(center: Vec3, radius: int, r: Ray) -> int {
    fx_div_spec(-quad_half_b(center, r) - fx_sqrt_spec(quad_disc(center, radius, r)), quad_a(r))
}

/// The farther quadratic root, `(-half_b + sqrt(disc)) / a`.
pub open spec fn root_far(center: Vec3, radius: int, r: Ray) -> int {
    fx_div_spec(-quad_half_b(center, r) + fx_sqrt_spec(quad_disc(center, radius, r)), quad_a(r))
}

/// The ray parameter the intersection reports: the nearer root if it lies
/// in `[t_min, t_max]`, else the farther root if that one does, else none.
pub open spec fn accepted_root(center: Vec3, radius: int, r: Ray, t_min: int, t_max: int)
    -> Option<int> {
    if quad_disc(center, radius, r) < 0 {
        None
    } else if t_min <= root_near(center, radius, r) <= t_max {
        Some(root_near(center, radius, r))
    } else if t_min <= root_far(center, radius, r) <= t_max {
        Some(root_far(center, radius, r))
    } else {
        None
    }
}

/// The guard that keeps the normal computation in range: the hit point
/// must sit within two radii of the centre along each axis.
///
/// This is the one place the intersection departs from pure
/// root-acceptance: an accepted root whose rounded hit point has drifted
/// more than two radii from the centre on some axis is reported as a
/// miss, because dividing such a delta by the radius could overflow the
/// normal. A true hit point lies one radius from the centre, so the
/// guard can only fire where rounding has displaced the point by more
/// than a whole radius; `lemma_axial_hit` shows a family of exact inputs
/// on which it provably never fires. A bound on the displacement for
/// arbitrary well-formed inputs would need an error analysis of the
/// rounded quadratic roots, which is not attempted here.
pub open spec fn delta_ok(center: Vec3, radius: int, p: Vec3) -> bool {
    &&& -2 * radius <= p.x - center.x <= 2 * radius
    &&& -2 * radius <= p.y - center.y <= 2 * radius
    &&& -2 * radius <= p.z - center.z <= 2 * radius
}

/// The outward unit normal at `p`: `(p - center) / radius`.
pub open spec fn outward_of(center: Vec3, radius: int, p: Vec3) -> Vec3 {
    Vec3 {
        x: fx_div_spec(p.x - center.x, radius) as i64,
        y: fx_div_spec(p.y - center.y, radius) as i64,
        z: fx_div_spec(p.z - center.z, radius) as i64,
    }
}

/// The record reported for a hit at parameter `t`, its normal oriented
/// against the ray.
pub open spec fn hit_record_for(center: Vec3, radius: int, mat: Material, r: Ray, t: int)
    -> HitRecord {
    let p = r.at_spec(t);
    let outward = outward_of(center, radius, p);
    let ff = dot_wide(r.dir, outward) < 0;
    HitRecord {
        p,
        normal: if ff {
            outward
        } else {
            Vec3 { x: -outward.x as i64, y: -outward.y as i64, z: -outward.z as i64 }
        },
        mat,
        t: t as i64,
        front_face: ff,
    }
}

/// The complete intersection function: the accepted root, the in-range
/// guard on its hit point, and the record built there.
pub open spec fn sphere_hit_spec(
    center: Vec3, radius: int, mat: Material, r: Ray, t_min: int, t_max: int,
) -> Option<HitRecord> {
    match accepted_root(center, radius, r, t_min, t_max) {
        Some(t) => if delta_ok(center, radius, r.at_spec(t)) {
            Some(hit_record_for(center, radius, mat, r, t))
        } else {
            None
        },
        None => None,
    }
}

#[derive(Clone, Copy)]
pub struct Sphere {
    pub center: Vec3,
    pub radius: i64,
    pub mat: Material,
}

#[derive(Clone, Copy)]
pub struct MovingSphere {
    pub center0: Vec3,
    pub center1: Vec3,
    pub time0: i64,
    pub time1: i64,
    pub radius: i64,
    pub mat: Material,
}

impl Sphere {
    pub open spec fn wf(self) -> bool {
        &&& self.center.bounded(POS_BOUND as int)
        &&& 1 <= self.radius <= POS_BOUND
        &&& self.mat.wf()
    }

    /// What this sphere's `hit` returns.
    pub open spec fn hit_spec(self, r: Ray, t_min: int, t_max: int) -> Option<HitRecord> {
        sphere_hit_spec(self.center, self.radius as int, self.mat, r, t_min, t_max)
    }

    pub fn new(cen: Vec3, r: i64, m: Material) -> (s: Sphere)
        requires
            cen.bounded(POS_BOUND as int),
            1 <= r <= POS_BOUND,
            m.wf(),
        ensures
            s.center == cen,
            s.radius == r,
            s.mat == m,
            s.wf(),
    {
        Sphere { center: cen, radius: r, mat: m }
    }

    pub fn hit(&self, r: &Ray, t_min: i64, t_max: i64) -> (res: Option<HitRecord>)
        requires
            self.wf(),
            r.wf(),
            dot_wide(r.dir, r.dir) >= SCALE as int,
            0 <= t_min <= t_max <= T_CAP,
        ensures
            res == self.hit_spec(*r, t_min as int, t_max as int),
    {
        hit_with_center(self.center, self.radius, self.mat, r, t_min, t_max)
    }
}

impl MovingSphere {
    pub open spec fn wf(self) -> bool {
        &&& self.center0.bounded(POS_BOUND as int)
        &&& self.center1.bounded(POS_BOUND as int)
        &&& 1 <= self.radius <= POS_BOUND
        &&& -T_CAP <= self.time0 < self.time1 <= T_CAP
        &&& self.mat.wf()
    }

    /// The centre at `time`, interpolated linearly from `center0` at
    /// `time0` to `center1` at `time1`.
    pub open spec fn center_spec(self, time: int) -> Vec3 {
        let frac = fx_div_spec(time - self.time0, self.time1 - self.time0);
        Vec3 {
            x: (self.center0.x + fx_mul_spec(frac, self.center1.x - self.center0.x)) as i64,
            y: (self.center0.y + fx_mul_spec(frac, self.center1.y - self.center0.y)) as i64,
            z: (self.center0.z + fx_mul_spec(frac, self.center1.z - self.center0.z)) as i64,
        }
    }

    /// What this sphere's `hit` returns: the static intersection against
    /// the centre at the ray's time.
    pub open spec fn hit_spec(self, r: Ray, t_min: int, t_max: int) -> Option<HitRecord> {
        sphere_hit_spec(self.center_spec(r.tm as int), self.radius as int, self.mat, r, t_min,
            t_max)
    }

    pub fn new(cen0: Vec3, cen1: Vec3, time0: i64, time1: i64, r: i64, m: Material)
        -> (s: MovingSphere)
        requires
            cen0.bounded(POS_BOUND as int),
            cen1.bounded(POS_BOUND as int),
            1 <= r <= POS_BOUND,
            -T_CAP <= time0 < time1 <= T_CAP,
            m.wf(),
        ensures
            s.center0 == cen0,
            s.center1 == cen1,
            s.time0 == time0,
            s.time1 == time1,
            s.radius == r,
            s.mat == m,
            s.wf(),
    {
        MovingSphere { center0: cen0, center1: cen1, time0, time1, radius: r, mat: m }
    }

    /// The centre at `time`; interpolation keeps it inside the box the two
    /// endpoint centres span.
    pub fn center(&self, time: i64) -> (c: Vec3)
        requires
            self.wf(),
            self.time0 <= time <= self.time1,
        ensures
            c == self.center_spec(time as int),
            c.bounded(POS_BOUND as int),
    {
        let dt = time - self.time0;
        let span = self.time1 - self.time0;
        let frac = fx_div(dt, span);
        proof {
            lemma_div_multiples_vanish(SCALE as int, span as int);
            lemma_div_is_ordered(0, dt * SCALE as int, span as int);
            lemma_div_is_ordered(dt * SCALE as int, span * SCALE as int, span as int);
            assert(dt * SCALE as int <= span * SCALE as int && 0 <= dt * SCALE as int
                && span * (SCALE as int) == (SCALE as int) * span) by (nonlinear_arith)
                requires
                    0 <= dt <= span,
            ;
            assert(0 <= fx_div_spec(dt as int, span as int) <= SCALE as int);
        }
        let ox = self.interp_offset(frac, self.center1.x, self.center0.x);
        let oy = self.interp_offset(frac, self.center1.y, self.center0.y);
        let oz = self.interp_offset(frac, self.center1.z, self.center0.z);
        Vec3 { x: self.center0.x + ox, y: self.center0.y + oy, z: self.center0.z + oz }
    }

    /// One component of the interpolation offset `frac * (c1 - c0)`, which
    /// stays between 0 and the difference.
    fn interp_offset(&self, frac: i64, c1: i64, c0: i64) -> (o: i64)
        requires
            0 <= frac <= SCALE,
            -POS_BOUND <= c1 <= POS_BOUND,
            -POS_BOUND <= c0 <= POS_BOUND,
        ensures
            o == fx_mul_spec(frac as int, c1 - c0),
            c1 - c0 >= 0 ==> 0 <= o <= c1 - c0,
            c1 - c0 < 0 ==> c1 - c0 <= o <= 0,
    {
        let diff = c1 - c0;
        proof {
            lemma_mul_abs_bound(frac as int, diff as int, SCALE as int, 2 * POS_BOUND as int);
            lemma_div_scale_range(frac * diff);
            let q = fx_mul_spec(frac as int, diff as int);
            assert((diff >= 0 ==> 0 <= q <= diff) && (diff < 0 ==> diff <= q <= 0))
                by (nonlinear_arith)
                requires
                    0 <= frac <= 65536,
                    65536 * q <= frac * diff < 65536 * q + 65536,
            ;
        }
        fx_mul(frac, diff)
    }

    pub fn hit(&self, r: &Ray, t_min: i64, t_max: i64) -> (res: Option<HitRecord>)
        requires
            self.wf(),
            r.wf(),
            self.time0 <= r.tm <= self.time1,
            dot_wide(r.dir, r.dir) >= SCALE as int,
            0 <= t_min <= t_max <= T_CAP,
        ensures
            res == self.hit_spec(*r, t_min as int, t_max as int),
    {
        let cen = self.center(r.time());
        hit_with_center(cen, self.radius, self.mat, r, t_min, t_max)
    }
}

/// The intersection both sphere kinds share, against a centre already
/// fixed at the ray's time.
fn hit_with_center(center: Vec3, radius: i64, mat: Material, r: &Ray, t_min: i64, t_max: i64)
    -> (res: Option<HitRecord>)
    requires
        center.bounded(POS_BOUND as int),
        1 <= radius <= POS_BOUND,
        r.wf(),
        dot_wide(r.dir, r.dir) >= SCALE as int,
        0 <= t_min <= t_max <= T_CAP,
    ensures
        res == sphere_hit_spec(center, radius as int, mat, *r, t_min as int, t_max as int),
{
    let d = r.direction();
    let oc = r.origin().sub(center);
    proof {
        assert(oc == oc_of(center, *r));
        crate::vec3::lemma_dot_wide_self_nonneg(d);
        crate::vec3::lemma_dot_wide_bound(d, d, DIR_BOUND as int);
        lemma_div_scale_range(dot_wide(d, d));
        crate::vec3::lemma_dot_wide_bound2(oc, d, 268435456, 33554432);
        lemma_div_scale_range(dot_wide(oc, d));
        crate::vec3::lemma_dot_wide_self_nonneg(oc);
        crate::vec3::lemma_dot_wide_bound(oc, oc, 268435456);
        lemma_div_scale_range(dot_wide(oc, oc));
        lemma_mul_abs_bound(radius as int, radius as int, POS_BOUND as int, POS_BOUND as int);
        lemma_div_scale_range(radius * radius);
    }
    let a = d.dot(d);
    let half_b = oc.dot(d);
    let c_coef = oc.length_squared() - fx_mul(radius, radius);
    proof {
        assert(a >= 1);
        lemma_mul_abs_bound(half_b as int, half_b as int, 412316860417, 412316860417);
        lemma_div_scale_range(half_b * half_b);
        lemma_mul_abs_bound(a as int, c_coef as int, 51539607552, 3298534883329);
        lemma_div_scale_range(a * c_coef);
    }
    let disc = fx_mul(half_b, half_b) - fx_mul(a, c_coef);
    if disc < 0 {
        return None;
    }
    let sqrtd = fx_sqrt(disc);
    proof {
        lemma_sqrt_floor_is_sqrt((disc * SCALE as int) as nat);
        assert(0 <= sqrtd && sqrtd * sqrtd <= disc * 65536);
        assert(sqrtd < 590000000000) by (nonlinear_arith)
            requires
                0 <= sqrtd,
                sqrtd * sqrtd <= 341000000000000000000000,
        ;
        lemma_div_bound_pos_divisor(
            (-half_b - sqrtd) * SCALE as int, a as int, 65750000000000000);
        lemma_div_bound_pos_divisor(
            (-half_b + sqrtd) * SCALE as int, a as int, 65750000000000000);
    }
    let root1 = fx_div(-half_b - sqrtd, a);
    let root = if t_min <= root1 && root1 <= t_max {
        root1
    } else {
        let root2 = fx_div(-half_b + sqrtd, a);
        if t_min <= root2 && root2 <= t_max {
            root2
        } else {
            return None;
        }
    };
    let p = r.at(root);
    let dx = p.x - center.x;
    let dy = p.y - center.y;
    let dz = p.z - center.z;
    let two_r = 2 * radius;
    if dx < -two_r || dx > two_r || dy < -two_r || dy > two_r || dz < -two_r || dz > two_r {
        return None;
    }
    let delta = Vec3 { x: dx, y: dy, z: dz };
    proof {
        lemma_outward_component(dx as int, radius as int);
        lemma_outward_component(dy as int, radius as int);
        lemma_outward_component(dz as int, radius as int);
    }
    let outward = delta.divide(radius);
    let mut rec = HitRecord {
        t: root,
        p,
        mat,
        normal: Vec3 { x: 0, y: 0, z: 0 },
        front_face: false,
    };
    rec.set_face_normal(r, outward);
    proof {
        assert(outward == outward_of(center, radius as int, r.at_spec(root as int)));
        assert(rec == hit_record_for(center, radius as int, mat, *r, root as int));
    }
    Some(rec)
}

/// The nearer root never exceeds the farther one.
proof fn lemma_roots_ordered(center: Vec3, radius: int, r: Ray)
    requires
        quad_a(r) >= 1,
        quad_disc(center, radius, r) >= 0,
    ensures
        root_near(center, radius, r) <= root_far(center, radius, r),
{
    let hb = quad_half_b(center, r);
    let sq = fx_sqrt_spec(quad_disc(center, radius, r));
    assert(sq >= 0);
    lemma_div_is_ordered((-hb - sq) * SCALE as int, (-hb + sq) * SCALE as int, quad_a(r));
}

/// Shrinking the upper end of the search interval can only drop a hit
/// whose parameter lies beyond the new end; a hit it keeps is the same
/// hit. This is what lets a world fold its surfaces with a shrinking
/// interval and still report the globally nearest intersection.
pub proof fn lemma_hit_interval_shrink(
    center: Vec3, radius: int, mat: Material, r: Ray, t_min: int, t_hi: int, t_sub: int,
)
    requires
        quad_a(r) >= 1,
        0 <= t_min,
        t_sub <= t_hi <= T_CAP,
    ensures
        match (sphere_hit_spec(center, radius, mat, r, t_min, t_hi),
            sphere_hit_spec(center, radius, mat, r, t_min, t_sub)) {
            (Some(h), Some(h2)) => h2 == h && t_min <= h.t <= t_sub,
            (Some(h), None) => t_sub < h.t <= t_hi,
            (None, Some(h2)) => false,
            (None, None) => true,
        },
{
    if quad_disc(center, radius, r) >= 0 {
        lemma_roots_ordered(center, radius, r);
        let near = root_near(center, radius, r);
        let far = root_far(center, radius, r);
        match accepted_root(center, radius, r, t_min, t_hi) {
            Some(t) => {
                assert(t_min <= t <= t_hi);
                assert(t == t as i64 as int);
            },
            None => {},
        }
        match accepted_root(center, radius, r, t_min, t_sub) {
            Some(t) => {
                assert(t_min <= t <= t_sub);
            },
            None => {},
        }
    }
}

/// A ray exactly tangent to a sphere (zero discriminant) has exactly one
/// candidate root: the nearer and the farther root both equal
/// `-half_b / a`, so at most that single parameter can be accepted.
pub proof fn lemma_tangent_single_root(
    center: Vec3, radius: int, r: Ray, t_min: int, t_max: int,
)
    requires
        quad_a(r) >= 1,
        quad_disc(center, radius, r) == 0,
    ensures
        root_near(center, radius, r) == root_far(center, radius, r),
        root_near(center, radius, r) == fx_div_spec(-quad_half_b(center, r), quad_a(r)),
        accepted_root(center, radius, r, t_min, t_max) == if t_min <= fx_div_spec(
            -quad_half_b(center, r), quad_a(r)) <= t_max {
            Some(fx_div_spec(-quad_half_b(center, r), quad_a(r)))
        } else {
            None::<int>
        },
{
    assert(fx_sqrt_spec(0) == 0) by {
        assert(sqrt_floor(0nat) == 0);
    }
}

/// A ray fired from the origin straight down the negative z axis toward
/// a sphere centred on that axis, `d` units away with radius `ru` units,
/// enters the sphere at parameter `distance - radius`, would leave it at
/// `distance + radius`, and reports the outward normal pointing straight
/// back along the axis, as a front face.
pub proof fn lemma_axial_hit(d: int, ru: int, mat: Material, t_min: int)
    requires
        1 <= ru < d <= 2048,
        0 <= t_min <= (d - ru) * 65536,
    ensures
        ({
            let center = Vec3 { x: 0i64, y: 0i64, z: (-d * 65536) as i64 };
            let radius = ru * 65536;
            let r = Ray {
                orig: Vec3 { x: 0i64, y: 0i64, z: 0i64 },
                dir: Vec3 { x: 0i64, y: 0i64, z: -65536i64 },
                tm: 0i64,
            };
            &&& root_near(center, radius, r) == (d - ru) * 65536
            &&& root_far(center, radius, r) == (d + ru) * 65536
            &&& sphere_hit_spec(center, radius, mat, r, t_min, T_CAP as int) == Some(
                HitRecord {
                    p: Vec3 { x: 0i64, y: 0i64, z: (-(d - ru) * 65536) as i64 },
                    normal: Vec3 { x: 0i64, y: 0i64, z: 65536i64 },
                    mat,
                    t: ((d - ru) * 65536) as i64,
                    front_face: true,
                })
        }),
{
    let s = 65536int;
    let center = Vec3 { x: 0i64, y: 0i64, z: (-d * 65536) as i64 };
    let radius = ru * 65536;
    let r = Ray {
        orig: Vec3 { x: 0i64, y: 0i64, z: 0i64 },
        dir: Vec3 { x: 0i64, y: 0i64, z: -65536i64 },
        tm: 0i64,
    };
    let oc = oc_of(center, r);
    assert(oc.z == d * s);
    assert(dot_wide(r.dir, r.dir) == s * s && dot_wide(oc, r.dir) == (d * s) * -s && dot_wide(
        oc, oc) == (d * s) * (d * s)) by (nonlinear_arith)
        requires
            oc.x == 0 && oc.y == 0 && oc.z == d * s,
            r.dir.x == 0 && r.dir.y == 0 && r.dir.z == -s,
            s == 65536,
            dot_wide(r.dir, r.dir) == r.dir.x * r.dir.x + r.dir.y * r.dir.y + r.dir.z * r.dir.z,
            dot_wide(oc, r.dir) == oc.x * r.dir.x + oc.y * r.dir.y + oc.z * r.dir.z,
            dot_wide(oc, oc) == oc.x * oc.x + oc.y * oc.y + oc.z * oc.z,
    ;
    assert(s * s == s * s && (d * s) * -s == s * (-d * s) && (d * s) * (d * s) == s * ((d * d)
        * s) && radius * radius == s * ((ru * ru) * s) && s * s == s * s)
        by (nonlinear_arith)
        requires
            s == 65536,
            radius == ru * 65536,
    ;
    lemma_div_multiples_vanish(s, s);
    lemma_div_multiples_vanish(-d * s, s);
    lemma_div_multiples_vanish((d * d) * s, s);
    lemma_div_multiples_vanish((ru * ru) * s, s);
    assert(quad_a(r) == s);
    assert(quad_half_b(center, r) == -d * s);
    assert(quad_c(center, radius, r) == (d * d) * s - (ru * ru) * s);
    let cc = (d * d) * s - (ru * ru) * s;
    assert((-d * s) * (-d * s) == s * ((d * d) * s) && s * cc == s * cc) by (nonlinear_arith)
        requires
            s == 65536,
    ;
    lemma_div_multiples_vanish(cc, s);
    assert(quad_disc(center, radius, r) == (d * d) * s - cc);
    assert(quad_disc(center, radius, r) == (ru * ru) * s);
    let disc = (ru * ru) * s;
    assert(disc * s == (ru * s) * (ru * s) && (ru * s) * (ru * s) < (ru * s + 1) * (ru * s + 1)
        && 0 <= ru * s) by (nonlinear_arith)
        requires
            s == 65536,
            1 <= ru,
            disc == (ru * ru) * s,
    ;
    lemma_sqrt_floor_unique(disc * s, ru * s);
    assert(fx_sqrt_spec(disc) == ru * s);
    assert(-(-d * s) - ru * s == (d - ru) * s && -(-d * s) + ru * s == (d + ru) * s
        && ((d - ru) * s) * s == s * ((d - ru) * s) && ((d + ru) * s) * s == s * ((d + ru) * s))
        by (nonlinear_arith)
        requires
            s == 65536,
    ;
    lemma_div_multiples_vanish((d - ru) * s, s);
    lemma_div_multiples_vanish((d + ru) * s, s);
    assert(root_near(center, radius, r) == (d - ru) * s);
    assert(root_far(center, radius, r) == (d + ru) * s);
    let t = (d - ru) * s;
    assert(0 <= t <= 2048 * 65536 && t <= T_CAP as int && t_min <= t) by (nonlinear_arith)
        requires
            1 <= ru < d <= 2048,
            s == 65536,
            t == (d - ru) * s,
            t_min <= (d - ru) * 65536,
    ;
    assert(accepted_root(center, radius, r, t_min, T_CAP as int) == Some(t));
    assert(t * -s == s * (-(d - ru) * s) && -(d - ru) * s == -t) by (nonlinear_arith)
        requires
            s == 65536,
            t == (d - ru) * s,
    ;
    lemma_div_multiples_vanish(-(d - ru) * s, s);
    let p = r.at_spec(t);
    assert(p.x == 0 && p.y == 0 && p.z == -t);
    assert(p.z - center.z == ru * s && -2 * radius <= ru * s <= 2 * radius)
        by (nonlinear_arith)
        requires
            s == 65536,
            t == (d - ru) * s,
            p.z == -t,
            center.z == -d * 65536,
            radius == ru * 65536,
            1 <= ru < d <= 2048,
    ;
    assert(delta_ok(center, radius, p));
    lemma_div_multiples_vanish(s, ru * s);
    assert(fx_div_spec(p.z - center.z, radius) == s) by {
        assert((p.z - center.z) * s == (ru * s) * s);
        assert(radius == ru * s);
    }
    let outward = outward_of(center, radius, p);
    assert(outward.x == 0 && outward.y == 0 && outward.z == s) by {
        lemma_div_of_zero_num(radius);
    }
    assert(dot_wide(r.dir, outward) == -s * s && -s * s < 0) by (nonlinear_arith)
        requires
            s == 65536,
            outward.x == 0 && outward.y == 0 && outward.z == s,
            r.dir.x == 0 && r.dir.y == 0 && r.dir.z == -s,
            dot_wide(r.dir, outward) == r.dir.x * outward.x + r.dir.y * outward.y + r.dir.z
                * outward.z,
    ;
}

/// Dividing a zero numerator leaves zero.
proof fn lemma_div_of_zero_num(d: int)
    requires
        d >= 1,
    ensures
        fx_div_spec(0, d) == 0,
{
    assert(0 * 65536 == 0) by (nonlinear_arith);
    vstd::arithmetic::div_mod::lemma_div_of0(d);
}

/// The stored normal's squared norm tracks the hit point's distance
/// from the centre: when the hit point lies exactly on the sphere
/// surface, the outward normal `(p - center)/radius` has squared norm
/// within `12 S + 3` of `S^2`, that is, unit length up to fixed-point
/// rounding; and flipping it against the ray preserves that norm. How
/// far the rounded root can put the hit point off the surface is a
/// property of the root arithmetic and is not bounded here.
pub proof fn lemma_outward_normal_unit(center: Vec3, radius: int, p: Vec3)
    requires
        1 <= radius,
        delta_ok(center, radius, p),
        (p.x - center.x) * (p.x - center.x) + (p.y - center.y) * (p.y - center.y) + (p.z
            - center.z) * (p.z - center.z) == radius * radius,
    ensures
        ({
            let o = outward_of(center, radius, p);
            let flipped = Vec3 { x: -o.x as i64, y: -o.y as i64, z: -o.z as i64 };
            &&& (SCALE as int) * (SCALE as int) - 12 * (SCALE as int) <= dot_wide(o, o)
                <= (SCALE as int) * (SCALE as int) + 12 * (SCALE as int) + 3
            &&& dot_wide(flipped, flipped) == dot_wide(o, o)
        }),
{
    let s = SCALE as int;
    let dx = p.x - center.x;
    let dy = p.y - center.y;
    let dz = p.z - center.z;
    lemma_outward_component(dx, radius);
    lemma_outward_component(dy, radius);
    lemma_outward_component(dz, radius);
    let ox = fx_div_spec(dx, radius);
    let oy = fx_div_spec(dy, radius);
    let oz = fx_div_spec(dz, radius);
    vstd::arithmetic::div_mod::lemma_fundamental_div_mod(dx * s, radius);
    vstd::arithmetic::div_mod::lemma_fundamental_div_mod(dy * s, radius);
    vstd::arithmetic::div_mod::lemma_fundamental_div_mod(dz * s, radius);
    let ex = (dx * s) % radius;
    let ey = (dy * s) % radius;
    let ez = (dz * s) % radius;
    crate::vec3::lemma_unit_sq_component(dx, s, radius, ox, ex);
    crate::vec3::lemma_unit_sq_component(dy, s, radius, oy, ey);
    crate::vec3::lemma_unit_sq_component(dz, s, radius, oz, ez);
    let wsum = ox * ox + oy * oy + oz * oz;
    let ee = ex * ex + ey * ey + ez * ez;
    let ve = dx * ex + dy * ey + dz * ez;
    let dd = dx * dx + dy * dy + dz * dz;
    assert((radius * radius) * wsum == (radius * radius) * (ox * ox) + (radius * radius) * (oy
        * oy) + (radius * radius) * (oz * oz)) by (nonlinear_arith)
        requires
            wsum == ox * ox + oy * oy + oz * oz,
    ;
    assert((s * s) * dd == (s * s) * (dx * dx) + (s * s) * (dy * dy) + (s * s) * (dz * dz))
        by (nonlinear_arith)
        requires
            dd == dx * dx + dy * dy + dz * dz,
    ;
    assert(2 * s * ve == 2 * s * (dx * ex) + 2 * s * (dy * ey) + 2 * s * (dz * ez))
        by (nonlinear_arith)
        requires
            ve == dx * ex + dy * ey + dz * ez,
    ;
    assert((radius * radius) * wsum == (s * s) * dd - 2 * s * ve + ee);
    assert((radius * radius) * wsum == (s * s) * (radius * radius) - 2 * s * ve + ee);
    assert(-(2 * (radius * radius)) <= dx * ex <= 2 * (radius * radius) && -(2 * (radius
        * radius)) <= dy * ey <= 2 * (radius * radius) && -(2 * (radius * radius)) <= dz * ez
        <= 2 * (radius * radius) && 0 <= ee <= 3 * (radius * radius)) by (nonlinear_arith)
        requires
            -2 * radius <= dx <= 2 * radius,
            -2 * radius <= dy <= 2 * radius,
            -2 * radius <= dz <= 2 * radius,
            0 <= ex < radius,
            0 <= ey < radius,
            0 <= ez < radius,
            ee == ex * ex + ey * ey + ez * ez,
    ;
    assert((radius * radius) * (s * s - 12 * s) <= (radius * radius) * wsum <= (radius
        * radius) * (s * s + 12 * s + 3)) by (nonlinear_arith)
        requires
            (radius * radius) * wsum == (s * s) * (radius * radius) - 2 * s * ve + ee,
            -6 * (radius * radius) <= ve <= 6 * (radius * radius),
            0 <= ee <= 3 * (radius * radius),
            s == 65536,
            radius >= 1,
    ;
    assert(s * s - 12 * s <= wsum <= s * s + 12 * s + 3) by (nonlinear_arith)
        requires
            (radius * radius) * (s * s - 12 * s) <= (radius * radius) * wsum <= (radius
                * radius) * (s * s + 12 * s + 3),
            radius >= 1,
    ;
    let o = outward_of(center, radius, p);
    assert(o.x == ox && o.y == oy && o.z == oz);
    let flipped = Vec3 { x: -o.x as i64, y: -o.y as i64, z: -o.z as i64 };
    assert(dot_wide(flipped, flipped) == dot_wide(o, o)) by (nonlinear_arith)
        requires
            flipped.x == -o.x,
            flipped.y == -o.y,
            flipped.z == -o.z,
            dot_wide(flipped, flipped) == flipped.x * flipped.x + flipped.y * flipped.y
                + flipped.z * flipped.z,
            dot_wide(o, o) == o.x * o.x + o.y * o.y + o.z * o.z,
    ;
}

/// Any record the intersection reports has its normal within two units
/// componentwise, carries the sphere's material, and a parameter inside
/// the interval.
pub proof fn lemma_hit_record_bounds(
    center: Vec3, radius: int, mat: Material, r: Ray, t_min: int, t_max: int,
)
    requires
        1 <= radius,
        0 <= t_min,
        t_max <= T_CAP,
    ensures
        match sphere_hit_spec(center, radius, mat, r, t_min, t_max) {
            Some(h) => h.normal.bounded(131073) && h.mat == mat && t_min <= h.t <= t_max,
            None => true,
        },
{
    match accepted_root(center, radius, r, t_min, t_max) {
        Some(t) => {
            let p = r.at_spec(t);
            if delta_ok(center, radius, p) {
                lemma_outward_component(p.x - center.x, radius);
                lemma_outward_component(p.y - center.y, radius);
                lemma_outward_component(p.z - center.z, radius);
            }
        },
        None => {},
    }
}

/// The record-bound property, lifted to a surface.
pub proof fn lemma_surface_hit_bounds(s: Surface, r: Ray, t_min: int, t_max: int)
    requires
        s.wf(),
        0 <= t_min,
        t_max <= T_CAP,
    ensures
        match s.hit_spec(r, t_min, t_max) {
            Some(h) => h.normal.bounded(131073) && h.mat.wf() && t_min <= h.t <= t_max,
            None => true,
        },
{
    lemma_hit_record_bounds(s.center_for(r), s.radius_of(), s.mat_of(), r, t_min, t_max);
}

/// A surface of the closed set: a static or a linearly moving sphere.
#[derive(Clone, Copy)]
pub enum Surface {
    Sphere(Sphere),
    MovingSphere(MovingSphere),
}

impl Surface {
    pub open spec fn wf(self) -> bool {
        match self {
            Surface::Sphere(s) => s.wf(),
            Surface::MovingSphere(s) => s.wf(),
        }
    }

    /// The ray's time tag lies inside the surface's motion interval, so
    /// that interpolating the centre is meaningful.
    pub open spec fn time_ok(self, r: Ray) -> bool {
        match self {
            Surface::Sphere(_) => true,
            Surface::MovingSphere(s) => s.time0 <= r.tm <= s.time1,
        }
    }

    /// Every time in `[t0, t1]` lies inside this surface's motion
    /// interval.
    pub open spec fn time_window_ok(self, t0: int, t1: int) -> bool {
        match self {
            Surface::Sphere(_) => true,
            Surface::MovingSphere(s) => s.time0 <= t0 && t1 <= s.time1,
        }
    }

    /// The centre this surface presents to the given ray.
    pub open spec fn center_for(self, r: Ray) -> Vec3 {
        match self {
            Surface::Sphere(s) => s.center,
            Surface::MovingSphere(s) => s.center_spec(r.tm as int),
        }
    }

    pub open spec fn radius_of(self) -> int {
        match self {
            Surface::Sphere(s) => s.radius as int,
            Surface::MovingSphere(s) => s.radius as int,
        }
    }

    pub open spec fn mat_of(self) -> Material {
        match self {
            Surface::Sphere(s) => s.mat,
            Surface::MovingSphere(s) => s.mat,
        }
    }

    /// What this surface's `hit` returns.
    pub open spec fn hit_spec(self, r: Ray, t_min: int, t_max: int) -> Option<HitRecord> {
        sphere_hit_spec(self.center_for(r), self.radius_of(), self.mat_of(), r, t_min, t_max)
    }

    pub fn hit(&self, r: &Ray, t_min: i64, t_max: i64) -> (res: Option<HitRecord>)
        requires
            self.wf(),
            r.wf(),
            self.time_ok(*r),
            dot_wide(r.dir, r.dir) >= SCALE as int,
            0 <= t_min <= t_max <= T_CAP,
        ensures
            res == self.hit_spec(*r, t_min as int, t_max as int),
    {
        match self {
            Surface::Sphere(s) => s.hit(r, t_min, t_max),
            Surface::MovingSphere(s) => s.hit(r, t_min, t_max),
        }
    }
}

/// The interval-shrink property, lifted to a surface.
pub proof fn lemma_surface_hit_shrink(s: Surface, r: Ray, t_min: int, t_hi: int, t_sub: int)
    requires
        dot_wide(r.dir, r.dir) >= SCALE as int,
        0 <= t_min,
        t_sub <= t_hi <= T_CAP,
    ensures
        match (s.hit_spec(r, t_min, t_hi), s.hit_spec(r, t_min, t_sub)) {
            (Some(h), Some(h2)) => h2 == h && t_min <= h.t <= t_sub,
            (Some(h), None) => t_sub < h.t <= t_hi,
            (None, Some(h2)) => false,
            (None, None) => true,
        },
{
    lemma_div_scale_range(dot_wide(r.dir, r.dir));
    assert(quad_a(r) >= 1);
    lemma_hit_interval_shrink(s.center_for(r), s.radius_of(), s.mat_of(), r, t_min, t_hi, t_sub);
}

/// One component of the outward normal: a delta within two radii divides
/// by the radius into at most two units.
proof fn lemma_outward_component(dx: int, radius: int)
    requires
        radius >= 1,
        -2 * radius <= dx <= 2 * radius,
    ensures
        -131072 <= fx_div_spec(dx, radius) <= 131072,
        i64::MIN <= fx_div_spec(dx, radius) <= i64::MAX,
{
    assert(dx * 65536 <= radius * 131072 && -(radius * 131072) <= dx * 65536)
        by (nonlinear_arith)
        requires
            radius >= 1,
            -2 * radius <= dx <= 2 * radius,
    ;
    lemma_multiply_divide_le(dx * 65536, radius, 131072);
    lemma_div_is_ordered(-(radius * 131072), dx * 65536, radius);
    lemma_div_multiples_vanish(-131072, radius);
    assert(-(radius * 131072) == radius * -131072) by (nonlinear_arith);
}

} // verus!
