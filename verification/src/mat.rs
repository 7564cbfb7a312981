//! Materials: the closed set of scattering behaviours a surface can have.

use vstd::prelude::*;
use vstd::arithmetic::div_mod::{
    lemma_div_is_ordered, lemma_div_multiples_vanish, lemma_div_pos_is_pos,
    lemma_multiply_divide_le,
};
use crate::fx::{
    fx_div, fx_mul, fx_sqrt, fx_div_spec, fx_mul_spec, fx_sqrt_spec,
    lemma_div_bound_pos_divisor, lemma_div_scale_range, lemma_mul_abs_bound,
    lemma_sqrt_floor_is_sqrt, SCALE,
};
use crate::hit::HitRecord;
use crate::ray::Ray;
use crate::vec3::{
    dot_spec, dot_wide, lemma_dot_wide_bound2, lemma_not_near_zero, reflect_spec, refract_spec,
    unit_spec, Vec3,
};

verus! {

/// Upper bound on the fuzz radius of a perturbed scatter (16 units).
pub const FUZZ_MAX: i64 = 0x10_0000;

/// Lowest admitted refraction index, 1/16 in fixed-point form.
pub const IR_MIN: i64 = 0x1000;

/// Highest admitted refraction index, 16 in fixed-point form.
pub const IR_MAX: i64 = 0x10_0000;

/// A colour whose channels lie in `[0, 1]`: a valid attenuation.
pub open spec fn albedo_wf(c: Vec3) -> bool {
    &&& 0 <= c.x <= SCALE as int
    &&& 0 <= c.y <= SCALE as int
    &&& 0 <= c.z <= SCALE as int
}

/// Diffuse surface: scatters about the normal, attenuating by `albedo`.
#[derive(Clone, Copy)]
pub struct Lambertian {
    pub albedo: Vec3,
}

/// Reflective surface: mirrors the incoming ray, perturbed by `fuzz`.
#[derive(Clone, Copy)]
pub struct Metal {
    pub albedo: Vec3,
    pub fuzz: i64,
}

/// Clear refractive surface with index `ir`, perturbed by `fuzz`.
#[derive(Clone, Copy)]
pub struct Dielectric {
    pub ir: i64,
    pub fuzz: i64,
}

/// Refractive surface that attenuates by a tint instead of passing white.
#[derive(Clone, Copy)]
#[allow(non_camel_case_types)]
pub struct Dielectric_Tint {
    pub ir: i64,
    pub fuzz: i64,
    pub albedo: Vec3,
}

/// The closed set of material kinds, dispatched by matching.
#[derive(Clone, Copy)]
pub enum Material {
    Lambertian(Lambertian),
    Metal(Metal),
    Dielectric(Dielectric),
    DielectricTint(Dielectric_Tint),
}

impl Lambertian {
    pub fn new(a: Vec3) -> (r: Lambertian)
        requires
            albedo_wf(a),
        ensures
            r.albedo == a,
    {
        Lambertian { albedo: a }
    }
}

impl Metal {
    pub fn new(a: Vec3, f: i64) -> (r: Metal)
        requires
            albedo_wf(a),
            0 <= f <= FUZZ_MAX,
        ensures
            r.albedo == a,
            r.fuzz == f,
    {
        Metal { albedo: a, fuzz: f }
    }
}

impl Dielectric {
    pub fn new(index_of_refraction: i64, fuzz: i64) -> (r: Dielectric)
        requires
            IR_MIN <= index_of_refraction <= IR_MAX,
            0 <= fuzz <= FUZZ_MAX,
        ensures
            r.ir == index_of_refraction,
            r.fuzz == fuzz,
    {
        Dielectric { ir: index_of_refraction, fuzz }
    }
}

impl Dielectric_Tint {
    pub fn new(index_of_refraction: i64, fuzz: i64, albedo: Vec3) -> (r: Dielectric_Tint)
        requires
            IR_MIN <= index_of_refraction <= IR_MAX,
            0 <= fuzz <= FUZZ_MAX,
            albedo_wf(albedo),
        ensures
            r.ir == index_of_refraction,
            r.fuzz == fuzz,
            r.albedo == albedo,
    {
        Dielectric_Tint { ir: index_of_refraction, fuzz, albedo }
    }
}

/// A vector drawn from the open unit ball.
pub open spec fn in_unit_ball(v: Vec3) -> bool {
    &&& dot_wide(v, v) < (SCALE as int) * (SCALE as int)
    &&& v.bounded(SCALE as int)
}

/// A unit-ball sample oriented toward `normal`, as the hemisphere
/// sampler guarantees: it never points away from the normal.
pub open spec fn hemi_sample_ok(v: Vec3, normal: Vec3) -> bool {
    &&& in_unit_ball(v)
    &&& dot_wide(v, normal) >= 0
}

/// The direction a diffuse surface scatters into, given the hemisphere
/// sample: the normal plus the sample, normalized, with the normal itself
/// as the fallback when that sum degenerates.
pub open spec fn lambertian_dir_spec(normal: Vec3, sample: Vec3) -> Vec3 {
    let sum = Vec3 {
        x: (normal.x + sample.x) as i64,
        y: (normal.y + sample.y) as i64,
        z: (normal.z + sample.z) as i64,
    };
    if dot_wide(sum, sum) < SCALE as int {
        normal
    } else {
        unit_spec(sum)
    }
}

/// Distributes a scalar over a dot product, one factor at a time.
proof fn lemma_dot_scale_left(l: int, dw: int, ux: int, uy: int, uz: int, nx: int, ny: int,
    nz: int)
    requires
        dw == ux * nx + uy * ny + uz * nz,
    ensures
        l * dw == nx * (l * ux) + ny * (l * uy) + nz * (l * uz),
{
    vstd::arithmetic::mul::lemma_mul_is_distributive_add(l, ux * nx + uy * ny, uz * nz);
    vstd::arithmetic::mul::lemma_mul_is_distributive_add(l, ux * nx, uy * ny);
    vstd::arithmetic::mul::lemma_mul_is_associative(l, ux, nx);
    vstd::arithmetic::mul::lemma_mul_is_commutative(l * ux, nx);
    vstd::arithmetic::mul::lemma_mul_is_associative(l, uy, ny);
    vstd::arithmetic::mul::lemma_mul_is_commutative(l * uy, ny);
    vstd::arithmetic::mul::lemma_mul_is_associative(l, uz, nz);
    vstd::arithmetic::mul::lemma_mul_is_commutative(l * uz, nz);
}

/// Distributes a scalar over a dot product, from the other side.
proof fn lemma_dot_scale_right(s: int, ds: int, sx: int, sy: int, sz: int, nx: int, ny: int,
    nz: int)
    requires
        ds == sx * nx + sy * ny + sz * nz,
    ensures
        nx * (sx * s) + ny * (sy * s) + nz * (sz * s) == s * ds,
{
    vstd::arithmetic::mul::lemma_mul_is_distributive_add(s, sx * nx + sy * ny, sz * nz);
    vstd::arithmetic::mul::lemma_mul_is_distributive_add(s, sx * nx, sy * ny);
    vstd::arithmetic::mul::lemma_mul_is_associative(s, sx, nx);
    vstd::arithmetic::mul::lemma_mul_is_commutative(sx, s);
    vstd::arithmetic::mul::lemma_mul_is_commutative(nx, sx * s);
    vstd::arithmetic::mul::lemma_mul_is_commutative(s * sx, nx);
    vstd::arithmetic::mul::lemma_mul_is_associative(s, sy, ny);
    vstd::arithmetic::mul::lemma_mul_is_commutative(sy, s);
    vstd::arithmetic::mul::lemma_mul_is_commutative(ny, sy * s);
    vstd::arithmetic::mul::lemma_mul_is_commutative(s * sy, ny);
    vstd::arithmetic::mul::lemma_mul_is_associative(s, sz, nz);
    vstd::arithmetic::mul::lemma_mul_is_commutative(sz, s);
    vstd::arithmetic::mul::lemma_mul_is_commutative(nz, sz * s);
    vstd::arithmetic::mul::lemma_mul_is_commutative(s * sz, nz);
}

/// A diffuse scatter direction points strictly out of the surface: for
/// a normal of near-unit length (as the sphere intersection guarantees
/// on-surface) and a hemisphere-oriented sample, the direction's
/// unscaled dot product with the normal is positive, in the fallback
/// case and in the normalized case alike.
pub proof fn lemma_lambertian_dir_above_surface(normal: Vec3, sample: Vec3)
    requires
        normal.bounded(131073),
        (SCALE as int) * (SCALE as int) - 12 * (SCALE as int) <= dot_wide(normal, normal) <= (
        SCALE as int) * (SCALE as int) + 12 * (SCALE as int) + 3,
        hemi_sample_ok(sample, normal),
    ensures
        dot_wide(lambertian_dir_spec(normal, sample), normal) > 0,
{
    let s = SCALE as int;
    let nn = dot_wide(normal, normal);
    let sum = Vec3 {
        x: (normal.x + sample.x) as i64,
        y: (normal.y + sample.y) as i64,
        z: (normal.z + sample.z) as i64,
    };
    let ds = dot_wide(sum, normal);
    assert(ds == nn + dot_wide(sample, normal)) by (nonlinear_arith)
        requires
            sum.x == normal.x + sample.x,
            sum.y == normal.y + sample.y,
            sum.z == normal.z + sample.z,
            ds == sum.x * normal.x + sum.y * normal.y + sum.z * normal.z,
            nn == normal.x * normal.x + normal.y * normal.y + normal.z * normal.z,
            dot_wide(sample, normal) == sample.x * normal.x + sample.y * normal.y + sample.z
                * normal.z,
    ;
    assert(ds >= nn);
    if dot_wide(sum, sum) < s {
        assert(lambertian_dir_spec(normal, sample) == normal);
    } else {
        lemma_not_near_zero(sum);
        let l = crate::vec3::length_spec(sum);
        crate::vec3::lemma_dot_wide_self_nonneg(sum);
        crate::vec3::lemma_dot_wide_bound(sum, sum, 196610);
        crate::fx::lemma_div_scale_range(dot_wide(sum, sum));
        vstd::arithmetic::div_mod::lemma_div_pos_is_pos(dot_wide(sum, sum), s);
        let lsq = dot_spec(sum, sum);
        crate::fx::lemma_sqrt_floor_is_sqrt((lsq * s) as nat);
        assert(l * l <= lsq * s < (l + 1) * (l + 1));
        assert(1 <= l <= 393220) by (nonlinear_arith)
            requires
                0 <= l,
                256 <= l,
                l * l <= lsq * s,
                lsq * s <= dot_wide(sum, sum),
                dot_wide(sum, sum) <= 3 * (196610 * 196610),
        ;
        let u = crate::vec3::unit_spec(sum);
        vstd::arithmetic::div_mod::lemma_fundamental_div_mod(sum.x * s, l);
        vstd::arithmetic::div_mod::lemma_fundamental_div_mod(sum.y * s, l);
        vstd::arithmetic::div_mod::lemma_fundamental_div_mod(sum.z * s, l);
        let ux = crate::fx::fx_div_spec(sum.x as int, l);
        let uy = crate::fx::fx_div_spec(sum.y as int, l);
        let uz = crate::fx::fx_div_spec(sum.z as int, l);
        let ex = (sum.x * s) % l;
        let ey = (sum.y * s) % l;
        let ez = (sum.z * s) % l;
        assert(sum.x * s == l * ux + ex && 0 <= ex < l);
        assert(sum.y * s == l * uy + ey && 0 <= ey < l);
        assert(sum.z * s == l * uz + ez && 0 <= ez < l);
        assert(u.x == ux && u.y == uy && u.z == uz) by {
            crate::fx::lemma_mul_abs_bound(sum.x as int, s, 196610, s);
            crate::fx::lemma_mul_abs_bound(sum.y as int, s, 196610, s);
            crate::fx::lemma_mul_abs_bound(sum.z as int, s, 196610, s);
            crate::fx::lemma_div_bound_pos_divisor(sum.x * s, l, 196610 * (SCALE as int));
            crate::fx::lemma_div_bound_pos_divisor(sum.y * s, l, 196610 * (SCALE as int));
            crate::fx::lemma_div_bound_pos_divisor(sum.z * s, l, 196610 * (SCALE as int));
        }
        let ne = normal.x * ex + normal.y * ey + normal.z * ez;
        lemma_dot_scale_left(l, dot_wide(u, normal), ux, uy, uz, normal.x as int,
            normal.y as int, normal.z as int);
        assert((normal.x as int) * (l * ux) == (normal.x as int) * (sum.x * s) - normal.x * ex)
            by (nonlinear_arith)
            requires
                sum.x * s == l * ux + ex,
        ;
        assert((normal.y as int) * (l * uy) == (normal.y as int) * (sum.y * s) - normal.y * ey)
            by (nonlinear_arith)
            requires
                sum.y * s == l * uy + ey,
        ;
        assert((normal.z as int) * (l * uz) == (normal.z as int) * (sum.z * s) - normal.z * ez)
            by (nonlinear_arith)
            requires
                sum.z * s == l * uz + ez,
        ;
        lemma_dot_scale_right(s, ds, sum.x as int, sum.y as int, sum.z as int,
            normal.x as int, normal.y as int, normal.z as int);
        assert(l * dot_wide(u, normal) == s * ds - ne);
        assert(-(3 * (131073 * 393220)) <= ne <= 3 * (131073 * 393220)) by (nonlinear_arith)
            requires
                -131073 <= normal.x <= 131073,
                -131073 <= normal.y <= 131073,
                -131073 <= normal.z <= 131073,
                0 <= ex < l,
                0 <= ey < l,
                0 <= ez < l,
                l <= 393220,
                ne == normal.x * ex + normal.y * ey + normal.z * ez,
        ;
        assert(s * ds >= s * (s * s - 12 * s)) by (nonlinear_arith)
            requires
                ds >= s * s - 12 * s,
                s == 65536,
        ;
        assert(l * dot_wide(u, normal) > 0);
        assert(dot_wide(u, normal) > 0) by (nonlinear_arith)
            requires
                l * dot_wide(u, normal) > 0,
                l >= 1,
        ;
        assert(lambertian_dir_spec(normal, sample) == u);
    }
}

/// What a diffuse surface scatters: its albedo, and a ray from the hit
/// point in the sampled direction, at the incoming ray's time.
pub open spec fn lambertian_scatter_spec(m: Lambertian, r_in: Ray, rec: HitRecord, sample: Vec3)
    -> (Vec3, Ray) {
    (m.albedo, Ray { orig: rec.p, dir: lambertian_dir_spec(rec.normal, sample), tm: r_in.tm })
}

/// The direction a metal scatters into: the mirrored unit direction,
/// perturbed by `fuzz` times the ball sample.
pub open spec fn metal_dir_spec(u: Vec3, normal: Vec3, fuzz: int, ball: Vec3) -> Vec3 {
    let refl = reflect_spec(u, normal);
    Vec3 {
        x: (refl.x + fx_mul_spec(fuzz, ball.x as int)) as i64,
        y: (refl.y + fx_mul_spec(fuzz, ball.y as int)) as i64,
        z: (refl.z + fx_mul_spec(fuzz, ball.z as int)) as i64,
    }
}

/// What a metal scatters: its albedo and the perturbed mirror direction,
/// or absorption when that direction points into the surface.
pub open spec fn metal_scatter_spec(m: Metal, r_in: Ray, rec: HitRecord, ball: Vec3)
    -> Option<(Vec3, Ray)> {
    let dir = metal_dir_spec(unit_spec(r_in.dir), rec.normal, m.fuzz as int, ball);
    if dot_spec(dir, rec.normal) > 0 {
        Some((m.albedo, Ray { orig: rec.p, dir, tm: r_in.tm }))
    } else {
        None
    }
}

/// The Schlick approximation to the Fresnel reflectance:
/// `r0 + (1 - r0) (1 - cos)^5` with `r0 = ((1 - n)/(1 + n))^2`.
pub open spec fn reflectance_spec(cosine: int, ref_idx: int) -> int {
    let s = SCALE as int;
    let q = fx_div_spec(s - ref_idx, s + ref_idx);
    let r0 = fx_mul_spec(q, q);
    let p1 = s - cosine;
    let p2 = fx_mul_spec(p1, p1);
    let p4 = fx_mul_spec(p2, p2);
    let p5 = fx_mul_spec(p4, p1);
    r0 + fx_mul_spec(s - r0, p5)
}

/// The direction a refractive surface sends the unit ray `u` into, before
/// any fuzz: reflection under total internal reflection or a reflectance
/// draw below the Schlick term, refraction otherwise.
pub open spec fn dielectric_dir_spec(u: Vec3, normal: Vec3, front: bool, ir: int, draw: int)
    -> Vec3 {
    let s = SCALE as int;
    let ratio = if front {
        fx_div_spec(s, ir)
    } else {
        ir
    };
    let cos0 = (-dot_wide(u, normal)) / s;
    let cos = if cos0 > s {
        s
    } else {
        cos0
    };
    let ksin = s - fx_mul_spec(cos, cos);
    let sin = if ksin < 0 {
        0
    } else {
        fx_sqrt_spec(ksin)
    };
    let cannot_refract = fx_mul_spec(ratio, sin) > s;
    let will_reflect = draw < reflectance_spec(cos, ratio);
    if cannot_refract || will_reflect {
        reflect_spec(u, normal)
    } else {
        refract_spec(u, normal, ratio)
    }
}

/// What a clear dielectric scatters: white attenuation, and the refracted
/// or reflected direction perturbed by `fuzz` times the ball sample.
pub open spec fn dielectric_scatter_spec(m: Dielectric, r_in: Ray, rec: HitRecord, draw: int,
    ball: Vec3) -> (Vec3, Ray) {
    let dir0 = dielectric_dir_spec(unit_spec(r_in.dir), rec.normal, rec.front_face, m.ir as int,
        draw);
    let dir = Vec3 {
        x: (dir0.x + fx_mul_spec(m.fuzz as int, ball.x as int)) as i64,
        y: (dir0.y + fx_mul_spec(m.fuzz as int, ball.y as int)) as i64,
        z: (dir0.z + fx_mul_spec(m.fuzz as int, ball.z as int)) as i64,
    };
    (Vec3 { x: SCALE, y: SCALE, z: SCALE }, Ray { orig: rec.p, dir, tm: r_in.tm })
}

/// What a tinted dielectric scatters: as the clear one, but attenuating
/// by the tint and perturbing with a hemisphere-oriented sample.
pub open spec fn tinted_scatter_spec(m: Dielectric_Tint, r_in: Ray, rec: HitRecord, draw: int,
    hemi: Vec3) -> (Vec3, Ray) {
    let dir0 = dielectric_dir_spec(unit_spec(r_in.dir), rec.normal, rec.front_face, m.ir as int,
        draw);
    let dir = Vec3 {
        x: (dir0.x + fx_mul_spec(m.fuzz as int, hemi.x as int)) as i64,
        y: (dir0.y + fx_mul_spec(m.fuzz as int, hemi.y as int)) as i64,
        z: (dir0.z + fx_mul_spec(m.fuzz as int, hemi.z as int)) as i64,
    };
    (m.albedo, Ray { orig: rec.p, dir, tm: r_in.tm })
}

/// What a material's scatter can have returned: the deterministic
/// outcome of its kind, for some admissible random draws.
pub open spec fn scatter_outcome_ok(mat: Material, r_in: Ray, rec: HitRecord, res: Option<(
    Vec3, Ray)>) -> bool {
    match mat {
        Material::Lambertian(m) => exists|sample: Vec3|
            hemi_sample_ok(sample, rec.normal) && res == Some(
                lambertian_scatter_spec(m, r_in, rec, sample)),
        Material::Metal(m) => exists|ball: Vec3|
            in_unit_ball(ball) && res == metal_scatter_spec(m, r_in, rec, ball),
        Material::Dielectric(m) => exists|draw: int, ball: Vec3|
            0 <= draw < SCALE as int && in_unit_ball(ball) && res == Some(
                dielectric_scatter_spec(m, r_in, rec, draw, ball)),
        Material::DielectricTint(m) => exists|draw: int, hemi: Vec3|
            0 <= draw < SCALE as int && hemi_sample_ok(hemi, rec.normal) && res == Some(
                tinted_scatter_spec(m, r_in, rec, draw, hemi)),
    }
}

impl Material {
    /// Parameter bounds that every constructed material satisfies.
    pub open spec fn wf(self) -> bool {
        match self {
            Material::Lambertian(m) => albedo_wf(m.albedo),
            Material::Metal(m) => albedo_wf(m.albedo) && 0 <= m.fuzz <= FUZZ_MAX as int,
            Material::Dielectric(m) => IR_MIN as int <= m.ir <= IR_MAX as int && 0 <= m.fuzz
                <= FUZZ_MAX as int,
            Material::DielectricTint(m) => IR_MIN as int <= m.ir <= IR_MAX as int && 0 <= m.fuzz
                <= FUZZ_MAX as int && albedo_wf(m.albedo),
        }
    }

    /// Dispatches to the variant's scattering. Whatever the random draws
    /// were, the attenuation is a valid colour and the scattered ray
    /// starts at the hit point, keeps the incoming time, and stays
    /// well-formed; only a metal can absorb the ray.
    pub fn scatter(&self, rng: &mut rand::rngs::StdRng, r_in: &Ray, rec: &HitRecord) -> (res:
        Option<(Vec3, Ray)>)
        requires
            self.wf(),
            r_in.wf(),
            dot_wide(r_in.dir, r_in.dir) >= SCALE as int,
            rec.normal.bounded(131073),
            rec.p.bounded(crate::ray::POS_BOUND as int),
        ensures
            match res {
                Some(p) => {
                    &&& albedo_wf(p.0)
                    &&& p.1.orig == rec.p
                    &&& p.1.tm == r_in.tm
                    &&& p.1.wf()
                },
                None => true,
            },
            match *self {
                Material::Metal(_) => true,
                _ => res is Some,
            },
            scatter_outcome_ok(*self, *r_in, *rec, res),
    {
        match self {
            Material::Lambertian(m) => m.scatter(rng, r_in, rec),
            Material::Metal(m) => m.scatter(rng, r_in, rec),
            Material::Dielectric(m) => m.scatter(rng, r_in, rec),
            Material::DielectricTint(m) => m.scatter(rng, r_in, rec),
        }
    }
}

impl Lambertian {
    /// The deterministic part of diffuse scattering, with the hemisphere
    /// sample handed in.
    pub fn scatter_with(&self, sample: Vec3, r_in: &Ray, rec: &HitRecord) -> (res: (Vec3, Ray))
        requires
            rec.normal.bounded(131073),
            sample.bounded(SCALE as int),
        ensures
            res == lambertian_scatter_spec(*self, *r_in, *rec, sample),
            res.1.dir.bounded(131074),
    {
        let sum = rec.normal.add(sample);
        let dir = if sum.near_zero() {
            rec.normal
        } else {
            proof {
                lemma_not_near_zero(sum);
            }
            sum.unit_vector()
        };
        (self.albedo, Ray::new(rec.p, dir, r_in.time()))
    }

    /// Diffuse scattering: never absorbs; the result is the deterministic
    /// scatter of some hemisphere-oriented sample.
    pub fn scatter(&self, rng: &mut rand::rngs::StdRng, r_in: &Ray, rec: &HitRecord) -> (res:
        Option<(Vec3, Ray)>)
        requires
            rec.normal.bounded(131073),
        ensures
            res is Some,
            exists|sample: Vec3|
                hemi_sample_ok(sample, rec.normal) && res == Some(
                    lambertian_scatter_spec(*self, *r_in, *rec, sample)),
            match res {
                Some(p) => p.0 == self.albedo && p.1.orig == rec.p && p.1.tm == r_in.tm
                    && p.1.dir.bounded(131074),
                None => true,
            },
    {
        let sample = Vec3::random_in_hemisphere(rng, rec.normal);
        let pair = self.scatter_with(sample, r_in, rec);
        proof {
            assert(hemi_sample_ok(sample, rec.normal) && Some(pair) == Some(
                lambertian_scatter_spec(*self, *r_in, *rec, sample)));
        }
        Some(pair)
    }
}

impl Metal {
    /// The deterministic part of metallic scattering, with the fuzz ball
    /// sample handed in.
    pub fn scatter_with(&self, ball: Vec3, r_in: &Ray, rec: &HitRecord) -> (res: Option<(Vec3,
        Ray)>)
        requires
            0 <= self.fuzz <= FUZZ_MAX,
            r_in.dir.bounded(crate::ray::DIR_BOUND as int),
            dot_wide(r_in.dir, r_in.dir) >= SCALE as int,
            rec.normal.bounded(131073),
            ball.bounded(SCALE as int),
        ensures
            res == metal_scatter_spec(*self, *r_in, *rec, ball),
            match res {
                Some(p) => p.1.dir.bounded(27262978),
                None => true,
            },
    {
        proof {
            lemma_not_near_zero(r_in.dir);
        }
        let u = r_in.direction().unit_vector();
        let refl = u.reflect(rec.normal);
        proof {
            lemma_mul_abs_bound(self.fuzz as int, ball.x as int, 1048576, 65536);
            lemma_mul_abs_bound(self.fuzz as int, ball.y as int, 1048576, 65536);
            lemma_mul_abs_bound(self.fuzz as int, ball.z as int, 1048576, 65536);
            lemma_div_scale_range(self.fuzz * ball.x);
            lemma_div_scale_range(self.fuzz * ball.y);
            lemma_div_scale_range(self.fuzz * ball.z);
        }
        let dir = Vec3 {
            x: refl.x + fx_mul(self.fuzz, ball.x),
            y: refl.y + fx_mul(self.fuzz, ball.y),
            z: refl.z + fx_mul(self.fuzz, ball.z),
        };
        proof {
            lemma_dot_wide_bound2(dir, rec.normal, 27262978, 131073);
            lemma_div_scale_range(dot_wide(dir, rec.normal));
        }
        let d = dir.dot(rec.normal);
        if d > 0 {
            Some((self.albedo, Ray::new(rec.p, dir, r_in.time())))
        } else {
            None
        }
    }

    /// Metallic scattering: the result is the deterministic scatter of
    /// some unit-ball sample; absorption happens exactly when the
    /// perturbed mirror direction points into the surface.
    pub fn scatter(&self, rng: &mut rand::rngs::StdRng, r_in: &Ray, rec: &HitRecord) -> (res:
        Option<(Vec3, Ray)>)
        requires
            0 <= self.fuzz <= FUZZ_MAX,
            r_in.dir.bounded(crate::ray::DIR_BOUND as int),
            dot_wide(r_in.dir, r_in.dir) >= SCALE as int,
            rec.normal.bounded(131073),
        ensures
            exists|ball: Vec3|
                in_unit_ball(ball) && res == metal_scatter_spec(*self, *r_in, *rec, ball),
            match res {
                Some(p) => p.0 == self.albedo && p.1.orig == rec.p && p.1.tm == r_in.tm
                    && p.1.dir.bounded(27262978),
                None => true,
            },
    {
        let ball = Vec3::random_in_unit_sphere(rng);
        let res = self.scatter_with(ball, r_in, rec);
        proof {
            assert(in_unit_ball(ball) && res == metal_scatter_spec(*self, *r_in, *rec, ball));
        }
        res
    }
}

/// Schlick reflectance, shared by the refractive materials.
fn schlick(cosine: i64, ref_idx: i64) -> (r: i64)
    requires
        1 <= ref_idx <= 16 * SCALE,
        -786500 <= cosine <= SCALE,
    ensures
        r == reflectance_spec(cosine as int, ref_idx as int),
{
    proof {
        lemma_mul_abs_bound(SCALE as int - ref_idx, SCALE as int, 1048576, 65536);
        lemma_div_bound_pos_divisor((SCALE - ref_idx) * SCALE as int, (SCALE + ref_idx) as int,
            68719476736);
        assert((SCALE - ref_idx) * (SCALE as int) < ((SCALE + ref_idx) as int) * 65538
            && -(((SCALE + ref_idx) as int) * 65538) < (SCALE - ref_idx) * (SCALE as int))
            by (nonlinear_arith)
            requires
                1 <= ref_idx <= 1048576,
        ;
        vstd::arithmetic::div_mod::lemma_multiply_divide_lt(
            (SCALE - ref_idx) * SCALE as int, (SCALE + ref_idx) as int, 65538);
        lemma_div_is_ordered(-(((SCALE + ref_idx) as int) * 65538),
            (SCALE - ref_idx) * SCALE as int, (SCALE + ref_idx) as int);
        lemma_div_multiples_vanish(-65538, (SCALE + ref_idx) as int);
        assert(-(((SCALE + ref_idx) as int) * 65538) == ((SCALE + ref_idx) as int) * -65538)
            by (nonlinear_arith);
    }
    let q = fx_div(SCALE - ref_idx, SCALE + ref_idx);
    proof {
        lemma_mul_abs_bound(q as int, q as int, 65538, 65538);
        lemma_div_scale_range(q * q);
        assert(q * q >= 0) by (nonlinear_arith);
        lemma_div_pos_is_pos(q * q, SCALE as int);
    }
    let r0 = fx_mul(q, q);
    let p1 = SCALE - cosine;
    proof {
        lemma_mul_abs_bound(p1 as int, p1 as int, 852036, 852036);
        lemma_div_scale_range(p1 * p1);
    }
    let p2 = fx_mul(p1, p1);
    proof {
        lemma_mul_abs_bound(p2 as int, p2 as int, 11078000, 11078000);
        lemma_div_scale_range(p2 * p2);
    }
    let p4 = fx_mul(p2, p2);
    proof {
        lemma_mul_abs_bound(p4 as int, p1 as int, 1872600000, 852036);
        lemma_div_scale_range(p4 * p1);
    }
    let p5 = fx_mul(p4, p1);
    proof {
        lemma_mul_abs_bound(SCALE as int - r0, p5 as int, 65540, 24346000000000);
        lemma_div_scale_range((SCALE - r0) * p5);
    }
    r0 + fx_mul(SCALE - r0, p5)
}

/// The shared refract-or-reflect decision of the refractive materials.
fn dielectric_direction(u: Vec3, normal: Vec3, front: bool, ir: i64, draw: i64) -> (dir: Vec3)
    requires
        u.bounded(131074),
        normal.bounded(131073),
        IR_MIN <= ir <= IR_MAX,
        0 <= draw < SCALE,
    ensures
        dir == dielectric_dir_spec(u, normal, front, ir as int, draw as int),
        dir.bounded(26214400),
{
    let ratio = if front {
        proof {
            assert(65536 * (SCALE as int) >= 4096 * (ir as int) && 4096 * (ir as int) == (
            ir as int) * 4096 && 65536 * (SCALE as int) <= (ir as int) * 1048576)
                by (nonlinear_arith)
                requires
                    4096 <= ir <= 1048576,
            ;
            lemma_multiply_divide_le(65536 * SCALE as int, ir as int, 1048576);
            lemma_div_is_ordered(4096 * ir as int, 65536 * SCALE as int, ir as int);
            lemma_div_multiples_vanish(4096, ir as int);
        }
        fx_div(SCALE, ir)
    } else {
        ir
    };
    let nu = u.neg();
    proof {
        lemma_dot_wide_bound2(nu, normal, 131074, 131073);
        lemma_div_scale_range(dot_wide(nu, normal));
        assert(dot_wide(nu, normal) == -dot_wide(u, normal)) by (nonlinear_arith)
            requires
                nu.x == -u.x,
                nu.y == -u.y,
                nu.z == -u.z,
                dot_wide(nu, normal) == nu.x * normal.x + nu.y * normal.y + nu.z * normal.z,
                dot_wide(u, normal) == u.x * normal.x + u.y * normal.y + u.z * normal.z,
        ;
    }
    let cos0 = nu.dot(normal);
    let cos = if cos0 > SCALE {
        SCALE
    } else {
        cos0
    };
    proof {
        lemma_mul_abs_bound(cos as int, cos as int, 786500, 786500);
        lemma_div_scale_range(cos * cos);
    }
    proof {
        assert(cos * cos >= 0) by (nonlinear_arith);
        lemma_div_pos_is_pos(cos * cos, SCALE as int);
    }
    let ksin = SCALE - fx_mul(cos, cos);
    let sin = fx_sqrt(ksin);
    proof {
        if ksin >= 0 {
            lemma_sqrt_floor_is_sqrt((ksin * SCALE as int) as nat);
            assert(sin * sin <= ksin * 65536 <= 65536 * 65536);
            assert(sin <= 65536) by (nonlinear_arith)
                requires
                    0 <= sin,
                    sin * sin <= 65536 * 65536,
            ;
        }
        lemma_mul_abs_bound(ratio as int, sin as int, 1048576, 65536);
        lemma_div_scale_range(ratio * sin);
    }
    let cannot_refract = fx_mul(ratio, sin) > SCALE;
    let will_reflect = draw < schlick(cos, ratio);
    if cannot_refract || will_reflect {
        u.reflect(normal)
    } else {
        u.refract(normal, ratio)
    }
}

impl Dielectric {
    /// The Schlick reflectance approximation.
    pub fn reflectance(cosine: i64, ref_idx: i64) -> (r: i64)
        requires
            1 <= ref_idx <= 16 * SCALE,
            -786500 <= cosine <= SCALE,
        ensures
            r == reflectance_spec(cosine as int, ref_idx as int),
    {
        schlick(cosine, ref_idx)
    }

    /// The deterministic part of clear refractive scattering, with the
    /// reflectance draw and the fuzz ball sample handed in.
    pub fn scatter_with(&self, draw: i64, ball: Vec3, r_in: &Ray, rec: &HitRecord) -> (res: (
        Vec3, Ray))
        requires
            IR_MIN <= self.ir <= IR_MAX,
            0 <= self.fuzz <= FUZZ_MAX,
            r_in.dir.bounded(crate::ray::DIR_BOUND as int),
            dot_wide(r_in.dir, r_in.dir) >= SCALE as int,
            rec.normal.bounded(131073),
            ball.bounded(SCALE as int),
            0 <= draw < SCALE,
        ensures
            res == dielectric_scatter_spec(*self, *r_in, *rec, draw as int, ball),
            res.1.dir.bounded(27262978),
    {
        proof {
            lemma_not_near_zero(r_in.dir);
        }
        let u = r_in.direction().unit_vector();
        let dir0 = dielectric_direction(u, rec.normal, rec.front_face, self.ir, draw);
        proof {
            lemma_mul_abs_bound(self.fuzz as int, ball.x as int, 1048576, 65536);
            lemma_mul_abs_bound(self.fuzz as int, ball.y as int, 1048576, 65536);
            lemma_mul_abs_bound(self.fuzz as int, ball.z as int, 1048576, 65536);
            lemma_div_scale_range(self.fuzz * ball.x);
            lemma_div_scale_range(self.fuzz * ball.y);
            lemma_div_scale_range(self.fuzz * ball.z);
        }
        let dir = Vec3 {
            x: dir0.x + fx_mul(self.fuzz, ball.x),
            y: dir0.y + fx_mul(self.fuzz, ball.y),
            z: dir0.z + fx_mul(self.fuzz, ball.z),
        };
        (Vec3 { x: SCALE, y: SCALE, z: SCALE }, Ray::new(rec.p, dir, r_in.time()))
    }

    /// Clear refractive scattering: never absorbs; white attenuation; the
    /// result is the deterministic scatter of some reflectance draw and
    /// some unit-ball sample.
    pub fn scatter(&self, rng: &mut rand::rngs::StdRng, r_in: &Ray, rec: &HitRecord) -> (res:
        Option<(Vec3, Ray)>)
        requires
            IR_MIN <= self.ir <= IR_MAX,
            0 <= self.fuzz <= FUZZ_MAX,
            r_in.dir.bounded(crate::ray::DIR_BOUND as int),
            dot_wide(r_in.dir, r_in.dir) >= SCALE as int,
            rec.normal.bounded(131073),
        ensures
            res is Some,
            exists|draw: int, ball: Vec3|
                0 <= draw < SCALE as int && in_unit_ball(ball) && res == Some(
                    dielectric_scatter_spec(*self, *r_in, *rec, draw, ball)),
            match res {
                Some(p) => p.0 == (Vec3 { x: SCALE as i64, y: SCALE as i64, z: SCALE as i64 })
                    && p.1.orig == rec.p && p.1.tm == r_in.tm && p.1.dir.bounded(27262978),
                None => true,
            },
    {
        let draw = crate::rng::random_unit_scalar(rng);
        let ball = Vec3::random_in_unit_sphere(rng);
        let pair = self.scatter_with(draw, ball, r_in, rec);
        proof {
            assert(0 <= (draw as int) < (SCALE as int) && in_unit_ball(ball) && Some(pair) == Some(
                dielectric_scatter_spec(*self, *r_in, *rec, draw as int, ball)));
        }
        Some(pair)
    }
}

impl Dielectric_Tint {
    /// The Schlick reflectance approximation.
    pub fn reflectance(cosine: i64, ref_idx: i64) -> (r: i64)
        requires
            1 <= ref_idx <= 16 * SCALE,
            -786500 <= cosine <= SCALE,
        ensures
            r == reflectance_spec(cosine as int, ref_idx as int),
    {
        schlick(cosine, ref_idx)
    }

    /// The deterministic part of tinted refractive scattering, with the
    /// reflectance draw and the hemisphere sample handed in.
    pub fn scatter_with(&self, draw: i64, hemi: Vec3, r_in: &Ray, rec: &HitRecord) -> (res: (
        Vec3, Ray))
        requires
            IR_MIN <= self.ir <= IR_MAX,
            0 <= self.fuzz <= FUZZ_MAX,
            r_in.dir.bounded(crate::ray::DIR_BOUND as int),
            dot_wide(r_in.dir, r_in.dir) >= SCALE as int,
            rec.normal.bounded(131073),
            hemi.bounded(SCALE as int),
            0 <= draw < SCALE,
        ensures
            res == tinted_scatter_spec(*self, *r_in, *rec, draw as int, hemi),
            res.1.dir.bounded(27262978),
    {
        proof {
            lemma_not_near_zero(r_in.dir);
        }
        let u = r_in.direction().unit_vector();
        let dir0 = dielectric_direction(u, rec.normal, rec.front_face, self.ir, draw);
        proof {
            lemma_mul_abs_bound(self.fuzz as int, hemi.x as int, 1048576, 65536);
            lemma_mul_abs_bound(self.fuzz as int, hemi.y as int, 1048576, 65536);
            lemma_mul_abs_bound(self.fuzz as int, hemi.z as int, 1048576, 65536);
            lemma_div_scale_range(self.fuzz * hemi.x);
            lemma_div_scale_range(self.fuzz * hemi.y);
            lemma_div_scale_range(self.fuzz * hemi.z);
        }
        let dir = Vec3 {
            x: dir0.x + fx_mul(self.fuzz, hemi.x),
            y: dir0.y + fx_mul(self.fuzz, hemi.y),
            z: dir0.z + fx_mul(self.fuzz, hemi.z),
        };
        (self.albedo, Ray::new(rec.p, dir, r_in.time()))
    }

    /// Tinted refractive scattering: never absorbs; attenuates by the
    /// tint; the perturbation sample is hemisphere-oriented.
    pub fn scatter(&self, rng: &mut rand::rngs::StdRng, r_in: &Ray, rec: &HitRecord) -> (res:
        Option<(Vec3, Ray)>)
        requires
            IR_MIN <= self.ir <= IR_MAX,
            0 <= self.fuzz <= FUZZ_MAX,
            r_in.dir.bounded(crate::ray::DIR_BOUND as int),
            dot_wide(r_in.dir, r_in.dir) >= SCALE as int,
            rec.normal.bounded(131073),
        ensures
            res is Some,
            exists|draw: int, hemi: Vec3|
                0 <= draw < SCALE as int && hemi_sample_ok(hemi, rec.normal) && res == Some(
                    tinted_scatter_spec(*self, *r_in, *rec, draw, hemi)),
            match res {
                Some(p) => p.0 == self.albedo && p.1.orig == rec.p && p.1.tm == r_in.tm
                    && p.1.dir.bounded(27262978),
                None => true,
            },
    {
        let draw = crate::rng::random_unit_scalar(rng);
        let hemi = Vec3::random_in_hemisphere(rng, rec.normal);
        let pair = self.scatter_with(draw, hemi, r_in, rec);
        proof {
            assert(0 <= (draw as int) < (SCALE as int) && hemi_sample_ok(hemi, rec.normal) && Some(
                pair) == Some(tinted_scatter_spec(*self, *r_in, *rec, draw as int, hemi)));
        }
        Some(pair)
    }
}

} // verus!
