//! The three-component fixed-point vector, used throughout as a point in
//! space, a direction, or an RGB colour.

use vstd::prelude::*;
use vstd::arithmetic::div_mod::{
    lemma_div_is_ordered, lemma_div_multiples_vanish, lemma_fundamental_div_mod,
    lemma_multiply_divide_lt,
};
use crate::fx::{
    fx_div, fx_mul, fx_sqrt, floor_div, fx_div_spec, fx_mul_spec, fx_sqrt_spec,
    lemma_div_bound_pos_divisor, lemma_div_scale_range, lemma_mul_abs_bound,
    lemma_sqrt_floor_is_sqrt, SCALE,
};

verus! {

/// Componentwise bound under which squared norms and dot products of two
/// such vectors still fit the arithmetic here.
pub const NORM_BOUND: i64 = 0x40_0000_0000;

#[derive(Clone, Copy, Debug, PartialEq, Eq, Structural)]
pub struct Vec3 {
    pub x: i64,
    pub y: i64,
    pub z: i64,
}

/// The exact (unscaled) sum of componentwise products; the fixed-point dot
/// product is this value floor-divided by `SCALE`.
pub open spec fn dot_wide(u: Vec3, v: Vec3) -> int {
    u.x * v.x + u.y * v.y + u.z * v.z
}

/// The fixed-point dot product.
pub open spec fn dot_spec(u: Vec3, v: Vec3) -> int {
    dot_wide(u, v) / (SCALE as int)
}

/// The fixed-point length: the floored square root of the fixed-point
/// squared norm.
pub open spec fn length_spec(v: Vec3) -> int {
    fx_sqrt_spec(dot_spec(v, v))
}

/// The vector scaled to unit length (meaningful when the length is
/// positive).
pub open spec fn unit_spec(v: Vec3) -> Vec3 {
    Vec3 {
        x: fx_div_spec(v.x as int, length_spec(v)) as i64,
        y: fx_div_spec(v.y as int, length_spec(v)) as i64,
        z: fx_div_spec(v.z as int, length_spec(v)) as i64,
    }
}

/// The fixed-point cross product.
pub open spec fn cross_spec(u: Vec3, v: Vec3) -> Vec3 {
    Vec3 {
        x: (fx_mul_spec(u.y as int, v.z as int) - fx_mul_spec(u.z as int, v.y as int)) as i64,
        y: (fx_mul_spec(u.z as int, v.x as int) - fx_mul_spec(u.x as int, v.z as int)) as i64,
        z: (fx_mul_spec(u.x as int, v.y as int) - fx_mul_spec(u.y as int, v.x as int)) as i64,
    }
}

/// The mirror reflection `v - 2 (v . n) n`.
pub open spec fn reflect_spec(v: Vec3, n: Vec3) -> Vec3 {
    Vec3 {
        x: (v.x - fx_mul_spec(2 * dot_spec(v, n), n.x as int)) as i64,
        y: (v.y - fx_mul_spec(2 * dot_spec(v, n), n.y as int)) as i64,
        z: (v.z - fx_mul_spec(2 * dot_spec(v, n), n.z as int)) as i64,
    }
}

/// The Snell refraction of `v` about `n` with ratio `eta`, as `refract`
/// computes it.
pub open spec fn refract_spec(v: Vec3, n: Vec3, eta: int) -> Vec3 {
    let s = SCALE as int;
    let cos0 = (-dot_wide(v, n)) / s;
    let cos = if cos0 > s { s } else if cos0 < -s { -s } else { cos0 };
    let px = fx_mul_spec(eta, v.x + fx_mul_spec(cos, n.x as int));
    let py = fx_mul_spec(eta, v.y + fx_mul_spec(cos, n.y as int));
    let pz = fx_mul_spec(eta, v.z + fx_mul_spec(cos, n.z as int));
    let pw = px * px + py * py + pz * pz;
    let k = s - pw / s;
    let coeff = -fx_sqrt_spec(if k < 0 { -k } else { k });
    Vec3 {
        x: (px + fx_mul_spec(coeff, n.x as int)) as i64,
        y: (py + fx_mul_spec(coeff, n.y as int)) as i64,
        z: (pz + fx_mul_spec(coeff, n.z as int)) as i64,
    }
}

impl Vec3 {
    /// Every component lies in `[-b, b]`.
    pub open spec fn bounded(self, b: int) -> bool {
        &&& -b <= self.x <= b
        &&& -b <= self.y <= b
        &&& -b <= self.z <= b
    }

    pub fn new(x: i64, y: i64, z: i64) -> (r: Vec3)
        ensures
            r == (Vec3 { x, y, z }),
    {
        Vec3 { x, y, z }
    }

    pub fn zero() -> (r: Vec3)
        ensures
            r == (Vec3 { x: 0i64, y: 0i64, z: 0i64 }),
    {
        Vec3 { x: 0, y: 0, z: 0 }
    }

    pub fn x(&self) -> (r: i64)
        ensures
            r == self.x,
    {
        self.x
    }

    pub fn y(&self) -> (r: i64)
        ensures
            r == self.y,
    {
        self.y
    }

    pub fn z(&self) -> (r: i64)
        ensures
            r == self.z,
    {
        self.z
    }

    /// The red channel, when the vector is used as a colour.
    pub fn r(&self) -> (r: i64)
        ensures
            r == self.x,
    {
        self.x
    }

    /// The green channel, when the vector is used as a colour.
    pub fn g(&self) -> (r: i64)
        ensures
            r == self.y,
    {
        self.y
    }

    /// The blue channel, when the vector is used as a colour.
    pub fn b(&self) -> (r: i64)
        ensures
            r == self.z,
    {
        self.z
    }

    /// Componentwise sum.
    pub fn add(self, rhs: Vec3) -> (r: Vec3)
        requires
            i64::MIN <= self.x + rhs.x <= i64::MAX,
            i64::MIN <= self.y + rhs.y <= i64::MAX,
            i64::MIN <= self.z + rhs.z <= i64::MAX,
        ensures
            r.x == self.x + rhs.x,
            r.y == self.y + rhs.y,
            r.z == self.z + rhs.z,
    {
        Vec3 { x: self.x + rhs.x, y: self.y + rhs.y, z: self.z + rhs.z }
    }

    /// Componentwise difference.
    pub fn sub(self, rhs: Vec3) -> (r: Vec3)
        requires
            i64::MIN <= self.x - rhs.x <= i64::MAX,
            i64::MIN <= self.y - rhs.y <= i64::MAX,
            i64::MIN <= self.z - rhs.z <= i64::MAX,
        ensures
            r.x == self.x - rhs.x,
            r.y == self.y - rhs.y,
            r.z == self.z - rhs.z,
    {
        Vec3 { x: self.x - rhs.x, y: self.y - rhs.y, z: self.z - rhs.z }
    }

    /// Componentwise negation.
    pub fn neg(self) -> (r: Vec3)
        requires
            self.x > i64::MIN,
            self.y > i64::MIN,
            self.z > i64::MIN,
        ensures
            r.x == -self.x,
            r.y == -self.y,
            r.z == -self.z,
    {
        Vec3 { x: -self.x, y: -self.y, z: -self.z }
    }

    /// Componentwise (Hadamard) fixed-point product, as used to attenuate
    /// one colour by another.
    pub fn mul(self, rhs: Vec3) -> (r: Vec3)
        requires
            i64::MIN <= fx_mul_spec(self.x as int, rhs.x as int) <= i64::MAX,
            i64::MIN <= fx_mul_spec(self.y as int, rhs.y as int) <= i64::MAX,
            i64::MIN <= fx_mul_spec(self.z as int, rhs.z as int) <= i64::MAX,
        ensures
            r.x == fx_mul_spec(self.x as int, rhs.x as int),
            r.y == fx_mul_spec(self.y as int, rhs.y as int),
            r.z == fx_mul_spec(self.z as int, rhs.z as int),
    {
        Vec3 {
            x: fx_mul(self.x, rhs.x),
            y: fx_mul(self.y, rhs.y),
            z: fx_mul(self.z, rhs.z),
        }
    }

    /// Scales every component by the fixed-point scalar `k`.
    pub fn scale(self, k: i64) -> (r: Vec3)
        requires
            i64::MIN <= fx_mul_spec(k as int, self.x as int) <= i64::MAX,
            i64::MIN <= fx_mul_spec(k as int, self.y as int) <= i64::MAX,
            i64::MIN <= fx_mul_spec(k as int, self.z as int) <= i64::MAX,
        ensures
            r.x == fx_mul_spec(k as int, self.x as int),
            r.y == fx_mul_spec(k as int, self.y as int),
            r.z == fx_mul_spec(k as int, self.z as int),
    {
        Vec3 { x: fx_mul(k, self.x), y: fx_mul(k, self.y), z: fx_mul(k, self.z) }
    }

    /// Componentwise fixed-point division, each divisor strictly
    /// positive.
    pub fn div(self, rhs: Vec3) -> (r: Vec3)
        requires
            rhs.x >= 1,
            rhs.y >= 1,
            rhs.z >= 1,
            i64::MIN <= fx_div_spec(self.x as int, rhs.x as int) <= i64::MAX,
            i64::MIN <= fx_div_spec(self.y as int, rhs.y as int) <= i64::MAX,
            i64::MIN <= fx_div_spec(self.z as int, rhs.z as int) <= i64::MAX,
        ensures
            r.x == fx_div_spec(self.x as int, rhs.x as int),
            r.y == fx_div_spec(self.y as int, rhs.y as int),
            r.z == fx_div_spec(self.z as int, rhs.z as int),
    {
        Vec3 { x: fx_div(self.x, rhs.x), y: fx_div(self.y, rhs.y), z: fx_div(self.z, rhs.z) }
    }

    /// Divides every component by the positive fixed-point scalar `k`.
    pub fn divide(self, k: i64) -> (r: Vec3)
        requires
            k > 0,
            i64::MIN <= fx_div_spec(self.x as int, k as int) <= i64::MAX,
            i64::MIN <= fx_div_spec(self.y as int, k as int) <= i64::MAX,
            i64::MIN <= fx_div_spec(self.z as int, k as int) <= i64::MAX,
        ensures
            r.x == fx_div_spec(self.x as int, k as int),
            r.y == fx_div_spec(self.y as int, k as int),
            r.z == fx_div_spec(self.z as int, k as int),
    {
        Vec3 { x: fx_div(self.x, k), y: fx_div(self.y, k), z: fx_div(self.z, k) }
    }

    /// Fixed-point cross product; the bound admits the near-unit basis
    /// vectors a camera is built from, with room to spare.
    pub fn cross(&self, rhs: Vec3) -> (r: Vec3)
        requires
            self.bounded(0x10_0000),
            rhs.bounded(0x10_0000),
        ensures
            r == cross_spec(*self, rhs),
            r.x == fx_mul_spec(self.y as int, rhs.z as int) - fx_mul_spec(
                self.z as int, rhs.y as int),
            r.y == fx_mul_spec(self.z as int, rhs.x as int) - fx_mul_spec(
                self.x as int, rhs.z as int),
            r.z == fx_mul_spec(self.x as int, rhs.y as int) - fx_mul_spec(
                self.y as int, rhs.x as int),
            r.bounded(0x200_0002),
    {
        proof {
            lemma_mul_abs_bound(self.y as int, rhs.z as int, 0x10_0000, 0x10_0000);
            lemma_mul_abs_bound(self.z as int, rhs.y as int, 0x10_0000, 0x10_0000);
            lemma_mul_abs_bound(self.z as int, rhs.x as int, 0x10_0000, 0x10_0000);
            lemma_mul_abs_bound(self.x as int, rhs.z as int, 0x10_0000, 0x10_0000);
            lemma_mul_abs_bound(self.x as int, rhs.y as int, 0x10_0000, 0x10_0000);
            lemma_mul_abs_bound(self.y as int, rhs.x as int, 0x10_0000, 0x10_0000);
            lemma_div_scale_range(self.y * rhs.z);
            lemma_div_scale_range(self.z * rhs.y);
            lemma_div_scale_range(self.z * rhs.x);
            lemma_div_scale_range(self.x * rhs.z);
            lemma_div_scale_range(self.x * rhs.y);
            lemma_div_scale_range(self.y * rhs.x);
        }
        Vec3 {
            x: fx_mul(self.y, rhs.z) - fx_mul(self.z, rhs.y),
            y: fx_mul(self.z, rhs.x) - fx_mul(self.x, rhs.z),
            z: fx_mul(self.x, rhs.y) - fx_mul(self.y, rhs.x),
        }
    }

    /// Fixed-point dot product.
    pub fn dot(&self, rhs: Vec3) -> (r: i64)
        requires
            self.bounded(NORM_BOUND as int),
            rhs.bounded(NORM_BOUND as int),
        ensures
            r == dot_spec(*self, rhs),
    {
        proof {
            lemma_dot_wide_bound(*self, rhs, NORM_BOUND as int);
            lemma_div_scale_range(dot_wide(*self, rhs));
        }
        let s: i128 = (self.x as i128) * (rhs.x as i128)
            + (self.y as i128) * (rhs.y as i128)
            + (self.z as i128) * (rhs.z as i128);
        let q = floor_div(s, SCALE as i128);
        q as i64
    }

    /// Fixed-point squared norm; never negative.
    pub fn length_squared(&self) -> (r: i64)
        requires
            self.bounded(NORM_BOUND as int),
        ensures
            r == dot_spec(*self, *self),
            r >= 0,
    {
        proof {
            lemma_dot_wide_self_nonneg(*self);
            vstd::arithmetic::div_mod::lemma_div_pos_is_pos(
                dot_wide(*self, *self), SCALE as int);
        }
        self.dot(*self)
    }

    /// Fixed-point length.
    pub fn length(&self) -> (r: i64)
        requires
            self.bounded(NORM_BOUND as int),
        ensures
            r == length_spec(*self),
            r >= 0,
    {
        let lsq = self.length_squared();
        fx_sqrt(lsq)
    }

    /// True when the squared norm is below one fixed-point unit, the guard
    /// used against degenerate scatter directions.
    pub fn near_zero(&self) -> (r: bool)
        requires
            self.bounded(NORM_BOUND as int),
        ensures
            r == (dot_wide(*self, *self) < SCALE as int),
    {
        proof {
            lemma_dot_wide_bound(*self, *self, NORM_BOUND as int);
        }
        let s: i128 = (self.x as i128) * (self.x as i128)
            + (self.y as i128) * (self.y as i128)
            + (self.z as i128) * (self.z as i128);
        s < SCALE as i128
    }
}

impl Vec3 {
    /// Scales the vector to unit length. The caller guarantees a strictly
    /// positive fixed-point length; the two conditional bounds serve the
    /// callers that go on computing with the result.
    pub fn unit_vector(&self) -> (r: Vec3)
        requires
            self.bounded(NORM_BOUND as int),
            length_spec(*self) >= 1,
        ensures
            r == unit_spec(*self),
            r.x == fx_div_spec(self.x as int, length_spec(*self)),
            r.y == fx_div_spec(self.y as int, length_spec(*self)),
            r.z == fx_div_spec(self.z as int, length_spec(*self)),
            length_spec(*self) >= SCALE as int ==> r.bounded(SCALE as int + 257),
            length_spec(*self) >= 256 ==> r.bounded(2 * SCALE as int + 2),
    {
        let len = self.length();
        proof {
            let s = SCALE as int;
            let l = length_spec(*self);
            let w = dot_wide(*self, *self);
            lemma_dot_wide_self_nonneg(*self);
            lemma_dot_wide_bound(*self, *self, NORM_BOUND as int);
            lemma_div_scale_range(w);
            let lsq = dot_spec(*self, *self);
            lemma_sqrt_floor_is_sqrt((lsq * s) as nat);
            assert(l * l <= lsq * s < (l + 1) * (l + 1));
            lemma_div_bound_pos_divisor(self.x * s, l, NORM_BOUND as int * s);
            lemma_div_bound_pos_divisor(self.y * s, l, NORM_BOUND as int * s);
            lemma_div_bound_pos_divisor(self.z * s, l, NORM_BOUND as int * s);
            if l >= s {
                lemma_unit_component_window(self.x as int, w, l, s);
                lemma_unit_component_window(self.y as int, w, l, s);
                lemma_unit_component_window(self.z as int, w, l, s);
            }
            if l >= 256 {
                lemma_unit_component_coarse(self.x as int, w, l, s);
                lemma_unit_component_coarse(self.y as int, w, l, s);
                lemma_unit_component_coarse(self.z as int, w, l, s);
            }
        }
        Vec3 { x: fx_div(self.x, len), y: fx_div(self.y, len), z: fx_div(self.z, len) }
    }

    /// Mirror reflection about the normal `n`:
    /// `v - 2 (v . n) n` in fixed-point form.
    pub fn reflect(self, n: Vec3) -> (r: Vec3)
        requires
            self.bounded(4 * SCALE as int),
            n.bounded(4 * SCALE as int),
        ensures
            r == reflect_spec(self, n),
            r.x == self.x - fx_mul_spec(2 * dot_spec(self, n), n.x as int),
            r.y == self.y - fx_mul_spec(2 * dot_spec(self, n), n.y as int),
            r.z == self.z - fx_mul_spec(2 * dot_spec(self, n), n.z as int),
            r.bounded(400 * SCALE as int),
    {
        proof {
            lemma_dot_wide_bound(self, n, 262144);
            lemma_div_scale_range(dot_wide(self, n));
            assert(-3145729 <= dot_spec(self, n) <= 3145728);
            let d2 = 2 * dot_spec(self, n);
            lemma_mul_abs_bound(d2, n.x as int, 6291458, 262144);
            lemma_mul_abs_bound(d2, n.y as int, 6291458, 262144);
            lemma_mul_abs_bound(d2, n.z as int, 6291458, 262144);
            lemma_div_scale_range(d2 * n.x);
            lemma_div_scale_range(d2 * n.y);
            lemma_div_scale_range(d2 * n.z);
            assert(-25165834 <= fx_mul_spec(d2, n.x as int) <= 25165833);
            assert(-25165834 <= fx_mul_spec(d2, n.y as int) <= 25165833);
            assert(-25165834 <= fx_mul_spec(d2, n.z as int) <= 25165833);
        }
        let d = self.dot(n);
        let k = 2 * d;
        self.sub(n.scale(k))
    }

    /// Snell refraction of `self` about the normal `n` with the given
    /// ratio of refraction indices: the refracted direction is rebuilt
    /// from its component perpendicular to `n` (the incoming direction
    /// bent by the ratio) and its component parallel to `n` (sized so the
    /// result stays unit length, with the radicand clamped through its
    /// absolute value against rounding overshoot).
    pub fn refract(self, n: Vec3, etai_over_etat: i64) -> (r: Vec3)
        requires
            self.bounded(131074),
            n.bounded(131074),
            0 <= etai_over_etat <= 16 * SCALE as int,
        ensures
            ({
                let s = SCALE as int;
                let cos0 = (-dot_wide(self, n)) / s;
                let cos = if cos0 > s { s } else if cos0 < -s { -s } else { cos0 };
                let px = fx_mul_spec(etai_over_etat as int,
                    self.x + fx_mul_spec(cos, n.x as int));
                let py = fx_mul_spec(etai_over_etat as int,
                    self.y + fx_mul_spec(cos, n.y as int));
                let pz = fx_mul_spec(etai_over_etat as int,
                    self.z + fx_mul_spec(cos, n.z as int));
                let pw = px * px + py * py + pz * pz;
                let k = s - pw / s;
                let coeff = -fx_sqrt_spec(if k < 0 { -k } else { k });
                &&& r.x == px + fx_mul_spec(coeff, n.x as int)
                &&& r.y == py + fx_mul_spec(coeff, n.y as int)
                &&& r.z == pz + fx_mul_spec(coeff, n.z as int)
            }),
            r == refract_spec(self, n, etai_over_etat as int),
            r.bounded(18800000),
    {
        let negself = self.neg();
        let cos0 = negself.dot(n);
        proof {
            lemma_dot_wide_bound(negself, n, 131074);
            lemma_div_scale_range(dot_wide(negself, n));
            assert(dot_wide(negself, n) == -dot_wide(self, n)) by (nonlinear_arith)
                requires
                    negself.x == -self.x,
                    negself.y == -self.y,
                    negself.z == -self.z,
                    dot_wide(negself, n) == negself.x * n.x + negself.y * n.y + negself.z * n.z,
                    dot_wide(self, n) == self.x * n.x + self.y * n.y + self.z * n.z,
            ;
        }
        let cos = if cos0 > SCALE {
            SCALE
        } else if cos0 < -SCALE {
            -SCALE
        } else {
            cos0
        };
        proof {
            lemma_mul_abs_bound(cos as int, n.x as int, 65536, 131074);
            lemma_mul_abs_bound(cos as int, n.y as int, 65536, 131074);
            lemma_mul_abs_bound(cos as int, n.z as int, 65536, 131074);
            lemma_div_scale_range(cos * n.x);
            lemma_div_scale_range(cos * n.y);
            lemma_div_scale_range(cos * n.z);
        }
        let ix = self.x + fx_mul(cos, n.x);
        let iy = self.y + fx_mul(cos, n.y);
        let iz = self.z + fx_mul(cos, n.z);
        proof {
            lemma_mul_abs_bound(etai_over_etat as int, ix as int, 1048576, 262151);
            lemma_mul_abs_bound(etai_over_etat as int, iy as int, 1048576, 262151);
            lemma_mul_abs_bound(etai_over_etat as int, iz as int, 1048576, 262151);
            lemma_div_scale_range(etai_over_etat * ix);
            lemma_div_scale_range(etai_over_etat * iy);
            lemma_div_scale_range(etai_over_etat * iz);
        }
        let p = Vec3 {
            x: fx_mul(etai_over_etat, ix),
            y: fx_mul(etai_over_etat, iy),
            z: fx_mul(etai_over_etat, iz),
        };
        let pw_fx = p.length_squared();
        let k = SCALE - pw_fx;
        proof {
            lemma_dot_wide_bound(p, p, 4194420);
            lemma_div_scale_range(dot_wide(p, p));
        }
        let abs_k = if k < 0 { -k } else { k };
        let coeff = -fx_sqrt(abs_k);
        proof {
            let ck = fx_sqrt_spec(abs_k as int);
            lemma_sqrt_floor_is_sqrt((abs_k * SCALE as int) as nat);
            assert(0 <= ck && ck * ck <= abs_k * 65536);
            assert(ck < 7266100) by (nonlinear_arith)
                requires
                    0 <= ck,
                    ck * ck <= 805500001 * 65536,
            ;
            lemma_mul_abs_bound(-ck, n.x as int, 7266100, 131074);
            lemma_mul_abs_bound(-ck, n.y as int, 7266100, 131074);
            lemma_mul_abs_bound(-ck, n.z as int, 7266100, 131074);
            lemma_div_scale_range(-ck * n.x);
            lemma_div_scale_range(-ck * n.y);
            lemma_div_scale_range(-ck * n.z);
        }
        Vec3 {
            x: p.x + fx_mul(coeff, n.x),
            y: p.y + fx_mul(coeff, n.y),
            z: p.z + fx_mul(coeff, n.z),
        }
    }
}

/// One component's contribution to the squared norm of the normalized
/// vector: `(x * s) = l * u + e` with `0 <= e < l` expands to
/// `l^2 u^2 = s^2 x^2 - 2 s (x e) + e^2`.
pub(crate) proof fn lemma_unit_sq_component(x: int, s: int, l: int, u: int, e: int)
    requires
        x * s == l * u + e,
        0 <= e,
    ensures
        (l * l) * (u * u) == (s * s) * (x * x) - 2 * s * (x * e) + e * e,
{
    assert((l * u) * (l * u) == (l * l) * (u * u)) by (nonlinear_arith);
    assert((l * u) * (l * u) == (x * s - e) * (x * s - e)) by (nonlinear_arith)
        requires
            x * s == l * u + e,
    ;
    assert((x * s - e) * (x * s - e) == (s * s) * (x * x) - 2 * s * (x * e) + e * e)
        by (nonlinear_arith);
}

/// Normalizing keeps the length within a few rounding units of one:
/// for any vector of length at least one, the unscaled squared norm of
/// `unit_spec(v)` lies within `9 * SCALE + 1540` of `SCALE^2` on the high
/// side and `6 * SCALE + 1536` on the low side, so the normalized length
/// is one to within a relative error of about `2^-13`.
pub proof fn lemma_unit_vector_length(v: Vec3)
    requires
        v.bounded(NORM_BOUND as int),
        length_spec(v) >= SCALE as int,
    ensures
        dot_wide(unit_spec(v), unit_spec(v)) >= (SCALE as int) * (SCALE as int) - 6 * (
        SCALE as int) - 1536,
        dot_wide(unit_spec(v), unit_spec(v)) <= (SCALE as int) * (SCALE as int) + 9 * (
        SCALE as int) + 1540,
{
    let s = SCALE as int;
    let w = dot_wide(v, v);
    let l = length_spec(v);
    let lsq = dot_spec(v, v);
    lemma_dot_wide_self_nonneg(v);
    lemma_div_scale_range(w);
    vstd::arithmetic::div_mod::lemma_div_pos_is_pos(w, s);
    lemma_sqrt_floor_is_sqrt((lsq * s) as nat);
    assert(l * l <= lsq * s < (l + 1) * (l + 1));
    assert(l * l <= w) by {
        assert(lsq * s <= w);
    }
    assert(w < (l + 1) * (l + 1) + s);
    let ux = fx_div_spec(v.x as int, l);
    let uy = fx_div_spec(v.y as int, l);
    let uz = fx_div_spec(v.z as int, l);
    lemma_fundamental_div_mod(v.x * s, l);
    lemma_fundamental_div_mod(v.y * s, l);
    lemma_fundamental_div_mod(v.z * s, l);
    let ex = (v.x * s) % l;
    let ey = (v.y * s) % l;
    let ez = (v.z * s) % l;
    assert(v.x * s == l * ux + ex && 0 <= ex < l);
    assert(v.y * s == l * uy + ey && 0 <= ey < l);
    assert(v.z * s == l * uz + ez && 0 <= ez < l);
    lemma_unit_sq_component(v.x as int, s, l, ux, ex);
    lemma_unit_sq_component(v.y as int, s, l, uy, ey);
    lemma_unit_sq_component(v.z as int, s, l, uz, ez);
    let xx = (l * l) * (ux * ux) + (l * l) * (uy * uy) + (l * l) * (uz * uz);
    let ee = ex * ex + ey * ey + ez * ez;
    let ve = v.x * ex + v.y * ey + v.z * ez;
    assert(xx == (s * s) * w - 2 * s * ve + ee) by (nonlinear_arith)
        requires
            (l * l) * (ux * ux) == (s * s) * ((v.x as int) * (v.x as int)) - 2 * s * ((
            v.x as int) * ex) + ex * ex,
            (l * l) * (uy * uy) == (s * s) * ((v.y as int) * (v.y as int)) - 2 * s * ((
            v.y as int) * ey) + ey * ey,
            (l * l) * (uz * uz) == (s * s) * ((v.z as int) * (v.z as int)) - 2 * s * ((
            v.z as int) * ez) + ez * ez,
            xx == (l * l) * (ux * ux) + (l * l) * (uy * uy) + (l * l) * (uz * uz),
            ee == ex * ex + ey * ey + ez * ez,
            ve == (v.x as int) * ex + (v.y as int) * ey + (v.z as int) * ez,
            w == (v.x as int) * (v.x as int) + (v.y as int) * (v.y as int) + (v.z as int) * (
            v.z as int),
    ;
    assert(-(l + 256) <= v.x <= l + 256 && -(l + 256) <= v.y <= l + 256 && -(l + 256) <= v.z
        <= l + 256) by (nonlinear_arith)
        requires
            (v.x as int) * (v.x as int) <= w,
            (v.y as int) * (v.y as int) <= w,
            (v.z as int) * (v.z as int) <= w,
            w < (l + 1) * (l + 1) + 65536,
            l >= 0,
    ;
    assert(-((l + 256) * l) <= (v.x as int) * ex <= (l + 256) * l) by (nonlinear_arith)
        requires
            -(l + 256) <= v.x <= l + 256,
            0 <= ex < l,
    ;
    assert(-((l + 256) * l) <= (v.y as int) * ey <= (l + 256) * l) by (nonlinear_arith)
        requires
            -(l + 256) <= v.y <= l + 256,
            0 <= ey < l,
    ;
    assert(-((l + 256) * l) <= (v.z as int) * ez <= (l + 256) * l) by (nonlinear_arith)
        requires
            -(l + 256) <= v.z <= l + 256,
            0 <= ez < l,
    ;
    assert(-3 * ((l + 256) * l) <= ve <= 3 * ((l + 256) * l));
    assert(0 <= ee <= 3 * (l * l)) by (nonlinear_arith)
        requires
            0 <= ex < l,
            0 <= ey < l,
            0 <= ez < l,
            ee == ex * ex + ey * ey + ez * ez,
    ;
    let xsum = ux * ux + uy * uy + uz * uz;
    assert(xx == (l * l) * xsum) by (nonlinear_arith)
        requires
            xx == (l * l) * (ux * ux) + (l * l) * (uy * uy) + (l * l) * (uz * uz),
            xsum == ux * ux + uy * uy + uz * uz,
    ;
    // Lower bound: s^2 w >= s^2 l^2 and the error terms cost at most
    // (6 s + 1536) l^2 once l >= s.
    assert((s * s) * w >= (s * s) * (l * l)) by (nonlinear_arith)
        requires
            w >= l * l,
    ;
    assert(2 * s * ve >= -(6 * s * ((l + 256) * l))) by (nonlinear_arith)
        requires
            -3 * ((l + 256) * l) <= ve,
            s == 65536,
    ;
    assert(2 * s * ve <= 6 * s * ((l + 256) * l)) by (nonlinear_arith)
        requires
            ve <= 3 * ((l + 256) * l),
            s == 65536,
    ;
    assert(6 * s * ((l + 256) * l) == 6 * s * (l * l) + 1536 * s * l) by (nonlinear_arith);
    assert(1536 * s * l <= 1536 * (l * l)) by (nonlinear_arith)
        requires
            1 <= s <= l,
    ;
    assert((l * l) * (s * s - 6 * s - 1536) == (s * s) * (l * l) - 6 * s * (l * l) - 1536 * (l
        * l)) by (nonlinear_arith);
    assert((l * l) * xsum >= (l * l) * (s * s - 6 * s - 1536));
    assert(xsum >= s * s - 6 * s - 1536) by (nonlinear_arith)
        requires
            (l * l) * xsum >= (l * l) * (s * s - 6 * s - 1536),
            l >= 1,
    ;
    // Upper bound: s^2 w < s^2 ((l+1)^2 + s) and the error terms add at
    // most (9 s + 1540) l^2, the lower-order pieces absorbed by l >= s.
    assert((s * s) * w <= (s * s) * ((l + 1) * (l + 1) + s - 1)) by (nonlinear_arith)
        requires
            w < (l + 1) * (l + 1) + s,
    ;
    assert((s * s) * ((l + 1) * (l + 1) + s - 1) == (s * s) * (l * l) + 2 * (s * s) * l + (s
        * s) * s) by (nonlinear_arith);
    assert(2 * (s * s) * l <= 2 * s * (l * l)) by (nonlinear_arith)
        requires
            1 <= s <= l,
    ;
    assert((s * s) * s <= s * (l * l)) by (nonlinear_arith)
        requires
            1 <= s <= l,
    ;
    assert((l * l) * (s * s + 9 * s + 1540) == (s * s) * (l * l) + 9 * s * (l * l) + 1540 * (l
        * l)) by (nonlinear_arith);
    assert((l * l) * xsum <= (l * l) * (s * s + 9 * s + 1540)) by (nonlinear_arith)
        requires
            xx == (s * s) * w - 2 * s * ve + ee,
            xx == (l * l) * xsum,
            (s * s) * w <= (s * s) * ((l + 1) * (l + 1) + s - 1),
            2 * s * ve >= -(6 * s * ((l + 256) * l)),
            ee <= 3 * (l * l),
            1 <= s <= l,
            s == 65536,
    ;
    assert(xsum <= s * s + 9 * s + 1540) by (nonlinear_arith)
        requires
            (l * l) * xsum <= (l * l) * (s * s + 9 * s + 1540),
            l >= 1,
    ;
    assert(dot_wide(unit_spec(v), unit_spec(v)) == xsum) by {
        lemma_mul_abs_bound(v.x as int, s, NORM_BOUND as int, s);
        lemma_mul_abs_bound(v.y as int, s, NORM_BOUND as int, s);
        lemma_mul_abs_bound(v.z as int, s, NORM_BOUND as int, s);
        lemma_div_bound_pos_divisor(v.x * s, l, NORM_BOUND as int * s);
        lemma_div_bound_pos_divisor(v.y * s, l, NORM_BOUND as int * s);
        lemma_div_bound_pos_divisor(v.z * s, l, NORM_BOUND as int * s);
        assert(NORM_BOUND as int * s < 0x8000_0000_0000_0000);
        assert(unit_spec(v).x == ux && unit_spec(v).y == uy && unit_spec(v).z == uz);
    }
}

/// A vector that is not near zero has a usable positive length: at least
/// 1/256 in fixed-point units.
pub proof fn lemma_not_near_zero(v: Vec3)
    requires
        dot_wide(v, v) >= SCALE as int,
    ensures
        length_spec(v) >= 256,
{
    lemma_div_is_ordered(SCALE as int, dot_wide(v, v), SCALE as int);
    vstd::arithmetic::div_mod::lemma_div_by_self(SCALE as int);
    let lsq = dot_spec(v, v);
    assert(lsq >= 1);
    lemma_sqrt_floor_is_sqrt((lsq * SCALE as int) as nat);
    let l = length_spec(v);
    assert((l + 1) * (l + 1) > 65536);
    assert(l >= 256) by (nonlinear_arith)
        requires
            l >= 0,
            (l + 1) * (l + 1) > 65536,
    ;
}

impl Default for Vec3 {
    /// The zero vector.
    fn default() -> (r: Vec3)
        ensures
            r == (Vec3 { x: 0i64, y: 0i64, z: 0i64 }),
    {
        Vec3 { x: 0, y: 0, z: 0 }
    }
}

/// Bounds the unscaled dot product from a shared componentwise bound.
pub proof fn lemma_dot_wide_bound(u: Vec3, v: Vec3, m: int)
    requires
        u.bounded(m),
        v.bounded(m),
    ensures
        -3 * (m * m) <= dot_wide(u, v) <= 3 * (m * m),
        -(m * m) <= u.x * v.x <= m * m,
        -(m * m) <= u.y * v.y <= m * m,
        -(m * m) <= u.z * v.z <= m * m,
{
    lemma_mul_abs_bound(u.x as int, v.x as int, m, m);
    lemma_mul_abs_bound(u.y as int, v.y as int, m, m);
    lemma_mul_abs_bound(u.z as int, v.z as int, m, m);
}

/// A component of a vector of length `l >= 1` (in fixed-point units,
/// `l >= s`) divides out to a unit-sized component.
proof fn lemma_unit_component_window(x: int, w: int, l: int, s: int)
    requires
        s == SCALE as int,
        x * x <= w,
        w < (l + 1) * (l + 1) + s,
        l >= s,
    ensures
        -(s + 257) <= (x * s) / l <= s + 256,
{
    assert(-(l + 256) <= x <= l + 256) by (nonlinear_arith)
        requires
            x * x < (l + 1) * (l + 1) + 65536,
            l >= 0,
    ;
    assert(x * s < (s + 257) * l && -((s + 257) * l) <= x * s) by (nonlinear_arith)
        requires
            -(l + 256) <= x <= l + 256,
            l >= s >= 1,
    ;
    lemma_multiply_divide_lt(x * s, l, s + 257);
    lemma_div_is_ordered(-(s + 257) * l, x * s, l);
    lemma_div_multiples_vanish(-(s + 257), l);
    assert(-(s + 257) * l == l * -(s + 257)) by (nonlinear_arith);
}

/// Even for a length as small as 1/256, a unit component stays within two
/// units: the component itself can exceed the length by at most 256.
proof fn lemma_unit_component_coarse(x: int, w: int, l: int, s: int)
    requires
        s == SCALE as int,
        x * x <= w,
        w < (l + 1) * (l + 1) + s,
        l >= 256,
    ensures
        -(2 * s + 2) <= (x * s) / l <= 2 * s + 2,
{
    assert(-(l + 256) <= x <= l + 256) by (nonlinear_arith)
        requires
            x * x < (l + 1) * (l + 1) + 65536,
            l >= 0,
    ;
    let k = 2 * s + 2;
    assert(x * s < k * l && -(k * l) <= x * s) by (nonlinear_arith)
        requires
            -(l + 256) <= x <= l + 256,
            l >= 256,
            s == 65536,
            k == 2 * s + 2,
    ;
    lemma_multiply_divide_lt(x * s, l, k);
    assert(-(k * l) == -k * l) by (nonlinear_arith);
    lemma_div_is_ordered(-k * l, x * s, l);
    lemma_div_multiples_vanish(-k, l);
    assert(-k * l == l * -k) by (nonlinear_arith);
}

/// Expands one squared component of the exact reflection formula.
proof fn lemma_sq_expand(r: int, t: int, v: int, d: int, n: int)
    requires
        r == t * v - 2 * d * n,
    ensures
        r * r == (t * t) * (v * v) - 4 * t * d * (v * n) + 4 * (d * d) * (n * n),
{
    let a = t * v;
    let b = 2 * d * n;
    assert(r * r == a * a - 2 * (a * b) + b * b) by (nonlinear_arith)
        requires
            r == a - b,
    ;
    assert(a * a == (t * t) * (v * v)) by (nonlinear_arith)
        requires
            a == t * v,
    ;
    assert(2 * (a * b) == 4 * t * d * (v * n)) by (nonlinear_arith)
        requires
            a == t * v,
            b == 2 * d * n,
    ;
    assert(b * b == 4 * (d * d) * (n * n)) by (nonlinear_arith)
        requires
            b == 2 * d * n,
    ;
}

/// Mirror reflection preserves the squared norm: over exact integers,
/// reflecting `v` about a normal `n` whose squared norm is `s * s` gives a
/// vector whose squared norm is `s^4` times that of `v` (the two factors
/// of `s^2` coming from the scaling of the reflection formula).
pub proof fn lemma_reflect_preserves_norm(
    vx: int, vy: int, vz: int, nx: int, ny: int, nz: int, s: int,
)
    requires
        nx * nx + ny * ny + nz * nz == s * s,
    ensures
        ({
            let d = vx * nx + vy * ny + vz * nz;
            let rx = s * s * vx - 2 * d * nx;
            let ry = s * s * vy - 2 * d * ny;
            let rz = s * s * vz - 2 * d * nz;
            rx * rx + ry * ry + rz * rz == (s * s) * (s * s) * (vx * vx + vy * vy + vz * vz)
        }),
{
    let d = vx * nx + vy * ny + vz * nz;
    let t = s * s;
    let rx = s * s * vx - 2 * d * nx;
    let ry = s * s * vy - 2 * d * ny;
    let rz = s * s * vz - 2 * d * nz;
    lemma_sq_expand(rx, t, vx, d, nx);
    lemma_sq_expand(ry, t, vy, d, ny);
    lemma_sq_expand(rz, t, vz, d, nz);
    assert(4 * t * d * (vx * nx) + 4 * t * d * (vy * ny) + 4 * t * d * (vz * nz) == 4 * t * (d
        * d)) by (nonlinear_arith)
        requires
            d == vx * nx + vy * ny + vz * nz,
    ;
    assert(4 * (d * d) * (nx * nx) + 4 * (d * d) * (ny * ny) + 4 * (d * d) * (nz * nz) == 4 * (d
        * d) * t) by (nonlinear_arith)
        requires
            nx * nx + ny * ny + nz * nz == t,
    ;
    assert((t * t) * (vx * vx) + (t * t) * (vy * vy) + (t * t) * (vz * vz) == (t * t) * (vx * vx
        + vy * vy + vz * vz)) by (nonlinear_arith);
    assert(4 * t * (d * d) == 4 * (d * d) * t) by (nonlinear_arith);
    assert((t * t) * (vx * vx + vy * vy + vz * vz) == (s * s) * (s * s) * (vx * vx + vy * vy
        + vz * vz));
}

/// Bounds the unscaled dot product from separate componentwise bounds on
/// the two vectors.
pub proof fn lemma_dot_wide_bound2(u: Vec3, v: Vec3, mu: int, mv: int)
    requires
        u.bounded(mu),
        v.bounded(mv),
    ensures
        -3 * (mu * mv) <= dot_wide(u, v) <= 3 * (mu * mv),
        -(mu * mv) <= u.x * v.x <= mu * mv,
        -(mu * mv) <= u.y * v.y <= mu * mv,
        -(mu * mv) <= u.z * v.z <= mu * mv,
{
    lemma_mul_abs_bound(u.x as int, v.x as int, mu, mv);
    lemma_mul_abs_bound(u.y as int, v.y as int, mu, mv);
    lemma_mul_abs_bound(u.z as int, v.z as int, mu, mv);
}

/// The executable, floored reflection also preserves the squared norm,
/// up to rounding and up to how far the normal itself is from unit
/// length: against a normal whose squared norm is within `12 SCALE + 3`
/// of `SCALE^2` (what the sphere intersection guarantees of an on-surface
/// normal), the squared norm of `reflect_spec(v, n)` differs from that of
/// `v` by at most `1911 SCALE` raw units, a relative error of about
/// `2^-5` in the worst admitted case and far less for a truly unit
/// normal.
pub proof fn lemma_reflect_spec_norm(v: Vec3, n: Vec3)
    requires
        v.bounded(2 * SCALE as int + 2),
        (SCALE as int) * (SCALE as int) - 12 * (SCALE as int) <= dot_wide(n, n) <= (
        SCALE as int) * (SCALE as int) + 12 * (SCALE as int) + 3,
    ensures
        -(1911 * (SCALE as int)) <= dot_wide(reflect_spec(v, n), reflect_spec(v, n))
            - dot_wide(v, v) <= 1911 * (SCALE as int),
{
    let s = SCALE as int;
    let nn = dot_wide(n, n);
    let eps = nn - s * s;
    assert(-(s + 6) <= n.x <= s + 6 && -(s + 6) <= n.y <= s + 6 && -(s + 6) <= n.z <= s + 6)
        by (nonlinear_arith)
        requires
            s == 65536,
            n.x * n.x + n.y * n.y + n.z * n.z <= 65536 * 65536 + 12 * 65536 + 3,
    ;
    let w = dot_wide(v, n);
    lemma_dot_wide_bound2(v, n, 2 * s + 2, s + 6);
    let d = dot_spec(v, n);
    lemma_fundamental_div_mod(w, s);
    let a = w % s;
    assert(w == s * d + a && 0 <= a < s);
    assert(-(6 * s + 44) <= d <= 6 * s + 43);
    let d2 = 2 * d;
    lemma_fundamental_div_mod(d2 * n.x, s);
    lemma_fundamental_div_mod(d2 * n.y, s);
    lemma_fundamental_div_mod(d2 * n.z, s);
    let qx = fx_mul_spec(d2, n.x as int);
    let qy = fx_mul_spec(d2, n.y as int);
    let qz = fx_mul_spec(d2, n.z as int);
    let bx = (d2 * n.x) % s;
    let by = (d2 * n.y) % s;
    let bz = (d2 * n.z) % s;
    assert(d2 * n.x == s * qx + bx && 0 <= bx < s);
    assert(d2 * n.y == s * qy + by && 0 <= by < s);
    assert(d2 * n.z == s * qz + bz && 0 <= bz < s);
    lemma_mul_abs_bound(d2, n.x as int, 12 * s + 88, s + 6);
    lemma_mul_abs_bound(d2, n.y as int, 12 * s + 88, s + 6);
    lemma_mul_abs_bound(d2, n.z as int, 12 * s + 88, s + 6);
    lemma_div_scale_range(d2 * n.x);
    lemma_div_scale_range(d2 * n.y);
    lemma_div_scale_range(d2 * n.z);
    let r = reflect_spec(v, n);
    assert(r.x == v.x - qx && r.y == v.y - qy && r.z == v.z - qz);
    // The rounded-coefficient reflection, before the per-component
    // flooring: its squared norm misses that of v by exactly
    // 4 a d s - 4 d^2 eps.
    let rx = s * (v.x as int) - d2 * n.x;
    let ry = s * (v.y as int) - d2 * n.y;
    let rz = s * (v.z as int) - d2 * n.z;
    lemma_sq_expand(rx, s, v.x as int, d, n.x as int);
    lemma_sq_expand(ry, s, v.y as int, d, n.y as int);
    lemma_sq_expand(rz, s, v.z as int, d, n.z as int);
    let rr = rx * rx + ry * ry + rz * rz;
    assert((s * s) * (v.x * v.x) + (s * s) * (v.y * v.y) + (s * s) * (v.z * v.z) == (s * s)
        * dot_wide(v, v)) by (nonlinear_arith)
        requires
            dot_wide(v, v) == v.x * v.x + v.y * v.y + v.z * v.z,
    ;
    assert(4 * s * d * (v.x * n.x) + 4 * s * d * (v.y * n.y) + 4 * s * d * (v.z * n.z) == 4 * s
        * d * w) by (nonlinear_arith)
        requires
            w == v.x * n.x + v.y * n.y + v.z * n.z,
    ;
    assert(4 * (d * d) * (n.x * n.x) + 4 * (d * d) * (n.y * n.y) + 4 * (d * d) * (n.z * n.z)
        == 4 * (d * d) * nn) by (nonlinear_arith)
        requires
            nn == n.x * n.x + n.y * n.y + n.z * n.z,
    ;
    assert(rr == (s * s) * dot_wide(v, v) - 4 * s * d * w + 4 * (d * d) * nn);
    assert(4 * s * d * w - 4 * (d * d) * nn == 4 * ((a * d) * s) - 4 * ((d * d) * eps))
        by (nonlinear_arith)
        requires
            w == s * d + a,
            nn == s * s + eps,
    ;
    assert(rr == (s * s) * dot_wide(v, v) - 4 * ((a * d) * s) + 4 * ((d * d) * eps));
    // Each floored component sits one remainder above the rounded one.
    assert(s * (r.x as int) == rx + bx && s * (r.y as int) == ry + by && s * (r.z as int) == rz
        + bz) by (nonlinear_arith)
        requires
            r.x == v.x - qx,
            r.y == v.y - qy,
            r.z == v.z - qz,
            rx == s * (v.x as int) - d2 * n.x,
            ry == s * (v.y as int) - d2 * n.y,
            rz == s * (v.z as int) - d2 * n.z,
            d2 * n.x == s * qx + bx,
            d2 * n.y == s * qy + by,
            d2 * n.z == s * qz + bz,
    ;
    lemma_floored_sq(r.x as int, rx, bx, s);
    lemma_floored_sq(r.y as int, ry, by, s);
    lemma_floored_sq(r.z as int, rz, bz, s);
    let cross = (rx * bx + ry * by + rz * bz);
    assert((s * s) * dot_wide(r, r) == rr + 2 * cross + (bx * bx + by * by + bz * bz))
        by (nonlinear_arith)
        requires
            (s * s) * ((r.x as int) * (r.x as int)) == rx * rx + 2 * (rx * bx) + bx * bx,
            (s * s) * ((r.y as int) * (r.y as int)) == ry * ry + 2 * (ry * by) + by * by,
            (s * s) * ((r.z as int) * (r.z as int)) == rz * rz + 2 * (rz * bz) + bz * bz,
            dot_wide(r, r) == r.x * r.x + r.y * r.y + r.z * r.z,
            rr == rx * rx + ry * ry + rz * rz,
            cross == rx * bx + ry * by + rz * bz,
    ;
    // Bound every error term.
    assert(-((14 * s + 163) * s) <= rx <= (14 * s + 163) * s && -((14 * s + 163) * s) <= ry
        <= (14 * s + 163) * s && -((14 * s + 163) * s) <= rz <= (14 * s + 163) * s)
        by (nonlinear_arith)
        requires
            rx == s * (v.x as int) - d2 * n.x,
            ry == s * (v.y as int) - d2 * n.y,
            rz == s * (v.z as int) - d2 * n.z,
            -(2 * s + 2) <= v.x <= 2 * s + 2,
            -(2 * s + 2) <= v.y <= 2 * s + 2,
            -(2 * s + 2) <= v.z <= 2 * s + 2,
            -((12 * s + 88) * (s + 6)) <= d2 * n.x <= (12 * s + 88) * (s + 6),
            -((12 * s + 88) * (s + 6)) <= d2 * n.y <= (12 * s + 88) * (s + 6),
            -((12 * s + 88) * (s + 6)) <= d2 * n.z <= (12 * s + 88) * (s + 6),
            s == 65536,
    ;
    assert(-(((14 * s + 163) * s) * s) <= rx * bx <= ((14 * s + 163) * s) * s)
        by (nonlinear_arith)
        requires
            -((14 * s + 163) * s) <= rx <= (14 * s + 163) * s,
            0 <= bx < s,
    ;
    assert(-(((14 * s + 163) * s) * s) <= ry * by <= ((14 * s + 163) * s) * s)
        by (nonlinear_arith)
        requires
            -((14 * s + 163) * s) <= ry <= (14 * s + 163) * s,
            0 <= by < s,
    ;
    assert(-(((14 * s + 163) * s) * s) <= rz * bz <= ((14 * s + 163) * s) * s)
        by (nonlinear_arith)
        requires
            -((14 * s + 163) * s) <= rz <= (14 * s + 163) * s,
            0 <= bz < s,
    ;
    assert(0 <= bx * bx + by * by + bz * bz <= 3 * (s * s)) by (nonlinear_arith)
        requires
            0 <= bx < s,
            0 <= by < s,
            0 <= bz < s,
    ;
    assert(-(((6 * s + 44) * s) * s) <= (a * d) * s <= ((6 * s + 44) * s) * s)
        by (nonlinear_arith)
        requires
            -(6 * s + 44) <= d <= 6 * s + 43,
            0 <= a < s,
            s == 65536,
    ;
    assert(-(((450 * s) * s) * s) <= (d * d) * eps <= ((450 * s) * s) * s)
        by (nonlinear_arith)
        requires
            -(6 * s + 44) <= d <= 6 * s + 43,
            -(12 * s) <= eps <= 12 * s + 3,
            s == 65536,
    ;
    // Assemble: the difference of the squared norms, scaled by s^2, is
    // within 1911 s * s^2.
    assert((s * s) * (dot_wide(r, r) - dot_wide(v, v)) == -(4 * ((a * d) * s)) + 4 * ((d * d)
        * eps) + 2 * cross + (bx * bx + by * by + bz * bz)) by (nonlinear_arith)
        requires
            (s * s) * dot_wide(r, r) == rr + 2 * cross + (bx * bx + by * by + bz * bz),
            rr == (s * s) * dot_wide(v, v) - 4 * ((a * d) * s) + 4 * ((d * d) * eps),
    ;
    assert(-(1911 * s) <= dot_wide(r, r) - dot_wide(v, v) <= 1911 * s) by (nonlinear_arith)
        requires
            (s * s) * (dot_wide(r, r) - dot_wide(v, v)) == -(4 * ((a * d) * s)) + 4 * ((d * d)
                * eps) + 2 * cross + (bx * bx + by * by + bz * bz),
            -(((6 * s + 44) * s) * s) <= (a * d) * s <= ((6 * s + 44) * s) * s,
            -(((450 * s) * s) * s) <= (d * d) * eps <= ((450 * s) * s) * s,
            -(3 * (((14 * s + 163) * s) * s)) <= cross <= 3 * (((14 * s + 163) * s) * s),
            0 <= bx * bx + by * by + bz * bz <= 3 * (s * s),
            s == 65536,
    ;
}

/// Squares a floored component around its unrounded value.
proof fn lemma_floored_sq(rc: int, rr: int, b: int, s: int)
    requires
        s * rc == rr + b,
    ensures
        (s * s) * (rc * rc) == rr * rr + 2 * (rr * b) + b * b,
{
    assert((s * rc) * (s * rc) == (s * s) * (rc * rc)) by (nonlinear_arith);
    assert((s * rc) * (s * rc) == (rr + b) * (rr + b)) by (nonlinear_arith)
        requires
            s * rc == rr + b,
    ;
    assert((rr + b) * (rr + b) == rr * rr + 2 * (rr * b) + b * b) by (nonlinear_arith);
}

/// A vector's unscaled dot product with itself is a sum of squares.
pub proof fn lemma_dot_wide_self_nonneg(v: Vec3)
    ensures
        dot_wide(v, v) >= 0,
        v.x * v.x <= dot_wide(v, v),
        v.y * v.y <= dot_wide(v, v),
        v.z * v.z <= dot_wide(v, v),
{
    assert(v.x * v.x >= 0) by (nonlinear_arith);
    assert(v.y * v.y >= 0) by (nonlinear_arith);
    assert(v.z * v.z >= 0) by (nonlinear_arith);
}

} // verus!
