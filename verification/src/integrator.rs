//! The recursive radiance estimator: intersect, scatter, attenuate,
//! recurse under a depth budget, and fall back to the sky gradient when
//! the ray escapes the scene.

use vstd::prelude::*;
use crate::fx::{
    fx_clamp, fx_mul, fx_mul_spec, lemma_attenuate_range, lemma_div_scale_range,
    lemma_mul_abs_bound, SCALE,
};
use crate::hit::{all_miss, is_nearest_hit, HitRecord, World};
use crate::mat::scatter_outcome_ok;
use crate::ray::{Ray, POS_BOUND, T_CAP};
use crate::vec3::{dot_wide, lemma_not_near_zero, unit_spec, Vec3};

verus! {

/// Lower end of every hit interval: keeps a freshly scattered ray from
/// re-hitting the surface it just left (shadow acne).
pub const SHADOW_EPS: i64 = 66;

/// The sky gradient an escaping ray returns: a vertical blend from white
/// at the horizon to sky blue overhead, by the unit direction's height
/// (the blend factor clamped into `[0, 1]` against rounding overshoot).
pub open spec fn sky_color_spec(r: Ray) -> Vec3 {
    let u = unit_spec(r.dir);
    let t0 = fx_mul_spec(32768, u.y + SCALE as int);
    let t = if t0 < 0 {
        0
    } else if t0 > SCALE as int {
        SCALE as int
    } else {
        t0
    };
    Vec3 {
        x: (SCALE as int - t + fx_mul_spec(t, 32768)) as i64,
        y: (SCALE as int - t + fx_mul_spec(t, 45875)) as i64,
        z: (SCALE as int - t + fx_mul_spec(t, SCALE as int)) as i64,
    }
}

/// The componentwise attenuation of a bounced radiance by a colour.
pub open spec fn attenuate_spec(att: Vec3, c: Vec3) -> Vec3 {
    Vec3 {
        x: fx_mul_spec(att.x as int, c.x as int) as i64,
        y: fx_mul_spec(att.y as int, c.y as int) as i64,
        z: fx_mul_spec(att.z as int, c.z as int) as i64,
    }
}

/// Some admissible scatter outcome of the record's material produced a
/// scattered ray whose deeper radiance, attenuated, gives `c`.
pub open spec fn scattered_bounce_ok(world: World, r: Ray, depth: u32, rec: HitRecord, c: Vec3)
    -> bool
    decreases depth, 0int,
{
    depth >= 1 && exists|att: Vec3, sc: Ray, c2: Vec3|
        {
            &&& #[trigger] scatter_outcome_ok(rec.mat, r, rec, Some((att, sc)))
            &&& radiance_ok(world, sc, (depth - 1) as u32, c2)
            &&& c == #[trigger] attenuate_spec(att, c2)
        }
}

/// What the nearest hit record leads to: black when the hit point has
/// left the coordinate box; otherwise either absorption (black) or the
/// attenuated radiance of an admissible scattered ray one level deeper.
pub open spec fn bounce_ok(world: World, r: Ray, depth: u32, rec: HitRecord, c: Vec3) -> bool
    decreases depth, 1int,
{
    if !rec.p.bounded(POS_BOUND as int) {
        c == (Vec3 { x: 0i64, y: 0i64, z: 0i64 })
    } else {
        ||| (scatter_outcome_ok(rec.mat, r, rec, None::<(Vec3, Ray)>) && c == (Vec3 {
            x: 0i64,
            y: 0i64,
            z: 0i64,
        }))
        ||| scattered_bounce_ok(world, r, depth, rec, c)
    }
}

/// Everything guaranteed of a radiance estimate `c` for ray `r` under a
/// depth budget, whatever the scatter draws were: channels in `[0, 1]`;
/// black on an exhausted budget or a degenerate direction; exactly the
/// sky gradient when every surface misses; and on a hit, the world's
/// nearest record leads to `c` as [`bounce_ok`] describes.
pub open spec fn radiance_ok(world: World, r: Ray, depth: u32, c: Vec3) -> bool
    decreases depth, 2int,
{
    &&& 0 <= c.x <= SCALE as int
    &&& 0 <= c.y <= SCALE as int
    &&& 0 <= c.z <= SCALE as int
    &&& (depth == 0 ==> c == (Vec3 { x: 0i64, y: 0i64, z: 0i64 }))
    &&& (dot_wide(r.dir, r.dir) < SCALE as int ==> c == (Vec3 { x: 0i64, y: 0i64, z: 0i64 }))
    &&& if depth >= 1 && dot_wide(r.dir, r.dir) >= SCALE as int {
        &&& (all_miss(world, r, SHADOW_EPS as int, T_CAP as int) ==> c == sky_color_spec(r))
        &&& (!all_miss(world, r, SHADOW_EPS as int, T_CAP as int) ==> exists|rec: HitRecord|
            #[trigger] is_nearest_hit(world, r, SHADOW_EPS as int, T_CAP as int, rec)
                && bounce_ok(world, r, depth, rec, c))
    } else {
        true
    }
}

/// Assembles `bounce_ok` from one concrete scattered outcome.
proof fn lemma_bounce_ok_scattered(
    world: World, r: Ray, depth: u32, rec: HitRecord, att: Vec3, sc: Ray, c2: Vec3, c: Vec3,
)
    requires
        rec.p.bounded(POS_BOUND as int),
        depth >= 1,
        scatter_outcome_ok(rec.mat, r, rec, Some((att, sc))),
        radiance_ok(world, sc, (depth - 1) as u32, c2),
        c == attenuate_spec(att, c2),
    ensures
        bounce_ok(world, r, depth, rec, c),
{
    assert(scattered_bounce_ok(world, r, depth, rec, c));
}

/// Assembles `radiance_ok` for the hit case from the nearest record and
/// its bounce.
proof fn lemma_radiance_ok_hit(world: World, r: Ray, depth: u32, rec: HitRecord, c: Vec3)
    requires
        depth >= 1,
        dot_wide(r.dir, r.dir) >= SCALE as int,
        is_nearest_hit(world, r, SHADOW_EPS as int, T_CAP as int, rec),
        bounce_ok(world, r, depth, rec, c),
        0 <= c.x <= SCALE as int,
        0 <= c.y <= SCALE as int,
        0 <= c.z <= SCALE as int,
    ensures
        radiance_ok(world, r, depth, c),
{
    let i = choose|i: int|
        0 <= i < world.surfaces@.len() && (#[trigger] world.surfaces@[i]).hit_spec(
            r, SHADOW_EPS as int, T_CAP as int) == Some(rec);
    assert(!all_miss(world, r, SHADOW_EPS as int, T_CAP as int));
    assert(exists|rec2: HitRecord|
        #[trigger] is_nearest_hit(world, r, SHADOW_EPS as int, T_CAP as int, rec2)
            && bounce_ok(world, r, depth, rec2, c));
}

/// Evaluates the sky gradient for a ray with a usable direction.
pub fn sky_color(r: &Ray) -> (c: Vec3)
    requires
        r.wf(),
        dot_wide(r.dir, r.dir) >= SCALE as int,
    ensures
        c == sky_color_spec(*r),
        0 <= c.x <= SCALE as int,
        0 <= c.y <= SCALE as int,
        0 <= c.z <= SCALE as int,
{
    proof {
        lemma_not_near_zero(r.dir);
    }
    let u = r.direction().unit_vector();
    proof {
        lemma_mul_abs_bound(32768, u.y + SCALE, 32768, 262150);
        lemma_div_scale_range(32768 * (u.y + SCALE));
    }
    let t0 = fx_mul(32768, u.y + SCALE);
    let t = fx_clamp(t0, 0, SCALE);
    proof {
        lemma_attenuate_range(t as int, 32768);
        lemma_attenuate_range(t as int, 45875);
        lemma_attenuate_range(t as int, SCALE as int);
    }
    Vec3 {
        x: SCALE - t + fx_mul(t, 32768),
        y: SCALE - t + fx_mul(t, 45875),
        z: SCALE - t + fx_mul(t, SCALE),
    }
}

/// The recursive radiance estimate for one ray, guaranteed to satisfy
/// [`radiance_ok`] whatever the scatter draws were.
#[verifier::rlimit(100)]
pub fn ray_color(r: &Ray, world: &World, depth: u32, rng: &mut rand::rngs::StdRng) -> (c: Vec3)
    requires
        world.wf(),
        r.wf(),
        world.time_ok(*r),
    ensures
        radiance_ok(*world, *r, depth, c),
        0 <= c.x <= SCALE as int,
        0 <= c.y <= SCALE as int,
        0 <= c.z <= SCALE as int,
    decreases depth,
{
    if depth == 0 {
        proof {
            assert(radiance_ok(*world, *r, depth, Vec3 { x: 0i64, y: 0i64, z: 0i64 }));
        }
        return Vec3 { x: 0, y: 0, z: 0 };
    }
    if r.direction().near_zero() {
        proof {
            assert(radiance_ok(*world, *r, depth, Vec3 { x: 0i64, y: 0i64, z: 0i64 }));
        }
        return Vec3 { x: 0, y: 0, z: 0 };
    }
    match world.hit(r, SHADOW_EPS, T_CAP) {
        Some(rec) => {
            proof {
                let i = choose|i: int|
                    0 <= i < world.surfaces@.len() && (#[trigger] world.surfaces@[i]).hit_spec(
                        *r, SHADOW_EPS as int, T_CAP as int) == Some(rec);
                assert(!all_miss(*world, *r, SHADOW_EPS as int, T_CAP as int));
            }
            if rec.p.x < -POS_BOUND || rec.p.x > POS_BOUND || rec.p.y < -POS_BOUND || rec.p.y
                > POS_BOUND || rec.p.z < -POS_BOUND || rec.p.z > POS_BOUND {
                proof {
                    let c = Vec3 { x: 0i64, y: 0i64, z: 0i64 };
                    assert(bounce_ok(*world, *r, depth, rec, c));
                    lemma_radiance_ok_hit(*world, *r, depth, rec, c);
                }
                return Vec3 { x: 0, y: 0, z: 0 };
            }
            match rec.mat.scatter(rng, r, &rec) {
                Some((att, scattered)) => {
                    proof {
                        assert forall|i: int|
                            0 <= i < world.surfaces@.len() implies (
                        #[trigger] world.surfaces@[i]).time_ok(scattered) by {
                            assert(world.surfaces@[i].time_ok(*r));
                        }
                    }
                    let bounce = ray_color(&scattered, world, depth - 1, rng);
                    proof {
                        lemma_attenuate_range(att.x as int, bounce.x as int);
                        lemma_attenuate_range(att.y as int, bounce.y as int);
                        lemma_attenuate_range(att.z as int, bounce.z as int);
                    }
                    let c = att.mul(bounce);
                    proof {
                        assert(c == attenuate_spec(att, bounce));
                        lemma_bounce_ok_scattered(*world, *r, depth, rec, att, scattered,
                            bounce, c);
                        lemma_radiance_ok_hit(*world, *r, depth, rec, c);
                    }
                    c
                },
                None => {
                    proof {
                        let c = Vec3 { x: 0i64, y: 0i64, z: 0i64 };
                        assert(scatter_outcome_ok(rec.mat, *r, rec, None::<(Vec3, Ray)>));
                        assert(bounce_ok(*world, *r, depth, rec, c));
                        lemma_radiance_ok_hit(*world, *r, depth, rec, c);
                    }
                    Vec3 { x: 0, y: 0, z: 0 }
                },
            }
        },
        None => {
            let c = sky_color(r);
            proof {
                assert(radiance_ok(*world, *r, depth, c));
            }
            c
        },
    }
}

} // verus!
