use pathtracer::camera::Camera;
use pathtracer::fx::SCALE;
use pathtracer::hit::{HitRecord, World};
use pathtracer::integrator::{ray_color, sky_color};
use pathtracer::mat::{Dielectric, Dielectric_Tint, Lambertian, Material, Metal};
use pathtracer::ray::{Ray, T_CAP};
use pathtracer::render::render;
use pathtracer::rng::{random_scalar, random_unit_scalar};
use pathtracer::sphere::{Sphere, Surface};
use pathtracer::vec3::Vec3;
use rand::SeedableRng;

fn rng(seed: u64) -> rand::rngs::StdRng {
    rand::rngs::StdRng::seed_from_u64(seed)
}

fn record_at(p: Vec3, normal: Vec3, front_face: bool, mat: Material) -> HitRecord {
    HitRecord { p, normal, mat, t: SCALE, front_face }
}

#[test]
fn random_scalar_respects_its_range() {
    let mut g = rng(1);
    for _ in 0..100 {
        let v = random_scalar(&mut g, 5, 6);
        assert_eq!(v, 5);
        let w = random_scalar(&mut g, -3, 9);
        assert!((-3..9).contains(&w));
        let u = random_unit_scalar(&mut g);
        assert!((0..SCALE).contains(&u));
    }
}

#[test]
fn samplers_stay_in_their_domains() {
    let mut g = rng(2);
    for _ in 0..50 {
        let b = Vec3::random_in_unit_sphere(&mut g);
        let w = b.x() * b.x() + b.y() * b.y() + b.z() * b.z();
        assert!(w < SCALE * SCALE);
        let n = Vec3::new(0, 0, SCALE);
        let h = Vec3::random_in_hemisphere(&mut g, n);
        let dh = h.x() * n.x() + h.y() * n.y() + h.z() * n.z();
        assert!(dh >= 0);
        let d = Vec3::random_in_unit_disk(&mut g);
        assert_eq!(d.z(), 0);
        assert!(d.x() * d.x() + d.y() * d.y() < SCALE * SCALE);
        let r = Vec3::random(&mut g, -7, 7);
        assert!((-7..7).contains(&r.x()));
    }
}

#[test]
fn lambertian_never_absorbs() {
    let mut g = rng(3);
    let m = Lambertian::new(Vec3::new(SCALE / 2, SCALE / 4, SCALE / 8));
    let r_in = Ray::new(Vec3::new(0, 0, 0), Vec3::new(0, 0, -SCALE), 0);
    let rec = record_at(Vec3::new(0, 0, -SCALE), Vec3::new(0, 0, SCALE), true,
        Material::Lambertian(m));
    for _ in 0..20 {
        let (att, scattered) = m.scatter(&mut g, &r_in, &rec).expect("diffuse never absorbs");
        assert_eq!((att.x(), att.y(), att.z()), (SCALE / 2, SCALE / 4, SCALE / 8));
        assert_eq!(scattered.origin().z(), -SCALE);
        assert_eq!(scattered.time(), 0);
        // The scattered direction points strictly out of the surface.
        assert!(scattered.direction().z() > 0);
    }
}

#[test]
fn metal_mirror_reflects_exactly() {
    // Without fuzz, the scattered direction is the exact reflection of
    // the normalized incoming direction.
    let m = Metal::new(Vec3::new(SCALE, SCALE, SCALE), 0);
    let r_in = Ray::new(Vec3::new(0, 0, 0), Vec3::new(SCALE, 0, -SCALE), 0);
    let rec = record_at(Vec3::new(SCALE, 0, -SCALE), Vec3::new(0, 0, SCALE), true,
        Material::Metal(m));
    let (att, scattered) = m
        .scatter_with(Vec3::new(0, 0, 0), &r_in, &rec)
        .expect("outgoing reflection");
    assert_eq!(att.x(), SCALE);
    let d = scattered.direction();
    // unit(1, 0, -1) has components (46341, 0, -46342) after flooring;
    // reflection about +z flips the z component.
    assert_eq!((d.x(), d.y(), d.z()), (46341, 0, 46342));
}

#[test]
fn metal_absorbs_directions_into_the_surface() {
    // A large fuzz sample can push the reflection below the surface;
    // the metal then reports absorption.
    let m = Metal::new(Vec3::new(SCALE, SCALE, SCALE), 0x10_0000);
    let r_in = Ray::new(Vec3::new(0, 0, 0), Vec3::new(SCALE, 0, -SCALE), 0);
    let rec = record_at(Vec3::new(SCALE, 0, -SCALE), Vec3::new(0, 0, SCALE), true,
        Material::Metal(m));
    let res = m.scatter_with(Vec3::new(0, 0, -SCALE + 1), &r_in, &rec);
    assert!(res.is_none());
}

#[test]
fn clear_dielectric_with_unit_index_passes_straight_through() {
    let m = Dielectric::new(SCALE, 0);
    let r_in = Ray::new(Vec3::new(0, 0, 0), Vec3::new(0, 0, -SCALE), 0);
    let rec = record_at(Vec3::new(0, 0, -SCALE), Vec3::new(0, 0, SCALE), true,
        Material::Dielectric(m));
    let (att, scattered) = m.scatter_with(0, Vec3::new(0, 0, 0), &r_in, &rec);
    assert_eq!((att.x(), att.y(), att.z()), (SCALE, SCALE, SCALE));
    let d = scattered.direction();
    assert_eq!((d.x(), d.y(), d.z()), (0, 0, -SCALE));
}

#[test]
fn tinted_dielectric_attenuates_by_its_tint() {
    let tint = Vec3::new(SCALE, SCALE / 2, SCALE / 4);
    let m = Dielectric_Tint::new(SCALE, 0, tint);
    let r_in = Ray::new(Vec3::new(0, 0, 0), Vec3::new(0, 0, -SCALE), 0);
    let rec = record_at(Vec3::new(0, 0, -SCALE), Vec3::new(0, 0, SCALE), true,
        Material::DielectricTint(m));
    let (att, _) = m.scatter_with(0, Vec3::new(0, 0, 0), &r_in, &rec);
    assert_eq!((att.x(), att.y(), att.z()), (SCALE, SCALE / 2, SCALE / 4));
}

#[test]
fn reflectance_vanishes_at_matched_media_and_normal_incidence() {
    assert_eq!(Dielectric::reflectance(SCALE, SCALE), 0);
    // Grazing incidence on glass reflects noticeably.
    let grazing = Dielectric::reflectance(0, 3 * SCALE / 2);
    assert!(grazing > SCALE / 50);
}

#[test]
fn gamma_encoding_has_exact_values_and_stays_in_range() {
    // Full radiance over one sample saturates just below 256.
    assert_eq!(Vec3::new(SCALE, SCALE, SCALE).format_color(1), [255, 255, 255]);
    // Zero radiance stays black.
    assert_eq!(Vec3::new(0, 0, 0).format_color(7), [0, 0, 0]);
    // A quarter averages to one half after gamma: 128.
    assert_eq!(Vec3::new(SCALE / 4, SCALE / 4, SCALE / 4).format_color(1), [128, 128, 128]);
    // Two samples of one half each also average to a quarter.
    assert_eq!(Vec3::new(SCALE / 2, SCALE / 2, SCALE / 2).format_color(2), [128, 128, 128]);
    // Radiance far above one clamps to the top of the byte range.
    assert_eq!(Vec3::new(i64::MAX, i64::MAX, i64::MAX).format_color(1), [255, 255, 255]);
}

#[test]
fn sky_gradient_matches_the_blend_formula() {
    // Straight up: t = 1, pure sky blue (0.5, 0.7, 1.0).
    let up = Ray::new(Vec3::new(0, 0, 0), Vec3::new(0, SCALE, 0), 0);
    let c = sky_color(&up);
    assert_eq!((c.x(), c.y(), c.z()), (32768, 45875, SCALE));
    // At the horizon: t = 1/2, the even blend of white and sky blue.
    let level = Ray::new(Vec3::new(0, 0, 0), Vec3::new(SCALE, 0, 0), 0);
    let h = sky_color(&level);
    assert_eq!((h.x(), h.y(), h.z()), (32768 + 16384, 32768 + 22937, SCALE));
}

#[test]
fn escaping_ray_returns_the_sky_gradient() {
    let w = World::new();
    let mut g = rng(4);
    let up = Ray::new(Vec3::new(0, 0, 0), Vec3::new(0, SCALE, 0), 0);
    let c = ray_color(&up, &w, 5, &mut g);
    assert_eq!((c.x(), c.y(), c.z()), (32768, 45875, SCALE));
}

#[test]
fn depth_exhaustion_returns_black() {
    let w = World::new();
    let mut g = rng(5);
    let up = Ray::new(Vec3::new(0, 0, 0), Vec3::new(0, SCALE, 0), 0);
    let c = ray_color(&up, &w, 0, &mut g);
    assert_eq!((c.x(), c.y(), c.z()), (0, 0, 0));
}

fn two_sphere_scene() -> World {
    // A half-unit diffuse sphere one unit ahead, and the large ground
    // sphere below it.
    let near = Sphere::new(
        Vec3::new(0, 0, -SCALE),
        SCALE / 2,
        Material::Lambertian(Lambertian::new(Vec3::new(SCALE / 2, SCALE / 2, SCALE / 2))),
    );
    let ground = Sphere::new(
        Vec3::new(0, -100 * SCALE - SCALE / 2, -SCALE),
        100 * SCALE,
        Material::Lambertian(Lambertian::new(Vec3::new(SCALE / 2, SCALE / 2, SCALE / 2))),
    );
    let mut w = World::new();
    w.push(Surface::Sphere(near));
    w.push(Surface::Sphere(ground));
    w
}

#[test]
fn centre_ray_hits_near_sphere_front_face() {
    // The end-to-end scenario: straight down the negative z axis from the
    // camera position, the near sphere is hit on its front face with the
    // normal pointing back along +z.
    let w = two_sphere_scene();
    let r = Ray::new(Vec3::new(0, 0, 0), Vec3::new(0, 0, -SCALE), 0);
    let h = w.hit(&r, 66, T_CAP).expect("centre ray must hit");
    assert_eq!(h.t, SCALE / 2);
    assert!(h.front_face);
    assert_eq!((h.normal.x(), h.normal.y(), h.normal.z()), (0, 0, SCALE));
}

#[test]
fn camera_centre_ray_points_down_the_axis() {
    // A 90-degree camera at the origin looking down -z with no aperture:
    // the centre of the image plane is straight ahead.
    let cam = Camera::new(
        Vec3::new(0, 0, 0),
        Vec3::new(0, 0, -SCALE),
        Vec3::new(0, SCALE, 0),
        SCALE,      // tan(45 degrees)
        4 * SCALE / 3,
        0,
        SCALE,
        0,
        SCALE,
    );
    let mut g = rng(6);
    let r = cam.get_ray(&mut g, SCALE / 2, SCALE / 2);
    assert_eq!((r.origin().x(), r.origin().y(), r.origin().z()), (0, 0, 0));
    let d = r.direction();
    // Exact centre of the focus plane one unit ahead, up to flooring.
    assert!(d.z() < 0);
    assert!(d.x().abs() <= 2 && d.y().abs() <= 2, "{} {}", d.x(), d.y());
    assert!((d.z() + SCALE).abs() <= 2, "{}", d.z());
}

#[test]
fn render_is_deterministic_for_a_fixed_seed() {
    let w = two_sphere_scene();
    let cam = Camera::new(
        Vec3::new(0, 0, 0),
        Vec3::new(0, 0, -SCALE),
        Vec3::new(0, SCALE, 0),
        SCALE,
        4 * SCALE / 3,
        0,
        SCALE,
        0,
        SCALE,
    );
    let mut g1 = rng(42);
    let img1 = render(&w, &cam, &mut g1, 8, 6, 2, 3);
    let mut g2 = rng(42);
    let img2 = render(&w, &cam, &mut g2, 8, 6, 2, 3);
    assert_eq!(img1.len(), 48);
    assert_eq!(img1, img2);
    let mut g3 = rng(43);
    let img3 = render(&w, &cam, &mut g3, 8, 6, 2, 3);
    assert_eq!(img3.len(), 48);
}

#[test]
fn empty_world_pixel_is_pure_sky() {
    // With no surfaces, every sample of every pixel is a sky colour,
    // whose blue channel is always full; so whatever the jitter and lens
    // draws were, the encoded blue channel saturates.
    let w = World::new();
    let cam = Camera::new(
        Vec3::new(0, 0, 0),
        Vec3::new(0, 0, -SCALE),
        Vec3::new(0, SCALE, 0),
        SCALE,
        4 * SCALE / 3,
        0,
        SCALE,
        0,
        SCALE,
    );
    let mut g = rng(9);
    for i in 0..4 {
        let px = pathtracer::render::render_pixel(&w, &cam, &mut g, i, 1, 8, 6, 3, 4);
        assert_eq!(px[2], 255);
        assert!(px[0] >= 128);
    }
}

#[test]
fn set_face_normal_orients_against_the_ray() {
    let r = Ray::new(Vec3::new(0, 0, 0), Vec3::new(0, 0, -SCALE), 0);
    let mut rec = record_at(Vec3::new(0, 0, -SCALE), Vec3::new(0, 0, 0), false,
        Material::Lambertian(Lambertian::new(Vec3::new(0, 0, 0))));
    rec.set_face_normal(&r, Vec3::new(0, 0, SCALE));
    assert!(rec.front_face);
    assert_eq!(rec.normal.z(), SCALE);
    rec.set_face_normal(&r, Vec3::new(0, 0, -SCALE));
    assert!(!rec.front_face);
    assert_eq!(rec.normal.z(), SCALE);
}
