use pathtracer::fx::SCALE;
use pathtracer::hit::World;
use pathtracer::mat::{Lambertian, Material};
use pathtracer::ray::{Ray, T_CAP};
use pathtracer::sphere::{MovingSphere, Sphere, Surface};
use pathtracer::vec3::Vec3;

fn grey() -> Material {
    Material::Lambertian(Lambertian::new(Vec3::new(SCALE / 2, SCALE / 2, SCALE / 2)))
}

#[test]
fn ray_accessors_and_at() {
    let r = Ray::new(Vec3::new(SCALE, 0, 0), Vec3::new(0, 0, -SCALE), 7);
    assert_eq!(r.origin().x(), SCALE);
    assert_eq!(r.direction().z(), -SCALE);
    assert_eq!(r.time(), 7);
    let p = r.at(2 * SCALE);
    assert_eq!((p.x(), p.y(), p.z()), (SCALE, 0, -2 * SCALE));
}

#[test]
fn axial_ray_enters_sphere_at_distance_minus_radius() {
    // Sphere two units away with radius one half: entry at t = 1.5.
    let s = Sphere::new(Vec3::new(0, 0, -2 * SCALE), SCALE / 2, grey());
    let r = Ray::new(Vec3::new(0, 0, 0), Vec3::new(0, 0, -SCALE), 0);
    let h = s.hit(&r, 0, T_CAP).expect("must hit");
    assert_eq!(h.t, 3 * SCALE / 2);
    assert!(h.front_face);
    assert_eq!((h.normal.x(), h.normal.y(), h.normal.z()), (0, 0, SCALE));
    assert_eq!((h.p.x(), h.p.y(), h.p.z()), (0, 0, -3 * SCALE / 2));
}

#[test]
fn axial_ray_from_inside_exits_at_distance_plus_radius() {
    // Starting past the entry point, the accepted root is the far one.
    let s = Sphere::new(Vec3::new(0, 0, -2 * SCALE), SCALE / 2, grey());
    let r = Ray::new(Vec3::new(0, 0, 0), Vec3::new(0, 0, -SCALE), 0);
    let h = s.hit(&r, 2 * SCALE, T_CAP).expect("must hit far root");
    assert_eq!(h.t, 5 * SCALE / 2);
    assert!(!h.front_face);
    // The outward normal points along -z there; stored flipped against
    // the ray, it points back up the axis.
    assert_eq!((h.normal.x(), h.normal.y(), h.normal.z()), (0, 0, SCALE));
}

#[test]
fn tangent_ray_reports_single_root() {
    // Ray grazing a unit sphere exactly at its side: the discriminant is
    // zero and the one root is -half_b / a = 2.
    let s = Sphere::new(Vec3::new(0, 0, -2 * SCALE), SCALE, grey());
    let r = Ray::new(Vec3::new(SCALE, 0, 0), Vec3::new(0, 0, -SCALE), 0);
    let h = s.hit(&r, 0, T_CAP).expect("tangent hit");
    assert_eq!(h.t, 2 * SCALE);
    // Just beyond that single parameter, nothing is left to hit.
    assert!(s.hit(&r, 2 * SCALE + 1, T_CAP).is_none());
}

#[test]
fn miss_returns_none() {
    let s = Sphere::new(Vec3::new(0, 0, -2 * SCALE), SCALE / 2, grey());
    let r = Ray::new(Vec3::new(0, 0, 0), Vec3::new(0, 0, SCALE), 0);
    assert!(s.hit(&r, 0, T_CAP).is_none());
}

#[test]
fn world_returns_geometrically_nearer_hit() {
    // Two overlapping spheres along the ray: the nearer intersection wins
    // whichever order the world holds them in.
    let near = Sphere::new(Vec3::new(0, 0, -2 * SCALE), SCALE / 2, grey());
    let far = Sphere::new(Vec3::new(0, 0, -4 * SCALE), 2 * SCALE, grey());
    let r = Ray::new(Vec3::new(0, 0, 0), Vec3::new(0, 0, -SCALE), 0);
    for order in 0..2 {
        let mut w = World::new();
        if order == 0 {
            w.push(Surface::Sphere(near));
            w.push(Surface::Sphere(far));
        } else {
            w.push(Surface::Sphere(far));
            w.push(Surface::Sphere(near));
        }
        let h = w.hit(&r, 0, T_CAP).expect("must hit");
        assert_eq!(h.t, 3 * SCALE / 2);
    }
}

#[test]
fn world_hit_of_empty_world_is_none() {
    let w = World::new();
    assert_eq!(w.len(), 0);
    let r = Ray::new(Vec3::new(0, 0, 0), Vec3::new(0, 0, -SCALE), 0);
    assert!(w.hit(&r, 0, T_CAP).is_none());
}

#[test]
fn moving_sphere_centre_interpolates() {
    let m = MovingSphere::new(
        Vec3::new(0, 0, 0),
        Vec3::new(0, SCALE, 0),
        0,
        SCALE,
        SCALE / 2,
        grey(),
    );
    let c0 = m.center(0);
    assert_eq!((c0.x(), c0.y(), c0.z()), (0, 0, 0));
    let cmid = m.center(SCALE / 2);
    assert_eq!((cmid.x(), cmid.y(), cmid.z()), (0, SCALE / 2, 0));
    let c1 = m.center(SCALE);
    assert_eq!((c1.x(), c1.y(), c1.z()), (0, SCALE, 0));
}

#[test]
fn moving_sphere_hit_uses_centre_at_ray_time() {
    // At time 1 the sphere has moved one unit down the z axis, so the
    // entry parameter grows by one.
    let m = MovingSphere::new(
        Vec3::new(0, 0, -2 * SCALE),
        Vec3::new(0, 0, -3 * SCALE),
        0,
        SCALE,
        SCALE / 2,
        grey(),
    );
    let r0 = Ray::new(Vec3::new(0, 0, 0), Vec3::new(0, 0, -SCALE), 0);
    assert_eq!(m.hit(&r0, 0, T_CAP).expect("hit at open").t, 3 * SCALE / 2);
    let r1 = Ray::new(Vec3::new(0, 0, 0), Vec3::new(0, 0, -SCALE), SCALE);
    assert_eq!(m.hit(&r1, 0, T_CAP).expect("hit at close").t, 5 * SCALE / 2);
}

#[test]
fn aabb_keeps_its_corners() {
    let b = pathtracer::aabb::aabb::new(Vec3::new(1, 2, 3), Vec3::new(4, 5, 6));
    assert_eq!(b.min().x(), 1);
    assert_eq!(b.max().z(), 6);
}
