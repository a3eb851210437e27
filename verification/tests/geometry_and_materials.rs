use raytracer::fx::{fxmul, FX_ONE};
use raytracer::hittable::{HitRecord, HittableList, Sphere};
use raytracer::material::{Dielectric, Lambertian, Material, Metal};
use raytracer::ray::Ray;
use raytracer::utils::{Interval, INFINITY};
use raytracer::vec3::{dot, reflect, unit_vector, Vec3};

fn gray() -> Material {
    Material::Lambertian(Lambertian::new(Vec3::new(FX_ONE / 2, FX_ONE / 2, FX_ONE / 2)))
}

// A ray aimed directly at a sphere's center hits at the distance to the
// surface, with the normal parallel to (hit point - center).
#[test]
fn head_on_hit_distance_and_normal() {
    let sphere = Sphere::new(Vec3::new(0, 0, -2 * FX_ONE), FX_ONE, gray());
    let ray = Ray::new(Vec3::new(0, 0, 0), Vec3::new(0, 0, -FX_ONE));
    let rec = sphere.hit(&ray, Interval::new(0, INFINITY)).expect("must hit");
    assert_eq!(rec.t, FX_ONE, "distance to surface is one");
    assert_eq!((rec.p.x, rec.p.y, rec.p.z), (0, 0, -FX_ONE));
    // The normal points back along z: parallel to (p - center) = (0, 0, 1).
    assert_eq!((rec.normal.x, rec.normal.y, rec.normal.z), (0, 0, FX_ONE));
    assert!(rec.front_face);
}

// A ray whose perpendicular offset exceeds the radius yields no hit.
#[test]
fn offset_ray_misses() {
    let sphere = Sphere::new(Vec3::new(3 * FX_ONE, 0, -5 * FX_ONE), FX_ONE, gray());
    let ray = Ray::new(Vec3::new(0, 0, 0), Vec3::new(0, 0, -FX_ONE));
    assert!(sphere.hit(&ray, Interval::new(0, INFINITY)).is_none());
    // Just inside the radius it hits.
    let near = Sphere::new(Vec3::new(FX_ONE / 2, 0, -5 * FX_ONE), FX_ONE, gray());
    assert!(near.hit(&ray, Interval::new(0, INFINITY)).is_some());
}

// The scene-level nearest-hit search returns the closer sphere's
// record, whatever the insertion order.
#[test]
fn nearest_hit_is_order_independent() {
    let near = Sphere::new(Vec3::new(0, 0, -3 * FX_ONE), FX_ONE, gray());
    let far = Sphere::new(Vec3::new(0, 0, -5 * FX_ONE), FX_ONE, gray());
    let ray = Ray::new(Vec3::new(0, 0, 0), Vec3::new(0, 0, -FX_ONE));

    let mut a = HittableList::new();
    a.add(near);
    a.add(far);
    let mut b = HittableList::new();
    b.add(far);
    b.add(near);

    let ra = a.hit(&ray, Interval::new(0, INFINITY)).expect("hit");
    let rb = b.hit(&ray, Interval::new(0, INFINITY)).expect("hit");
    assert_eq!(ra.t, 2 * FX_ONE);
    assert_eq!(rb.t, 2 * FX_ONE);
    assert_eq!((ra.p.z, rb.p.z), (-2 * FX_ONE, -2 * FX_ONE));
}

fn record_at_origin_surface(mat: Material, front: bool) -> HitRecord {
    HitRecord {
        p: Vec3::new(0, 0, 0),
        normal: Vec3::new(0, FX_ONE, 0),
        t: FX_ONE,
        front_face: front,
        mat,
    }
}

// Lambertian scatter always reports scattered = true.
#[test]
fn lambertian_always_scatters() {
    let albedo = Vec3::new(FX_ONE / 4, FX_ONE / 2, FX_ONE / 8);
    let mat = Material::Lambertian(Lambertian::new(albedo));
    let ray = Ray::new(Vec3::new(0, FX_ONE, 0), Vec3::new(0, -FX_ONE, 0));
    for _ in 0..50 {
        let rec = record_at_origin_surface(mat, true);
        let (scattered, attenuation, out) = mat.scatter(&ray, &rec);
        assert!(scattered);
        assert_eq!((attenuation.x, attenuation.y, attenuation.z), (albedo.x, albedo.y, albedo.z));
        assert_eq!((out.origin.x, out.origin.y, out.origin.z), (0, 0, 0));
    }
}

// Metal with fuzz zero reflects exactly.
#[test]
fn metal_zero_fuzz_is_exact_mirror() {
    let albedo = Vec3::new(FX_ONE, FX_ONE, FX_ONE);
    let mat = Material::Metal(Metal::new(albedo, 0));
    let incident = Vec3::new(FX_ONE, -FX_ONE, 0);
    let ray = Ray::new(Vec3::new(-FX_ONE, FX_ONE, 0), incident);
    let rec = record_at_origin_surface(mat, true);
    let (scattered, _, out) = mat.scatter(&ray, &rec);
    let expected = reflect(&incident, &rec.normal);
    assert_eq!(
        (out.direction.x, out.direction.y, out.direction.z),
        (expected.x, expected.y, expected.z)
    );
    assert_eq!((expected.x, expected.y, expected.z), (FX_ONE, FX_ONE, 0));
    assert!(scattered);
}

#[test]
fn metal_fuzz_is_clamped_into_unit_interval() {
    let m = Metal::new(Vec3::new(FX_ONE, FX_ONE, FX_ONE), 3 * FX_ONE);
    assert_eq!(m.fuzz, FX_ONE);
    let m2 = Metal::new(Vec3::new(FX_ONE, FX_ONE, FX_ONE), FX_ONE / 4);
    assert_eq!(m2.fuzz, FX_ONE / 4);
    // Negative roughness is clamped up to zero, per the material model.
    let m3 = Metal::new(Vec3::new(FX_ONE, FX_ONE, FX_ONE), -FX_ONE);
    assert_eq!(m3.fuzz, 0);
}

// Dielectric forces reflection whenever ratio * sin_theta > 1.
#[test]
fn dielectric_total_internal_reflection() {
    let mat = Material::Dielectric(Dielectric::new(FX_ONE + FX_ONE / 2));
    // Grazing incidence from inside the medium: the ratio is the index
    // itself (1.5) and sin_theta is close to one, so 1.5 * sin > 1.
    let incident = Vec3::new(FX_ONE, -FX_ONE / 64, 0);
    let ray = Ray::new(Vec3::new(-FX_ONE, FX_ONE / 64, 0), incident);
    for _ in 0..50 {
        let rec = record_at_origin_surface(mat, false);
        let (scattered, attenuation, out) = mat.scatter(&ray, &rec);
        assert!(scattered, "dielectric always scatters");
        assert_eq!(
            (attenuation.x, attenuation.y, attenuation.z),
            (FX_ONE, FX_ONE, FX_ONE),
            "glass is colorless"
        );
        let expected = reflect(&unit_vector(&incident), &rec.normal);
        assert_eq!(
            (out.direction.x, out.direction.y, out.direction.z),
            (expected.x, expected.y, expected.z),
            "total internal reflection must reflect, never refract"
        );
    }
}

#[test]
fn metal_absorbs_rays_into_the_surface() {
    // With full fuzz an occasional sample points into the surface; the
    // reported flag must then be false exactly when the scattered
    // direction does not oppose the surface.
    let mat = Material::Metal(Metal::new(Vec3::new(FX_ONE, FX_ONE, FX_ONE), FX_ONE));
    let incident = Vec3::new(FX_ONE, -FX_ONE / 16, 0);
    let ray = Ray::new(Vec3::new(-FX_ONE, FX_ONE / 16, 0), incident);
    for _ in 0..100 {
        let rec = record_at_origin_surface(mat, true);
        let (scattered, _, out) = mat.scatter(&ray, &rec);
        assert_eq!(scattered, dot(&out.direction, &rec.normal) > 0);
    }
}

#[test]
fn sphere_respects_interval_bounds() {
    let sphere = Sphere::new(Vec3::new(0, 0, -4 * FX_ONE), FX_ONE, gray());
    let ray = Ray::new(Vec3::new(0, 0, 0), Vec3::new(0, 0, -FX_ONE));
    // Near root at t = 3, far root at t = 5; excluding t <= 3 picks the
    // far root.
    let rec = sphere.hit(&ray, Interval::new(3 * FX_ONE + 1, INFINITY)).expect("far root");
    assert_eq!(rec.t, 5 * FX_ONE);
    assert!(!rec.front_face, "leaving the sphere flips the stored normal");
    // Excluding both roots yields nothing.
    assert!(sphere.hit(&ray, Interval::new(5 * FX_ONE + 1, INFINITY)).is_none());
    assert!(sphere.hit(&ray, Interval::new(0, 2 * FX_ONE)).is_none());
}

#[test]
fn fuzz_product_sanity() {
    // fxmul with zero fuzz is exactly zero, the fact behind the exact
    // mirror law.
    assert_eq!(fxmul(123456789, 0), 0);
}
