//! Materials, fog and the integrator.

use ray_tracer::fx::Fx;
use ray_tracer::material::{Dielectric, Lambertian, Material, Metal};
use ray_tracer::ray::Ray;
use ray_tracer::sphere::Sphere;
use ray_tracer::list::HittableList;
use ray_tracer::types::HitRecord;
use ray_tracer::vec3::Vec3;
use ray_tracer::volumetric::{UniformFog, calculate_beer_lambert_attenuation};
use ray_tracer::trace::ray_color;

fn fx(raw: i64) -> Fx {
    Fx::from_raw(raw)
}

fn v(x: i64, y: i64, z: i64) -> Vec3 {
    Vec3::new(fx(x), fx(y), fx(z))
}

fn gray() -> Material {
    Material::Lambertian(Lambertian::new(v(32768, 32768, 32768)))
}

fn front_record(normal: Vec3) -> HitRecord {
    HitRecord {
        point: v(0, 0, -65536),
        normal,
        material: gray(),
        t: Fx::one(),
        front_face: true,
    }
}

#[test]
fn random_unit_vector_components_bounded() {
    for _ in 0..256 {
        let u = ray_tracer::types::random_unit_vector();
        for c in [u.x().raw, u.y().raw, u.z().raw] {
            assert!(c.abs() <= 65538, "component out of bounds: {c}");
        }
        // the sampled vector has roughly unit length
        let sq = u.length_squared().raw;
        assert!(16384 <= sq && sq <= 262144, "squared length far from one: {sq}");
    }
}

#[test]
fn lambertian_attenuation_equals_albedo() {
    let albedo = v(13107, 45875, 58982);
    let mat = Lambertian::new(albedo);
    let ray = Ray::new(v(0, 0, 0), v(0, 0, -65536));
    let rec = front_record(v(0, 0, 65536));
    for _ in 0..32 {
        let sc = mat.scatter(&ray, &rec).expect("diffuse always scatters");
        assert_eq!(sc.attenuation, albedo);
        assert_eq!(sc.scattered.origin().z().raw, rec.point.z().raw);
    }
}

#[test]
fn metal_absorbs_directions_into_the_surface() {
    // a smooth metal whose reflection lands behind the stored normal
    let mat = Metal::with_params(v(58982, 52428, 45875), Fx::zero(), fx(58982), Fx::one());
    let ray = Ray::new(v(0, 0, 0), v(0, 0, -65536));
    let mut rec = front_record(v(0, 0, -65536));
    rec.front_face = false;
    assert!(mat.scatter(&ray, &rec).is_none());
}

#[test]
fn metal_scatters_with_attenuation_in_unit_range() {
    let mat = Metal::with_params(v(58982, 52428, 45875), Fx::zero(), fx(58982), Fx::one());
    let ray = Ray::new(v(0, 0, 0), v(0, 0, -65536));
    let rec = front_record(v(0, 0, 65536));
    let sc = mat.scatter(&ray, &rec).expect("head-on reflection leaves the surface");
    // the mirror reflection of -z about +z is +z
    assert_eq!(sc.scattered.direction().z().raw, 65536);
    for c in [sc.attenuation.x().raw, sc.attenuation.y().raw, sc.attenuation.z().raw] {
        assert!(0 <= c && c <= 65536, "attenuation channel out of range: {c}");
    }
}

#[test]
fn metal_constructor_clamps_parameters() {
    let m = Metal::with_params(v(65536, 65536, 65536), fx(131072), fx(-65536), fx(98304));
    assert_eq!(m.roughness.raw, 65536);
    assert_eq!(m.reflectivity.raw, 0);
    assert_eq!(m.metallicness.raw, 65536);
}

#[test]
fn dielectric_matched_index_head_on_passes_straight() {
    let mat = Dielectric::new(Fx::one());
    let ray = Ray::new(v(0, 0, 0), v(0, 0, -65536));
    let rec = front_record(v(0, 0, 65536));
    let sc = mat.scatter_with(&ray, &rec, fx(32768));
    let d = sc.scattered.direction();
    assert_eq!((d.x().raw, d.y().raw, d.z().raw), (0, 0, -65536));
    assert_eq!(sc.attenuation.x().raw, 65536);
    assert_eq!(sc.attenuation.y().raw, 65536);
    assert_eq!(sc.attenuation.z().raw, 65536);
}

#[test]
fn dielectric_matched_index_oblique_bends_little() {
    let mat = Dielectric::new(Fx::one());
    let ray = Ray::new(v(0, 0, 0), v(0, -65536, -65536));
    let rec = front_record(v(0, 0, 65536));
    let sc = mat.scatter_with(&ray, &rec, fx(32768));
    let d = sc.scattered.direction();
    let ud = ray.direction().unit_vector();
    assert!((d.x().raw - ud.x().raw).abs() <= 16);
    assert!((d.y().raw - ud.y().raw).abs() <= 16);
    assert!((d.z().raw - ud.z().raw).abs() <= 16);
}

#[test]
fn dielectric_total_internal_reflection() {
    // leaving glass at a steep angle: the ray must reflect back inside
    let mat = Dielectric::new(fx(98304));
    let ray = Ray::new(v(0, 0, 0), v(0, -65536, -65536));
    let mut rec = front_record(v(0, 0, 65536));
    rec.front_face = false;
    let sc = mat.scatter_with(&ray, &rec, fx(32768));
    assert!(sc.scattered.direction().z().raw > 0);
}

#[test]
fn beer_lambert_exact_values() {
    // zero optical depth transmits everything
    assert_eq!(calculate_beer_lambert_attenuation(Fx::zero(), fx(655360)).raw, 65536);
    // depth one: 1 / (1 + 1 + 1/2) = 0.4
    assert_eq!(calculate_beer_lambert_attenuation(Fx::one(), Fx::one()).raw, 26214);
}

#[test]
fn fog_sample_splits_light() {
    let fog = UniformFog::new(v(39321, 39321, 45875), fx(6554));
    let ray = Ray::new(v(0, 0, 0), v(0, 0, -65536));
    let (scattered, transmittance) = fog.sample(&ray, Fx::zero(), fx(655360));
    assert!(0 <= transmittance.raw && transmittance.raw <= 65536);
    // the in-scattered light is the fog color scaled by what was absorbed
    let absorbed = Fx::one().sub(transmittance);
    assert_eq!(scattered.x().raw, fx(39321).mul(absorbed).raw);
    assert_eq!(scattered.z().raw, fx(45875).mul(absorbed).raw);
}

fn single_sphere_world() -> ray_tracer::BVHNode {
    let mut list = HittableList::new();
    list.add(Sphere::new(v(0, 0, -65536), Fx::one(), gray()));
    list.optimize()
}

#[test]
fn trace_depth_zero_is_black() {
    let world = single_sphere_world();
    let ray = Ray::new(v(13107, -6554, 19661), v(6554, 65536, -13107));
    let c = ray_color(&ray, &world, None, 0);
    assert_eq!((c.x().raw, c.y().raw, c.z().raw), (0, 0, 0));
}

#[test]
fn trace_single_bounce_stays_in_unit_range() {
    let world = single_sphere_world();
    let ray = Ray::new(v(0, 0, 0), v(0, 0, -65536));
    let c = ray_color(&ray, &world, None, 1);
    for ch in [c.x().raw, c.y().raw, c.z().raw] {
        assert!(0 <= ch && ch <= 65536, "channel out of range: {ch}");
    }
    // the single bounce exhausts the depth budget, so the hit resolves black
    assert_eq!((c.x().raw, c.y().raw, c.z().raw), (0, 0, 0));
}

#[test]
fn trace_single_bounce_through_fog_composites_exactly() {
    let world = single_sphere_world();
    let ray = Ray::new(v(0, 0, 0), v(0, 0, -65536));
    let fog = UniformFog::new(v(39321, 39321, 45875), fx(6554));
    // the surface contribution at depth one is black, so the result is
    // exactly the fog's in-scattered light over the hit distance
    let rec = world.hit(&ray, fx(66), fx(i64::MAX)).expect("must hit");
    let (scattered_light, _) = fog.sample(&ray, Fx::zero(), rec.t);
    let c = ray_color(&ray, &world, Some(&fog), 1);
    assert_eq!(
        (c.x().raw, c.y().raw, c.z().raw),
        (scattered_light.x().raw, scattered_light.y().raw, scattered_light.z().raw)
    );
}

#[test]
fn trace_miss_returns_background_gradient() {
    let world = single_sphere_world();
    // straight up: the blend lands exactly on the sky color
    let up = Ray::new(v(0, 0, 0), v(0, 65536, 0));
    let c = ray_color(&up, &world, None, 8);
    assert_eq!((c.x().raw, c.y().raw, c.z().raw), (32768, 45875, 65536));
}

#[test]
fn trace_miss_through_weightless_fog_keeps_background() {
    let world = single_sphere_world();
    let fog = UniformFog::new(v(52428, 52428, 52428), Fx::zero());
    let up = Ray::new(v(0, 0, 0), v(0, 65536, 0));
    let c = ray_color(&up, &world, Some(&fog), 8);
    assert_eq!((c.x().raw, c.y().raw, c.z().raw), (32768, 45875, 65536));
}

#[test]
fn trace_deep_render_of_mixed_scene_terminates_in_range() {
    let mut list = HittableList::new();
    list.add(Sphere::new(v(0, -6553600, -65536), fx(6488064), gray()));
    list.add(Sphere::new(v(0, 0, -131072), Fx::one(), gray()));
    list.add(
        Sphere::new(
            v(-131072, 0, -131072),
            Fx::one(),
            Material::Metal(Metal::new(v(52428, 45875, 39321), fx(19661))),
        ),
    );
    list.add(
        Sphere::new(
            v(131072, 0, -131072),
            Fx::one(),
            Material::Dielectric(Dielectric::new(fx(98304))),
        ),
    );
    let world = list.optimize();
    let fog = UniformFog::new(v(39321, 39321, 45875), fx(655));
    for sx in -4i64..5 {
        for sy in -4i64..5 {
            let ray = Ray::new(v(0, 0, 0), v(sx * 16384, sy * 16384, -65536));
            let c = ray_color(&ray, &world, Some(&fog), 16);
            for ch in [c.x().raw, c.y().raw, c.z().raw] {
                assert!(ch >= -65536 && ch <= 131072, "channel far out of range: {ch}");
            }
        }
    }
}
