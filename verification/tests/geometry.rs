//! Sphere intersection, the flat list, and the tree against the scan.

use ray_tracer::fx::Fx;
use ray_tracer::material::{Lambertian, Material};
use ray_tracer::ray::Ray;
use ray_tracer::sphere::Sphere;
use ray_tracer::list::HittableList;
use ray_tracer::vec3::Vec3;

fn fx(raw: i64) -> Fx {
    Fx::from_raw(raw)
}

fn v(x: i64, y: i64, z: i64) -> Vec3 {
    Vec3::new(fx(x), fx(y), fx(z))
}

fn gray() -> Material {
    Material::Lambertian(Lambertian::new(v(32768, 32768, 32768)))
}

fn lcg(state: &mut u64) -> u64 {
    *state = state.wrapping_mul(6364136223846793005).wrapping_add(1442695040888963407);
    *state >> 16
}

fn lcg_range(state: &mut u64, lo: i64, hi: i64) -> i64 {
    let span = (hi - lo) as u64 + 1;
    lo + (lcg(state) % span) as i64
}

const T_MIN: i64 = 66;
const T_MAX: i64 = 65536 * 1000;

#[test]
fn sphere_hit_nearest_root_exact() {
    // unit sphere three units down the ray axis: the nearest root is d - r = 2
    let s = Sphere::new(v(0, 0, -196608), Fx::one(), gray());
    let ray = Ray::new(v(0, 0, 0), v(0, 0, -65536));
    let rec = s.hit(&ray, fx(T_MIN), fx(T_MAX)).expect("must hit");
    assert_eq!(rec.t.raw, 131072);
    assert_eq!((rec.point.x().raw, rec.point.y().raw, rec.point.z().raw), (0, 0, -131072));
    // the normal opposes the ray
    assert_eq!((rec.normal.x().raw, rec.normal.y().raw, rec.normal.z().raw), (0, 0, 65536));
    assert!(rec.front_face);
}

#[test]
fn sphere_missed_when_ray_points_away() {
    // origin strictly outside, direction moving away on every axis
    let s = Sphere::new(v(-131072, -131072, -131072), Fx::one(), gray());
    let ray = Ray::new(v(0, 0, 0), v(65536, 32768, 65536));
    assert!(s.hit(&ray, fx(T_MIN), fx(T_MAX)).is_none());
}

#[test]
fn sphere_hit_from_inside_reports_back_face() {
    let s = Sphere::new(v(0, 0, 0), Fx::one(), gray());
    let ray = Ray::new(v(0, 0, 0), v(0, 0, -65536));
    let rec = s.hit(&ray, fx(T_MIN), fx(T_MAX)).expect("must hit");
    assert_eq!(rec.t.raw, 65536);
    assert!(!rec.front_face);
    // the stored normal is flipped to oppose the ray
    assert_eq!(rec.normal.z().raw, 65536);
}

#[test]
fn sphere_bounding_box_uses_absolute_radius() {
    let s = Sphere::new(v(65536, 0, 0), fx(-65536), gray());
    let bb = s.bounding_box(Fx::zero(), Fx::one());
    assert_eq!((bb.min().x().raw, bb.min().y().raw, bb.min().z().raw), (0, -65536, -65536));
    assert_eq!((bb.max().x().raw, bb.max().y().raw, bb.max().z().raw), (131072, 65536, 65536));
    assert!(bb.min().x().raw <= bb.max().x().raw);
}

#[test]
fn list_scan_keeps_closest_hit() {
    let mut list = HittableList::new();
    list.add(Sphere::new(v(0, 0, -655360), Fx::one(), gray()));
    list.add(Sphere::new(v(0, 0, -196608), Fx::one(), gray()));
    list.add(Sphere::new(v(0, 0, -393216), Fx::one(), gray()));
    let ray = Ray::new(v(0, 0, 0), v(0, 0, -65536));
    let rec = list.hit(&ray, fx(T_MIN), fx(T_MAX)).expect("must hit");
    assert_eq!(rec.t.raw, 131072);
}

#[test]
fn empty_list_reports_no_hit_and_no_box() {
    let list = HittableList::new();
    let ray = Ray::new(v(0, 0, 0), v(0, 0, -65536));
    assert!(list.hit(&ray, fx(T_MIN), fx(T_MAX)).is_none());
    assert!(list.bounding_box(Fx::zero(), Fx::one()).is_none());
}

#[test]
fn list_bounding_box_folds_all_objects() {
    let mut list = HittableList::new();
    list.add(Sphere::new(v(0, 0, 0), Fx::one(), gray()));
    list.add(Sphere::new(v(327680, 0, 0), Fx::one(), gray()));
    let bb = list.bounding_box(Fx::zero(), Fx::one()).expect("nonempty");
    assert_eq!(bb.min().x().raw, -65536);
    assert_eq!(bb.max().x().raw, 393216);
}

#[test]
fn bvh_single_object_degenerate_pair() {
    let mut list = HittableList::new();
    list.add(Sphere::new(v(0, 0, -196608), Fx::one(), gray()));
    let tree = list.optimize();
    let ray = Ray::new(v(0, 0, 0), v(0, 0, -65536));
    let rec = tree.hit(&ray, fx(T_MIN), fx(T_MAX)).expect("must hit");
    assert_eq!(rec.t.raw, 131072);
}

#[test]
fn bvh_two_objects_ordered_by_axis() {
    let mut list = HittableList::new();
    list.add(Sphere::new(v(0, 0, -655360), Fx::one(), gray()));
    list.add(Sphere::new(v(0, 0, -196608), Fx::one(), gray()));
    let tree = list.optimize();
    let ray = Ray::new(v(0, 0, 0), v(0, 0, -65536));
    let rec = tree.hit(&ray, fx(T_MIN), fx(T_MAX)).expect("must hit");
    assert_eq!(rec.t.raw, 131072);
}

#[test]
fn bvh_matches_linear_scan_randomized() {
    let mut state: u64 = 7;
    let mut list = HittableList::new();
    for _ in 0..60 {
        let center = v(
            lcg_range(&mut state, -655360, 655360),
            lcg_range(&mut state, -655360, 655360),
            lcg_range(&mut state, -655360, 655360),
        );
        let radius = fx(lcg_range(&mut state, 13107, 98304));
        list.add(Sphere::new(center, radius, gray()));
    }
    let tree = list.optimize();
    let mut hits: u32 = 0;
    for _ in 0..1000 {
        let origin = v(
            lcg_range(&mut state, -983040, 983040),
            lcg_range(&mut state, -983040, 983040),
            lcg_range(&mut state, -983040, 983040),
        );
        let dir = v(
            lcg_range(&mut state, -65536, 65536),
            lcg_range(&mut state, -65536, 65536),
            lcg_range(&mut state, -65536, 65536),
        );
        let ray = Ray::new(origin, dir);
        let by_scan = list.hit(&ray, fx(T_MIN), fx(T_MAX));
        let by_tree = tree.hit(&ray, fx(T_MIN), fx(T_MAX));
        assert_eq!(by_scan.is_some(), by_tree.is_some());
        if let (Some(a), Some(b)) = (by_scan, by_tree) {
            assert!((a.t.raw - b.t.raw).abs() <= 16, "t mismatch: {} vs {}", a.t.raw, b.t.raw);
            hits += 1;
        }
    }
    assert!(hits > 100, "the randomized scene saw too few hits: {hits}");
}
