//! Scalar, vector, box and background behavior on concrete values.

use ray_tracer::fx::{Fx, MAXR, SCALE};
use ray_tracer::vec3::Vec3;
use ray_tracer::ray::Ray;
use ray_tracer::AABB;

fn fx(raw: i64) -> Fx {
    Fx::from_raw(raw)
}

fn v(x: i64, y: i64, z: i64) -> Vec3 {
    Vec3::new(fx(x), fx(y), fx(z))
}

/// A deterministic linear congruential generator for randomized checks.
fn lcg(state: &mut u64) -> u64 {
    *state = state.wrapping_mul(6364136223846793005).wrapping_add(1442695040888963407);
    *state >> 16
}

fn lcg_range(state: &mut u64, lo: i64, hi: i64) -> i64 {
    let span = (hi - lo) as u64 + 1;
    lo + (lcg(state) % span) as i64
}

#[test]
fn fx_arithmetic_exact_values() {
    // 1.5 * 2 == 3
    assert_eq!(fx(98304).mul(fx(131072)).raw, 196608);
    // 1 / 3 truncates toward zero
    assert_eq!(Fx::one().div(fx(196608)).raw, 21845);
    // sqrt(4) == 2 exactly
    assert_eq!(fx(262144).sqrt().raw, 131072);
    // sqrt of a negative value is zero
    assert_eq!(fx(-65536).sqrt().raw, 0);
    // negative division truncates toward zero
    assert_eq!(fx(-196608).div(fx(131072)).raw, -98304);
}

#[test]
fn fx_saturates_instead_of_overflowing() {
    assert_eq!(fx(MAXR).add(Fx::one()).raw, MAXR);
    assert_eq!(fx(-MAXR).sub(Fx::one()).raw, -MAXR);
    assert_eq!(fx(MAXR).mul(fx(MAXR)).raw, MAXR);
    // division by zero saturates with the dividend's sign
    assert_eq!(Fx::one().div(Fx::zero()).raw, MAXR);
    assert_eq!(fx(-65536).div(Fx::zero()).raw, -MAXR);
    assert_eq!(Fx::zero().div(Fx::zero()).raw, MAXR);
}

#[test]
fn vec3_algebra_exact_values() {
    let a = v(65536, 131072, -65536);
    let b = v(32768, -65536, 65536);
    let sum = a.add(b);
    assert_eq!((sum.x().raw, sum.y().raw, sum.z().raw), (98304, 65536, 0));
    // dot = 0.5 - 2 - 1 = -2.5
    assert_eq!(a.dot(&b).raw, -163840);
    // cross of x and y axes is the z axis
    let cx = v(65536, 0, 0).cross(&v(0, 65536, 0));
    assert_eq!((cx.x().raw, cx.y().raw, cx.z().raw), (0, 0, 65536));
    // reflect (1, -1, 0) about the y axis
    let r = v(65536, -65536, 0).reflect(&v(0, 65536, 0));
    assert_eq!((r.x().raw, r.y().raw, r.z().raw), (65536, 65536, 0));
    // normalizing (0, 0, -2) gives the unit -z vector exactly
    let u = v(0, 0, -131072).unit_vector();
    assert_eq!((u.x().raw, u.y().raw, u.z().raw), (0, 0, -65536));
}

#[test]
fn ray_evaluation() {
    let r = Ray::new(v(65536, 0, 0), v(0, 0, -65536));
    let p = r.at(fx(131072));
    assert_eq!((p.x().raw, p.y().raw, p.z().raw), (65536, 0, -131072));
}

#[test]
fn color_to_rgb_clamps_channels() {
    // 0.5 -> 128, above one -> 255, negative -> 0
    let c = v(32768, 98304, -32768);
    assert_eq!(c.to_rgb(), (128, 255, 0));
}

#[test]
fn surrounding_box_contains_both_boxes() {
    let a = AABB::new(v(-65536, 0, 0), v(65536, 131072, 65536));
    let b = AABB::new(v(0, -65536, -131072), v(196608, 65536, 0));
    let s = AABB::surrounding_box(&a, &b);
    assert_eq!((s.min().x().raw, s.min().y().raw, s.min().z().raw), (-65536, -65536, -131072));
    assert_eq!((s.max().x().raw, s.max().y().raw, s.max().z().raw), (196608, 131072, 65536));
    for bb in [&a, &b] {
        assert!(s.min().x().raw <= bb.min().x().raw && bb.max().x().raw <= s.max().x().raw);
        assert!(s.min().y().raw <= bb.min().y().raw && bb.max().y().raw <= s.max().y().raw);
        assert!(s.min().z().raw <= bb.min().z().raw && bb.max().z().raw <= s.max().z().raw);
    }
}

#[test]
fn aabb_hit_axis_aligned_ray() {
    let bb = AABB::new(v(-65536, -65536, -196608), v(65536, 65536, -131072));
    // straight through the box along -z; the x and y slab divisions are by zero
    let through = Ray::new(v(0, 0, 0), v(0, 0, -65536));
    assert!(bb.hit(&through, fx(66), fx(6553600)));
    // parallel to the box but outside it on x
    let beside = Ray::new(v(131072, 0, 0), v(0, 0, -65536));
    assert!(!bb.hit(&beside, fx(66), fx(6553600)));
    // pointing away from the box
    let away = Ray::new(v(0, 0, 0), v(0, 0, 65536));
    assert!(!bb.hit(&away, fx(66), fx(6553600)));
}

/// The brute-force per-axis interval check, written with the same scalar
/// operations the library uses.
fn brute_force_box_hit(bb: &AABB, ray: &Ray, t_min: Fx, t_max: Fx) -> bool {
    let mut lo = t_min;
    let mut hi = t_max;
    for axis in 0..3usize {
        let inv = Fx::one().div(ray.direction().get(axis));
        let t0 = bb.min().get(axis).sub(ray.origin().get(axis)).mul(inv);
        let t1 = bb.max().get(axis).sub(ray.origin().get(axis)).mul(inv);
        let (alo, ahi) = if inv.raw < 0 { (t1, t0) } else { (t0, t1) };
        lo = alo.max(lo);
        hi = ahi.min(hi);
    }
    lo.raw < hi.raw
}

#[test]
fn aabb_hit_agrees_with_interval_check_randomized() {
    let mut state: u64 = 42;
    for round in 0..1000 {
        let (ax, bx) = (lcg_range(&mut state, -524288, 524288), lcg_range(&mut state, -524288, 524288));
        let (ay, by) = (lcg_range(&mut state, -524288, 524288), lcg_range(&mut state, -524288, 524288));
        let (az, bz) = (lcg_range(&mut state, -524288, 524288), lcg_range(&mut state, -524288, 524288));
        let bb = AABB::new(
            v(ax.min(bx), ay.min(by), az.min(bz)),
            v(ax.max(bx), ay.max(by), az.max(bz)),
        );
        let origin = v(
            lcg_range(&mut state, -786432, 786432),
            lcg_range(&mut state, -786432, 786432),
            lcg_range(&mut state, -786432, 786432),
        );
        let mut dx = lcg_range(&mut state, -131072, 131072);
        let mut dy = lcg_range(&mut state, -131072, 131072);
        let dz = lcg_range(&mut state, -131072, 131072);
        // exercise zero direction components, whose reciprocal saturates
        if round % 7 == 0 {
            dx = 0;
        }
        if round % 11 == 0 {
            dy = 0;
        }
        let ray = Ray::new(origin, v(dx, dy, dz));
        let t_min = fx(66);
        let t_max = fx(65536 * 100);
        assert_eq!(
            bb.hit(&ray, t_min, t_max),
            brute_force_box_hit(&bb, &ray, t_min, t_max),
            "mismatch in round {round}"
        );
    }
}
