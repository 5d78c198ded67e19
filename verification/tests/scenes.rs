use rt_impl::hittable::{closest, front_face, Interval, Narrowing, Roots};
use rt_impl::integrator::{Action, Path, Surface};
use rt_impl::material::{is_degenerate, metal_scatters};
use rt_impl::scalar::Scalar;
use rt_impl::util::rand_vec3;
use spirv_std::glam::{vec2, vec3, Vec2, Vec3};

fn s(f: f32) -> Scalar {
    Scalar::from_bits(f.to_bits())
}

fn f(x: Scalar) -> f32 {
    f32::from_bits(x.to_bits())
}

fn window(min: f32, max: f32) -> Interval {
    Interval::new(s(min), s(max))
}

fn sphere_roots(center: Vec3, radius: f32, origin: Vec3, direction: Vec3) -> Roots {
    let oc = center - origin;
    let a = direction.length_squared();
    let h = direction.dot(oc);
    let c = oc.length_squared() - (radius * radius);
    let discriminant = (h * h) - (a * c);
    let sqrtd = discriminant.sqrt();
    Roots::new(s(discriminant), s((h - sqrtd) / a), s((h + sqrtd) / a))
}

fn sphere_hit(
    center: Vec3,
    radius: f32,
    origin: Vec3,
    direction: Vec3,
    t: &Interval,
) -> Option<(f32, Vec3, bool)> {
    let root = f(sphere_roots(center, radius, origin, direction).pick(t)?);
    let position = origin + direction * root;
    let outward = (position - center) / radius;
    let front = front_face(s(direction.dot(outward)));
    let normal = outward * (2.0 * f32::from(front) - 1.0);
    Some((root, normal, front))
}

fn unit_sphere_sample(seed: Vec2) -> Vec3 {
    let drawn = rand_vec3(rt_impl::vector::Vec3::new(s(seed.x), s(seed.y), s(seed.x)));
    let phi = 2.0 * std::f32::consts::PI * f(drawn.x);
    let theta = (2.0 * f(drawn.y) - 1.0).acos();
    let r = f(drawn.z).powf(1.0 / 3.0);
    vec3(
        r * theta.sin() * phi.cos(),
        r * theta.sin() * phi.sin(),
        r * theta.cos(),
    )
}

#[test]
fn a_ray_through_a_sphere_hits_its_near_side() {
    let t = window(0.0, f32::INFINITY);
    let hit = sphere_hit(vec3(0.0, 0.0, -1.0), 0.5, Vec3::ZERO, vec3(0.0, 0.0, -1.0), &t);
    let (root, normal, front) = hit.unwrap();
    assert_eq!(root, 0.5);
    assert!(front);
    assert_eq!(normal, vec3(0.0, 0.0, 1.0));
    assert!((normal.length() - 1.0).abs() < 1.0e-6);
    assert!(normal.dot(vec3(0.0, 0.0, -1.0)) <= 0.0);
}

#[test]
fn a_ray_past_a_sphere_misses() {
    let t = window(0.0, f32::INFINITY);
    let roots = sphere_roots(vec3(0.0, 0.0, -1.0), 0.5, Vec3::ZERO, vec3(0.0, 1.0, 0.0));
    assert!(f(roots.discriminant) < 0.0);
    assert_eq!(roots.pick(&t), None);
    assert!(sphere_hit(vec3(0.0, 0.0, -1.0), 0.5, Vec3::ZERO, vec3(0.0, 1.0, 0.0), &t).is_none());
    assert!(sphere_hit(vec3(0.0, 0.0, 1.0), 0.5, Vec3::ZERO, vec3(0.0, 0.0, -1.0), &t).is_none());
}

#[test]
fn a_ray_from_inside_a_sphere_hits_its_far_side_from_behind() {
    let t = window(0.0001, f32::INFINITY);
    let direction = vec3(0.0, 0.0, -1.0);
    let hit = sphere_hit(vec3(0.0, 0.0, -1.0), 0.5, vec3(0.0, 0.0, -1.0), direction, &t);
    let (root, normal, front) = hit.unwrap();
    assert_eq!(root, 0.5);
    assert!(!front);
    assert_eq!(normal, vec3(0.0, 0.0, 1.0));
    assert!(normal.dot(direction) <= 0.0);
}

#[test]
fn degenerate_rays_hit_nothing_or_something_finite() {
    let t = window(0.0, f32::INFINITY);
    let center = vec3(0.0, 0.0, -1.0);
    assert!(sphere_hit(center, 0.5, Vec3::ZERO, Vec3::ZERO, &t).is_none());
    assert!(sphere_hit(center, 0.5, Vec3::ZERO, Vec3::splat(f32::NAN), &t).is_none());
    let grazing = sphere_hit(center, 0.5, vec3(0.5, 0.0, 0.0), vec3(0.0, 0.0, -1.0), &t);
    if let Some((root, normal, _)) = grazing {
        assert!(root.is_finite());
        assert!(normal.is_finite());
    }
    let on_surface = sphere_hit(
        center,
        0.5,
        vec3(0.0, 0.0, -0.5),
        vec3(0.0, 0.0, 1.0),
        &window(0.0001, f32::INFINITY),
    );
    assert!(on_surface.is_none());
}

#[test]
fn hits_on_random_spheres_lie_in_the_window_and_face_the_ray() {
    let mut word: u32 = 2024;
    let mut next = || {
        word = word.wrapping_mul(1_664_525).wrapping_add(1_013_904_223);
        (word >> 8) as f32 / 16_777_216.0 * 8.0 - 4.0
    };
    let t = window(0.0001, 6.0);
    let mut hits = 0;
    for _ in 0..20_000 {
        let center = vec3(next(), next(), next());
        let radius = next().abs() + 0.1;
        let origin = vec3(next(), next(), next());
        let direction = vec3(next(), next(), next());
        let roots = sphere_roots(center, radius, origin, direction);
        match sphere_hit(center, radius, origin, direction, &t) {
            Some((root, normal, _)) => {
                hits += 1;
                assert!(f(roots.discriminant) >= 0.0);
                assert!(0.0001 < root && root < 6.0);
                assert!((normal.length() - 1.0).abs() < 1.0e-3);
                assert!(normal.dot(direction) <= 0.0);
            }
            None => {
                let near = f(roots.near);
                let far = f(roots.far);
                assert!(
                    f(roots.discriminant) < 0.0
                        || (!(0.0001 < near && near < 6.0) && !(0.0001 < far && far < 6.0))
                );
            }
        }
    }
    assert!(hits > 1_000);
}

#[test]
fn a_list_of_spheres_hits_where_the_nearest_sphere_hits() {
    let mut word: u32 = 77;
    let mut next = || {
        word = word.wrapping_mul(1_664_525).wrapping_add(1_013_904_223);
        (word >> 8) as f32 / 16_777_216.0 * 8.0 - 4.0
    };
    let t = window(0.0001, f32::INFINITY);
    let mut some = 0;
    for _ in 0..2_000 {
        let origin = vec3(next(), next(), next());
        let direction = vec3(next(), next(), next());
        let all: Vec<Roots> = (0..9)
            .map(|_| {
                let center = vec3(next(), next(), next());
                sphere_roots(center, next().abs() * 0.5 + 0.1, origin, direction)
            })
            .collect();

        let mut nearest: Option<(usize, f32)> = None;
        for (i, roots) in all.iter().enumerate() {
            if let Some(x) = roots.pick(&t) {
                if nearest.map_or(true, |(_, best)| f(x) < best) {
                    nearest = Some((i, f(x)));
                }
            }
        }
        let found = closest(&t, &all).map(|(i, x)| (i, f(x)));
        assert_eq!(found, nearest);

        let mut search = Narrowing::new(t);
        for (i, roots) in all.iter().enumerate() {
            search.offer(i, roots.pick(&search.window));
        }
        assert_eq!(search.found().map(|(i, x)| (i, f(x))), nearest);
        if nearest.is_some() {
            some += 1;
        }
    }
    assert!(some > 200);
}

#[test]
fn polished_metal_reflects_the_same_way_whatever_the_seed() {
    let normal = vec3(0.0, 1.0, 0.0);
    let incoming = vec3(1.0, -1.0, 0.0);
    let fuzz = 0.0;
    let mut directions = Vec::new();
    for seed in [vec2(0.1, 0.2), vec2(0.1, 0.2), vec2(0.9, 0.4), vec2(-3.0, 7.5)] {
        let mirrored = (incoming - 2.0 * incoming.dot(normal) * normal).normalize();
        let reflected = mirrored + fuzz * unit_sphere_sample(seed * 1.029838);
        assert!(metal_scatters(s(reflected.dot(normal))));
        directions.push(reflected);
    }
    assert!(directions.iter().all(|d| *d == directions[0]));
    assert_eq!(directions[0], vec3(1.0, 1.0, 0.0).normalize());
}

#[test]
fn diffuse_directions_stay_on_the_side_of_the_normal() {
    let mut word: u32 = 31_337;
    let mut next = || {
        word = word.wrapping_mul(1_664_525).wrapping_add(1_013_904_223);
        (word >> 8) as f32 / 16_777_216.0
    };
    for _ in 0..50_000 {
        let normal = vec3(next() - 0.5, next() - 0.5, next() - 0.5).normalize();
        if !normal.is_finite() {
            continue;
        }
        let sample = unit_sphere_sample(vec2(next(), next()));
        assert!(sample.length() <= 1.0 + 1.0e-5);
        let sum = sample + normal;
        let outgoing = if is_degenerate(rt_impl::vector::Vec3::new(s(sum.x), s(sum.y), s(sum.z))) {
            normal
        } else {
            sum.normalize()
        };
        assert!(normal.dot(outgoing) >= -1.0e-3);
    }
    let normal = vec3(0.0, 0.0, 1.0);
    let cancelled = vec3(0.0, 0.0, -1.0) + normal;
    assert!(is_degenerate(rt_impl::vector::Vec3::new(
        s(cancelled.x),
        s(cancelled.y),
        s(cancelled.z)
    )));
}

#[test]
fn a_ray_straight_up_gets_the_top_of_the_sky() {
    let t = window(0.0, f32::INFINITY);
    let ground = sphere_roots(vec3(0.0, -100.5, -1.0), 100.0, Vec3::ZERO, vec3(0.0, 1.0, 0.0));
    let met = match ground.pick(&t) {
        Some(_) => Surface::Scatters,
        None => Surface::Miss,
    };
    assert_eq!(met, Surface::Miss);

    let mut path = Path::new(100);
    let mut color = Vec3::splat(1.0);
    match path.step(met) {
        Action::Shade => {}
        _ => color *= 1.0 / vec3(0.8, 0.8, 0.0),
    }
    color = 1.0 / color;
    let a = 0.5 * (vec3(0.0, 1.0, 0.0).normalize().y + 1.0);
    assert_eq!(a, 1.0);
    let shaded = ((1.0 - a) * vec3(1.0, 1.0, 1.0) + a * vec3(0.5, 0.7, 1.0)) * color;
    assert_eq!(shaded, vec3(0.5, 0.7, 1.0));
}

#[test]
fn one_bounce_weighs_the_sky_with_one_albedo() {
    let albedo = vec3(0.5, 0.25, 1.0);
    let mut path = Path::new(0);
    let mut color = Vec3::splat(1.0);
    let mut taken = 0;
    for met in [Surface::Scatters, Surface::Scatters, Surface::Scatters, Surface::Miss] {
        match path.step(met) {
            Action::Shade => break,
            Action::AttenuateAndShade => {
                color *= 1.0 / albedo;
                taken += 1;
                break;
            }
            Action::AttenuateAndFollow => {
                color *= 1.0 / albedo;
                taken += 1;
            }
        }
    }
    assert_eq!(taken, 1);
    color = 1.0 / color;
    assert_eq!(color, albedo);
    let sky = vec3(0.5, 0.7, 1.0);
    assert_eq!(sky * color, vec3(0.25, 0.175, 1.0));
}
