use rt_impl::integrator::{first_depth, Action, Path, Surface, FAR_DEPTH_BITS};
use rt_impl::scalar::Scalar;

fn run(limit: i32, met: &[Surface]) -> (Vec<Action>, Path) {
    let mut path = Path::new(limit);
    let mut actions = Vec::new();
    for m in met {
        actions.push(path.step(*m));
    }
    (actions, path)
}

#[test]
fn a_ray_that_meets_nothing_is_shaded_unattenuated() {
    let mut path = Path::new(100);
    assert_eq!(path.step(Surface::Miss), Action::Shade);
    assert_eq!(path.bounces, 0);
    assert!(path.finished);
}

#[test]
fn bounce_limit_zero_takes_one_surface_in() {
    let (actions, path) = run(0, &[Surface::Scatters, Surface::Scatters, Surface::Scatters]);
    assert_eq!(
        actions,
        vec![Action::AttenuateAndFollow, Action::Shade, Action::Shade]
    );
    assert_eq!(path.bounces, 1);

    let (actions, _) = run(0, &[Surface::Absorbs, Surface::Scatters]);
    assert_eq!(actions, vec![Action::AttenuateAndShade, Action::Shade]);

    let (actions, _) = run(0, &[Surface::Scatters, Surface::Absorbs]);
    assert_eq!(actions, vec![Action::AttenuateAndFollow, Action::Shade]);
}

#[test]
fn negative_bounce_limit_looks_at_no_surface() {
    for limit in [-1, -7, i32::MIN] {
        let (actions, path) = run(limit, &[Surface::Scatters, Surface::Absorbs]);
        assert_eq!(actions, vec![Action::Shade, Action::Shade]);
        assert_eq!(path.bounces, 0);
    }
}

#[test]
fn a_path_follows_at_most_limit_plus_one_rays() {
    let met = vec![Surface::Scatters; 20];
    for limit in 0..10 {
        let (actions, path) = run(limit, &met);
        let followed = actions
            .iter()
            .filter(|a| **a == Action::AttenuateAndFollow)
            .count();
        assert_eq!(followed as i32, limit + 1);
        assert_eq!(path.bounces as i32, limit + 1);
        assert_eq!(actions[limit as usize + 1], Action::Shade);
        assert!(path.finished);
    }
}

#[test]
fn absorption_ends_the_path() {
    let (actions, path) = run(
        5,
        &[Surface::Scatters, Surface::Scatters, Surface::Absorbs, Surface::Scatters, Surface::Miss],
    );
    assert_eq!(
        actions,
        vec![
            Action::AttenuateAndFollow,
            Action::AttenuateAndFollow,
            Action::AttenuateAndShade,
            Action::Shade,
            Action::Shade
        ]
    );
    assert_eq!(path.bounces, 2);
    assert!(path.finished);
}

#[test]
fn escape_after_bounces_ends_the_path() {
    let (actions, path) = run(5, &[Surface::Scatters, Surface::Miss, Surface::Scatters]);
    assert_eq!(
        actions,
        vec![Action::AttenuateAndFollow, Action::Shade, Action::Shade]
    );
    assert_eq!(path.bounces, 1);
}

#[test]
fn the_largest_bounce_limit_does_not_overflow() {
    let mut path = Path { limit: i32::MAX, bounces: i32::MAX as u32, finished: false };
    assert_eq!(path.step(Surface::Scatters), Action::AttenuateAndFollow);
    assert_eq!(path.bounces, 1u32 << 31);
    assert_eq!(path.step(Surface::Scatters), Action::Shade);
    assert!(path.finished);
}

#[test]
fn depth_is_the_first_distance_or_the_far_depth() {
    let near = Scalar::from_bits(2.5f32.to_bits());
    assert_eq!(first_depth(Some(near)), near);
    assert_eq!(f32::from_bits(first_depth(None).to_bits()), 100.0);
    assert_eq!(FAR_DEPTH_BITS, 100.0f32.to_bits());
}

#[test]
fn a_path_is_active_while_it_has_room() {
    let mut path = Path::new(1);
    assert!(path.active());
    assert_eq!(path.step(Surface::Scatters), Action::AttenuateAndFollow);
    assert!(path.active());
    assert_eq!(path.step(Surface::Scatters), Action::AttenuateAndFollow);
    assert!(!path.active());
    assert_eq!(path.step(Surface::Scatters), Action::Shade);
    assert!(!path.active());
    assert!(!Path::new(-1).active());
    let mut absorbed = Path::new(9);
    assert_eq!(absorbed.step(Surface::Absorbs), Action::AttenuateAndShade);
    assert!(!absorbed.active());
}
