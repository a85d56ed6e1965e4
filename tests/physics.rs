use solar_sim::body::{Body, Bounds, Config, SimError, Vec2, COORD_LIMIT, MAX_BODIES, UNIT};
use solar_sim::gravity::gravity_between_bodies;
use solar_sim::motion::{apply_velocity, bounce_on_window_edges};
use solar_sim::solar_system::{solar_system_data, SolarSystem, EPS, G_DEN, G_NUM};

fn body(x: i64, y: i64, vx: i64, vy: i64, mass: u32, radius: u32, anchor: bool) -> Body {
    Body::new(Vec2::new(x, y), Vec2::new(vx, vy), mass, radius, anchor)
}

fn default_config() -> Config {
    Config::new(G_NUM, G_DEN, EPS).unwrap()
}

fn system(config: Config, bodies: &[Body]) -> SolarSystem {
    let mut sys = SolarSystem::new(config);
    for (i, b) in bodies.iter().enumerate() {
        assert_eq!(sys.add_body(format!("b{}", i), *b), Ok(i));
    }
    sys
}

#[test]
fn two_body_orbit_scenario() {
    let sun = body(0, 0, 0, 0, 1_988_500_000, 4_563_534, true);
    let jupiter = body(32 * UNIT, 0, UNIT, UNIT, 1_898_200, 458_169, false);
    let mut sys = system(default_config(), &[sun, jupiter]);
    assert_eq!(sys.tick(None), Ok(()));
    let b = sys.bodies()[1];
    // pulled toward the Sun by about 1.294 units per tick
    assert!(b.velocity.x < UNIT);
    assert_eq!(b.velocity, Vec2::new(UNIT - 84_815, UNIT));
    // the integrator uses the velocity this tick's solver left
    assert_eq!(b.position, Vec2::new(32 * UNIT + b.velocity.x, b.velocity.y));
    let a = sys.bodies()[0];
    // the anchor gathers about 0.0012 units per tick toward Jupiter but stays put
    assert_eq!(a.position, Vec2::new(0, 0));
    assert_eq!(a.velocity, Vec2::new(80, 0));
}

#[test]
fn boundary_bounce_scenario() {
    let hw: u32 = 100;
    let mut bodies = vec![body(hw as i64 - 1, 0, 3, 0, 10, 5, false)];
    assert_eq!(apply_velocity(&mut bodies), Ok(()));
    assert_eq!(bodies[0].position, Vec2::new(hw as i64 + 2, 0));
    bounce_on_window_edges(&mut bodies, Bounds::new(hw, 100));
    assert_eq!(bodies[0].position, Vec2::new(hw as i64 - 5, 0));
    assert_eq!(bodies[0].velocity, Vec2::new(-3, 0));
}

#[test]
fn boundary_bounce_through_tick() {
    let mut sys = system(default_config(), &[body(99, 0, 3, 0, 10, 5, false)]);
    assert_eq!(sys.tick(Some(Bounds::new(100, 100))), Ok(()));
    assert_eq!(sys.bodies()[0].position, Vec2::new(95, 0));
    assert_eq!(sys.bodies()[0].velocity, Vec2::new(-3, 0));
}

#[test]
fn degenerate_pair_stays_finite() {
    let config = Config::new(1, 1, 1).unwrap();
    let mut bodies = vec![
        body(7, -3, 2, 5, 1_000_000, 1, false),
        body(7, -3, -1, 4, 3_000_000, 1, false),
    ];
    assert_eq!(gravity_between_bodies(&config, &mut bodies), Ok(()));
    assert_eq!(bodies[0].velocity, Vec2::new(2, 5));
    assert_eq!(bodies[1].velocity, Vec2::new(-1, 4));
}

#[test]
fn zero_softening_is_refused() {
    assert_eq!(Config::new(1, 1, 0), Err(SimError::InvalidConfig));
    assert_eq!(Config::new(1, 0, 1), Err(SimError::InvalidConfig));
    assert!(Config::new(0, 1, 1).is_ok());
}

#[test]
fn pair_exchange_is_balanced() {
    let config = Config::new(1, 1, 1).unwrap();
    let mut bodies = vec![
        body(0, 0, 0, 0, 2_000_000_000, 1, false),
        body(10, 0, 0, 0, 1_000_000_000, 1, false),
    ];
    assert_eq!(gravity_between_bodies(&config, &mut bodies), Ok(()));
    // d² = 101, its root rounded up 11: a = G·m·r / (d²·11)
    assert_eq!(bodies[0].velocity, Vec2::new(9_000_900, 0));
    assert_eq!(bodies[1].velocity, Vec2::new(-18_001_800, 0));
    let p = 2_000_000_000i128 * 9_000_900 + 1_000_000_000i128 * -18_001_800;
    assert!(p.abs() < 3_000_000_000);
}

#[test]
fn pair_exchange_balanced_with_rounding() {
    let config = Config::new(3, 7, 2).unwrap();
    let (ma, mb) = (123_457u32, 98_765u32);
    let mut bodies = vec![body(-5, 4, 0, 0, ma, 1, false), body(6, -9, 0, 0, mb, 1, false)];
    assert_eq!(gravity_between_bodies(&config, &mut bodies), Ok(()));
    let px = ma as i128 * bodies[0].velocity.x as i128 + mb as i128 * bodies[1].velocity.x as i128;
    let py = ma as i128 * bodies[0].velocity.y as i128 + mb as i128 * bodies[1].velocity.y as i128;
    assert!(px.abs() < (ma + mb) as i128);
    assert!(py.abs() < (ma + mb) as i128);
    assert!(bodies[0].velocity.x > 0 && bodies[1].velocity.x < 0);
    assert!(bodies[0].velocity.y < 0 && bodies[1].velocity.y > 0);
}

#[test]
fn two_body_momentum_has_no_drift() {
    let config = Config::new(1_000, 1, 1).unwrap();
    let (ma, mb) = (5_000u32, 3_000u32);
    let mut sys = system(
        config,
        &[body(-40, 0, 0, 2, ma, 1, false), body(40, 0, 0, -3, mb, 1, false)],
    );
    let momentum = |s: &SolarSystem| {
        let b = s.bodies();
        (
            ma as i128 * b[0].velocity.x as i128 + mb as i128 * b[1].velocity.x as i128,
            ma as i128 * b[0].velocity.y as i128 + mb as i128 * b[1].velocity.y as i128,
        )
    };
    let start = momentum(&sys);
    let ticks = 20i128;
    for _ in 0..ticks {
        assert_eq!(sys.tick(None), Ok(()));
    }
    let end = momentum(&sys);
    assert!((end.0 - start.0).abs() < ticks * (ma + mb) as i128);
    assert!((end.1 - start.1).abs() < ticks * (ma + mb) as i128);
}

#[test]
fn anchor_never_moves() {
    let config = Config::new(1, 1, 1).unwrap();
    let mut sys = system(
        config,
        &[body(3, 4, 9, -9, 10, 2, true), body(20, 0, 0, 1, 1_000, 1, false)],
    );
    for _ in 0..15 {
        assert_eq!(sys.tick(Some(Bounds::new(500, 500))), Ok(()));
        assert_eq!(sys.bodies()[0].position, Vec2::new(3, 4));
    }
    assert_ne!(sys.bodies()[0].velocity, Vec2::new(9, -9));
}

#[test]
fn bounce_contains_far_outside_body() {
    let mut bodies = vec![body(-1000, 500, 7, 8, 1, 5, false)];
    bounce_on_window_edges(&mut bodies, Bounds::new(100, 50));
    assert_eq!(bodies[0].position, Vec2::new(-95, 45));
    assert_eq!(bodies[0].velocity, Vec2::new(-7, -8));
    assert!(bodies[0].position.x.abs() + 5 <= 100);
    assert!(bodies[0].position.y.abs() + 5 <= 50);
}

#[test]
fn bounce_flips_only_x_on_left_edge() {
    let mut bodies = vec![body(-98, 10, -4, 7, 1, 5, false)];
    bounce_on_window_edges(&mut bodies, Bounds::new(100, 100));
    assert_eq!(bodies[0].position, Vec2::new(-95, 10));
    assert_eq!(bodies[0].velocity, Vec2::new(4, 7));
}

#[test]
fn bounce_leaves_anchor_and_inside_bodies() {
    let anchor = body(-1000, 0, 1, 1, 1, 5, true);
    let inside = body(10, -10, 3, -3, 1, 5, false);
    let mut bodies = vec![anchor, inside];
    bounce_on_window_edges(&mut bodies, Bounds::new(100, 100));
    assert_eq!(bodies, vec![anchor, inside]);
}

#[test]
fn bounce_on_body_wider_than_bounds() {
    let mut bodies = vec![body(0, 0, 2, 0, 1, 10, false)];
    bounce_on_window_edges(&mut bodies, Bounds::new(4, 100));
    // both edges are crossed: the right one wins, the velocity flips twice
    assert_eq!(bodies[0].position, Vec2::new(-6, 0));
    assert_eq!(bodies[0].velocity, Vec2::new(2, 0));
}

#[test]
fn integrator_skips_anchors() {
    let mut bodies = vec![body(1, 2, 3, 4, 1, 1, true), body(1, 2, 3, 4, 1, 1, false)];
    assert_eq!(apply_velocity(&mut bodies), Ok(()));
    assert_eq!(bodies[0].position, Vec2::new(1, 2));
    assert_eq!(bodies[1].position, Vec2::new(4, 6));
    assert_eq!(bodies[1].velocity, Vec2::new(3, 4));
}

#[test]
fn integrator_out_of_range() {
    let b = body(COORD_LIMIT, 0, 1, 0, 1, 1, false);
    let mut bodies = vec![b];
    assert_eq!(apply_velocity(&mut bodies), Err(SimError::OutOfRange));
    assert_eq!(bodies, vec![b]);
}

#[test]
fn solver_out_of_range() {
    let config = Config::new(1, 1, 1).unwrap();
    let a = body(0, 0, COORD_LIMIT, 0, 1, 1, false);
    let b = body(1, 0, 0, 0, 4_000_000_000, 1, false);
    let mut bodies = vec![a, b];
    assert_eq!(gravity_between_bodies(&config, &mut bodies), Err(SimError::OutOfRange));
    assert_eq!(bodies, vec![a, b]);
}

#[test]
fn tick_out_of_range_changes_nothing() {
    let config = Config::new(1, 1, 1).unwrap();
    let a = body(COORD_LIMIT - 1, 0, 2, 0, 1, 1, false);
    let b = body(-COORD_LIMIT, 0, 0, 0, 1, 1, false);
    let mut sys = system(config, &[a, b]);
    assert_eq!(sys.tick(None), Err(SimError::OutOfRange));
    assert_eq!(sys.bodies(), &vec![a, b]);
}

#[test]
fn add_body_rejects_invalid() {
    let mut sys = SolarSystem::new(default_config());
    assert_eq!(sys.add_body("x".to_string(), body(0, 0, 0, 0, 0, 1, false)), Err(SimError::InvalidBody));
    assert_eq!(sys.add_body("x".to_string(), body(0, 0, 0, 0, 1, 0, false)), Err(SimError::InvalidBody));
    assert_eq!(
        sys.add_body("x".to_string(), body(COORD_LIMIT + 1, 0, 0, 0, 1, 1, false)),
        Err(SimError::InvalidBody)
    );
    assert!(sys.bodies().is_empty());
    assert!(sys.labels().is_empty());
}

#[test]
fn add_body_rejects_when_full() {
    let mut sys = SolarSystem::new(default_config());
    let b = body(0, 0, 0, 0, 1, 1, false);
    for i in 0..MAX_BODIES {
        assert_eq!(sys.add_body(String::new(), b), Ok(i));
    }
    assert_eq!(sys.add_body(String::new(), b), Err(SimError::TooManyBodies));
    assert_eq!(sys.bodies().len(), MAX_BODIES);
}

#[test]
fn catalog_scales_bodies() {
    let data = solar_system_data();
    assert_eq!(data.len(), 2);
    assert_eq!(data[0].name, "Sun");
    assert_eq!(data[1].name, "Jupiter");
    let sys = SolarSystem::from_catalog(&data, default_config()).unwrap();
    assert_eq!(sys.labels(), &vec!["Sun".to_string(), "Jupiter".to_string()]);
    // radii 69.634 and 6.9911 units, in 1/65536 of a unit, rounded up
    assert_eq!(sys.bodies()[0], body(0, 0, UNIT, UNIT, 1_988_500_000, 4_563_534, true));
    assert_eq!(sys.bodies()[1], body(32 * UNIT, 0, UNIT, UNIT, 1_898_200, 458_169, false));
    assert_eq!(sys.config(), default_config());
}

#[test]
fn catalog_rejects_massless_entry() {
    let mut data = solar_system_data();
    data[1].mass = 0;
    assert!(matches!(
        SolarSystem::from_catalog(&data, default_config()),
        Err(SimError::InvalidBody)
    ));
    assert_eq!(data[0].to_body(0).unwrap().mass, 1_988_500_000);
    assert_eq!(data[1].to_body(1), Err(SimError::InvalidBody));
    data[1].mass = 1;
    data[1].radius = 0;
    assert_eq!(data[1].to_body(1), Err(SimError::InvalidBody));
}

#[test]
fn catalog_accepts_small_bodies() {
    let mut data = solar_system_data();
    // Earth: 6 371 km and 5.97237e24 kg; a moonlet of 999 kg and 1 m
    data[1].radius = 6_371_000;
    data[1].mass = 5_972_370_000_000_000_000_000_000;
    let earth = data[1].to_body(1).unwrap();
    assert_eq!(earth.radius, 41_753);
    assert_eq!(earth.mass, 5_973);
    data[1].radius = 1;
    data[1].mass = 999;
    let tiny = data[1].to_body(2).unwrap();
    assert_eq!((tiny.mass, tiny.radius), (1, 1));
    assert_eq!(tiny.position, Vec2::new(64 * UNIT, 0));
    let sys = SolarSystem::from_catalog(&data, default_config()).unwrap();
    assert_eq!(sys.bodies().len(), 2);
}
