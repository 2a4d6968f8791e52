use nbody::model::{Planet, SimError, Vector2, World};
use nbody::physics::{Universe, DT_MAX, G_MAX};

fn body(name: &str, mass: i64, px: i64, py: i64, vx: i64, vy: i64) -> Planet {
    let mut p = Planet::with_mass(name.to_string(), (px, py), mass).unwrap();
    p.motion.velocity = Vector2 { x: vx, y: vy };
    p
}

/// Two bodies of equal mass on a circular orbit around their common centre:
/// the speed satisfies `v * v == G * m / (2 * d)` for separation `d`.
fn orbit_world() -> World {
    World {
        planets: vec![
            body("Phobos", 1_000_000, -40_000, 0, 0, -2_500),
            body("Deimos", 1_000_000, 40_000, 0, 0, 2_500),
        ],
    }
}

#[test]
fn update_at_dt_zero_changes_nothing() {
    let u = Universe::with_gravity(G_MAX).unwrap();
    let mut w = orbit_world();
    let before: Vec<(i64, i64, i64, i64)> = w
        .planets
        .iter()
        .map(|p| {
            (p.motion.position.x, p.motion.position.y, p.motion.velocity.x, p.motion.velocity.y)
        })
        .collect();
    assert_eq!(u.try_update(0, &mut w), Ok(()));
    let after: Vec<(i64, i64, i64, i64)> = w
        .planets
        .iter()
        .map(|p| {
            (p.motion.position.x, p.motion.position.y, p.motion.velocity.x, p.motion.velocity.y)
        })
        .collect();
    assert_eq!(before, after);
}

#[test]
fn single_body_keeps_velocity_and_moves_linearly() {
    let u = Universe::new();
    let mut w = World { planets: vec![body("Lone", 500, 100, 200, 3, -2)] };
    for _ in 0..5 {
        u.update(7, &mut w);
    }
    let p = &w.planets[0];
    assert_eq!(p.motion.velocity, Vector2 { x: 3, y: -2 });
    assert_eq!(p.motion.position, Vector2 { x: 100 + 5 * 7 * 3, y: 200 - 5 * 7 * 2 });
}

#[test]
fn single_body_at_rest_stays_put() {
    let u = Universe::with_gravity(G_MAX).unwrap();
    let mut w = World { planets: vec![body("Still", 1_000_000, -8, 9, 0, 0)] };
    for _ in 0..10 {
        u.update(DT_MAX, &mut w);
    }
    assert_eq!(w.planets[0].motion.position, Vector2 { x: -8, y: 9 });
    assert_eq!(w.planets[0].motion.velocity, Vector2 { x: 0, y: 0 });
}

#[test]
fn pairwise_forces_are_equal_and_opposite() {
    let u = Universe::with_gravity(G_MAX).unwrap();
    let configs = [
        ((0, 0), (3, 4), 1_000_000, 1_000_000),
        ((-40_000, 0), (40_000, 0), 1_000_000, 1_000_000),
        ((17, -31), (2, 9), 12_345, 678),
        ((5, 5), (5, 5), 1_000, 1_000),
        ((0, 0), (0, 7), 10, 10),
    ];
    for (pa, pb, ma, mb) in configs {
        let a = body("a", ma, pa.0, pa.1, 0, 0);
        let b = body("b", mb, pb.0, pb.1, 0, 0);
        let fab = u.force_between(&a, &b);
        let fba = u.force_between(&b, &a);
        assert_eq!(fab.0, -fba.0);
        assert_eq!(fab.1, -fba.1);
    }
}

#[test]
fn force_has_exact_inverse_square_value() {
    // Separation (3, 4): distance 5, denominator 125, magnitude g * m * m.
    let u = Universe::with_gravity(1).unwrap();
    let a = body("a", 1_000_000, 0, 0, 0, 0);
    let b = body("b", 1_000_000, 3, 4, 0, 0);
    assert_eq!(u.force_between(&a, &b), (24_000_000_000, 32_000_000_000));
    // Separation (0, 7): denominator 343, magnitude 100: 100 * 7 / 343 = 2.
    let c = body("c", 10, 2, 2, 0, 0);
    let d = body("d", 10, 2, 9, 0, 0);
    assert_eq!(u.force_between(&c, &d), (0, 2));
}

#[test]
fn coinciding_bodies_feel_no_force_and_step_finitely() {
    let u = Universe::with_gravity(G_MAX).unwrap();
    let a = body("a", 1_000_000, 123, -456, 0, 0);
    let b = body("b", 1_000_000, 123, -456, 0, 0);
    assert_eq!(u.force_between(&a, &b), (0, 0));
    let mut w = World { planets: vec![a, b] };
    assert_eq!(u.try_update(1_000, &mut w), Ok(()));
    for p in &w.planets {
        assert_eq!(p.motion.position, Vector2 { x: 123, y: -456 });
        assert_eq!(p.motion.velocity, Vector2 { x: 0, y: 0 });
    }
}

#[test]
fn rejects_negative_time() {
    let u = Universe::new();
    let mut w = orbit_world();
    assert_eq!(u.try_update(-1, &mut w), Err(SimError::NegativeTime));
}

#[test]
fn rejects_oversized_time_step() {
    let u = Universe::new();
    let mut w = orbit_world();
    assert_eq!(u.try_update(DT_MAX + 1, &mut w), Err(SimError::TimeStepTooLarge));
}

#[test]
fn rejects_malformed_world() {
    let u = Universe::new();
    let mut w = orbit_world();
    w.planets[0].mass = 0;
    assert_eq!(u.try_update(1, &mut w), Err(SimError::InvalidWorld));
}

#[test]
fn rejects_step_leaving_the_range() {
    // Two maximal masses one unit apart under maximal gravity: the
    // acceleration would exceed the representable velocity range.
    let u = Universe::with_gravity(G_MAX).unwrap();
    let mut w = World {
        planets: vec![
            body("a", 1_000_000, 0, 0, 0, 0),
            body("b", 1_000_000, 1, 0, 0, 0),
        ],
    };
    assert_eq!(u.try_update(1, &mut w), Err(SimError::Overflow));
    // The failed step must leave the world untouched.
    assert_eq!(w.planets[0].motion.position, Vector2 { x: 0, y: 0 });
    assert_eq!(w.planets[1].motion.position, Vector2 { x: 1, y: 0 });
    assert_eq!(w.planets[0].motion.velocity, Vector2 { x: 0, y: 0 });
}

#[test]
fn equal_mass_two_body_momentum_is_exact() {
    let u = Universe::with_gravity(G_MAX).unwrap();
    let mut w = orbit_world();
    let momentum = |w: &World| {
        let mut px: i128 = 0;
        let mut py: i128 = 0;
        for p in &w.planets {
            px += p.mass as i128 * p.motion.velocity.x as i128;
            py += p.mass as i128 * p.motion.velocity.y as i128;
        }
        (px, py)
    };
    let before = momentum(&w);
    for _ in 0..50 {
        u.update(1, &mut w);
    }
    assert_eq!(momentum(&w), before);
}

#[test]
fn two_body_energy_drift_stays_small() {
    let u = Universe::with_gravity(G_MAX).unwrap();
    let mut w = orbit_world();
    let energy = |w: &World| {
        let g = G_MAX as f64;
        let mut kinetic = 0.0f64;
        for p in &w.planets {
            let vx = p.motion.velocity.x as f64;
            let vy = p.motion.velocity.y as f64;
            kinetic += 0.5 * p.mass as f64 * (vx * vx + vy * vy);
        }
        let a = &w.planets[0].motion.position;
        let b = &w.planets[1].motion.position;
        let dx = (a.x - b.x) as f64;
        let dy = (a.y - b.y) as f64;
        let r = (dx * dx + dy * dy).sqrt().max(1.0);
        let potential = -g * w.planets[0].mass as f64 * w.planets[1].mass as f64 / r;
        kinetic + potential
    };
    let initial = energy(&w);
    for _ in 0..1020 {
        u.update(1, &mut w);
        let drift = (energy(&w) - initial).abs() / initial.abs();
        assert!(drift < 0.02, "energy drifted by {}", drift);
    }
}

#[test]
fn circular_orbit_returns_to_start_after_one_period() {
    // Period from Kepler's third law for this configuration: about 102 time
    // units for separation 80_000 and orbital speed 2_500.
    let u = Universe::with_gravity(G_MAX).unwrap();
    let mut w = orbit_world();
    let start: Vec<(i64, i64)> = w
        .planets
        .iter()
        .map(|p| (p.motion.position.x, p.motion.position.y))
        .collect();
    for _ in 0..102 {
        u.update(1, &mut w);
    }
    for (p, s) in w.planets.iter().zip(start.iter()) {
        let dx = (p.motion.position.x - s.0) as f64;
        let dy = (p.motion.position.y - s.1) as f64;
        let err = (dx * dx + dy * dy).sqrt();
        assert!(err < 2_000.0, "body {} ended {} away from start", p.name, err);
    }
}

#[test]
fn update_order_is_physically_irrelevant() {
    let u = Universe::with_gravity(1_000).unwrap();
    let mk = |names: [&str; 3]| -> World {
        let mut w = World::new();
        for name in names {
            let (mass, px, py, vx, vy) = match name {
                "Io" => (1_000, 0, 0, 5, -3),
                "Europa" => (2_000, 300, 400, -1, 2),
                _ => (3_000, -123, 77, 0, 4),
            };
            w.planets.push(body(name, mass, px, py, vx, vy));
        }
        w
    };
    let mut w1 = mk(["Io", "Europa", "Ganymede"]);
    let mut w2 = mk(["Ganymede", "Io", "Europa"]);
    for _ in 0..20 {
        u.update(3, &mut w1);
        u.update(3, &mut w2);
    }
    for left in &w1.planets {
        let right = w2.planets.iter().find(|p| p.name == left.name).unwrap();
        assert_eq!(left.motion.position, right.motion.position, "position of {}", left.name);
        assert_eq!(left.motion.velocity, right.motion.velocity, "velocity of {}", left.name);
    }
}

#[test]
fn total_force_over_all_bodies_is_zero() {
    let u = Universe::with_gravity(1_000).unwrap();
    let bodies = [
        body("Io", 1_000, 0, 0, 0, 0),
        body("Europa", 2_000, 300, 400, 0, 0),
        body("Ganymede", 3_000, -123, 77, 0, 0),
    ];
    let mut total = (0i128, 0i128);
    for i in 0..bodies.len() {
        for j in 0..bodies.len() {
            if i != j {
                let f = u.force_between(&bodies[i], &bodies[j]);
                total.0 += f.0 as i128;
                total.1 += f.1 as i128;
            }
        }
    }
    assert_eq!(total, (0, 0));
}

#[test]
fn gravity_constructor_bounds() {
    assert!(Universe::with_gravity(1).is_ok());
    assert!(Universe::with_gravity(G_MAX).is_ok());
    assert_eq!(Universe::with_gravity(0).unwrap_err(), SimError::GravityOutOfRange);
    assert_eq!(Universe::with_gravity(-3).unwrap_err(), SimError::GravityOutOfRange);
    assert_eq!(Universe::with_gravity(G_MAX + 1).unwrap_err(), SimError::GravityOutOfRange);
    assert_eq!(Universe::new().gravity_value(), 1);
}
