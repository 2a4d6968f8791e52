use nbody::model::{Motion, Planet, SimError, Vector2, World, DEFAULT_MASS, MASS_MAX};

#[test]
fn planet_new_defaults() {
    let p = Planet::new("Mars".to_string(), (17, -5));
    assert_eq!(p.name, "Mars");
    assert_eq!(p.mass, DEFAULT_MASS);
    assert_eq!(p.motion.position, Vector2 { x: 17, y: -5 });
    assert_eq!(p.motion.velocity, Vector2 { x: 0, y: 0 });
}

#[test]
fn planet_with_mass_accepts_positive() {
    let p = Planet::with_mass("Ceres".to_string(), (1, 2), 42).unwrap();
    assert_eq!(p.mass, 42);
    assert_eq!(p.motion.position, Vector2 { x: 1, y: 2 });
}

#[test]
fn planet_with_mass_rejects_nonpositive() {
    assert_eq!(
        Planet::with_mass("Void".to_string(), (0, 0), 0).unwrap_err(),
        SimError::MassNotPositive
    );
    assert_eq!(
        Planet::with_mass("Void".to_string(), (0, 0), -5).unwrap_err(),
        SimError::MassNotPositive
    );
}

#[test]
fn planet_with_mass_rejects_oversized() {
    assert_eq!(
        Planet::with_mass("Giant".to_string(), (0, 0), MASS_MAX + 1).unwrap_err(),
        SimError::MassTooLarge
    );
    assert!(Planet::with_mass("Edge".to_string(), (0, 0), MASS_MAX).is_ok());
}

#[test]
fn planet_set_mass() {
    let mut p = Planet::new("Pallas".to_string(), (0, 0));
    assert_eq!(p.set_mass(0), Err(SimError::MassNotPositive));
    assert_eq!(p.mass, DEFAULT_MASS);
    assert_eq!(p.set_mass(MASS_MAX + 1), Err(SimError::MassTooLarge));
    assert_eq!(p.mass, DEFAULT_MASS);
    assert_eq!(p.set_mass(777), Ok(()));
    assert_eq!(p.mass, 777);
}

#[test]
fn geo_center_is_truncated_mean_position() {
    let w = World {
        planets: vec![
            Planet::new("A".to_string(), (0, 0)),
            Planet::new("B".to_string(), (300, 400)),
            Planet::new("C".to_string(), (-123, 77)),
        ],
    };
    // Sums (177, 477) over three bodies: (59, 159).
    assert_eq!(w.geo_center(), Vector2 { x: 59, y: 159 });

    let w2 = World {
        planets: vec![
            Planet::new("A".to_string(), (0, 0)),
            Planet::new("B".to_string(), (-5, 3)),
        ],
    };
    // Components round toward zero: -5 / 2 is -2, 3 / 2 is 1.
    assert_eq!(w2.geo_center(), Vector2 { x: -2, y: 1 });

    let w3 = World { planets: vec![Planet::new("A".to_string(), (7, -9))] };
    assert_eq!(w3.geo_center(), Vector2 { x: 7, y: -9 });
}

#[test]
fn world_well_formedness() {
    let mut w = World::new();
    assert!(w.is_well_formed());
    w.planets.push(Planet::new("A".to_string(), (5, 5)));
    assert!(w.is_well_formed());
    w.planets[0].mass = 0;
    assert!(!w.is_well_formed());
    w.planets[0].mass = 1;
    assert!(w.is_well_formed());
    w.planets[0].motion = Motion {
        position: Vector2 { x: 2_000_000_000_000, y: 0 },
        velocity: Vector2 { x: 0, y: 0 },
    };
    assert!(!w.is_well_formed());
}
