use planetoids::body::{Body, DENSITY_LIMIT};
use planetoids::geometry::Vec2;
use planetoids::world::{CreationPhase, InputEvent, World};

fn body(x: i64, y: i64, vx: i64, vy: i64, radius: u64, mass: u128, active: bool, tag: u64) -> Body {
    Body {
        position: Vec2 { x, y },
        velocity: Vec2 { x: vx, y: vy },
        radius,
        mass,
        active,
        tag,
    }
}

#[test]
fn creation_round_trip() {
    let mut w = World::new(0, 339, 1, 60);
    let p0 = Vec2 { x: 100, y: 50 };
    let p1 = Vec2 { x: 104, y: 53 };
    let p2 = Vec2 { x: 120, y: 50 };

    w.press_primary(p0);
    assert_eq!(w.phase, CreationPhase::SizingRadius);
    assert_eq!(w.body_count(), 1);
    let provisional = w.get_body(0);
    assert!(!provisional.active);
    assert_eq!(provisional.position, p0);
    assert_eq!(provisional.radius, 2);

    w.tick(p1);
    // |p1 - p0| = 5, and (4/3) * (355/113) * 5^3 * 339 = 177500 exactly
    assert_eq!(w.get_body(0).radius, 5);
    assert_eq!(w.get_body(0).mass, 177_500);

    w.press_primary(p1);
    assert_eq!(w.phase, CreationPhase::SettingVelocity);

    w.tick(p2);
    // p2 - p0 = (20, 0), outside the dead zone, scaled by a half
    assert_eq!(w.get_body(0).velocity, Vec2 { x: 10, y: 0 });

    w.press_primary(p2);
    assert_eq!(w.phase, CreationPhase::Idle);
    assert_eq!(w.body_count(), 1);
    let done = w.get_body(0);
    assert!(done.active);
    assert_eq!(done.position, p0);
    assert_eq!(done.radius, 5);
    assert_eq!(done.mass, 177_500);
    assert_eq!(done.velocity, Vec2 { x: 10, y: 0 });
}

#[test]
fn tiny_aim_falls_in_the_dead_zone() {
    let mut w = World::new(0, 339, 1, 60);
    let p0 = Vec2 { x: 0, y: 0 };
    w.press_primary(p0);
    w.press_primary(p0);
    assert_eq!(w.phase, CreationPhase::SettingVelocity);
    // offset (3, 0): squared length 9, inside the dead zone of 36
    w.tick(Vec2 { x: 3, y: 0 });
    assert_eq!(w.get_body(0).velocity, Vec2 { x: 0, y: 0 });
    // offset (6, 0): squared length 36 is still not beyond the dead zone
    w.tick(Vec2 { x: 6, y: 0 });
    assert_eq!(w.get_body(0).velocity, Vec2 { x: 0, y: 0 });
    // offset (7, 0) clears it
    w.tick(Vec2 { x: 7, y: 0 });
    assert_eq!(w.get_body(0).velocity, Vec2 { x: 3, y: 0 });
}

#[test]
fn cancel_discards_the_provisional_body() {
    let mut w = World::new(0, 339, 1, 60);
    w.insert_body(body(500, 500, 0, 0, 5, 1000, true, 0));
    let p0 = Vec2 { x: 0, y: 0 };
    w.press_primary(p0);
    w.tick(Vec2 { x: 10, y: 0 });
    w.press_primary(p0);
    assert_eq!(w.body_count(), 2);
    w.press_secondary(p0);
    assert_eq!(w.body_count(), 1);
    assert_eq!(w.phase, CreationPhase::Idle);
    assert_eq!(w.get_body(0).position, Vec2 { x: 500, y: 500 });
}

#[test]
fn cancel_while_sizing_also_discards() {
    let mut w = World::new(0, 339, 1, 60);
    w.press_primary(Vec2 { x: 0, y: 0 });
    assert_eq!(w.phase, CreationPhase::SizingRadius);
    w.press_secondary(Vec2 { x: 9, y: 9 });
    assert_eq!(w.body_count(), 0);
    assert_eq!(w.phase, CreationPhase::Idle);
}

#[test]
fn deletion_removes_exactly_the_hit_body() {
    let mut w = World::new(0, 339, 1, 60);
    let b0 = body(0, 0, 0, 0, 5, 10, true, 0);
    let b1 = body(100, 0, 0, 0, 10, 20, true, 1);
    let b2 = body(200, 0, 0, 0, 5, 30, true, 2);
    w.insert_body(b0);
    w.insert_body(b1);
    w.insert_body(b2);
    w.press_secondary(Vec2 { x: 105, y: 0 });
    assert_eq!(w.body_count(), 2);
    assert_eq!(w.get_body(0), b0);
    assert_eq!(w.get_body(1), b2);
}

#[test]
fn deletion_misses_leave_everything_alone() {
    let mut w = World::new(0, 339, 1, 60);
    let b0 = body(0, 0, 0, 0, 5, 10, true, 0);
    w.insert_body(b0);
    w.press_secondary(Vec2 { x: 6, y: 0 });
    assert_eq!(w.body_count(), 1);
    assert_eq!(w.get_body(0), b0);
    // on the rim still counts as inside
    w.press_secondary(Vec2 { x: 5, y: 0 });
    assert_eq!(w.body_count(), 0);
}

#[test]
fn deletion_takes_the_first_of_two_hits() {
    let mut w = World::new(0, 339, 1, 60);
    let b0 = body(0, 0, 0, 0, 50, 10, true, 0);
    let b1 = body(10, 0, 0, 0, 50, 20, true, 1);
    w.insert_body(b0);
    w.insert_body(b1);
    w.press_secondary(Vec2 { x: 5, y: 0 });
    assert_eq!(w.body_count(), 1);
    assert_eq!(w.get_body(0), b1);
}

#[test]
fn density_controls_double_and_halve_with_stops() {
    let mut w = World::new(0, 1000, 1, 60);
    w.apply_event(InputEvent::DensityUp, Vec2 { x: 0, y: 0 });
    assert_eq!(w.density, 2000);
    w.apply_event(InputEvent::DensityDown, Vec2 { x: 0, y: 0 });
    w.apply_event(InputEvent::DensityDown, Vec2 { x: 0, y: 0 });
    assert_eq!(w.density, 500);
    let mut v = World::new(0, 1, 1, 60);
    v.lower_density();
    assert_eq!(v.density, 1);
    let mut u = World::new(0, DENSITY_LIMIT, 1, 60);
    u.raise_density();
    assert_eq!(u.density, DENSITY_LIMIT);
}

#[test]
fn density_scales_future_masses() {
    let mut w = World::new(0, 339, 1, 60);
    w.raise_density();
    assert_eq!(w.density, 678);
    w.press_primary(Vec2 { x: 0, y: 0 });
    w.tick(Vec2 { x: 5, y: 0 });
    // twice the mass of the same drag at density 339
    assert_eq!(w.get_body(0).mass, 355_000);
}

#[test]
fn registry_handles_stay_usable() {
    let mut w = World::new(0, 339, 1, 60);
    w.insert_body(body(1, 1, 0, 0, 1, 1, true, 11));
    w.insert_body(body(2, 2, 0, 0, 1, 1, true, 22));
    w.insert_body(body(3, 3, 0, 0, 1, 1, true, 33));
    assert_eq!(w.last_inserted(), 2);
    w.remove_body(1);
    assert_eq!(w.body_count(), 2);
    assert_eq!(w.get_body(0).tag, 11);
    assert_eq!(w.get_body(1).tag, 33);
    assert!(w.is_ok());
}
