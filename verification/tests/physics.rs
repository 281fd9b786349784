use planetoids::body::Body;
use planetoids::geometry::Vec2;
use planetoids::world::World;

fn body(x: i64, y: i64, vx: i64, vy: i64, radius: u64, mass: u128, active: bool, tag: u64) -> Body {
    Body {
        position: Vec2 { x, y },
        velocity: Vec2 { x: vx, y: vy },
        radius,
        mass,
        active,
        tag,
    }
}

#[test]
fn lone_body_at_rest_stays_put() {
    let mut w = World::new(1000, 1, 1, 1);
    w.insert_body(body(42, -17, 0, 0, 5, 1000, true, 0));
    for _ in 0..50 {
        assert!(w.is_ok());
        w.tick(Vec2 { x: 0, y: 0 });
    }
    let b = w.get_body(0);
    assert_eq!(w.body_count(), 1);
    assert_eq!(b.position, Vec2 { x: 42, y: -17 });
    assert_eq!(b.velocity, Vec2 { x: 0, y: 0 });
    assert_eq!(b.mass, 1000);
}

#[test]
fn equal_masses_accelerate_equally_and_oppositely() {
    let mut w = World::new(1000, 1, 1, 1);
    w.insert_body(body(-100, 0, 0, 0, 1, 4000, true, 0));
    w.insert_body(body(100, 0, 0, 0, 1, 4000, true, 1));
    w.tick(Vec2 { x: 0, y: 0 });
    let b0 = w.get_body(0);
    let b1 = w.get_body(1);
    // q = 1000 * 4000 / 200^2 = 100, applied whole over one second
    assert_eq!(b0.velocity, Vec2 { x: 100, y: 0 });
    assert_eq!(b1.velocity, Vec2 { x: -100, y: 0 });
    assert_eq!(b0.velocity.x, -b1.velocity.x);
    assert_eq!(b0.velocity.y, -b1.velocity.y);
    // each then advanced by its fresh velocity
    assert_eq!(b0.position, Vec2 { x: 0, y: 0 });
    assert_eq!(b1.position, Vec2 { x: 0, y: 0 });
}

#[test]
fn slower_update_rate_scales_the_pull_down() {
    let mut w = World::new(1000, 1, 1, 60);
    w.insert_body(body(-100, 0, 0, 0, 1, 4000, true, 0));
    w.insert_body(body(100, 0, 0, 0, 1, 4000, true, 1));
    w.tick(Vec2 { x: 0, y: 0 });
    // 100 * 200 / (200 * 60) rounds down to 1
    assert_eq!(w.get_body(0).velocity, Vec2 { x: 1, y: 0 });
    assert_eq!(w.get_body(1).velocity, Vec2 { x: -1, y: 0 });
}

#[test]
fn inactive_body_is_excluded_from_everything() {
    let mut w = World::new(1000, 1, 1, 1);
    w.insert_body(body(0, 0, 3, 4, 10, 1000, true, 0));
    let ghostly = body(1, 1, 5, 5, 50, 999_999, false, 3);
    w.insert_body(ghostly);
    w.tick(Vec2 { x: 0, y: 0 });
    assert_eq!(w.body_count(), 2);
    // the overlap with the inactive disk caused no merge, its huge mass
    // pulled nothing, and it did not move
    let b0 = w.get_body(0);
    assert_eq!(b0.velocity, Vec2 { x: 3, y: 4 });
    assert_eq!(b0.position, Vec2 { x: 3, y: 4 });
    assert_eq!(w.get_body(1), ghostly);
}

#[test]
fn velocity_saturates_at_the_world_limit() {
    let mut w = World::new(0x10_0000, 1, 255, 1);
    w.insert_body(body(-2, 0, 0, 0, 1, 1 << 40, true, 0));
    w.insert_body(body(2, 0, 0, 0, 1, 1 << 40, true, 1));
    w.tick(Vec2 { x: 0, y: 0 });
    assert_eq!(w.get_body(0).velocity.x, 0x10_0000);
    assert_eq!(w.get_body(1).velocity.x, -0x10_0000);
}

#[test]
fn frozen_time_scale_freezes_motion() {
    let mut w = World::new(1000, 1, 0, 1);
    w.insert_body(body(-100, 0, 7, 0, 1, 4000, true, 0));
    w.insert_body(body(100, 0, -7, 0, 1, 4000, true, 1));
    w.tick(Vec2 { x: 0, y: 0 });
    assert_eq!(w.get_body(0).velocity, Vec2 { x: 7, y: 0 });
    assert_eq!(w.get_body(0).position, Vec2 { x: -100, y: 0 });
}

#[test]
fn identical_runs_give_identical_states() {
    let seed = vec![
        body(-200, 40, 1, -2, 8, 50_000, true, 0),
        body(150, -60, -3, 1, 12, 80_000, true, 1),
        body(0, 300, 0, 0, 20, 120_000, true, 2),
    ];
    let mut w1 = World::new(5000, 17, 3, 30);
    let mut w2 = World::new(5000, 17, 3, 30);
    for b in seed.iter() {
        w1.insert_body(*b);
        w2.insert_body(*b);
    }
    let pointer = Vec2 { x: 25, y: -25 };
    for step in 0..20 {
        if step == 4 {
            w1.press_primary(pointer);
            w2.press_primary(pointer);
        }
        if step == 7 {
            w1.press_primary(pointer);
            w2.press_primary(pointer);
        }
        if step == 9 {
            w1.press_secondary(pointer);
            w2.press_secondary(pointer);
        }
        assert!(w1.is_ok() && w2.is_ok());
        w1.tick(pointer);
        w2.tick(pointer);
    }
    assert_eq!(w1.body_count(), w2.body_count());
    for k in 0..w1.body_count() {
        assert_eq!(w1.get_body(k), w2.get_body(k));
    }
    assert_eq!(w1.phase, w2.phase);
    assert_eq!(w1.density, w2.density);
}
