use planetoids::body::Body;
use planetoids::collisions::{merge_bodies, overlapping_exec, resolve_collisions};
use planetoids::geometry::Vec2;

fn body(x: i64, y: i64, vx: i64, vy: i64, radius: u64, mass: u128, active: bool, tag: u64) -> Body {
    Body {
        position: Vec2 { x, y },
        velocity: Vec2 { x: vx, y: vy },
        radius,
        mass,
        active,
        tag,
    }
}

#[test]
fn merge_adds_masses_exactly() {
    let surv = body(0, 0, 10, 0, 3, 1000, true, 7);
    let gone = body(50, 0, -20, 30, 4, 500, true, 9);
    let out = merge_bodies(&surv, &gone);
    assert_eq!(out.mass, 1500);
}

#[test]
fn merge_keeps_survivor_identity() {
    let surv = body(0, 0, 10, 0, 3, 1000, true, 7);
    let gone = body(50, 0, -20, 30, 4, 500, true, 9);
    let out = merge_bodies(&surv, &gone);
    assert_eq!(out.position, Vec2 { x: 0, y: 0 });
    assert_eq!(out.tag, 7);
    assert!(out.active);
}

#[test]
fn merge_velocity_is_mass_weighted_mean() {
    // momenta: x axis cancels exactly, y axis sums to 15000 over mass 1500
    let surv = body(0, 0, 10, 0, 3, 1000, true, 7);
    let gone = body(50, 0, -20, 30, 4, 500, true, 9);
    let out = merge_bodies(&surv, &gone);
    assert_eq!(out.velocity, Vec2 { x: 0, y: 10 });
}

#[test]
fn merge_radius_conserves_volume() {
    // 3^3 + 4^3 = 91, and 4^3 = 64 <= 91 < 125 = 5^3
    let surv = body(0, 0, 0, 0, 3, 1000, true, 0);
    let gone = body(50, 0, 0, 0, 4, 500, true, 0);
    let out = merge_bodies(&surv, &gone);
    assert_eq!(out.radius, 4);
    // 6^3 + 8^3 = 728, one short of 9^3
    let a = body(0, 0, 0, 0, 6, 10, true, 0);
    let b = body(1, 0, 0, 0, 8, 20, true, 0);
    assert_eq!(merge_bodies(&b, &a).radius, 8);
}

#[test]
fn merge_of_two_massless_bodies_is_at_rest() {
    let a = body(0, 0, 9, 9, 1, 0, true, 0);
    let b = body(0, 0, -4, 2, 1, 0, true, 0);
    assert_eq!(merge_bodies(&a, &b).velocity, Vec2 { x: 0, y: 0 });
}

#[test]
fn overlap_needs_touching_disks_and_activity() {
    let a = body(0, 0, 0, 0, 10, 1, true, 0);
    let b = body(15, 0, 0, 0, 5, 1, true, 0);
    let far = body(16, 0, 0, 0, 5, 1, true, 0);
    let idle = body(15, 0, 0, 0, 5, 1, false, 0);
    assert!(overlapping_exec(&a, &b));
    assert!(!overlapping_exec(&a, &far));
    assert!(!overlapping_exec(&a, &idle));
}

#[test]
fn collision_pass_merges_lighter_into_heavier() {
    let heavy = body(0, 0, 0, 0, 10, 600, true, 1);
    let light = body(5, 0, 0, 0, 10, 400, true, 2);
    let out = resolve_collisions(&vec![light, heavy]);
    assert_eq!(out.len(), 1);
    assert_eq!(out[0].mass, 1000);
    assert_eq!(out[0].position, Vec2 { x: 0, y: 0 });
    assert_eq!(out[0].tag, 1);
    // 10^3 + 10^3 = 2000, and 12^3 = 1728 <= 2000 < 2197 = 13^3
    assert_eq!(out[0].radius, 12);
}

#[test]
fn collision_tie_goes_to_the_lower_index() {
    let first = body(0, 0, 0, 0, 10, 500, true, 1);
    let second = body(5, 0, 0, 0, 10, 500, true, 2);
    let out = resolve_collisions(&vec![first, second]);
    assert_eq!(out.len(), 1);
    assert_eq!(out[0].position, Vec2 { x: 0, y: 0 });
    assert_eq!(out[0].tag, 1);
}

#[test]
fn chained_collisions_conserve_total_mass() {
    let a = body(0, 0, 0, 0, 10, 100, true, 0);
    let b = body(5, 0, 0, 0, 10, 50, true, 0);
    let c = body(10, 0, 0, 0, 10, 30, true, 0);
    let out = resolve_collisions(&vec![a, b, c]);
    let total: u128 = out.iter().map(|p| p.mass).sum();
    assert_eq!(total, 180);
    assert_eq!(out.len(), 1);
}

#[test]
fn coincident_centres_merge_without_incident() {
    let a = body(7, 7, 0, 0, 0, 10, true, 0);
    let b = body(7, 7, 0, 0, 0, 20, true, 0);
    let out = resolve_collisions(&vec![a, b]);
    assert_eq!(out.len(), 1);
    assert_eq!(out[0].mass, 30);
}

#[test]
fn separated_bodies_stay_apart() {
    let a = body(0, 0, 0, 0, 1, 10, true, 0);
    let b = body(1000, 0, 0, 0, 1, 20, true, 0);
    let out = resolve_collisions(&vec![a, b]);
    assert_eq!(out.len(), 2);
    assert_eq!(out[0].mass, 10);
    assert_eq!(out[1].mass, 20);
}

#[test]
fn merge_velocity_rounds_toward_zero() {
    // momenta: 1000 * -7 + 500 * 3 = -5500 over mass 1500, so -3 with
    // the fraction dropped toward zero
    let surv = body(0, 0, -7, 0, 3, 1000, true, 0);
    let gone = body(50, 0, 3, 0, 4, 500, true, 0);
    assert_eq!(merge_bodies(&surv, &gone).velocity.x, -3);
    // 2 * 1 + 1 * 0 = 2 over mass 3 rounds to rest
    let a = body(0, 0, 1, 0, 1, 2, true, 0);
    let b = body(0, 0, 0, 0, 1, 1, true, 0);
    assert_eq!(merge_bodies(&a, &b).velocity.x, 0);
}
