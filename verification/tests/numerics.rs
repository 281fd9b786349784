use planetoids::body::{check_body_within_limits, check_population_ok, Body, MASS_BUDGET};
use planetoids::geometry::{clamp_to_i64, dist_sq_exec, icbrt, isqrt, Vec2};
use planetoids::world::sized_mass_exec;

#[test]
fn integer_square_roots_are_floors() {
    assert_eq!(isqrt(0), 0);
    assert_eq!(isqrt(1), 1);
    assert_eq!(isqrt(3), 1);
    assert_eq!(isqrt(4), 2);
    assert_eq!(isqrt(99), 9);
    assert_eq!(isqrt(100), 10);
    assert_eq!(isqrt(1_000_000_000_000), 1_000_000);
    assert_eq!(isqrt((1u128 << 126) - 1), (1u64 << 63) - 1);
}

#[test]
fn integer_cube_roots_are_floors() {
    assert_eq!(icbrt(0), 0);
    assert_eq!(icbrt(7), 1);
    assert_eq!(icbrt(8), 2);
    assert_eq!(icbrt(26), 2);
    assert_eq!(icbrt(27), 3);
    assert_eq!(icbrt(1_000_000_000_000_000_000), 1_000_000);
    assert_eq!(icbrt((1u128 << 126) - 1), (1u64 << 42) - 1);
}

#[test]
fn squared_distance_is_exact() {
    let a = Vec2 { x: -3, y: 4 };
    let b = Vec2 { x: 0, y: 0 };
    assert_eq!(dist_sq_exec(a, b), 25);
    assert_eq!(dist_sq_exec(a, a), 0);
    let far = Vec2 { x: 0x4000_0000, y: 0x4000_0000 };
    let opposite = Vec2 { x: -0x4000_0000, y: -0x4000_0000 };
    assert_eq!(dist_sq_exec(far, opposite), 2u128 * (1u128 << 62));
}

#[test]
fn clamping_saturates_symmetrically() {
    assert_eq!(clamp_to_i64(500, 100), 100);
    assert_eq!(clamp_to_i64(-500, 100), -100);
    assert_eq!(clamp_to_i64(99, 100), 99);
    assert_eq!(clamp_to_i64(-100, 100), -100);
}

#[test]
fn sphere_mass_follows_the_volume_rule() {
    // (4/3) * (355/113) * 5^3 * 339 = 177500 with no remainder
    assert_eq!(sized_mass_exec(5, 339), 177_500);
    // (1420 * 1 * 1) / 339 rounds down to 4
    assert_eq!(sized_mass_exec(1, 1), 4);
    assert_eq!(sized_mass_exec(0, 1000), 0);
}

#[test]
fn limit_checks_accept_and_refuse() {
    let fine = Body {
        position: Vec2 { x: 0x10_0000, y: -0x10_0000 },
        velocity: Vec2 { x: 0x10_0000, y: 0 },
        radius: 1,
        mass: 1,
        active: true,
        tag: 0,
    };
    assert!(check_body_within_limits(&fine));
    let out = Body { position: Vec2 { x: 0x10_0001, y: 0 }, ..fine };
    assert!(!check_body_within_limits(&out));
    let fast = Body { velocity: Vec2 { x: 0, y: -0x10_0001 }, ..fine };
    assert!(!check_body_within_limits(&fast));
    assert!(check_population_ok(&vec![fine, fine]));
    let heavy = Body { mass: MASS_BUDGET, ..fine };
    assert!(check_population_ok(&vec![heavy]));
    assert!(!check_population_ok(&vec![heavy, fine]));
}
