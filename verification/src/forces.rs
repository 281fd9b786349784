//! The force accumulator: once per tick, every active body receives the
//! net gravitational velocity change from every other active body.
//!
//! For a receiver at `p` and a source of mass `m` at `q`, with centre
//! distance `d = sqrt_floor(|q - p|^2)`, the per-axis velocity change is
//! `sign(dc) * ((g*m / d^2) * |dc| * time_scale) / (d * update_rate)`
//! where `dc` is the axis component of `q - p`.  Coincident centres
//! (`d == 0`) contribute nothing, by policy, rather than failing.  All
//! contributions are read from one snapshot and applied afterwards, and
//! the receiver's velocity saturates at `VEL_LIMIT`.

use vstd::prelude::*;
use vstd::arithmetic::div_mod::{
    lemma_div_pos_is_pos, lemma_div_nonincreasing, lemma_fundamental_div_mod,
    lemma_mod_division_less_than_divisor,
};
use crate::geometry::{
    Vec2, abs_val, with_sign, clamped, square, dist_sq, sqrt_floor, lemma_sqrt_floor_exists,
    lemma_component_le_length, lemma_dist_sq_range, isqrt, dist_sq_exec, clamp_to_i64,
    ROOT_ARG_LIMIT,
};
use crate::body::{
    Body, POS_LIMIT, VEL_LIMIT, MASS_BUDGET, GRAVITY_LIMIT, mass_prefix, mass_total,
    population_ok, body_within_limits, lemma_mass_prefix_mono, lemma_mass_prefix_nonneg,
    lemma_mass_each_le_total, lemma_mass_prefix_pointwise,
};

verus! {

/// Magnitude of the gravitational velocity change along one axis.
pub open spec fn grav_mag(g: int, m: int, dc: int, d: int, ts: int, ur: int) -> int {
    if d <= 0 {
        0
    } else {
        let q = (g * m) / (d * d);
        (q * abs_val(dc) * ts) / (d * ur)
    }
}

/// Signed gravitational velocity change along one axis.
pub open spec fn grav_component(g: int, m: int, dc: int, d: int, ts: int, ur: int) -> int {
    with_sign(dc, grav_mag(g, m, dc, d, ts, ur))
}

/// Velocity change body `j` receives from body `i` this tick: zero if the
/// source is inactive, the same body, or at the very same point.
pub open spec fn pull_on(s: Seq<Body>, j: int, i: int, g: int, ts: int, ur: int) -> (int, int) {
    let bi = s[i];
    let bj = s[j];
    if i == j || !bi.active {
        (0, 0)
    } else {
        let d = sqrt_floor(dist_sq(bj.position, bi.position));
        (
            grav_component(g, bi.mass as int, bi.position.x - bj.position.x, d, ts, ur),
            grav_component(g, bi.mass as int, bi.position.y - bj.position.y, d, ts, ur),
        )
    }
}

/// Net velocity change on body `j` from the sources below `n`.
pub open spec fn pull_prefix(s: Seq<Body>, j: int, g: int, ts: int, ur: int, n: int) -> (
    int,
    int,
)
    decreases n,
{
    if n <= 0 {
        (0, 0)
    } else {
        let p = pull_prefix(s, j, g, ts, ur, n - 1);
        let t = pull_on(s, j, n - 1, g, ts, ur);
        (p.0 + t.0, p.1 + t.1)
    }
}

/// Net velocity change on body `j` from the whole population.
pub open spec fn pull_total(s: Seq<Body>, j: int, g: int, ts: int, ur: int) -> (int, int) {
    pull_prefix(s, j, g, ts, ur, s.len() as int)
}

/// One body after the force pass: an active body's velocity moves by the
/// net pull and saturates at `VEL_LIMIT`; an inactive body is untouched.
pub open spec fn forced_body(s: Seq<Body>, j: int, g: int, ts: int, ur: int) -> Body {
    let b = s[j];
    if b.active {
        let t = pull_total(s, j, g, ts, ur);
        Body {
            velocity: Vec2 {
                x: clamped(b.velocity.x + t.0, VEL_LIMIT as int) as i64,
                y: clamped(b.velocity.y + t.1, VEL_LIMIT as int) as i64,
            },
            ..b
        }
    } else {
        b
    }
}

/// The whole population after the force pass.
pub open spec fn gravity_pass(s: Seq<Body>, g: int, ts: int, ur: int) -> Seq<Body> {
    Seq::new(s.len(), |j: int| forced_body(s, j, g, ts, ur))
}

/// The one-axis magnitude is nonnegative and at most `g * m * ts`.
proof fn lemma_grav_mag_bound(g: int, m: int, dc: int, d: int, ts: int, ur: int)
    requires
        0 <= g,
        0 <= m,
        0 <= ts,
        1 <= ur,
        0 <= d,
        abs_val(dc) <= d,
    ensures
        0 <= grav_mag(g, m, dc, d, ts, ur) <= g * m * ts,
{
    assert(0 <= g * m * ts) by (nonlinear_arith)
        requires
            0 <= g,
            0 <= m,
            0 <= ts,
    ;
    if d <= 0 {
    } else {
        let gm = g * m;
        let dd = d * d;
        assert(0 <= gm && 1 <= dd) by (nonlinear_arith)
            requires
                0 <= g,
                0 <= m,
                1 <= d,
                gm == g * m,
                dd == d * d,
        ;
        let q = gm / dd;
        lemma_div_pos_is_pos(gm, dd);
        lemma_fundamental_div_mod(gm, dd);
        lemma_mod_division_less_than_divisor(gm, dd);
        let num = q * abs_val(dc) * ts;
        assert(0 <= num && num <= gm * ts) by (nonlinear_arith)
            requires
                0 <= q,
                dd == d * d,
                dd * q <= gm,
                abs_val(dc) <= d,
                1 <= d,
                0 <= ts,
                0 <= dc || dc < 0,
                num == q * abs_val(dc) * ts,
                0 <= abs_val(dc),
        {
            assert(q * abs_val(dc) <= q * d);
            assert(q * d <= q * d * d);
            assert(q * abs_val(dc) * ts <= q * d * d * ts);
            assert(q * d * d * ts <= gm * ts);
        }
        let den = d * ur;
        assert(1 <= den) by (nonlinear_arith)
            requires
                1 <= d,
                1 <= ur,
                den == d * ur,
        ;
        lemma_div_pos_is_pos(num, den);
        lemma_div_nonincreasing(num, den);
    }
}

/// The pull of one body on another is bounded by `g * ts * mass` of the
/// source, on each axis.
proof fn lemma_pull_on_bound(s: Seq<Body>, j: int, i: int, g: int, ts: int, ur: int)
    requires
        0 <= g,
        0 <= ts,
        1 <= ur,
        0 <= i < s.len(),
        0 <= j < s.len(),
        body_within_limits(s[i]),
        body_within_limits(s[j]),
    ensures
        abs_val(pull_on(s, j, i, g, ts, ur).0) <= g * ts * s[i].mass,
        abs_val(pull_on(s, j, i, g, ts, ur).1) <= g * ts * s[i].mass,
{
    assert(0 <= g * ts * s[i].mass) by (nonlinear_arith)
        requires
            0 <= g,
            0 <= ts,
            0 <= s[i].mass,
    ;
    if i == j || !s[i].active {
    } else {
        let bi = s[i];
        let bj = s[j];
        let d2 = dist_sq(bj.position, bi.position);
        lemma_dist_sq_range(bj.position, bi.position, POS_LIMIT as int);
        lemma_sqrt_floor_exists(d2);
        let d = sqrt_floor(d2);
        let dcx = bi.position.x - bj.position.x;
        let dcy = bi.position.y - bj.position.y;
        assert(square(dcx) <= d2 && square(dcy) <= d2) by (nonlinear_arith)
            requires
                d2 == square(dcx) + square(dcy),
        ;
        lemma_component_le_length(dcx, d);
        lemma_component_le_length(dcy, d);
        lemma_grav_mag_bound(g, bi.mass as int, dcx, d, ts, ur);
        lemma_grav_mag_bound(g, bi.mass as int, dcy, d, ts, ur);
        assert(g * bi.mass * ts == g * ts * bi.mass) by (nonlinear_arith);
    }
}

/// The accumulated pull of the first `n` bodies is bounded by
/// `g * ts * mass_prefix(n)`, on each axis.
proof fn lemma_pull_prefix_bound(s: Seq<Body>, j: int, g: int, ts: int, ur: int, n: int)
    requires
        0 <= g,
        0 <= ts,
        1 <= ur,
        0 <= j < s.len(),
        n <= s.len(),
        forall|k: int| 0 <= k < s.len() ==> body_within_limits(#[trigger] s[k]),
    ensures
        abs_val(pull_prefix(s, j, g, ts, ur, n).0) <= g * ts * mass_prefix(s, n),
        abs_val(pull_prefix(s, j, g, ts, ur, n).1) <= g * ts * mass_prefix(s, n),
    decreases n,
{
    if n <= 0 {
        assert(g * ts * mass_prefix(s, n) == 0) by (nonlinear_arith)
            requires
                mass_prefix(s, n) == 0,
        ;
    } else {
        lemma_pull_prefix_bound(s, j, g, ts, ur, n - 1);
        lemma_pull_on_bound(s, j, n - 1, g, ts, ur);
        assert(g * ts * mass_prefix(s, n - 1) + g * ts * s[n - 1].mass == g * ts * mass_prefix(
            s,
            n,
        )) by (nonlinear_arith)
            requires
                mass_prefix(s, n) == mass_prefix(s, n - 1) + s[n - 1].mass,
        ;
    }
}

/// The net pull on any body fits comfortably in a signed 128-bit word.
proof fn lemma_pull_total_fits(s: Seq<Body>, j: int, g: int, ts: int, ur: int, n: int)
    requires
        0 <= g <= GRAVITY_LIMIT,
        0 <= ts <= 255,
        1 <= ur,
        0 <= j < s.len(),
        n <= s.len(),
        forall|k: int| 0 <= k < s.len() ==> body_within_limits(#[trigger] s[k]),
        mass_total(s) <= MASS_BUDGET,
    ensures
        abs_val(pull_prefix(s, j, g, ts, ur, n).0) <= 0x40_0000_0000_0000_0000_0000_0000_0000,
        abs_val(pull_prefix(s, j, g, ts, ur, n).1) <= 0x40_0000_0000_0000_0000_0000_0000_0000,
{
    lemma_pull_prefix_bound(s, j, g, ts, ur, n);
    if n <= s.len() {
        lemma_mass_prefix_mono(s, n, s.len() as int);
        lemma_mass_prefix_nonneg(s, n);
    }
    assert(g * ts * mass_prefix(s, n) <= 0x40_0000_0000_0000_0000_0000_0000_0000)
        by (nonlinear_arith)
        requires
            0 <= g <= 0x10_0000,
            0 <= ts <= 255,
            0 <= mass_prefix(s, n) <= 0x400_0000_0000_0000_0000_0000,
    ;
}

/// Velocity change body `j` receives from body `i`, as executable code.
fn pull_on_exec(bodies: &Vec<Body>, j: usize, i: usize, g: u64, ts: u8, ur: u8) -> (t: (i128, i128))
    requires
        i < bodies@.len(),
        j < bodies@.len(),
        g <= GRAVITY_LIMIT,
        1 <= ur,
        population_ok(bodies@),
    ensures
        t.0 == pull_on(bodies@, j as int, i as int, g as int, ts as int, ur as int).0,
        t.1 == pull_on(bodies@, j as int, i as int, g as int, ts as int, ur as int).1,
{
    let bi = bodies[i];
    let bj = bodies[j];
    if i == j || !bi.active {
        return (0, 0);
    }
    proof {
        lemma_dist_sq_range(bj.position, bi.position, POS_LIMIT as int);
        assert(8 * (POS_LIMIT as int) * (POS_LIMIT as int) < ROOT_ARG_LIMIT) by (nonlinear_arith);
    }
    let d2 = dist_sq_exec(bj.position, bi.position);
    let d = isqrt(d2);
    if d == 0 {
        return (0, 0);
    }
    let ghost d2i = dist_sq(bj.position, bi.position);
    proof {
        lemma_sqrt_floor_exists(d2i);
        assert(d as int <= 0x40_0000int) by (nonlinear_arith)
            requires
                square(d as int) <= d2i,
                d2i <= 8 * (POS_LIMIT as int) * (POS_LIMIT as int),
                POS_LIMIT == 0x10_0000i64,
                0 <= d,
        ;
        lemma_mass_each_le_total(bodies@, i as int);
        assert((g as int) * (bi.mass as int) <= 0x4_0000_0000_0000_0000_0000_0000_0000)
            by (nonlinear_arith)
            requires
                g <= 0x10_0000u64,
                bi.mass as int <= 0x400_0000_0000_0000_0000_0000,
        ;
    }
    let gm: u128 = (g as u128) * bi.mass;
    let dd: u128 = (d as u128) * (d as u128);
    proof {
        assert(1 <= dd as int) by (nonlinear_arith)
            requires
                1 <= d,
                dd as int == (d as int) * (d as int),
        ;
    }
    let q: u128 = gm / dd;
    let dcx: i64 = bi.position.x - bj.position.x;
    let dcy: i64 = bi.position.y - bj.position.y;
    let ax: u128 = if dcx < 0 {
        (-(dcx as i128)) as u128
    } else {
        dcx as u128
    };
    let ay: u128 = if dcy < 0 {
        (-(dcy as i128)) as u128
    } else {
        dcy as u128
    };
    proof {
        assert(square(dcx as int) <= d2i && square(dcy as int) <= d2i) by (nonlinear_arith)
            requires
                d2i == square(dcx as int) + square(dcy as int),
        ;
        lemma_component_le_length(dcx as int, d as int);
        lemma_component_le_length(dcy as int, d as int);
        lemma_div_pos_is_pos(gm as int, dd as int);
        lemma_fundamental_div_mod(gm as int, dd as int);
        lemma_mod_division_less_than_divisor(gm as int, dd as int);
        assert((q as int) * (ax as int) <= gm && (q as int) * (ay as int) <= gm && 0 <= (q as int)
            * (ax as int) && 0 <= (q as int) * (ay as int)) by (nonlinear_arith)
            requires
                0 <= q,
                (dd as int) * (q as int) <= gm as int,
                dd as int == (d as int) * (d as int),
                1 <= d,
                ax as int <= d as int,
                ay as int <= d as int,
                0 <= ax,
                0 <= ay,
        {
            assert((q as int) * (ax as int) <= (q as int) * (d as int));
            assert((q as int) * (d as int) <= (q as int) * (d as int) * (d as int));
            assert((q as int) * (ay as int) <= (q as int) * (d as int));
        }
        assert((q as int) * (ax as int) * (ts as int) <= 0x4_0000_0000_0000_0000_0000_0000_0000int
            * 255 && (q as int) * (ay as int) * (ts as int)
            <= 0x4_0000_0000_0000_0000_0000_0000_0000int * 255 && 0 <= (q as int) * (ax as int)
            * (ts as int) && 0 <= (q as int) * (ay as int) * (ts as int)) by (nonlinear_arith)
            requires
                0 <= (q as int) * (ax as int) <= gm as int,
                0 <= (q as int) * (ay as int) <= gm as int,
                gm as int <= 0x4_0000_0000_0000_0000_0000_0000_0000,
                ts <= 255u8,
                0 <= q,
                0 <= ax,
                0 <= ay,
        ;
        assert(1 <= (d as int) * (ur as int) <= 0x40_0000int * 255) by (nonlinear_arith)
            requires
                1 <= d,
                d as int <= 0x40_0000int,
                1 <= ur,
                ur <= 255u8,
        ;
    }
    let numx: u128 = q * ax * (ts as u128);
    let numy: u128 = q * ay * (ts as u128);
    let den: u128 = (d as u128) * (ur as u128);
    let magx: u128 = numx / den;
    let magy: u128 = numy / den;
    proof {
        lemma_div_pos_is_pos(numx as int, den as int);
        lemma_div_nonincreasing(numx as int, den as int);
        lemma_div_pos_is_pos(numy as int, den as int);
        lemma_div_nonincreasing(numy as int, den as int);
    }
    let tx: i128 = if dcx < 0 {
        -(magx as i128)
    } else {
        magx as i128
    };
    let ty: i128 = if dcy < 0 {
        -(magy as i128)
    } else {
        magy as i128
    };
    (tx, ty)
}

/// Net velocity change on body `j` from the whole population, as
/// executable code.
fn pull_total_exec(bodies: &Vec<Body>, j: usize, g: u64, ts: u8, ur: u8) -> (t: (i128, i128))
    requires
        j < bodies@.len(),
        g <= GRAVITY_LIMIT,
        1 <= ur,
        population_ok(bodies@),
    ensures
        t.0 == pull_total(bodies@, j as int, g as int, ts as int, ur as int).0,
        t.1 == pull_total(bodies@, j as int, g as int, ts as int, ur as int).1,
{
    let ghost gi = g as int;
    let ghost tsi = ts as int;
    let ghost uri = ur as int;
    let mut accx: i128 = 0;
    let mut accy: i128 = 0;
    let mut i: usize = 0;
    while i < bodies.len()
        invariant
            i <= bodies@.len(),
            j < bodies@.len(),
            g <= GRAVITY_LIMIT,
            1 <= ur,
            population_ok(bodies@),
            accx == pull_prefix(bodies@, j as int, gi, tsi, uri, i as int).0,
            accy == pull_prefix(bodies@, j as int, gi, tsi, uri, i as int).1,
            gi == g as int,
            tsi == ts as int,
            uri == ur as int,
        decreases bodies@.len() - i,
    {
        let t = pull_on_exec(bodies, j, i, g, ts, ur);
        proof {
            lemma_pull_total_fits(bodies@, j as int, gi, tsi, uri, i as int);
            lemma_pull_on_bound(bodies@, j as int, i as int, gi, tsi, uri);
            lemma_mass_each_le_total(bodies@, i as int);
            assert(gi * tsi * bodies@[i as int].mass
                <= 0x40_0000_0000_0000_0000_0000_0000_0000int) by (nonlinear_arith)
                requires
                    0 <= gi <= 0x10_0000,
                    0 <= tsi <= 255,
                    0 <= bodies@[i as int].mass <= 0x400_0000_0000_0000_0000_0000,
            ;
        }
        accx = accx + t.0;
        accy = accy + t.1;
        i = i + 1;
    }
    (accx, accy)
}

/// The force pass: compute every active body's net pull from one snapshot,
/// then apply all of them, saturating each velocity at `VEL_LIMIT`.
pub fn accumulate_forces(bodies: &Vec<Body>, g: u64, ts: u8, ur: u8) -> (out: Vec<Body>)
    requires
        g <= GRAVITY_LIMIT,
        1 <= ur,
        population_ok(bodies@),
    ensures
        out@ == gravity_pass(bodies@, g as int, ts as int, ur as int),
        population_ok(out@),
{
    let ghost gi = g as int;
    let ghost tsi = ts as int;
    let ghost uri = ur as int;
    let mut pulls: Vec<(i128, i128)> = Vec::new();
    let mut j: usize = 0;
    while j < bodies.len()
        invariant
            j <= bodies@.len(),
            g <= GRAVITY_LIMIT,
            1 <= ur,
            population_ok(bodies@),
            pulls@.len() == j as int,
            forall|k: int|
                0 <= k < j as int ==> (#[trigger] pulls@[k]).0 == pull_total(
                    bodies@,
                    k,
                    gi,
                    tsi,
                    uri,
                ).0 && pulls@[k].1 == pull_total(bodies@, k, gi, tsi, uri).1,
            gi == g as int,
            tsi == ts as int,
            uri == ur as int,
        decreases bodies@.len() - j,
    {
        let t = pull_total_exec(bodies, j, g, ts, ur);
        pulls.push(t);
        j = j + 1;
    }
    let mut out: Vec<Body> = Vec::new();
    let mut k: usize = 0;
    while k < bodies.len()
        invariant
            k <= bodies@.len(),
            population_ok(bodies@),
            g <= GRAVITY_LIMIT,
            1 <= ur,
            pulls@.len() == bodies@.len(),
            out@.len() == k as int,
            gi == g as int,
            tsi == ts as int,
            uri == ur as int,
            forall|t: int|
                0 <= t < bodies@.len() ==> (#[trigger] pulls@[t]).0 == pull_total(
                    bodies@,
                    t,
                    gi,
                    tsi,
                    uri,
                ).0 && pulls@[t].1 == pull_total(bodies@, t, gi, tsi, uri).1,
            forall|t: int|
                0 <= t < k as int ==> #[trigger] out@[t] == forced_body(bodies@, t, gi, tsi, uri),
        decreases bodies@.len() - k,
    {
        let b = bodies[k];
        if b.active {
            proof {
                lemma_pull_total_fits(bodies@, k as int, gi, tsi, uri, bodies@.len() as int);
            }
            let p = pulls[k];
            let vx = clamp_to_i64((b.velocity.x as i128) + p.0, VEL_LIMIT);
            let vy = clamp_to_i64((b.velocity.y as i128) + p.1, VEL_LIMIT);
            let nb = Body { velocity: Vec2 { x: vx, y: vy }, ..b };
            out.push(nb);
        } else {
            out.push(b);
        }
        k = k + 1;
    }
    proof {
        assert(out@ =~= gravity_pass(bodies@, gi, tsi, uri));
        lemma_mass_prefix_pointwise(bodies@, out@, bodies@.len() as int);
        assert forall|t: int| 0 <= t < out@.len() implies body_within_limits(
            #[trigger] out@[t],
        ) by {
            assert(body_within_limits(bodies@[t]));
            assert(out@[t] == forced_body(bodies@, t, gi, tsi, uri));
        }
    }
    out
}

} // verus!
