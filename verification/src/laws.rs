//! The conservation and exclusion laws of the simulation, stated over the
//! spec-level passes and proved once and for all.

use vstd::prelude::*;
use vstd::arithmetic::div_mod::{
    lemma_div_pos_is_pos, lemma_fundamental_div_mod, lemma_mod_division_less_than_divisor,
};
use crate::geometry::{
    Vec2, abs_val, with_sign, cube, dist_sq, cbrt_floor, is_cbrt_floor, lemma_cbrt_floor_exists,
};
use crate::body::{
    Body, VEL_LIMIT, RADIUS_LIMIT, MASS_BUDGET, mass_total, body_within_limits,
    lemma_mass_prefix_pointwise, lemma_mass_pair_le_total,
};
use crate::forces::{pull_on, pull_prefix, pull_total, gravity_pass, forced_body, grav_component};
use crate::collisions::{
    merged_body, merged_velocity_component, merged_radius, merge_step, pair_eligible,
    collision_pass, scan_pairs, scan_inv, compact, absorbed_below, lemma_collision_pass_props,
    lemma_scan_pairs_props, lemma_merged_velocity_bound, lemma_compact_keeps,
    lemma_collision_pass_keeps_last_inactive,
};
use crate::motion::{integrate_pass, moved_body};
use crate::world::{
    WorldModel, CreationPhase, world_ok, tick_spec, sizing_pass, aiming_pass, primary_spec,
    secondary_spec, provisional_body, sized_mass, first_hit, DEADZONE_DIST_SQ,
};

verus! {

/// Mass is conserved by a merge: the merged body weighs exactly the sum
/// of the two masses.
pub proof fn law_merge_conserves_mass(surv: Body, gone: Body)
    requires
        surv.mass + gone.mass <= MASS_BUDGET,
    ensures
        merged_body(surv, gone).mass == surv.mass + gone.mass,
{
}

/// Momentum is conserved by a merge, up to the rounding of one integer
/// division: on each axis, the merged momentum differs from the summed
/// momentum by less than one unit of total mass, never exceeds it in
/// magnitude, and the merged velocity is the mass-weighted mean rounded
/// towards zero.  Two massless bodies merge to a body at rest.
pub proof fn law_merge_conserves_momentum(surv: Body, gone: Body)
    requires
        body_within_limits(surv),
        body_within_limits(gone),
        surv.mass + gone.mass <= MASS_BUDGET,
    ensures
        surv.mass + gone.mass == 0 ==> merged_body(surv, gone).velocity == (Vec2 { x: 0, y: 0 }),
        surv.mass + gone.mass > 0 ==> abs_val(
            surv.mass * surv.velocity.x + gone.mass * gone.velocity.x - (surv.mass + gone.mass)
                * merged_body(surv, gone).velocity.x,
        ) < surv.mass + gone.mass,
        surv.mass + gone.mass > 0 ==> abs_val(
            surv.mass * surv.velocity.y + gone.mass * gone.velocity.y - (surv.mass + gone.mass)
                * merged_body(surv, gone).velocity.y,
        ) < surv.mass + gone.mass,
{
    lemma_merged_velocity_bound(
        surv.mass as int,
        surv.velocity.x as int,
        gone.mass as int,
        gone.velocity.x as int,
        VEL_LIMIT as int,
    );
    lemma_merged_velocity_bound(
        surv.mass as int,
        surv.velocity.y as int,
        gone.mass as int,
        gone.velocity.y as int,
        VEL_LIMIT as int,
    );
    if surv.mass + gone.mass > 0 {
        lemma_momentum_component(
            surv.mass as int,
            surv.velocity.x as int,
            gone.mass as int,
            gone.velocity.x as int,
        );
        lemma_momentum_component(
            surv.mass as int,
            surv.velocity.y as int,
            gone.mass as int,
            gone.velocity.y as int,
        );
    }
}

/// On one axis, the weighted-mean velocity multiplied back by the total
/// mass reproduces the summed momentum to within one division remainder.
proof fn lemma_momentum_component(ms: int, vs: int, ma: int, va: int)
    requires
        0 <= ms,
        0 <= ma,
        ms + ma > 0,
    ensures
        abs_val(
            ms * vs + ma * va - (ms + ma) * merged_velocity_component(ms, vs, ma, va),
        ) < ms + ma,
{
    let p = ms * vs + ma * va;
    let msum = ms + ma;
    let q = abs_val(p) / msum;
    lemma_fundamental_div_mod(abs_val(p), msum);
    lemma_mod_division_less_than_divisor(abs_val(p), msum);
    lemma_div_pos_is_pos(abs_val(p), msum);
    let rem = abs_val(p) % msum;
    assert(abs_val(p) == msum * q + rem);
    if p >= 0 {
        assert(merged_velocity_component(ms, vs, ma, va) == q);
        assert(p - msum * q == rem);
    } else {
        assert(merged_velocity_component(ms, vs, ma, va) == -q);
        assert(msum * (-q) == -(msum * q)) by (nonlinear_arith);
        assert(p - msum * (-q) == -rem);
    }
}

/// Momentum of the first `n` bodies along the first axis.
pub open spec fn momentum_x_prefix(s: Seq<Body>, n: int) -> int
    decreases n,
{
    if n <= 0 {
        0
    } else {
        momentum_x_prefix(s, n - 1) + s[n - 1].mass * s[n - 1].velocity.x
    }
}

/// Momentum of the first `n` bodies along the second axis.
pub open spec fn momentum_y_prefix(s: Seq<Body>, n: int) -> int
    decreases n,
{
    if n <= 0 {
        0
    } else {
        momentum_y_prefix(s, n - 1) + s[n - 1].mass * s[n - 1].velocity.y
    }
}

/// Total momentum of a population, per axis.
pub open spec fn momentum_x_total(s: Seq<Body>) -> int {
    momentum_x_prefix(s, s.len() as int)
}

pub open spec fn momentum_y_total(s: Seq<Body>) -> int {
    momentum_y_prefix(s, s.len() as int)
}

proof fn lemma_momentum_prefix_update(s: Seq<Body>, k: int, b: Body, n: int)
    requires
        0 <= k < s.len(),
        n <= s.len(),
    ensures
        momentum_x_prefix(s.update(k, b), n) == momentum_x_prefix(s, n) + if k < n {
            b.mass * b.velocity.x - s[k].mass * s[k].velocity.x
        } else {
            0
        },
        momentum_y_prefix(s.update(k, b), n) == momentum_y_prefix(s, n) + if k < n {
            b.mass * b.velocity.y - s[k].mass * s[k].velocity.y
        } else {
            0
        },
    decreases n,
{
    if n > 0 {
        lemma_momentum_prefix_update(s, k, b, n - 1);
    }
}

/// The total momentum of the whole population moves by less than one unit
/// of the merging pair's mass when one pair merges, on each axis, and not
/// at all when the pair is not eligible.
pub proof fn law_merge_step_conserves_momentum(
    snap: Seq<Body>,
    cur: Seq<Body>,
    absorbed: Seq<bool>,
    i: int,
    j: int,
)
    requires
        scan_inv(snap, cur, absorbed),
        0 <= i < j < snap.len(),
    ensures
        abs_val(
            momentum_x_total(merge_step(snap, cur, absorbed, i, j).0) - momentum_x_total(cur),
        ) <= cur[i].mass + cur[j].mass,
        abs_val(
            momentum_y_total(merge_step(snap, cur, absorbed, i, j).0) - momentum_y_total(cur),
        ) <= cur[i].mass + cur[j].mass,
{
    if pair_eligible(snap, absorbed, i, j) {
        let s = if cur[j].mass > cur[i].mass {
            j
        } else {
            i
        };
        let a = if cur[j].mass > cur[i].mass {
            i
        } else {
            j
        };
        let merged = merged_body(cur[s], cur[a]);
        let cleared = Body { mass: 0, ..cur[a] };
        let one = cur.update(s, merged);
        let two = one.update(a, cleared);
        lemma_mass_pair_le_total(cur, s, a);
        let msum = cur[s].mass + cur[a].mass;
        assert(merged.mass == msum);
        lemma_merged_velocity_bound(
            cur[s].mass as int,
            cur[s].velocity.x as int,
            cur[a].mass as int,
            cur[a].velocity.x as int,
            VEL_LIMIT as int,
        );
        lemma_merged_velocity_bound(
            cur[s].mass as int,
            cur[s].velocity.y as int,
            cur[a].mass as int,
            cur[a].velocity.y as int,
            VEL_LIMIT as int,
        );
        lemma_momentum_prefix_update(cur, s, merged, cur.len() as int);
        lemma_momentum_prefix_update(one, a, cleared, one.len() as int);
        assert(one[a] == cur[a]);
        assert(merge_step(snap, cur, absorbed, i, j).0 == two);
        if msum == 0 {
            assert(merged.velocity.x as int == 0 && merged.velocity.y as int == 0);
            assert(momentum_x_total(two) - momentum_x_total(cur) == 0) by (nonlinear_arith)
                requires
                    momentum_x_total(two) == momentum_x_total(cur) + merged.mass
                        * merged.velocity.x - cur[s].mass * cur[s].velocity.x - cur[a].mass
                        * cur[a].velocity.x,
                    merged.mass == 0,
                    cur[s].mass == 0,
                    cur[a].mass == 0,
            ;
            assert(momentum_y_total(two) - momentum_y_total(cur) == 0) by (nonlinear_arith)
                requires
                    momentum_y_total(two) == momentum_y_total(cur) + merged.mass
                        * merged.velocity.y - cur[s].mass * cur[s].velocity.y - cur[a].mass
                        * cur[a].velocity.y,
                    merged.mass == 0,
                    cur[s].mass == 0,
                    cur[a].mass == 0,
            ;
        } else {
            lemma_momentum_component(
                cur[s].mass as int,
                cur[s].velocity.x as int,
                cur[a].mass as int,
                cur[a].velocity.x as int,
            );
            lemma_momentum_component(
                cur[s].mass as int,
                cur[s].velocity.y as int,
                cur[a].mass as int,
                cur[a].velocity.y as int,
            );
        }
    }
}

/// Volume is conserved by a merge: the merged radius is the floor cube
/// root of the summed cubes, so its cube brackets the summed volume.
/// This holds whenever the summed volume fits under the radius limit; at
/// the limit the radius saturates instead.
pub proof fn law_merge_conserves_volume(surv: Body, gone: Body)
    requires
        cube(surv.radius as int) + cube(gone.radius as int) <= cube(RADIUS_LIMIT as int),
    ensures
        cube(merged_body(surv, gone).radius as int) <= cube(surv.radius as int) + cube(
            gone.radius as int,
        ),
        cube(surv.radius as int) + cube(gone.radius as int) < cube(
            merged_body(surv, gone).radius as int + 1,
        ),
{
    let cs = cube(surv.radius as int);
    let cg = cube(gone.radius as int);
    assert(0 <= cs && 0 <= cg) by (nonlinear_arith)
        requires
            0 <= surv.radius,
            0 <= gone.radius,
            cs == cube(surv.radius as int),
            cg == cube(gone.radius as int),
    ;
    lemma_cbrt_floor_exists(cs + cg);
    let c = cbrt_floor(cs + cg);
    assert(c <= RADIUS_LIMIT as int) by (nonlinear_arith)
        requires
            is_cbrt_floor(cs + cg, c),
            cs + cg <= cube(RADIUS_LIMIT as int),
            0 <= RADIUS_LIMIT,
    {
        assert(c * c * c <= cs + cg);
        assert(cs + cg <= RADIUS_LIMIT as int * RADIUS_LIMIT as int * RADIUS_LIMIT as int);
    }
    assert(merged_radius(surv.radius as int, gone.radius as int) == c);
}

/// A lone active body experiences no pull at all, stays at its velocity,
/// and, if at rest, stays exactly where it is, tick after tick: the tick
/// hands back a world this law applies to again.
pub proof fn law_single_body_undisturbed(m: WorldModel, ptr: Vec2)
    requires
        world_ok(m),
        m.phase == CreationPhase::Idle,
        m.bodies.len() == 1,
        m.bodies[0].active,
    ensures
        pull_total(m.bodies, 0, m.gravity as int, m.time_scale as int, m.update_rate as int) == (
            0int,
            0int,
        ),
        tick_spec(m, ptr).bodies.len() == 1,
        tick_spec(m, ptr).bodies[0].velocity == m.bodies[0].velocity,
        m.bodies[0].velocity == (Vec2 { x: 0, y: 0 }) ==> tick_spec(m, ptr).bodies[0]
            == m.bodies[0],
        world_ok(tick_spec(m, ptr)),
        tick_spec(m, ptr).phase == CreationPhase::Idle,
        tick_spec(m, ptr).bodies[0].active,
        tick_spec(m, ptr).bodies[0].mass == m.bodies[0].mass,
{
    let s = m.bodies;
    let gi = m.gravity as int;
    let tsi = m.time_scale as int;
    let uri = m.update_rate as int;
    let none = Seq::new(s.len(), |k: int| false);
    assert(scan_inv(s, s, none));
    assert(scan_pairs(s, s, none, 0, 1) == (s, none));
    assert(compact(s, none, 0) =~= Seq::<Body>::empty());
    assert(compact(s, none, 1) =~= Seq::<Body>::empty().push(s[0]));
    assert(collision_pass(s) =~= s);
    let b = s[0];
    assert(body_within_limits(b));
    assert(pull_on(s, 0, 0, gi, tsi, uri) == (0int, 0int));
    assert(pull_prefix(s, 0, gi, tsi, uri, 0) == (0int, 0int));
    assert(pull_prefix(s, 0, gi, tsi, uri, 1) == (0int, 0int));
    let fb = forced_body(s, 0, gi, tsi, uri);
    assert(fb.velocity.x as int == b.velocity.x as int);
    assert(fb.velocity.y as int == b.velocity.y as int);
    assert(fb == b);
    let ag = gravity_pass(s, gi, tsi, uri);
    assert(ag =~= s);
    let am = integrate_pass(s, tsi, uri);
    assert(am.len() == 1);
    let mb = moved_body(b, tsi, uri);
    assert(am[0] == mb);
    assert(mb.velocity == b.velocity && mb.mass == b.mass && mb.active);
    if b.velocity == (Vec2 { x: 0, y: 0 }) {
        assert(abs_val(0int) * tsi == 0) by (nonlinear_arith);
        assert((abs_val(0int) * tsi) / uri == 0) by {
            vstd::arithmetic::div_mod::lemma_div_of0(uri);
        }
        assert(mb.position.x as int == b.position.x as int);
        assert(mb.position.y as int == b.position.y as int);
        assert(mb == b);
    }
    assert(body_within_limits(mb));
    assert forall|k: int| 0 <= k < am.len() implies body_within_limits(#[trigger] am[k]) by {
        assert(am[k] == mb);
    }
    assert(tick_spec(m, ptr).bodies =~= am);
    lemma_mass_prefix_pointwise(s, am, 1);
}

/// Two active bodies of equal mass pull on each other with equal and
/// opposite velocity changes, whatever their positions and velocities.
pub proof fn law_two_body_symmetry(s: Seq<Body>, g: int, ts: int, ur: int)
    requires
        s.len() == 2,
        s[0].active,
        s[1].active,
        s[0].mass == s[1].mass,
        1 <= ur,
    ensures
        pull_total(s, 0, g, ts, ur).0 == -pull_total(s, 1, g, ts, ur).0,
        pull_total(s, 0, g, ts, ur).1 == -pull_total(s, 1, g, ts, ur).1,
{
    let p0 = s[0].position;
    let p1 = s[1].position;
    assert(dist_sq(p0, p1) == dist_sq(p1, p0)) by (nonlinear_arith);
    let d = sqrt_floor_both(p0, p1);
    let t01 = pull_on(s, 0, 1, g, ts, ur);
    let t10 = pull_on(s, 1, 0, g, ts, ur);
    assert(pull_on(s, 0, 0, g, ts, ur) == (0int, 0int));
    assert(pull_on(s, 1, 1, g, ts, ur) == (0int, 0int));
    assert(pull_prefix(s, 0, g, ts, ur, 0) == (0int, 0int));
    assert(pull_prefix(s, 1, g, ts, ur, 0) == (0int, 0int));
    assert(pull_prefix(s, 0, g, ts, ur, 1) == (0int, 0int));
    assert(pull_prefix(s, 1, g, ts, ur, 1) == (pull_on(s, 1, 0, g, ts, ur).0, pull_on(
        s,
        1,
        0,
        g,
        ts,
        ur,
    ).1));
    lemma_grav_component_antisymmetric(g, s[0].mass as int, p1.x - p0.x, d, ts, ur);
    lemma_grav_component_antisymmetric(g, s[0].mass as int, p1.y - p0.y, d, ts, ur);
    assert(pull_prefix(s, 0, g, ts, ur, 2) == (t01.0, t01.1));
    assert(pull_prefix(s, 1, g, ts, ur, 2) == (t10.0, t10.1));
}

/// An inactive body exerts no pull on anybody.
pub proof fn law_inactive_exerts_no_pull(s: Seq<Body>, j: int, i: int, g: int, ts: int, ur: int)
    requires
        0 <= i < s.len(),
        !s[i].active,
    ensures
        pull_on(s, j, i, g, ts, ur) == (0int, 0int),
{
}

/// An inactive body is excluded from the tick: it takes part in no
/// collision, and it never moves — its record survives the pass at its
/// index shifted down by the records absorbed before it, still inactive
/// and at the same position; outside the creation workflow it is
/// untouched entirely.
pub proof fn law_inactive_excluded(m: WorldModel, ptr: Vec2, k: int)
    requires
        world_ok(m),
        0 <= k < m.bodies.len(),
        !m.bodies[k].active,
    ensures
        ({
            let r = scan_pairs(
                m.bodies,
                m.bodies,
                Seq::new(m.bodies.len(), |t: int| false),
                0,
                1,
            );
            let kk = k - absorbed_below(r.1, k);
            &&& 0 <= kk < tick_spec(m, ptr).bodies.len()
            &&& tick_spec(m, ptr).bodies[kk].position == m.bodies[k].position
            &&& !tick_spec(m, ptr).bodies[kk].active
            &&& m.phase == CreationPhase::Idle ==> tick_spec(m, ptr).bodies[kk] == m.bodies[k]
        }),
{
    let s = m.bodies;
    let n = s.len() as int;
    let gi = m.gravity as int;
    let tsi = m.time_scale as int;
    let uri = m.update_rate as int;
    let none = Seq::new(s.len(), |t: int| false);
    assert(scan_inv(s, s, none));
    lemma_scan_pairs_props(s, s, none, 0, 1);
    let r = scan_pairs(s, s, none, 0, 1);
    assert(!r.1[k]);
    assert(r.0[k] == s[k]);
    lemma_compact_keeps(r.0, r.1, n, k);
    let kk = k - absorbed_below(r.1, k);
    let ac = collision_pass(s);
    assert(ac[kk] == s[k]);
    let ag = gravity_pass(ac, gi, tsi, uri);
    assert(ag[kk] == forced_body(ac, kk, gi, tsi, uri));
    assert(ag[kk] == s[k]);
    let am0 = match m.phase {
        CreationPhase::Idle => ag,
        CreationPhase::SizingRadius => sizing_pass(ag, ptr, m.density as int),
        CreationPhase::SettingVelocity => aiming_pass(ag, ptr),
    };
    assert(am0[kk].position == s[k].position && !am0[kk].active && am0.len() == ag.len());
    assert(m.phase == CreationPhase::Idle ==> am0[kk] == s[k]);
    let am = integrate_pass(am0, tsi, uri);
    assert(am[kk] == moved_body(am0[kk], tsi, uri));
    assert(tick_spec(m, ptr).bodies == am);
}

/// One tick conserves the total mass of the population, except while the
/// sizing step is re-deriving the provisional body's mass.
pub proof fn law_tick_conserves_mass(m: WorldModel, ptr: Vec2)
    requires
        world_ok(m),
        m.phase != CreationPhase::SizingRadius,
    ensures
        mass_total(tick_spec(m, ptr).bodies) == mass_total(m.bodies),
{
    lemma_collision_pass_props(m.bodies);
    let gi = m.gravity as int;
    let tsi = m.time_scale as int;
    let uri = m.update_rate as int;
    let ac = collision_pass(m.bodies);
    let ag = gravity_pass(ac, gi, tsi, uri);
    assert forall|t: int| 0 <= t < ac.len() implies (#[trigger] ag[t]).mass == ac[t].mass by {
        assert(ag[t] == forced_body(ac, t, gi, tsi, uri));
    }
    lemma_mass_prefix_pointwise(ac, ag, ac.len() as int);
    if m.phase == CreationPhase::SettingVelocity {
        lemma_collision_pass_keeps_last_inactive(m.bodies);
        assert(ag.len() > 0);
    }
    let am0 = if m.phase == CreationPhase::SettingVelocity {
        aiming_pass(ag, ptr)
    } else {
        ag
    };
    assert(am0.len() == ag.len());
    assert forall|t: int| 0 <= t < ag.len() implies (#[trigger] am0[t]).mass == ag[t].mass by {
        if m.phase == CreationPhase::SettingVelocity && t < ag.len() - 1 {
            assert(am0[t] == ag[t]);
        }
    }
    lemma_mass_prefix_pointwise(ag, am0, ag.len() as int);
    let am = integrate_pass(am0, tsi, uri);
    assert forall|t: int| 0 <= t < am0.len() implies (#[trigger] am[t]).mass == am0[t].mass by {
        assert(am[t] == moved_body(am0[t], tsi, uri));
    }
    lemma_mass_prefix_pointwise(am0, am, am0.len() as int);
    assert(tick_spec(m, ptr).bodies == am);
}

/// The world after `n` ticks at a fixed pointer position.
pub open spec fn tick_iter(m: WorldModel, ptr: Vec2, n: nat) -> WorldModel
    decreases n,
{
    if n == 0 {
        m
    } else {
        tick_iter(tick_spec(m, ptr), ptr, (n - 1) as nat)
    }
}

/// A lone active body at rest is a fixed point of the simulation: any
/// number of ticks leaves the whole world exactly as it was.
pub proof fn law_single_body_stationary(m: WorldModel, ptr: Vec2, n: nat)
    requires
        world_ok(m),
        m.phase == CreationPhase::Idle,
        m.bodies.len() == 1,
        m.bodies[0].active,
        m.bodies[0].velocity == (Vec2 { x: 0, y: 0 }),
    ensures
        tick_iter(m, ptr, n) == m,
    decreases n,
{
    if n > 0 {
        law_single_body_undisturbed(m, ptr);
        let t = tick_spec(m, ptr);
        assert(t.bodies =~= m.bodies);
        assert(t =~= m);
        law_single_body_stationary(m, ptr, (n - 1) as nat);
    }
}

/// Whether the pointer lies on or inside a body's disk.
pub open spec fn pointer_hits(b: Body, ptr: Vec2) -> bool {
    dist_sq(b.position, ptr) <= crate::geometry::square(b.radius as int)
}

/// What `first_hit` finds: nothing, and then no body from `k` on holds
/// the pointer; or an index, and then that body holds the pointer and no
/// earlier body from `k` on does.
proof fn lemma_first_hit_props(s: Seq<Body>, ptr: Vec2, k: int)
    requires
        0 <= k,
    ensures
        first_hit(s, ptr, k) == -1 ==> forall|t: int|
            k <= t < s.len() ==> !pointer_hits(#[trigger] s[t], ptr),
        first_hit(s, ptr, k) >= 0 ==> k <= first_hit(s, ptr, k) < s.len() && pointer_hits(
            s[first_hit(s, ptr, k)],
            ptr,
        ) && forall|t: int|
            k <= t < first_hit(s, ptr, k) ==> !pointer_hits(#[trigger] s[t], ptr),
    decreases s.len() - k,
{
    if k < s.len() && !pointer_hits(s[k], ptr) {
        lemma_first_hit_props(s, ptr, k + 1);
    }
}

/// A secondary press while idle removes exactly the first body whose disk
/// holds the pointer, and no other: every earlier body misses the
/// pointer, every record below the hit keeps its place, every record
/// above it moves down by one.  With no hit at all, nothing changes.
pub proof fn law_deletion_removes_first_hit(m: WorldModel, ptr: Vec2)
    requires
        m.phase == CreationPhase::Idle,
    ensures
        ({
            let h = first_hit(m.bodies, ptr, 0);
            let out = secondary_spec(m, ptr);
            &&& h == -1 ==> out == m && forall|t: int|
                0 <= t < m.bodies.len() ==> !pointer_hits(#[trigger] m.bodies[t], ptr)
            &&& h >= 0 ==> {
                &&& 0 <= h < m.bodies.len()
                &&& pointer_hits(m.bodies[h], ptr)
                &&& forall|t: int| 0 <= t < h ==> !pointer_hits(#[trigger] m.bodies[t], ptr)
                &&& out.bodies.len() == m.bodies.len() - 1
                &&& forall|t: int| 0 <= t < h ==> #[trigger] out.bodies[t] == m.bodies[t]
                &&& forall|t: int|
                    h <= t < out.bodies.len() ==> #[trigger] out.bodies[t] == m.bodies[t + 1]
            }
        }),
{
    lemma_first_hit_props(m.bodies, ptr, 0);
}

/// A lone inactive body passes through every physics pass untouched.
proof fn lemma_lone_inactive_passes(s: Seq<Body>, g: int, ts: int, ur: int)
    requires
        s.len() == 1,
        !s[0].active,
    ensures
        collision_pass(s) == s,
        gravity_pass(s, g, ts, ur) == s,
        integrate_pass(s, ts, ur) == s,
{
    let none = Seq::new(s.len(), |k: int| false);
    assert(scan_pairs(s, s, none, 0, 1) == (s, none));
    assert(compact(s, none, 0) =~= Seq::<Body>::empty());
    assert(compact(s, none, 1) =~= Seq::<Body>::empty().push(s[0]));
    assert(collision_pass(s) =~= s);
    assert(forced_body(s, 0, g, ts, ur) == s[0]);
    assert(gravity_pass(s, g, ts, ur) =~= s);
    assert(moved_body(s[0], ts, ur) == s[0]);
    assert(integrate_pass(s, ts, ur) =~= s);
}

/// The creation round trip on an otherwise empty registry: three primary
/// presses at `p0` (insert), `p1` (size) and `p2` (aim), with one tick at
/// the sizing pointer and one at the aiming pointer in between, leave
/// exactly one committed body: active, at `p0`, with the pointer distance
/// to `p1` as its radius, the sphere-volume mass for that radius, and a
/// velocity of half the offset to `p2`, or rest inside the dead zone.
pub proof fn law_creation_round_trip(m: WorldModel, p0: Vec2, p1: Vec2, p2: Vec2)
    requires
        m.bodies.len() == 0,
        m.phase == CreationPhase::Idle,
    ensures
        ({
            let sized = tick_spec(primary_spec(m, p0), p1);
            let aimed = tick_spec(primary_spec(sized, p1), p2);
            let done = primary_spec(aimed, p2);
            let r = crate::geometry::sqrt_floor(dist_sq(p0, p1));
            &&& done.phase == CreationPhase::Idle
            &&& done.bodies.len() == 1
            &&& done.bodies[0].active
            &&& done.bodies[0].position == p0
            &&& done.bodies[0].radius == r as u64
            &&& done.bodies[0].mass == sized_mass(r, m.density as int) as u128
            &&& done.bodies[0].velocity == (if dist_sq(p0, p2) > DEADZONE_DIST_SQ as int {
                Vec2 {
                    x: with_sign(p2.x - p0.x, abs_val(p2.x - p0.x) / 2) as i64,
                    y: with_sign(p2.y - p0.y, abs_val(p2.y - p0.y) / 2) as i64,
                }
            } else {
                Vec2 { x: 0, y: 0 }
            })
        }),
{
    let gi = m.gravity as int;
    let tsi = m.time_scale as int;
    let uri = m.update_rate as int;
    let m1 = primary_spec(m, p0);
    let prov = provisional_body(p0, m.density as int);
    assert(m1.bodies =~= seq![prov]);
    lemma_lone_inactive_passes(m1.bodies, gi, tsi, uri);
    let s2 = sizing_pass(m1.bodies, p1, m.density as int);
    assert(!s2[0].active && s2.len() == 1);
    lemma_lone_inactive_passes(s2, gi, tsi, uri);
    let m2 = tick_spec(m1, p1);
    assert(m2.bodies == s2);
    let m3 = primary_spec(m2, p1);
    assert(m3.bodies == s2 && m3.phase == CreationPhase::SettingVelocity);
    let s4 = aiming_pass(s2, p2);
    assert(!s4[0].active && s4.len() == 1);
    lemma_lone_inactive_passes(s4, gi, tsi, uri);
    let m4 = tick_spec(m3, p2);
    assert(m4.bodies == s4);
    assert(s2[0].position == p0);
}

/// A secondary press at any pointer while a creation is unfinished, after
/// either the sizing tick or the aiming tick, discards the provisional
/// body entirely: on an otherwise empty registry the population is empty
/// again and the workflow is idle.
pub proof fn law_creation_cancelled(m: WorldModel, p0: Vec2, p1: Vec2, p2: Vec2, q: Vec2)
    requires
        m.bodies.len() == 0,
        m.phase == CreationPhase::Idle,
    ensures
        ({
            let sized = tick_spec(primary_spec(m, p0), p1);
            &&& secondary_spec(sized, q).bodies.len() == 0
            &&& secondary_spec(sized, q).phase == CreationPhase::Idle
        }),
        ({
            let sized = tick_spec(primary_spec(m, p0), p1);
            let aimed = tick_spec(primary_spec(sized, p1), p2);
            &&& secondary_spec(aimed, q).bodies.len() == 0
            &&& secondary_spec(aimed, q).phase == CreationPhase::Idle
        }),
{
    let gi = m.gravity as int;
    let tsi = m.time_scale as int;
    let uri = m.update_rate as int;
    let m1 = primary_spec(m, p0);
    let prov = provisional_body(p0, m.density as int);
    assert(m1.bodies =~= seq![prov]);
    lemma_lone_inactive_passes(m1.bodies, gi, tsi, uri);
    let s2 = sizing_pass(m1.bodies, p1, m.density as int);
    assert(!s2[0].active && s2.len() == 1);
    lemma_lone_inactive_passes(s2, gi, tsi, uri);
    let m2 = tick_spec(m1, p1);
    assert(m2.bodies == s2 && m2.phase == CreationPhase::SizingRadius);
    let m3 = primary_spec(m2, p1);
    let s4 = aiming_pass(s2, p2);
    assert(!s4[0].active && s4.len() == 1);
    lemma_lone_inactive_passes(s4, gi, tsi, uri);
    let m4 = tick_spec(m3, p2);
    assert(m4.bodies == s4 && m4.phase == CreationPhase::SettingVelocity);
}

/// The shared centre distance of two points, whichever way it is taken.
spec fn sqrt_floor_both(a: Vec2, b: Vec2) -> int {
    crate::geometry::sqrt_floor(dist_sq(a, b))
}

/// Flipping the axis offset flips the signed pull and keeps its size.
proof fn lemma_grav_component_antisymmetric(g: int, mass: int, dc: int, d: int, ts: int, ur: int)
    requires
        1 <= ur,
    ensures
        grav_component(g, mass, -dc, d, ts, ur) == -grav_component(g, mass, dc, d, ts, ur),
{
    assert(abs_val(-dc) == abs_val(dc));
    if d <= 0 {
    } else if dc == 0 {
        let q = (g * mass) / (d * d);
        assert(q * abs_val(0int) * ts == 0) by (nonlinear_arith);
        assert(d * ur != 0) by (nonlinear_arith)
            requires
                1 <= d,
                1 <= ur,
        ;
        vstd::arithmetic::div_mod::lemma_div_of0(d * ur);
    }
}

} // verus!
