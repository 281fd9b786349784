//! The collision resolver: among the active bodies, overlapping pairs are
//! merged, the lighter into the heavier, conserving mass, momentum (up to
//! the integer rounding of one division) and volume.
//!
//! Policy, chosen deterministically because several collisions can happen
//! in one tick: unordered pairs are scanned in ascending lexicographic
//! order of indices, overlap is judged from the snapshot taken at the
//! start of the pass, a body absorbed earlier in the pass is no longer
//! eligible as partner or survivor, and a surviving body keeps merging
//! with whatever else it overlapped.  When the two masses are equal the
//! lower index survives.  All updates land on survivors first; absorbed
//! records are cleared to mass zero and dropped in one compaction sweep
//! at the end, so no index shifts while pairs are still being scanned.

use vstd::prelude::*;
use vstd::arithmetic::div_mod::{
    lemma_div_pos_is_pos, lemma_div_is_ordered, lemma_div_multiples_vanish,
};
use crate::geometry::{
    Vec2, abs_val, with_sign, square, cube, dist_sq, cbrt_floor, lemma_cbrt_floor_exists,
    dist_sq_exec, icbrt, ROOT_ARG_LIMIT,
};
use crate::body::{
    Body, VEL_LIMIT, RADIUS_LIMIT, MASS_BUDGET, mass_total, mass_prefix, population_ok,
    bodies_within_limits, body_within_limits, lemma_mass_pair_le_total, lemma_mass_total_update,
    lemma_mass_total_push,
};

verus! {

/// Two snapshot bodies take part in a collision: both active, centre
/// distance at most the sum of the radii.
pub open spec fn overlapping(a: Body, b: Body) -> bool {
    &&& a.active
    &&& b.active
    &&& dist_sq(a.position, b.position) <= square(a.radius + b.radius)
}

/// One axis of the momentum-conserving merged velocity: the mass-weighted
/// mean of the two velocities, rounded towards zero.  A total mass of
/// zero (two degenerate bodies) gives zero, by policy.
pub open spec fn merged_velocity_component(ms: int, vs: int, ma: int, va: int) -> int {
    let sum = ms * vs + ma * va;
    if ms + ma == 0 {
        0
    } else {
        with_sign(sum, abs_val(sum) / (ms + ma))
    }
}

/// The merged radius: volume conservation, saturated at `RADIUS_LIMIT`.
pub open spec fn merged_radius(rs: int, ra: int) -> int {
    let c = cbrt_floor(cube(rs) + cube(ra));
    if c > RADIUS_LIMIT as int {
        RADIUS_LIMIT as int
    } else {
        c
    }
}

/// The body that survives a merge: the survivor's position, activity and
/// tag; the summed mass; the volume-conserving radius; the momentum-
/// conserving velocity.
pub open spec fn merged_body(surv: Body, gone: Body) -> Body {
    Body {
        mass: (surv.mass + gone.mass) as u128,
        radius: merged_radius(surv.radius as int, gone.radius as int) as u64,
        velocity: Vec2 {
            x: merged_velocity_component(
                surv.mass as int,
                surv.velocity.x as int,
                gone.mass as int,
                gone.velocity.x as int,
            ) as i64,
            y: merged_velocity_component(
                surv.mass as int,
                surv.velocity.y as int,
                gone.mass as int,
                gone.velocity.y as int,
            ) as i64,
        },
        ..surv
    }
}

/// A pair may merge if neither side was absorbed earlier in this pass and
/// the snapshot shows them overlapping.
pub open spec fn pair_eligible(snap: Seq<Body>, absorbed: Seq<bool>, i: int, j: int) -> bool {
    &&& !absorbed[i]
    &&& !absorbed[j]
    &&& overlapping(snap[i], snap[j])
}

/// Process one unordered pair: merge the lighter (by current mass) into
/// the heavier, clear the absorbed record to mass zero and mark it.
pub open spec fn merge_step(
    snap: Seq<Body>,
    cur: Seq<Body>,
    absorbed: Seq<bool>,
    i: int,
    j: int,
) -> (Seq<Body>, Seq<bool>) {
    if pair_eligible(snap, absorbed, i, j) {
        let s = if cur[j].mass > cur[i].mass {
            j
        } else {
            i
        };
        let a = if cur[j].mass > cur[i].mass {
            i
        } else {
            j
        };
        let merged = merged_body(cur[s], cur[a]);
        let cleared = Body { mass: 0, ..cur[a] };
        (cur.update(s, merged).update(a, cleared), absorbed.update(a, true))
    } else {
        (cur, absorbed)
    }
}

/// Process every unordered pair from `(i, j)` onwards, in ascending
/// lexicographic order.
pub open spec fn scan_pairs(
    snap: Seq<Body>,
    cur: Seq<Body>,
    absorbed: Seq<bool>,
    i: int,
    j: int,
) -> (Seq<Body>, Seq<bool>)
    decreases snap.len() - i, snap.len() + 1 - j,
{
    let n = snap.len() as int;
    if i < 0 || j <= i || i >= n - 1 {
        (cur, absorbed)
    } else if j >= n {
        scan_pairs(snap, cur, absorbed, i + 1, i + 2)
    } else {
        let st = merge_step(snap, cur, absorbed, i, j);
        scan_pairs(snap, st.0, st.1, i, j + 1)
    }
}

/// How many of the first `k` entries are marked absorbed.
pub open spec fn absorbed_below(absorbed: Seq<bool>, k: int) -> int
    decreases k,
{
    if k <= 0 {
        0
    } else {
        absorbed_below(absorbed, k - 1) + if absorbed[k - 1] {
            1int
        } else {
            0int
        }
    }
}

/// Keep the first `n` records that are not marked absorbed, in order.
pub open spec fn compact(cur: Seq<Body>, absorbed: Seq<bool>, n: int) -> Seq<Body>
    decreases n,
{
    if n <= 0 {
        Seq::empty()
    } else {
        let p = compact(cur, absorbed, n - 1);
        if absorbed[n - 1] {
            p
        } else {
            p.push(cur[n - 1])
        }
    }
}

/// The whole collision pass over one snapshot.
pub open spec fn collision_pass(s: Seq<Body>) -> Seq<Body> {
    let r = scan_pairs(s, s, Seq::new(s.len(), |k: int| false), 0, 1);
    compact(r.0, r.1, s.len() as int)
}

/// What stays true of the working state all through a pass: sizes agree,
/// total mass is conserved, bodies stay within limits, positions and
/// activity are those of the snapshot, absorbed records are cleared, and
/// inactive bodies are untouched.
pub open spec fn scan_inv(snap: Seq<Body>, cur: Seq<Body>, absorbed: Seq<bool>) -> bool {
    &&& cur.len() == snap.len()
    &&& absorbed.len() == snap.len()
    &&& population_ok(snap)
    &&& mass_total(cur) == mass_total(snap)
    &&& bodies_within_limits(cur)
    &&& forall|k: int|
        0 <= k < snap.len() ==> (#[trigger] cur[k]).position == snap[k].position && cur[k].active
            == snap[k].active
    &&& forall|k: int| 0 <= k < snap.len() && absorbed[k] ==> (#[trigger] cur[k]).mass == 0
    &&& forall|k: int| 0 <= k < snap.len() && !snap[k].active ==> !(#[trigger] absorbed[k])
    &&& forall|k: int| 0 <= k < snap.len() && !snap[k].active ==> (#[trigger] cur[k]) == snap[k]
}

/// The merged velocity lies between the two velocities' bounds.
pub proof fn lemma_merged_velocity_bound(ms: int, vs: int, ma: int, va: int, v: int)
    requires
        0 <= ms,
        0 <= ma,
        0 <= v,
        abs_val(vs) <= v,
        abs_val(va) <= v,
    ensures
        abs_val(merged_velocity_component(ms, vs, ma, va)) <= v,
{
    let sum = ms * vs + ma * va;
    let msum = ms + ma;
    if msum == 0 {
    } else {
        assert(abs_val(sum) <= msum * v) by (nonlinear_arith)
            requires
                0 <= ms,
                0 <= ma,
                abs_val(vs) <= v,
                abs_val(va) <= v,
                sum == ms * vs + ma * va,
                msum == ms + ma,
        ;
        lemma_div_is_ordered(abs_val(sum), msum * v, msum);
        lemma_div_multiples_vanish(v, msum);
        lemma_div_pos_is_pos(abs_val(sum), msum);
    }
}

/// One merge step keeps the pass invariant.
proof fn lemma_merge_step_props(
    snap: Seq<Body>,
    cur: Seq<Body>,
    absorbed: Seq<bool>,
    i: int,
    j: int,
)
    requires
        scan_inv(snap, cur, absorbed),
        0 <= i < j < snap.len(),
    ensures
        scan_inv(
            snap,
            merge_step(snap, cur, absorbed, i, j).0,
            merge_step(snap, cur, absorbed, i, j).1,
        ),
{
    if pair_eligible(snap, absorbed, i, j) {
        let s = if cur[j].mass > cur[i].mass {
            j
        } else {
            i
        };
        let a = if cur[j].mass > cur[i].mass {
            i
        } else {
            j
        };
        let merged = merged_body(cur[s], cur[a]);
        let cleared = Body { mass: 0, ..cur[a] };
        lemma_mass_pair_le_total(cur, s, a);
        assert(cur[s].mass + cur[a].mass <= MASS_BUDGET as int);
        assert(merged.mass == cur[s].mass + cur[a].mass);
        lemma_merged_velocity_bound(
            cur[s].mass as int,
            cur[s].velocity.x as int,
            cur[a].mass as int,
            cur[a].velocity.x as int,
            VEL_LIMIT as int,
        );
        lemma_merged_velocity_bound(
            cur[s].mass as int,
            cur[s].velocity.y as int,
            cur[a].mass as int,
            cur[a].velocity.y as int,
            VEL_LIMIT as int,
        );
        lemma_cbrt_floor_exists(cube(cur[s].radius as int) + cube(cur[a].radius as int));
        assert(0 <= cube(cur[s].radius as int) && 0 <= cube(cur[a].radius as int))
            by (nonlinear_arith)
            requires
                0 <= cur[s].radius,
                0 <= cur[a].radius,
        ;
        let one = cur.update(s, merged);
        let two = one.update(a, cleared);
        let marked = absorbed.update(a, true);
        lemma_mass_total_update(cur, s, merged);
        lemma_mass_total_update(one, a, cleared);
        assert(merge_step(snap, cur, absorbed, i, j).0 == two);
        assert(body_within_limits(merged));
        assert(bodies_within_limits(two));
        assert(mass_total(two) == mass_total(snap));
        assert(snap[s].active && snap[a].active);
        assert forall|k: int|
            0 <= k < snap.len() implies (#[trigger] two[k]).position == snap[k].position && two[k].active
            == snap[k].active by {
            if k != s && k != a {
                assert(two[k] == cur[k]);
            }
        }
        assert forall|k: int| 0 <= k < snap.len() && marked[k] implies (#[trigger] two[k]).mass
            == 0 by {
            if k != s && k != a {
                assert(two[k] == cur[k]);
                assert(absorbed[k]);
            }
        }
        assert forall|k: int| 0 <= k < snap.len() && !snap[k].active implies !(
        #[trigger] marked[k]) by {
            assert(k != s && k != a);
            assert(marked[k] == absorbed[k]);
            assert(cur[k] == snap[k]);
        }
        assert forall|k: int| 0 <= k < snap.len() && !snap[k].active implies (#[trigger] two[k])
            == snap[k] by {
            assert(k != s && k != a);
            assert(two[k] == cur[k]);
        }
        assert(merge_step(snap, cur, absorbed, i, j).1 == marked);
        assert(scan_inv(snap, two, marked));
    }
}

/// The scan keeps the pass invariant from any starting pair onwards.
pub proof fn lemma_scan_pairs_props(
    snap: Seq<Body>,
    cur: Seq<Body>,
    absorbed: Seq<bool>,
    i: int,
    j: int,
)
    requires
        scan_inv(snap, cur, absorbed),
    ensures
        scan_inv(
            snap,
            scan_pairs(snap, cur, absorbed, i, j).0,
            scan_pairs(snap, cur, absorbed, i, j).1,
        ),
    decreases snap.len() - i, snap.len() + 1 - j,
{
    let n = snap.len() as int;
    if i < 0 || j <= i || i >= n - 1 {
    } else if j >= n {
        lemma_scan_pairs_props(snap, cur, absorbed, i + 1, i + 2);
    } else {
        lemma_merge_step_props(snap, cur, absorbed, i, j);
        let st = merge_step(snap, cur, absorbed, i, j);
        lemma_scan_pairs_props(snap, st.0, st.1, i, j + 1);
    }
}

/// Compaction keeps as many records as are not marked absorbed.
pub proof fn lemma_compact_len(cur: Seq<Body>, absorbed: Seq<bool>, n: int)
    ensures
        compact(cur, absorbed, n).len() == if n <= 0 {
            0
        } else {
            n - absorbed_below(absorbed, n)
        },
        absorbed_below(absorbed, n) >= 0,
        n >= 0 ==> absorbed_below(absorbed, n) <= n,
    decreases n,
{
    if n > 0 {
        lemma_compact_len(cur, absorbed, n - 1);
    }
}

/// A record that is not marked absorbed survives compaction unchanged, at
/// its index shifted down by the number of absorbed records before it.
pub proof fn lemma_compact_keeps(cur: Seq<Body>, absorbed: Seq<bool>, n: int, k: int)
    requires
        0 <= k < n,
        !absorbed[k],
    ensures
        0 <= k - absorbed_below(absorbed, k) < compact(cur, absorbed, n).len(),
        compact(cur, absorbed, n)[k - absorbed_below(absorbed, k)] == cur[k],
    decreases n,
{
    lemma_compact_len(cur, absorbed, n);
    lemma_compact_len(cur, absorbed, k);
    if k == n - 1 {
        lemma_compact_len(cur, absorbed, n - 1);
    } else {
        lemma_compact_keeps(cur, absorbed, n - 1, k);
    }
}

/// With absorbed records cleared to mass zero, compaction keeps the total
/// mass of the working state.
proof fn lemma_compact_mass(cur: Seq<Body>, absorbed: Seq<bool>, n: int)
    requires
        n <= cur.len(),
        forall|k: int| 0 <= k < n && absorbed[k] ==> (#[trigger] cur[k]).mass == 0,
    ensures
        mass_total(compact(cur, absorbed, n)) == mass_prefix(cur, n),
    decreases n,
{
    if n > 0 {
        lemma_compact_mass(cur, absorbed, n - 1);
        if !absorbed[n - 1] {
            lemma_mass_total_push(compact(cur, absorbed, n - 1), cur[n - 1]);
        }
    }
}

/// Every record compaction keeps was a record of the working state.
proof fn lemma_compact_limits(cur: Seq<Body>, absorbed: Seq<bool>, n: int)
    requires
        n <= cur.len(),
        bodies_within_limits(cur),
    ensures
        bodies_within_limits(compact(cur, absorbed, n)),
    decreases n,
{
    if n > 0 {
        lemma_compact_limits(cur, absorbed, n - 1);
        assert(0 <= n - 1 < cur.len());
        assert(body_within_limits(cur[n - 1]));
    }
}

/// The collision pass conserves the total mass of the population and
/// keeps every body within the world limits.
pub proof fn lemma_collision_pass_props(s: Seq<Body>)
    requires
        population_ok(s),
    ensures
        mass_total(collision_pass(s)) == mass_total(s),
        population_ok(collision_pass(s)),
{
    let none = Seq::new(s.len(), |k: int| false);
    assert(scan_inv(s, s, none));
    lemma_scan_pairs_props(s, s, none, 0, 1);
    let r = scan_pairs(s, s, none, 0, 1);
    lemma_compact_mass(r.0, r.1, s.len() as int);
    lemma_compact_limits(r.0, r.1, s.len() as int);
}

/// An inactive body in last position takes part in no collision: the pass
/// keeps it, unchanged and still last.
pub proof fn lemma_collision_pass_keeps_last_inactive(s: Seq<Body>)
    requires
        population_ok(s),
        s.len() > 0,
        !s.last().active,
    ensures
        collision_pass(s).len() > 0,
        collision_pass(s).last() == s.last(),
{
    let none = Seq::new(s.len(), |k: int| false);
    assert(scan_inv(s, s, none));
    lemma_scan_pairs_props(s, s, none, 0, 1);
    let r = scan_pairs(s, s, none, 0, 1);
    let n = s.len() as int;
    assert(!r.1[n - 1]);
    assert(r.0[n - 1] == s[n - 1]);
    lemma_compact_keeps(r.0, r.1, n, n - 1);
    lemma_compact_len(r.0, r.1, n);
}

/// Whether two bodies overlap, as executable code.
pub fn overlapping_exec(a: &Body, b: &Body) -> (r: bool)
    requires
        body_within_limits(*a),
        body_within_limits(*b),
    ensures
        r == overlapping(*a, *b),
{
    if !a.active || !b.active {
        return false;
    }
    let d2 = dist_sq_exec(a.position, b.position);
    let rsum: u64 = a.radius + b.radius;
    proof {
        assert(0 <= (rsum as int) * (rsum as int) <= 0x800_0000_0000int * 0x800_0000_0000int)
            by (nonlinear_arith)
            requires
                rsum as int <= 0x800_0000_0000int,
        ;
    }
    let rsq: u128 = (rsum as u128) * (rsum as u128);
    d2 <= rsq
}

/// Merge one body into another, as executable code: summed mass, volume-
/// conserving radius saturated at `RADIUS_LIMIT`, momentum-conserving
/// velocity, and the survivor's position, activity and tag.
pub fn merge_bodies(surv: &Body, gone: &Body) -> (out: Body)
    requires
        body_within_limits(*surv),
        body_within_limits(*gone),
        surv.mass + gone.mass <= MASS_BUDGET,
    ensures
        out == merged_body(*surv, *gone),
        out.mass == surv.mass + gone.mass,
        body_within_limits(out),
{
    let msum: u128 = surv.mass + gone.mass;
    proof {
        assert(0 <= cube(surv.radius as int) <= 0x100_0000_0000int * 0x100_0000_0000int
            * 0x100_0000_0000int && 0 <= cube(gone.radius as int) <= 0x100_0000_0000int
            * 0x100_0000_0000int * 0x100_0000_0000int && 0 <= (surv.radius as int)
            * (surv.radius as int) <= 0x100_0000_0000int * 0x100_0000_0000int && 0
            <= (gone.radius as int) * (gone.radius as int) <= 0x100_0000_0000int
            * 0x100_0000_0000int) by (nonlinear_arith)
            requires
                0 <= surv.radius as int <= 0x100_0000_0000int,
                0 <= gone.radius as int <= 0x100_0000_0000int,
        ;
        assert(0x100_0000_0000int * 0x100_0000_0000int * 0x100_0000_0000int * 2 < ROOT_ARG_LIMIT)
            by (nonlinear_arith);
    }
    let cs: u128 = (surv.radius as u128) * (surv.radius as u128) * (surv.radius as u128);
    let cg: u128 = (gone.radius as u128) * (gone.radius as u128) * (gone.radius as u128);
    let rc: u64 = icbrt(cs + cg);
    let radius: u64 = if rc > RADIUS_LIMIT {
        RADIUS_LIMIT
    } else {
        rc
    };
    let vx = merged_velocity_exec(surv.mass, surv.velocity.x, gone.mass, gone.velocity.x);
    let vy = merged_velocity_exec(surv.mass, surv.velocity.y, gone.mass, gone.velocity.y);
    Body { mass: msum, radius, velocity: Vec2 { x: vx, y: vy }, ..*surv }
}

/// One axis of the merged velocity, as executable code.
fn merged_velocity_exec(ms: u128, vs: i64, ma: u128, va: i64) -> (out: i64)
    requires
        ms <= MASS_BUDGET,
        ma <= MASS_BUDGET,
        abs_val(vs as int) <= VEL_LIMIT as int,
        abs_val(va as int) <= VEL_LIMIT as int,
    ensures
        out as int == merged_velocity_component(ms as int, vs as int, ma as int, va as int),
        abs_val(out as int) <= VEL_LIMIT as int,
{
    proof {
        lemma_merged_velocity_bound(ms as int, vs as int, ma as int, va as int, VEL_LIMIT as int);
        assert(abs_val((ms as int) * (vs as int)) <= 0x400_0000_0000_0000_0000_0000int
            * 0x10_0000int && abs_val((ma as int) * (va as int)) <= 0x400_0000_0000_0000_0000_0000int
            * 0x10_0000int) by (nonlinear_arith)
            requires
                0 <= ms as int <= 0x400_0000_0000_0000_0000_0000int,
                0 <= ma as int <= 0x400_0000_0000_0000_0000_0000int,
                abs_val(vs as int) <= 0x10_0000int,
                abs_val(va as int) <= 0x10_0000int,
        ;
    }
    let msum: u128 = ms + ma;
    if msum == 0 {
        return 0;
    }
    let num: i128 = (ms as i128) * (vs as i128) + (ma as i128) * (va as i128);
    let mag: u128 = (if num < 0 {
        (-num) as u128
    } else {
        num as u128
    }) / msum;
    proof {
        lemma_div_pos_is_pos(abs_val(num as int), msum as int);
    }
    if num < 0 {
        -(mag as i64)
    } else {
        mag as i64
    }
}

/// The collision pass: scan all unordered pairs from one snapshot, merge
/// eligible ones, then drop the absorbed records.  Total mass is
/// conserved and the population stays within the world limits.
pub fn resolve_collisions(bodies: &Vec<Body>) -> (out: Vec<Body>)
    requires
        population_ok(bodies@),
    ensures
        out@ == collision_pass(bodies@),
        population_ok(out@),
        mass_total(out@) == mass_total(bodies@),
{
    let ghost snap = bodies@;
    let n = bodies.len();
    let mut cur: Vec<Body> = Vec::new();
    let mut absorbed: Vec<bool> = Vec::new();
    let mut k: usize = 0;
    while k < n
        invariant
            k <= n,
            n == snap.len(),
            snap == bodies@,
            cur@.len() == k as int,
            absorbed@.len() == k as int,
            forall|t: int| 0 <= t < k as int ==> #[trigger] cur@[t] == snap[t],
            forall|t: int| 0 <= t < k as int ==> !(#[trigger] absorbed@[t]),
        decreases n - k,
    {
        cur.push(bodies[k]);
        absorbed.push(false);
        k = k + 1;
    }
    let ghost none = Seq::new(snap.len(), |t: int| false);
    let ghost total = scan_pairs(snap, snap, none, 0, 1);
    proof {
        assert(cur@ =~= snap);
        assert(absorbed@ =~= none);
        assert(scan_inv(snap, cur@, absorbed@));
    }
    let mut i: usize = 0;
    while n > 0 && i < n - 1
        invariant
            n == snap.len(),
            snap == bodies@,
            i <= n,
            scan_inv(snap, cur@, absorbed@),
            scan_pairs(snap, cur@, absorbed@, i as int, i as int + 1) == total,
            total == scan_pairs(snap, snap, none, 0, 1),
        decreases n - i,
    {
        let mut j: usize = i + 1;
        while j < n
            invariant
                n == snap.len(),
                snap == bodies@,
                i + 1 < n,
                i < j <= n,
                scan_inv(snap, cur@, absorbed@),
                scan_pairs(snap, cur@, absorbed@, i as int, j as int) == total,
                total == scan_pairs(snap, snap, none, 0, 1),
            decreases n - j,
        {
            let ghost cur0 = cur@;
            let ghost ab0 = absorbed@;
            let eligible = !absorbed[i] && !absorbed[j] && overlapping_exec(&bodies[i], &bodies[j]);
            proof {
                lemma_merge_step_props(snap, cur0, ab0, i as int, j as int);
            }
            if eligible {
                let si = if cur[j].mass > cur[i].mass {
                    j
                } else {
                    i
                };
                let ai = if cur[j].mass > cur[i].mass {
                    i
                } else {
                    j
                };
                proof {
                    lemma_mass_pair_le_total(cur@, si as int, ai as int);
                    assert(body_within_limits(cur@[si as int]));
                    assert(body_within_limits(cur@[ai as int]));
                }
                let sb = cur[si];
                let ab = cur[ai];
                let merged = merge_bodies(&sb, &ab);
                let cleared = Body { mass: 0, ..ab };
                cur[si] = merged;
                cur[ai] = cleared;
                absorbed[ai] = true;
                proof {
                    assert(cur@ == merge_step(snap, cur0, ab0, i as int, j as int).0);
                    assert(absorbed@ == merge_step(snap, cur0, ab0, i as int, j as int).1);
                }
            }
            proof {
                assert(scan_pairs(snap, cur0, ab0, i as int, j as int) == scan_pairs(
                    snap,
                    cur@,
                    absorbed@,
                    i as int,
                    j as int + 1,
                ));
            }
            j = j + 1;
        }
        i = i + 1;
    }
    proof {
        assert(scan_pairs(snap, cur@, absorbed@, i as int, i as int + 1) == (cur@, absorbed@));
        assert(cur@ == total.0 && absorbed@ == total.1);
        lemma_compact_mass(cur@, absorbed@, n as int);
        lemma_compact_limits(cur@, absorbed@, n as int);
    }
    let mut out: Vec<Body> = Vec::new();
    let mut t: usize = 0;
    while t < n
        invariant
            t <= n,
            n == cur@.len(),
            n == absorbed@.len(),
            out@ == compact(cur@, absorbed@, t as int),
        decreases n - t,
    {
        if !absorbed[t] {
            out.push(cur[t]);
        }
        t = t + 1;
    }
    out
}

} // verus!
