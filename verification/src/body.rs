//! The planetoid record, the world limits every pass works under, and the
//! population mass sum with the small algebra the proofs need.

use vstd::prelude::*;
use crate::geometry::{Vec2, abs_val};

verus! {

/// Positions are confined to `[-POS_LIMIT, POS_LIMIT]` on each axis; the
/// integrator saturates there (the world is a bounded arena).
pub const POS_LIMIT: i64 = 0x10_0000;

/// Velocities saturate at `VEL_LIMIT` on each axis when gravity is applied.
pub const VEL_LIMIT: i64 = 0x10_0000;

/// Radii saturate here when two bodies merge.
pub const RADIUS_LIMIT: u64 = 0x100_0000_0000;

/// The total mass of the population must stay under this budget for a tick
/// to be within its arithmetic limits.
pub const MASS_BUDGET: u128 = 0x400_0000_0000_0000_0000_0000;

/// Largest accepted gravitational constant (already scaled to the integer
/// unit system of kilometres, kilograms and seconds).
pub const GRAVITY_LIMIT: u64 = 0x10_0000;

/// Largest accepted density for interactively created bodies.
pub const DENSITY_LIMIT: u64 = 0x10_0000;

/// One simulated circular body.  `tag` is a cosmetic label the physics
/// never reads; rendering may use it for colour.  An inactive body exists
/// in the registry but takes no part in forces, collisions or motion: only
/// the body being created interactively is inactive.
#[derive(Clone, Copy, PartialEq, Eq, Structural, Debug)]
pub struct Body {
    pub position: Vec2,
    pub velocity: Vec2,
    pub radius: u64,
    pub mass: u128,
    pub active: bool,
    pub tag: u64,
}

/// The per-body world limits: position, velocity and radius in range.
pub open spec fn body_within_limits(b: Body) -> bool {
    &&& abs_val(b.position.x as int) <= POS_LIMIT as int
    &&& abs_val(b.position.y as int) <= POS_LIMIT as int
    &&& abs_val(b.velocity.x as int) <= VEL_LIMIT as int
    &&& abs_val(b.velocity.y as int) <= VEL_LIMIT as int
    &&& b.radius <= RADIUS_LIMIT
}

/// Sum of the masses of the first `n` bodies.
pub open spec fn mass_prefix(s: Seq<Body>, n: int) -> int
    decreases n,
{
    if n <= 0 {
        0
    } else {
        mass_prefix(s, n - 1) + s[n - 1].mass
    }
}

/// Total mass of a population.
pub open spec fn mass_total(s: Seq<Body>) -> int {
    mass_prefix(s, s.len() as int)
}

/// Every body within limits, and the population mass within its budget.
pub open spec fn bodies_within_limits(s: Seq<Body>) -> bool {
    forall|k: int| 0 <= k < s.len() ==> body_within_limits(#[trigger] s[k])
}

pub open spec fn population_ok(s: Seq<Body>) -> bool {
    &&& bodies_within_limits(s)
    &&& mass_total(s) <= MASS_BUDGET as int
}

pub proof fn lemma_mass_prefix_nonneg(s: Seq<Body>, n: int)
    ensures
        0 <= mass_prefix(s, n),
    decreases n,
{
    if n > 0 {
        lemma_mass_prefix_nonneg(s, n - 1);
    }
}

pub proof fn lemma_mass_prefix_mono(s: Seq<Body>, m: int, n: int)
    requires
        m <= n,
    ensures
        mass_prefix(s, m) <= mass_prefix(s, n),
    decreases n - m,
{
    if m < n {
        lemma_mass_prefix_mono(s, m, n - 1);
    }
}

/// Each body weighs no more than the whole population.
pub proof fn lemma_mass_each_le_total(s: Seq<Body>, k: int)
    requires
        0 <= k < s.len(),
    ensures
        s[k].mass <= mass_total(s),
{
    lemma_mass_prefix_nonneg(s, k);
    lemma_mass_prefix_mono(s, k + 1, s.len() as int);
}

/// Two distinct bodies together weigh no more than the whole population.
pub proof fn lemma_mass_pair_le_total(s: Seq<Body>, i: int, j: int)
    requires
        0 <= i < s.len(),
        0 <= j < s.len(),
        i != j,
    ensures
        s[i].mass + s[j].mass <= mass_total(s),
{
    let lo = if i < j { i } else { j };
    let hi = if i < j { j } else { i };
    lemma_mass_prefix_nonneg(s, lo);
    lemma_mass_prefix_mono(s, lo + 1, hi);
    lemma_mass_prefix_mono(s, hi + 1, s.len() as int);
}

/// Replacing one body changes a prefix sum by the difference in mass, if
/// the replaced index lies inside the prefix.
pub proof fn lemma_mass_prefix_update(s: Seq<Body>, k: int, b: Body, n: int)
    requires
        0 <= k < s.len(),
        n <= s.len(),
    ensures
        mass_prefix(s.update(k, b), n) == mass_prefix(s, n) + if k < n {
            b.mass - s[k].mass
        } else {
            0
        },
    decreases n,
{
    if n > 0 {
        lemma_mass_prefix_update(s, k, b, n - 1);
    }
}

/// Replacing one body changes the total by the difference in mass.
pub proof fn lemma_mass_total_update(s: Seq<Body>, k: int, b: Body)
    requires
        0 <= k < s.len(),
    ensures
        mass_total(s.update(k, b)) == mass_total(s) + b.mass - s[k].mass,
{
    lemma_mass_prefix_update(s, k, b, s.len() as int);
}

/// A prefix sum only looks at the bodies below `n`, so it is unchanged by
/// appending.
pub proof fn lemma_mass_prefix_push(s: Seq<Body>, b: Body, n: int)
    requires
        n <= s.len(),
    ensures
        mass_prefix(s.push(b), n) == mass_prefix(s, n),
    decreases n,
{
    if n > 0 {
        lemma_mass_prefix_push(s, b, n - 1);
    }
}

/// Appending a body adds its mass to the total.
pub proof fn lemma_mass_total_push(s: Seq<Body>, b: Body)
    ensures
        mass_total(s.push(b)) == mass_total(s) + b.mass,
{
    lemma_mass_prefix_push(s, b, s.len() as int);
}

/// Two populations with the same masses body for body have the same
/// prefix sums.
pub proof fn lemma_mass_prefix_pointwise(s1: Seq<Body>, s2: Seq<Body>, n: int)
    requires
        s1.len() == s2.len(),
        n <= s1.len(),
        forall|k: int| 0 <= k < s1.len() ==> (#[trigger] s2[k]).mass == s1[k].mass,
    ensures
        mass_prefix(s2, n) == mass_prefix(s1, n),
    decreases n,
{
    if n > 0 {
        lemma_mass_prefix_pointwise(s1, s2, n - 1);
    }
}

/// Whether one body is inside the world limits.
pub fn check_body_within_limits(b: &Body) -> (r: bool)
    ensures
        r == body_within_limits(*b),
{
    let px = if b.position.x < 0 { -(b.position.x as i128) } else { b.position.x as i128 };
    let py = if b.position.y < 0 { -(b.position.y as i128) } else { b.position.y as i128 };
    let vx = if b.velocity.x < 0 { -(b.velocity.x as i128) } else { b.velocity.x as i128 };
    let vy = if b.velocity.y < 0 { -(b.velocity.y as i128) } else { b.velocity.y as i128 };
    px <= POS_LIMIT as i128 && py <= POS_LIMIT as i128 && vx <= VEL_LIMIT as i128 && vy
        <= VEL_LIMIT as i128 && b.radius <= RADIUS_LIMIT
}

/// Whether a whole population is within the world limits and mass budget.
pub fn check_population_ok(bodies: &Vec<Body>) -> (r: bool)
    ensures
        r == population_ok(bodies@),
{
    let mut total: u128 = 0;
    let mut k: usize = 0;
    while k < bodies.len()
        invariant
            k <= bodies.len(),
            total as int == mass_prefix(bodies@, k as int),
            total <= MASS_BUDGET,
            forall|t: int| 0 <= t < k ==> body_within_limits(#[trigger] bodies@[t]),
        decreases bodies.len() - k,
    {
        if !check_body_within_limits(&bodies[k]) {
            return false;
        }
        if bodies[k].mass > MASS_BUDGET - total {
            proof {
                lemma_mass_prefix_mono(bodies@, k as int + 1, bodies@.len() as int);
            }
            return false;
        }
        total = total + bodies[k].mass;
        k = k + 1;
    }
    true
}

} // verus!
