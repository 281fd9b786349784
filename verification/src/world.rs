//! The body registry and the interactive creation state machine, and the
//! tick that drives one simulation step.
//!
//! The creation workflow runs `Idle -> SizingRadius -> SettingVelocity ->
//! Idle`.  A primary press while idle inserts a provisional inactive body
//! under the pointer; while sizing, every tick re-derives its radius from
//! the pointer distance and its mass from the sphere-volume rule
//! `(4/3) * pi * r^3 * density` (with `pi` as the rational `355/113`);
//! while aiming, every tick re-derives its velocity as half the pointer
//! offset, unless the offset lies inside a small dead zone; the third
//! press commits the body by activating it.  A secondary press cancels an
//! unfinished creation, or, while idle, deletes the first body whose disk
//! holds the pointer.  Only the most recently inserted record can be in
//! creation, and it is inactive until committed.

use vstd::prelude::*;
use crate::geometry::{
    Vec2, abs_val, with_sign, square, cube, dist_sq, sqrt_floor, lemma_dist_sq_range, isqrt,
    dist_sq_exec, ROOT_ARG_LIMIT,
};
use crate::body::{
    Body, POS_LIMIT, GRAVITY_LIMIT, DENSITY_LIMIT, population_ok, bodies_within_limits,
    body_within_limits, check_population_ok, lemma_mass_prefix_pointwise,
};
use crate::forces::{gravity_pass, accumulate_forces};
use crate::collisions::{
    collision_pass, resolve_collisions, lemma_collision_pass_keeps_last_inactive,
};
use crate::motion::{integrate_pass, integrate_positions};

verus! {

/// Radius a body is born with, before the sizing step re-derives it.
pub const NEW_BODY_RADIUS: u64 = 2;

/// Pointer offsets whose squared length is at most this dead zone give a
/// committed body zero velocity instead of a tiny accidental launch.
pub const DEADZONE_DIST_SQ: u64 = 36;

/// `(4/3) * pi` as the rational `VOLUME_NUM / VOLUME_DEN`, with `pi`
/// approximated by `355/113`.
pub const VOLUME_NUM: u128 = 1420;

pub const VOLUME_DEN: u128 = 339;

/// Where the interactive creation workflow stands.
#[derive(Clone, Copy, PartialEq, Eq, Structural, Debug)]
pub enum CreationPhase {
    Idle,
    SizingRadius,
    SettingVelocity,
}

/// The logical edge-triggered inputs the simulation consumes; the pointer
/// position rides alongside as a plain argument.
#[derive(Clone, Copy, PartialEq, Eq, Structural, Debug)]
pub enum InputEvent {
    PrimaryPress,
    SecondaryPress,
    DensityUp,
    DensityDown,
}

/// The whole simulation state.
pub struct World {
    pub bodies: Vec<Body>,
    pub phase: CreationPhase,
    pub gravity: u64,
    pub density: u64,
    pub time_scale: u8,
    pub update_rate: u8,
}

/// The mathematical image of a `World`.
#[verifier::ext_equal]
pub struct WorldModel {
    pub bodies: Seq<Body>,
    pub phase: CreationPhase,
    pub gravity: u64,
    pub density: u64,
    pub time_scale: u8,
    pub update_rate: u8,
}

impl View for World {
    type V = WorldModel;

    open spec fn view(&self) -> WorldModel {
        WorldModel {
            bodies: self.bodies@,
            phase: self.phase,
            gravity: self.gravity,
            density: self.density,
            time_scale: self.time_scale,
            update_rate: self.update_rate,
        }
    }
}

/// The configuration limits every operation works under.
pub open spec fn config_ok(m: WorldModel) -> bool {
    &&& m.gravity <= GRAVITY_LIMIT
    &&& 1 <= m.update_rate
    &&& 1 <= m.density <= DENSITY_LIMIT
}

/// The creation invariant: an unfinished creation is always the most
/// recently inserted record, and it is inactive.
pub open spec fn creation_wf(m: WorldModel) -> bool {
    m.phase != CreationPhase::Idle ==> m.bodies.len() > 0 && !m.bodies.last().active
}

/// A world the tick accepts: population within limits and mass budget,
/// configuration within limits, creation invariant intact.
pub open spec fn world_ok(m: WorldModel) -> bool {
    &&& population_ok(m.bodies)
    &&& config_ok(m)
    &&& creation_wf(m)
}

/// Mass of a sphere of radius `r` at density `density`, on the integer
/// grid: `(4/3) * pi * r^3 * density`, rounded down.
pub open spec fn sized_mass(r: int, density: int) -> int {
    (VOLUME_NUM * cube(r) * density) / (VOLUME_DEN as int)
}

/// The provisional record a primary press inserts: inactive, at the
/// pointer, at rest, with the placeholder radius and its target mass.
pub open spec fn provisional_body(ptr: Vec2, density: int) -> Body {
    Body {
        position: ptr,
        velocity: Vec2 { x: 0, y: 0 },
        radius: NEW_BODY_RADIUS,
        mass: sized_mass(NEW_BODY_RADIUS as int, density) as u128,
        active: false,
        tag: 0,
    }
}

/// A primary press: insert a provisional body, or advance the workflow,
/// or commit by activating the record in creation.
pub open spec fn primary_spec(m: WorldModel, ptr: Vec2) -> WorldModel {
    match m.phase {
        CreationPhase::Idle => WorldModel {
            bodies: m.bodies.push(provisional_body(ptr, m.density as int)),
            phase: CreationPhase::SizingRadius,
            ..m
        },
        CreationPhase::SizingRadius => WorldModel { phase: CreationPhase::SettingVelocity, ..m },
        CreationPhase::SettingVelocity => WorldModel {
            bodies: m.bodies.update(
                m.bodies.len() - 1,
                Body { active: true, ..m.bodies.last() },
            ),
            phase: CreationPhase::Idle,
            ..m
        },
    }
}

/// The first index at or after `k` whose disk holds the pointer, or -1.
pub open spec fn first_hit(s: Seq<Body>, ptr: Vec2, k: int) -> int
    decreases s.len() - k,
{
    if k < 0 || k >= s.len() {
        -1
    } else if dist_sq(s[k].position, ptr) <= square(s[k].radius as int) {
        k
    } else {
        first_hit(s, ptr, k + 1)
    }
}

/// A secondary press: while idle, delete the first body whose disk holds
/// the pointer (exactly one, or none); otherwise cancel the unfinished
/// creation by discarding the provisional record.
pub open spec fn secondary_spec(m: WorldModel, ptr: Vec2) -> WorldModel {
    match m.phase {
        CreationPhase::Idle => {
            let h = first_hit(m.bodies, ptr, 0);
            if h < 0 {
                m
            } else {
                WorldModel { bodies: m.bodies.remove(h), ..m }
            }
        },
        _ => WorldModel { bodies: m.bodies.drop_last(), phase: CreationPhase::Idle, ..m },
    }
}

/// Doubling the density, saturated at `DENSITY_LIMIT`.
pub open spec fn raised_density(d: int) -> int {
    if d > DENSITY_LIMIT as int / 2 {
        DENSITY_LIMIT as int
    } else {
        d * 2
    }
}

/// Halving the density, floored at one.
pub open spec fn lowered_density(d: int) -> int {
    if d <= 1 {
        1
    } else {
        d / 2
    }
}

/// Any one input event, as a function of the state and the pointer.
pub open spec fn event_spec(m: WorldModel, e: InputEvent, ptr: Vec2) -> WorldModel {
    match e {
        InputEvent::PrimaryPress => primary_spec(m, ptr),
        InputEvent::SecondaryPress => secondary_spec(m, ptr),
        InputEvent::DensityUp => WorldModel { density: raised_density(m.density as int) as u64, ..m },
        InputEvent::DensityDown => WorldModel {
            density: lowered_density(m.density as int) as u64,
            ..m
        },
    }
}

/// The sizing step: the record in creation (the last one) takes the
/// pointer distance as its radius and the sphere-volume mass that goes
/// with it.
pub open spec fn sizing_pass(s: Seq<Body>, ptr: Vec2, density: int) -> Seq<Body> {
    let k = s.len() - 1;
    let b = s[k as int];
    let r = sqrt_floor(dist_sq(b.position, ptr));
    s.update(
        k as int,
        Body { radius: r as u64, mass: sized_mass(r, density) as u128, ..b },
    )
}

/// The aiming step: the record in creation takes half the pointer offset
/// as its velocity, or zero inside the dead zone.
pub open spec fn aiming_pass(s: Seq<Body>, ptr: Vec2) -> Seq<Body> {
    let k = s.len() - 1;
    let b = s[k as int];
    let dx = ptr.x - b.position.x;
    let dy = ptr.y - b.position.y;
    let v = if dist_sq(b.position, ptr) > DEADZONE_DIST_SQ as int {
        Vec2 { x: with_sign(dx, abs_val(dx) / 2) as i64, y: with_sign(dy, abs_val(dy) / 2) as i64 }
    } else {
        Vec2 { x: 0, y: 0 }
    };
    s.update(k as int, Body { velocity: v, ..b })
}

/// One whole tick: resolve collisions, accumulate forces, run the
/// creation step for the current phase, then integrate positions.
pub open spec fn tick_spec(m: WorldModel, ptr: Vec2) -> WorldModel {
    let after_coll = collision_pass(m.bodies);
    let after_grav = gravity_pass(
        after_coll,
        m.gravity as int,
        m.time_scale as int,
        m.update_rate as int,
    );
    let after_create = match m.phase {
        CreationPhase::Idle => after_grav,
        CreationPhase::SizingRadius => sizing_pass(after_grav, ptr, m.density as int),
        CreationPhase::SettingVelocity => aiming_pass(after_grav, ptr),
    };
    let after_move = integrate_pass(after_create, m.time_scale as int, m.update_rate as int);
    WorldModel { bodies: after_move, ..m }
}

/// Mass of a sphere of the given radius and density, as executable code.
pub fn sized_mass_exec(r: u64, density: u64) -> (out: u128)
    requires
        r <= 0x40_0000,
        density <= DENSITY_LIMIT,
    ensures
        out as int == sized_mass(r as int, density as int),
{
    proof {
        assert(0 <= (VOLUME_NUM as int) * cube(r as int) * (density as int)
            < 0x1_0000_0000_0000_0000_0000_0000_0000_0000int && 0 <= (VOLUME_NUM as int) * (
        r as int) * (r as int) && (VOLUME_NUM as int) * (r as int) * (r as int) * (r as int)
            == (VOLUME_NUM as int) * cube(r as int) && (VOLUME_NUM as int) * (r as int) * (r as int)
            * (r as int) * (density as int) == (VOLUME_NUM as int) * cube(r as int) * (
        density as int) && (VOLUME_NUM as int) * (r as int) <= 1420 * 0x40_0000int && (
        VOLUME_NUM as int) * (r as int) * (r as int) <= 1420 * 0x40_0000int * 0x40_0000int && (
        VOLUME_NUM as int) * (r as int) * (r as int) * (r as int) <= 1420 * 0x40_0000int
            * 0x40_0000int * 0x40_0000int) by (nonlinear_arith)
            requires
                0 <= r as int <= 0x40_0000,
                0 <= density as int <= 0x10_0000,
        ;
    }
    let num: u128 = VOLUME_NUM * (r as u128) * (r as u128) * (r as u128) * (density as u128);
    num / VOLUME_DEN
}

/// The first body whose disk holds the pointer, if any.
fn find_hit(bodies: &Vec<Body>, ptr: Vec2) -> (r: Option<usize>)
    requires
        bodies_within_limits(bodies@),
        abs_val(ptr.x as int) <= POS_LIMIT as int,
        abs_val(ptr.y as int) <= POS_LIMIT as int,
    ensures
        match r {
            Some(k) => first_hit(bodies@, ptr, 0) == k as int && k < bodies@.len(),
            None => first_hit(bodies@, ptr, 0) == -1,
        },
{
    let mut k: usize = 0;
    while k < bodies.len()
        invariant
            k <= bodies@.len(),
            bodies_within_limits(bodies@),
            abs_val(ptr.x as int) <= POS_LIMIT as int,
            abs_val(ptr.y as int) <= POS_LIMIT as int,
            first_hit(bodies@, ptr, 0) == first_hit(bodies@, ptr, k as int),
        decreases bodies@.len() - k,
    {
        let b = bodies[k];
        proof {
            assert(body_within_limits(bodies@[k as int]));
            assert(0 <= (b.radius as int) * (b.radius as int) <= 0x100_0000_0000int
                * 0x100_0000_0000int) by (nonlinear_arith)
                requires
                    0 <= b.radius as int <= 0x100_0000_0000int,
            ;
        }
        let d2 = dist_sq_exec(b.position, ptr);
        let rsq: u128 = (b.radius as u128) * (b.radius as u128);
        if d2 <= rsq {
            return Some(k);
        }
        k = k + 1;
    }
    None
}

impl World {
    /// A fresh world: no bodies, idle workflow, the given configuration.
    pub fn new(gravity: u64, density: u64, time_scale: u8, update_rate: u8) -> (w: World)
        requires
            gravity <= GRAVITY_LIMIT,
            1 <= density <= DENSITY_LIMIT,
            1 <= update_rate,
        ensures
            w@.bodies.len() == 0,
            w@.phase == CreationPhase::Idle,
            w@.gravity == gravity,
            w@.density == density,
            w@.time_scale == time_scale,
            w@.update_rate == update_rate,
            world_ok(w@),
    {
        World {
            bodies: Vec::new(),
            phase: CreationPhase::Idle,
            gravity,
            density,
            time_scale,
            update_rate,
        }
    }

    /// How many records the registry holds.
    pub fn body_count(&self) -> (n: usize)
        ensures
            n == self@.bodies.len(),
    {
        self.bodies.len()
    }

    /// The record under the given handle.
    pub fn get_body(&self, k: usize) -> (b: Body)
        requires
            k < self@.bodies.len(),
        ensures
            b == self@.bodies[k as int],
    {
        self.bodies[k]
    }

    /// The handle of the most recently inserted record.
    pub fn last_inserted(&self) -> (k: usize)
        requires
            self@.bodies.len() > 0,
        ensures
            k == self@.bodies.len() - 1,
    {
        self.bodies.len() - 1
    }

    /// Insert a seed body.  Insertion is refused only where it would break
    /// the creation invariant, so it is not allowed mid-creation.
    pub fn insert_body(&mut self, b: Body)
        requires
            old(self)@.phase == CreationPhase::Idle,
        ensures
            final(self)@ == (WorldModel { bodies: old(self)@.bodies.push(b), ..old(self)@ }),
    {
        self.bodies.push(b);
    }

    /// Remove the record under the given handle.  Mid-creation, the record
    /// in creation itself cannot be removed this way.
    pub fn remove_body(&mut self, k: usize)
        requires
            k < old(self)@.bodies.len(),
            old(self)@.phase != CreationPhase::Idle ==> k + 1 < old(self)@.bodies.len(),
        ensures
            final(self)@ == (WorldModel {
                bodies: old(self)@.bodies.remove(k as int),
                ..old(self)@
            }),
            creation_wf(old(self)@) ==> creation_wf(final(self)@),
    {
        self.bodies.remove(k);
    }

    /// Whether the world is within every limit the tick requires.
    pub fn is_ok(&self) -> (r: bool)
        ensures
            r == world_ok(self@),
    {
        let pop = check_population_ok(&self.bodies);
        let cfg = self.gravity <= GRAVITY_LIMIT && 1 <= self.update_rate && 1 <= self.density
            && self.density <= DENSITY_LIMIT;
        let creation = match self.phase {
            CreationPhase::Idle => true,
            _ => self.bodies.len() > 0 && !self.bodies[self.bodies.len() - 1].active,
        };
        pop && cfg && creation
    }

    /// A primary press at the pointer.
    pub fn press_primary(&mut self, ptr: Vec2)
        requires
            creation_wf(old(self)@),
            old(self)@.density <= DENSITY_LIMIT,
        ensures
            final(self)@ == primary_spec(old(self)@, ptr),
            creation_wf(final(self)@),
    {
        match self.phase {
            CreationPhase::Idle => {
                let mass = sized_mass_exec(NEW_BODY_RADIUS, self.density);
                let b = Body {
                    position: ptr,
                    velocity: Vec2 { x: 0, y: 0 },
                    radius: NEW_BODY_RADIUS,
                    mass,
                    active: false,
                    tag: 0,
                };
                self.bodies.push(b);
                self.phase = CreationPhase::SizingRadius;
                proof {
                    assert(self@ =~= primary_spec(old(self)@, ptr));
                }
            },
            CreationPhase::SizingRadius => {
                self.phase = CreationPhase::SettingVelocity;
                proof {
                    assert(self@ =~= primary_spec(old(self)@, ptr));
                }
            },
            CreationPhase::SettingVelocity => {
                let k = self.bodies.len() - 1;
                let b = self.bodies[k];
                self.bodies[k] = Body { active: true, ..b };
                self.phase = CreationPhase::Idle;
                proof {
                    assert(self@ =~= primary_spec(old(self)@, ptr));
                }
            },
        }
    }

    /// A secondary press at the pointer.
    pub fn press_secondary(&mut self, ptr: Vec2)
        requires
            creation_wf(old(self)@),
            bodies_within_limits(old(self)@.bodies),
            abs_val(ptr.x as int) <= POS_LIMIT as int,
            abs_val(ptr.y as int) <= POS_LIMIT as int,
        ensures
            final(self)@ == secondary_spec(old(self)@, ptr),
            creation_wf(final(self)@),
    {
        match self.phase {
            CreationPhase::Idle => {
                match find_hit(&self.bodies, ptr) {
                    Some(k) => {
                        self.bodies.remove(k);
                        proof {
                            assert(self@ =~= secondary_spec(old(self)@, ptr));
                        }
                    },
                    None => {
                        proof {
                            assert(self@ =~= secondary_spec(old(self)@, ptr));
                        }
                    },
                }
            },
            _ => {
                self.bodies.pop();
                self.phase = CreationPhase::Idle;
                proof {
                    assert(self@.bodies =~= old(self)@.bodies.drop_last());
                    assert(self@ =~= secondary_spec(old(self)@, ptr));
                }
            },
        }
    }

    /// Double the density used for future creations, up to its limit.
    pub fn raise_density(&mut self)
        requires
            old(self)@.density <= DENSITY_LIMIT,
        ensures
            final(self)@ == (WorldModel {
                density: raised_density(old(self)@.density as int) as u64,
                ..old(self)@
            }),
    {
        if self.density > DENSITY_LIMIT / 2 {
            self.density = DENSITY_LIMIT;
        } else {
            self.density = self.density * 2;
        }
    }

    /// Halve the density used for future creations, at least one.
    pub fn lower_density(&mut self)
        ensures
            final(self)@ == (WorldModel {
                density: lowered_density(old(self)@.density as int) as u64,
                ..old(self)@
            }),
    {
        if self.density <= 1 {
            self.density = 1;
        } else {
            self.density = self.density / 2;
        }
    }

    /// Feed one input event into the state machine.
    pub fn apply_event(&mut self, e: InputEvent, ptr: Vec2)
        requires
            creation_wf(old(self)@),
            old(self)@.density <= DENSITY_LIMIT,
            bodies_within_limits(old(self)@.bodies),
            abs_val(ptr.x as int) <= POS_LIMIT as int,
            abs_val(ptr.y as int) <= POS_LIMIT as int,
        ensures
            final(self)@ == event_spec(old(self)@, e, ptr),
            creation_wf(final(self)@),
    {
        match e {
            InputEvent::PrimaryPress => self.press_primary(ptr),
            InputEvent::SecondaryPress => self.press_secondary(ptr),
            InputEvent::DensityUp => self.raise_density(),
            InputEvent::DensityDown => self.lower_density(),
        }
    }

    /// One simulation tick at the given pointer position.
    pub fn tick(&mut self, ptr: Vec2)
        requires
            world_ok(old(self)@),
            abs_val(ptr.x as int) <= POS_LIMIT as int,
            abs_val(ptr.y as int) <= POS_LIMIT as int,
        ensures
            final(self)@ == tick_spec(old(self)@, ptr),
            creation_wf(final(self)@),
            bodies_within_limits(final(self)@.bodies),
            old(self)@.phase != CreationPhase::SizingRadius ==> population_ok(final(self)@.bodies),
    {
        let ghost m0 = self@;
        let after_coll = resolve_collisions(&self.bodies);
        proof {
            if m0.phase != CreationPhase::Idle {
                lemma_collision_pass_keeps_last_inactive(m0.bodies);
            }
        }
        let mut mid = accumulate_forces(&after_coll, self.gravity, self.time_scale,
            self.update_rate);
        proof {
            if m0.phase != CreationPhase::Idle {
                let ac = collision_pass(m0.bodies);
                let n = ac.len() as int;
                assert(mid@[n - 1] == ac[n - 1]);
                assert(!mid@.last().active);
            }
        }
        let ghost after_grav = mid@;
        match self.phase {
            CreationPhase::Idle => {},
            CreationPhase::SizingRadius => {
                let k = mid.len() - 1;
                let b = mid[k];
                proof {
                    assert(body_within_limits(after_grav[k as int]));
                    lemma_dist_sq_range(b.position, ptr, POS_LIMIT as int);
                    assert(8 * (POS_LIMIT as int) * (POS_LIMIT as int) < ROOT_ARG_LIMIT)
                        by (nonlinear_arith);
                }
                let d2 = dist_sq_exec(b.position, ptr);
                let r = isqrt(d2);
                proof {
                    assert(r as int <= 0x40_0000int) by (nonlinear_arith)
                        requires
                            square(r as int) <= d2 as int,
                            d2 as int <= 8 * (POS_LIMIT as int) * (POS_LIMIT as int),
                            POS_LIMIT == 0x10_0000i64,
                            0 <= r,
                    ;
                }
                let mass = sized_mass_exec(r, self.density);
                mid[k] = Body { radius: r, mass, ..b };
                proof {
                    assert(mid@ =~= sizing_pass(after_grav, ptr, m0.density as int));
                }
            },
            CreationPhase::SettingVelocity => {
                let k = mid.len() - 1;
                let b = mid[k];
                proof {
                    assert(body_within_limits(after_grav[k as int]));
                }
                let d2 = dist_sq_exec(b.position, ptr);
                let v: Vec2 = if d2 > DEADZONE_DIST_SQ as u128 {
                    let dx: i64 = ptr.x - b.position.x;
                    let dy: i64 = ptr.y - b.position.y;
                    let mx: i64 = if dx < 0 {
                        -((((-(dx as i128)) as u64) / 2) as i64)
                    } else {
                        ((dx as u64) / 2) as i64
                    };
                    let my: i64 = if dy < 0 {
                        -((((-(dy as i128)) as u64) / 2) as i64)
                    } else {
                        ((dy as u64) / 2) as i64
                    };
                    Vec2 { x: mx, y: my }
                } else {
                    Vec2 { x: 0, y: 0 }
                };
                mid[k] = Body { velocity: v, ..b };
                proof {
                    assert(mid@ =~= aiming_pass(after_grav, ptr));
                }
            },
        }
        proof {
            assert forall|t: int| 0 <= t < mid@.len() implies body_within_limits(
                #[trigger] mid@[t],
            ) by {
                assert(body_within_limits(after_grav[t]));
            }
        }
        let moved = integrate_positions(&mid, self.time_scale, self.update_rate);
        self.bodies = moved;
        proof {
            assert(final(self)@ =~= tick_spec(m0, ptr));
            if m0.phase != CreationPhase::Idle {
                let n = mid@.len() as int;
                assert(!mid@.last().active);
                assert(final(self)@.bodies[n - 1] == mid@[n - 1]);
            }
            if m0.phase != CreationPhase::SizingRadius {
                lemma_mass_prefix_pointwise(after_grav, mid@, after_grav.len() as int);
            }
        }
    }
}

} // verus!
