//! The integrator: every active body's position advances by its velocity,
//! scaled by the per-tick simulated duration `time_scale / update_rate`,
//! and saturates at the arena edge.  Inactive bodies never move.

use vstd::prelude::*;
use crate::geometry::{Vec2, abs_val, with_sign, clamped, clamp_to_i64};
use crate::body::{
    Body, POS_LIMIT, population_ok, bodies_within_limits, body_within_limits,
    lemma_mass_prefix_pointwise,
};

verus! {

/// One axis of a moved position: the displacement is the velocity times
/// `ts / ur`, rounded towards zero, and the result saturates at the
/// arena edge.
pub open spec fn moved_component(p: int, v: int, ts: int, ur: int) -> int {
    clamped(p + with_sign(v, (abs_val(v) * ts) / ur), POS_LIMIT as int)
}

/// One body after the integration pass.
pub open spec fn moved_body(b: Body, ts: int, ur: int) -> Body {
    if b.active {
        Body {
            position: Vec2 {
                x: moved_component(b.position.x as int, b.velocity.x as int, ts, ur) as i64,
                y: moved_component(b.position.y as int, b.velocity.y as int, ts, ur) as i64,
            },
            ..b
        }
    } else {
        b
    }
}

/// The whole population after the integration pass.
pub open spec fn integrate_pass(s: Seq<Body>, ts: int, ur: int) -> Seq<Body> {
    Seq::new(s.len(), |k: int| moved_body(s[k], ts, ur))
}

/// One axis of a moved position, as executable code.
fn moved_component_exec(p: i64, v: i64, ts: u8, ur: u8) -> (r: i64)
    requires
        1 <= ur,
        abs_val(p as int) <= POS_LIMIT as int,
        abs_val(v as int) <= 0x10_0000,
    ensures
        r as int == moved_component(p as int, v as int, ts as int, ur as int),
{
    let mag: u64 = if v < 0 {
        (-(v as i128)) as u64
    } else {
        v as u64
    };
    proof {
        assert(0 <= (mag as int) * (ts as int) <= 0x10_0000int * 255) by (nonlinear_arith)
            requires
                0 <= mag as int <= 0x10_0000,
                ts <= 255u8,
        ;
    }
    let shift: u64 = mag * (ts as u64) / (ur as u64);
    proof {
        vstd::arithmetic::div_mod::lemma_div_pos_is_pos((mag as int) * (ts as int), ur as int);
        vstd::arithmetic::div_mod::lemma_div_nonincreasing((mag as int) * (ts as int), ur as int);
    }
    let delta: i128 = if v < 0 {
        -(shift as i128)
    } else {
        shift as i128
    };
    clamp_to_i64((p as i128) + delta, POS_LIMIT)
}

/// The integration pass: advance every active body, leave every inactive
/// body exactly where it is.
pub fn integrate_positions(bodies: &Vec<Body>, ts: u8, ur: u8) -> (out: Vec<Body>)
    requires
        1 <= ur,
        bodies_within_limits(bodies@),
    ensures
        out@ == integrate_pass(bodies@, ts as int, ur as int),
        bodies_within_limits(out@),
        population_ok(bodies@) ==> population_ok(out@),
{
    let ghost tsi = ts as int;
    let ghost uri = ur as int;
    let mut out: Vec<Body> = Vec::new();
    let mut k: usize = 0;
    while k < bodies.len()
        invariant
            k <= bodies@.len(),
            1 <= ur,
            bodies_within_limits(bodies@),
            out@.len() == k as int,
            forall|t: int| 0 <= t < k as int ==> #[trigger] out@[t] == moved_body(bodies@[t], tsi, uri),
            tsi == ts as int,
            uri == ur as int,
        decreases bodies@.len() - k,
    {
        let b = bodies[k];
        if b.active {
            let px = moved_component_exec(b.position.x, b.velocity.x, ts, ur);
            let py = moved_component_exec(b.position.y, b.velocity.y, ts, ur);
            out.push(Body { position: Vec2 { x: px, y: py }, ..b });
        } else {
            out.push(b);
        }
        k = k + 1;
    }
    proof {
        assert(out@ =~= integrate_pass(bodies@, tsi, uri));
        assert forall|t: int| 0 <= t < out@.len() implies body_within_limits(
            #[trigger] out@[t],
        ) by {
            assert(body_within_limits(bodies@[t]));
            assert(out@[t] == moved_body(bodies@[t], tsi, uri));
        }
        if population_ok(bodies@) {
            lemma_mass_prefix_pointwise(bodies@, out@, bodies@.len() as int);
        }
    }
    out
}

} // verus!
