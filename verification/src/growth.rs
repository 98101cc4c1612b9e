//! How the growth of plants declines in the course of a run.
//!
//! Probabilities are counted in millionths. The probability that a plant
//! grows in a cycle goes from its starting value to its final value in the
//! first half of the run, along a smooth step, and stays there. A plant that
//! grows at a lower probability holds more energy in return.

use vstd::prelude::*;
use vstd::arithmetic::mul::lemma_mul_inequality;
use vstd::arithmetic::mul::lemma_mul_upper_bound;
use crate::params::Params;
use crate::params::PROB_ONE;

verus! {

/// How far the decline of the plant growth has come in `cycle`, in
/// millionths. The decline takes the first half of the run.
pub open spec fn progress(cycle: u64, world_end: u64) -> int {
    if world_end == 0 {
        1_000_000
    } else if 2_000_000 * cycle / (world_end as int) > 1_000_000 {
        1_000_000
    } else {
        2_000_000 * cycle / (world_end as int)
    }
}

/// The smooth step over the millionths `u`, before it is scaled down: the
/// polynomial `3 u^2 - 2 u^3` for `u` counted in millionths.
pub open spec fn bend(u: int) -> int {
    3_000_000 * (u * u) - 2 * (u * u * u)
}

/// The smooth step from 0 to one million over the millionths `u`: it starts
/// and ends flat and never falls.
pub open spec fn eased(u: int) -> int {
    bend(u) / 1_000_000_000_000
}

/// The probability in millionths that a plant grows in `cycle`. It goes from
/// the configured starting value to the configured final value.
pub open spec fn growth_prob(params: Params, cycle: u64) -> int {
    let s = eased(progress(cycle, params.world_end));
    if params.plant_prob >= params.plant_prob_end {
        params.plant_prob - (params.plant_prob - params.plant_prob_end) * s / 1_000_000
    } else {
        params.plant_prob + (params.plant_prob_end - params.plant_prob) * s / 1_000_000
    }
}

/// The energy of a plant that grows when the probability of growth is
/// `prob`: the lower the probability has become, the more energy, so that the
/// energy that enters the world stays about the same.
pub open spec fn growth_ep(params: Params, prob: int) -> u32 {
    if params.plant_prob * params.plant_start_ep / prob > u32::MAX {
        u32::MAX
    } else {
        (params.plant_prob * params.plant_start_ep / prob) as u32
    }
}

/// The energy of the plant that grows in a cycle in which `drawn` has been
/// drawn from the numbers below one million, if a plant grows: it does when
/// the number lies below the probability `prob` of growth.
pub open spec fn grown_plant(params: Params, prob: int, drawn: u32) -> Option<u32> {
    if drawn < prob {
        Some(growth_ep(params, prob))
    } else {
        None
    }
}

proof fn lemma_bend_step(u: int)
    requires
        0 <= u < 1_000_000,
    ensures
        bend(u) <= bend(u + 1),
{
    let sq = u * u;
    let cu = sq * u;
    let v = u + 1;
    assert(v * v == sq + 2 * u + 1) by (nonlinear_arith)
        requires
            v == u + 1,
            sq == u * u,
    ;
    assert((v * v) * v == cu + 3 * sq + 3 * u + 1) by (nonlinear_arith)
        requires
            v == u + 1,
            sq == u * u,
            cu == sq * u,
            v * v == sq + 2 * u + 1,
    ;
    lemma_mul_inequality(u, 999_999, u);
}

/// The smooth step never falls.
pub proof fn lemma_bend_monotonic(a: int, b: int)
    requires
        0 <= a <= b <= 1_000_000,
    ensures
        bend(a) <= bend(b),
    decreases b - a,
{
    if a < b {
        lemma_bend_monotonic(a, b - 1);
        lemma_bend_step(b - 1);
    }
}

/// The smooth step stays between 0 and one million.
pub proof fn lemma_eased_bounds(u: int)
    requires
        0 <= u <= 1_000_000,
    ensures
        0 <= bend(u) <= 1_000_000_000_000_000_000,
        0 <= eased(u) <= 1_000_000,
        0 <= u * u <= 1_000_000_000_000,
        0 <= u * u * u <= 1_000_000_000_000_000_000,
{
    lemma_bend_monotonic(0, u);
    lemma_bend_monotonic(u, 1_000_000);
    assert(bend(1_000_000) == 1_000_000_000_000_000_000);
    lemma_mul_upper_bound(u, 1_000_000, u, 1_000_000);
    lemma_mul_upper_bound(u * u, 1_000_000_000_000, u, 1_000_000);
    assert(0 <= u * u) by {
        lemma_mul_inequality(0, u, u);
    }
    assert(0 <= u * u * u) by {
        lemma_mul_inequality(0, u * u, u);
    }
}

/// The decline of the plant growth never goes back.
pub proof fn lemma_progress_monotonic(c1: u64, c2: u64, world_end: u64)
    requires
        c1 <= c2,
    ensures
        0 <= progress(c1, world_end) <= progress(c2, world_end) <= 1_000_000,
{
    if world_end > 0 {
        let w = world_end as int;
        vstd::arithmetic::div_mod::lemma_div_is_ordered(2_000_000 * c1, 2_000_000 * c2, w);
        vstd::arithmetic::div_mod::lemma_div_pos_is_pos(2_000_000 * c1, w);
        vstd::arithmetic::div_mod::lemma_div_pos_is_pos(2_000_000 * c2, w);
    }
}

/// The probability that a plant grows stays between its configured starting
/// and final value, and from cycle to cycle it moves towards the final value
/// or stays.
pub proof fn lemma_growth_prob_monotonic(params: Params, c1: u64, c2: u64)
    requires
        c1 <= c2,
    ensures
        params.plant_prob >= params.plant_prob_end ==> params.plant_prob >= growth_prob(params, c1)
            >= growth_prob(params, c2) >= params.plant_prob_end,
        params.plant_prob <= params.plant_prob_end ==> params.plant_prob <= growth_prob(params, c1)
            <= growth_prob(params, c2) <= params.plant_prob_end,
{
    let u1 = progress(c1, params.world_end);
    let u2 = progress(c2, params.world_end);
    lemma_progress_monotonic(c1, c2, params.world_end);
    lemma_eased_bounds(u1);
    lemma_eased_bounds(u2);
    lemma_bend_monotonic(u1, u2);
    let s1 = eased(u1);
    let s2 = eased(u2);
    let d: int = if params.plant_prob >= params.plant_prob_end {
        params.plant_prob - params.plant_prob_end
    } else {
        params.plant_prob_end - params.plant_prob
    };
    lemma_scaled(d, s1, s2);
    lemma_scaled(d, s2, 1_000_000);
    lemma_scaled(d, 0, s1);
}

/// A share of `d` grows with the share.
proof fn lemma_scaled(d: int, s1: int, s2: int)
    requires
        0 <= d,
        0 <= s1 <= s2 <= 1_000_000,
    ensures
        0 <= d * s1 <= d * s2 <= d * 1_000_000,
        0 <= d * s1 / 1_000_000 <= d * s2 / 1_000_000 <= d,
        d * 0 == 0,
{
    lemma_mul_inequality(s1, s2, d);
    lemma_mul_inequality(s2, 1_000_000, d);
    lemma_mul_inequality(0, s1, d);
}

/// The probability in millionths that a plant grows in `cycle`.
pub fn plant_growth_prob(params: &Params, cycle: u64) -> (prob: u32)
    requires
        params.plant_prob <= PROB_ONE,
        params.plant_prob_end <= PROB_ONE,
    ensures
        prob == growth_prob(*params, cycle),
        prob <= PROB_ONE,
{
    let u: u64 = if params.world_end == 0 {
        1_000_000
    } else {
        let scaled = 2_000_000 * (cycle as u128) / (params.world_end as u128);
        if scaled > 1_000_000 {
            1_000_000
        } else {
            scaled as u64
        }
    };
    proof {
        lemma_eased_bounds(u as int);
        lemma_growth_prob_monotonic(*params, cycle, cycle);
    }
    let square = u * u;
    let cube = square * u;
    let s = (3_000_000 * square - 2 * cube) / 1_000_000_000_000;
    if params.plant_prob >= params.plant_prob_end {
        let d = (params.plant_prob - params.plant_prob_end) as u64;
        proof {
            lemma_scaled(d as int, s as int, 1_000_000);
        }
        (params.plant_prob as u64 - d * s / 1_000_000) as u32
    } else {
        let d = (params.plant_prob_end - params.plant_prob) as u64;
        proof {
            lemma_scaled(d as int, s as int, 1_000_000);
        }
        (params.plant_prob as u64 + d * s / 1_000_000) as u32
    }
}

/// Decides whether a plant grows in a cycle, given the probability `prob` of
/// growth and the number `drawn` from the numbers below one million, and
/// gives the energy of the plant that grows.
pub fn plant_growth(params: &Params, prob: u32, drawn: u32) -> (ep: Option<u32>)
    requires
        params.plant_prob <= PROB_ONE,
    ensures
        ep == grown_plant(*params, prob as int, drawn),
{
    if drawn < prob {
        proof {
            lemma_mul_upper_bound(
                params.plant_prob as int,
                1_000_000,
                params.plant_start_ep as int,
                0xFFFF_FFFF,
            );
        }
        let scaled = params.plant_prob as u64 * params.plant_start_ep as u64 / prob as u64;
        if scaled > u32::MAX as u64 {
            Some(u32::MAX)
        } else {
            Some(scaled as u32)
        }
    } else {
        None
    }
}

} // verus!
