//! Many worlds: the configuration of the runs that are made side by side,
//! and how the runs are handed out.
//!
//! Every run has a number. A worker draws the next number from a counter
//! that all workers share, makes a world of its own for that number and lets
//! it run; it stops when the numbers are used up. No world knows of another.

use vstd::prelude::*;
use crate::creature::lemma_mod_at_most;
use crate::params::Params;
use crate::program::Instr;
use crate::random::fresh;
use crate::random::RNG;
use crate::utils::square;
use crate::world::World;

verus! {

/// The number of runs.
pub const NUM_SIMS: u32 = 4000;

/// The number of workers.
pub const NUM_THREADS: u32 = 10;

/// What a worker does with a number drawn from the shared counter.
#[derive(Clone, Copy, Debug, PartialEq, Eq, Structural)]
pub enum Claim {
    /// The worker makes the run with this number.
    Run(u32),
    /// The numbers are used up: the worker stops.
    Done,
}

/// What the number `sim_num` drawn from the shared counter stands for: below
/// the number of runs for the run with that number, from there on for the
/// end of the work.
pub open spec fn claimed(sim_num: u32) -> Claim {
    if sim_num < NUM_SIMS {
        Claim::Run(sim_num)
    } else {
        Claim::Done
    }
}

/// What a worker does with the number `sim_num` drawn from the shared
/// counter.
pub fn claim(sim_num: u32) -> (c: Claim)
    ensures
        c == claimed(sim_num),
{
    if sim_num >= NUM_SIMS {
        Claim::Done
    } else {
        Claim::Run(sim_num)
    }
}

/// As long as no number is drawn twice from the counter, no run is made
/// twice; and every run is made once the numbers below the number of runs
/// have been drawn.
pub proof fn lemma_claims(a: u32, b: u32, run: u32)
    ensures
        a != b && claimed(a) != Claim::Done ==> claimed(a) != claimed(b),
        run < NUM_SIMS ==> claimed(run) == Claim::Run(run),
        claimed(a) == Claim::Run(run) ==> a == run && run < NUM_SIMS,
{
}

/// The ratio of `num` to `den`, rounded to three decimal places and counted
/// in millionths. Half a thousandth is rounded up.
pub open spec fn rounded_ratio(num: u32, den: u32) -> int {
    (2000 * num + den) / (2 * den) * 1000
}

/// The ratio of `num` to `den`, rounded to three decimal places and counted
/// in millionths.
pub fn ratio_in_millionths(num: u32, den: u32) -> (ratio: u64)
    requires
        den > 0,
    ensures
        ratio == rounded_ratio(num, den),
{
    proof {
        lemma_mod_at_most(2000 * num + den, 2 * den);
    }
    (2000 * (num as u64) + den as u64) / (2 * (den as u64)) * 1000
}

/// The cycles that the instructions take in the worlds of the multiverse, in
/// the declaration order: eating takes 25 cycles, moving 15, a turn 3,
/// anything else 1.
pub open spec fn multiverse_instr_table() -> [Option<u64>; 9] {
    [Some(1u64), Some(3u64), Some(3u64), Some(15u64), Some(25u64), Some(1u64), Some(1u64), Some(
        1u64,
    ), Some(1u64)]
}

/// The configuration of a world of the multiverse with the given shape of
/// programs.
///
/// The world is to hold about one creature per hundred cells. It starts with
/// a quarter more, since some of the first creatures block each other and
/// starve. Every creature needs one energy point per cycle, so the energy
/// that the plants bring per cycle sets the size of the population: the
/// probability of growth is the wanted population divided by the energy of a
/// plant. In the course of the run it falls to half of that. Creatures start
/// with half of the greatest energy and may mate above one and a half times
/// their starting energy, so that a parent keeps half of it.
pub open spec fn multiverse_params(ring_count: usize, ring_size: usize) -> Params {
    Params {
        world_end: 2_000_000,
        log_interval: 10_000,
        world_size: 300,
        start_pop_size: 1125,
        start_plant_count: 6000,
        plant_start_ep: 3200,
        plant_prob: 281_000,
        plant_prob_end: 140_500,
        creature_max_age: 80_000,
        creature_start_ep: 2000,
        creature_max_ep: 4000,
        eat_ep: 800,
        min_mating_ep: 3000,
        view_distance: 6,
        ring_count,
        ring_size,
        instructions: multiverse_instr_table(),
    }
}

/// A world of the multiverse, named "ringstruct". The number of rings, 2 or
/// 3, and the size of a ring, from 3 to 6, are drawn from a random source
/// with a seed of its own.
pub fn make_world() -> (world: World)
    ensures
        world@.params == multiverse_params(world@.params.ring_count, world@.params.ring_size),
        2 <= world@.params.ring_count <= 3,
        3 <= world@.params.ring_size <= 6,
        world.name.is_some(),
        world.name.unwrap()@ == "ringstruct"@,
        world@.cycle == 0,
        world@.terrain.occupied.len() == 0,
        forall|i: int| 0 <= i < world@.terrain.cells() ==> world@.terrain.plants[i].is_none(),
        world@.log.entries.len() == 0,
        world@.random.queue.len() == 0,
        fresh(world@.random),
        world@.seedable(),
        world@.params.log_interval >= 1,
        world@.params.world_end + world@.params.log_interval <= u64::MAX,
{
    let mut rng = RNG::new();
    let world_size: u32 = 300;
    let target_pop_size = square(world_size) / 100;
    let start_pop_size = target_pop_size * 5 / 4;
    let start_plant_count: u32 = 6000;
    let plant_start_ep: u32 = 3200;
    let plant_prob = ratio_in_millionths(target_pop_size, plant_start_ep) as u32;
    let plant_prob_end = plant_prob / 2;
    let creature_max_ep: u32 = 4000;
    let creature_start_ep = creature_max_ep * 1 / 2;
    let min_mating_ep = creature_start_ep * 3 / 2;
    let eat_ep: u32 = 800;
    let ages: [u64; 1] = [80_000];
    let creature_max_age = rng.choose_one(&ages);
    let view_distance: u32 = 6;
    let ring_counts: [usize; 2] = [2, 3];
    let ring_sizes: [usize; 4] = [3, 4, 5, 6];
    let ring_count = rng.choose_one(&ring_counts);
    let ring_size = rng.choose_one(&ring_sizes);
    let mut instructions: [Option<u64>; 9] = [None, None, None, None, None, None, None, None, None];
    instructions[Instr::EAT.index()] = Some(25);
    instructions[Instr::MOV.index()] = Some(15);
    instructions[Instr::TUR.index()] = Some(3);
    instructions[Instr::TUL.index()] = Some(3);
    instructions[Instr::NOP.index()] = Some(1);
    instructions[Instr::JMP.index()] = Some(1);
    instructions[Instr::JMZ.index()] = Some(1);
    instructions[Instr::BFH.index()] = Some(1);
    instructions[Instr::BFA.index()] = Some(1);
    proof {
        assert(instructions == multiverse_instr_table());
        assert(2 * 3 <= ring_size * ring_count <= 6 * 3) by (nonlinear_arith)
            requires
                2 <= ring_count <= 3,
                3 <= ring_size <= 6,
        ;
    }
    let params = Params {
        world_end: 2_000_000,
        log_interval: 10_000,
        world_size,
        start_pop_size,
        start_plant_count,
        plant_start_ep,
        plant_prob,
        plant_prob_end,
        creature_max_age,
        creature_max_ep,
        creature_start_ep,
        min_mating_ep,
        eat_ep,
        view_distance,
        ring_count,
        ring_size,
        instructions,
    };
    World::new("ringstruct", params)
}

} // verus!
