//! The world: one run of the simulation.
//!
//! In every cycle the world's clock moves on, a plant may grow, and every
//! creature is processed once: it pays one energy point, leaves the world if
//! it has run out of energy or reached the greatest age, and otherwise lives
//! through one cycle of its program.

use vstd::prelude::*;
use crate::creature::can_pair;
use crate::creature::queue_suits;
use crate::genetics::can_splice;
use crate::creature::cycled;
use crate::creature::heading;
use crate::creature::rendered;
use crate::creature::ContextState;
use crate::creature::Creature;
use crate::creature::CreatureState;
use crate::creature::PContext;
use crate::growth::grown_plant;
use crate::growth::plant_growth;
use crate::growth::growth_prob;
use crate::growth::plant_growth_prob;
use crate::log::renderings;
use crate::log::Log;
use crate::log::LogState;
use crate::params::lemma_instrs;
use crate::params::Params;
use crate::params::PROB_ONE;
use crate::plant::Plant;
use crate::program::alternating;
use crate::program::base_strategy;
use crate::program::draw_index;
use crate::program::drawn_program;
use crate::program::instrs_of;
use crate::program::rand_program;
use crate::program::Instr;
use crate::random::fresh;
use crate::random::lemma_draw_shrinks;
use crate::random::lemma_draws_shrink;
use crate::random::lemma_left_of;
use crate::random::lemma_left_of_left;
use crate::random::RngState;
use crate::random::RNG;
use crate::terrain::lemma_cell;
use crate::terrain::lemma_cell_bound;
use crate::terrain::lemma_occupied_len;
use crate::terrain::walked;
use crate::terrain::CreatureVisitor;
use crate::terrain::Terrain;
use crate::terrain::TerrainState;
use crate::terrain::Visit;
use crate::terrain::MAX_SIZE;

verus! {

/// The mathematical state of a world.
#[verifier::ext_equal]
pub struct WorldState {
    /// The configuration of the run.
    pub params: Params,
    /// The random source.
    pub random: RngState,
    /// The terrain.
    pub terrain: TerrainState,
    /// The current cycle.
    pub cycle: u64,
    /// The log.
    pub log: LogState,
}

/// The mathematical state of what processes the creatures of a world.
#[verifier::ext_equal]
pub struct ProcessorState {
    /// The configuration of the run.
    pub params: Params,
    /// The log.
    pub log: LogState,
    /// The random source.
    pub random: RngState,
    /// The current cycle.
    pub cycle: u64,
}

/// The creature `c` after its upkeep in `cycle`: it has been processed in
/// that cycle and has paid one energy point.
pub open spec fn kept_up(c: CreatureState, cycle: u64) -> CreatureState {
    CreatureState { lastprocd: cycle, ep: (c.ep - 1) as u32, ..c }
}

/// Whether a creature that has had its upkeep has to leave the world: it has
/// reached the greatest age, or it has no energy left.
pub open spec fn expired(c: CreatureState, params: Params) -> bool {
    c.age() >= params.creature_max_age || c.ep == 0
}

/// What the processing of the creature `c` in a cycle leaves behind.
pub open spec fn processed_one(
    s: ProcessorState,
    t: TerrainState,
    c: CreatureState,
    pos: (u32, u32),
) -> Visit<ProcessorState> {
    let c1 = kept_up(c, s.cycle);
    if expired(c1, s.params) {
        Visit { state: s, terrain: t, creature: c1, pos: None }
    } else {
        let step = cycled(
            c1,
            ContextState {
                params: s.params,
                stats: s.log.ticked(),
                random: s.random,
                terrain: t,
                world_cycle: s.cycle,
                pos,
            },
        );
        Visit {
            state: ProcessorState {
                params: s.params,
                log: step.ctx.stats,
                random: step.ctx.random,
                cycle: s.cycle,
            },
            terrain: step.ctx.terrain,
            creature: step.creature,
            pos: Some(step.ctx.pos),
        }
    }
}

/// Processing leaves the configuration and the cycle as they are.
pub proof fn lemma_walked_keeps(s: ProcessorState, t: TerrainState, j: int, end: int)
    ensures
        walked::<Processor>(s, t, j, end).0.params == s.params,
        walked::<Processor>(s, t, j, end).0.cycle == s.cycle,
    decreases end - j,
{
    if j < end {
        let hole = t.occupied[j] as int;
        let v = processed_one(s, t.lifted(hole), t.creatures[hole].unwrap(), t.pos_of(hole));
        match v.pos {
            Some(p) => {
                lemma_walked_keeps(v.state, v.terrain.landed(j, v.creature, p), j + 1, end);
            },
            None => {
                lemma_walked_keeps(v.state, v.terrain.dropped(j, end), j, end - 1);
            },
        }
    }
}

/// Whether a run with the configuration `params` can process all
/// `creatures` in the cycle `cycle`: each of them can be processed, what is
/// queued in the random source suits each of them, and any two of them can
/// mate without failing.
pub open spec fn all_fit(
    creatures: Seq<Option<CreatureState>>,
    params: Params,
    cycle: u64,
    random: RngState,
) -> bool {
    &&& forall|i: int|
        0 <= i < creatures.len() && (#[trigger] creatures[i]).is_some() ==> creatures[i].unwrap().fit(
            params,
            cycle,
        ) && queue_suits(random, creatures[i].unwrap())
    &&& forall|i: int, j: int|
        0 <= i < creatures.len() && 0 <= j < creatures.len() && i != j && (
        #[trigger] creatures[i]).is_some() && (#[trigger] creatures[j]).is_some() ==> can_pair(
            creatures[i].unwrap(),
            creatures[j].unwrap(),
            params,
        )
}

/// Whether the creature `c` can join `creatures` at the cell `idx`: it can
/// mate with each of the others without failing, and each of them with it.
pub open spec fn joins(
    c: CreatureState,
    creatures: Seq<Option<CreatureState>>,
    idx: int,
    params: Params,
) -> bool {
    forall|i: int|
        0 <= i < creatures.len() && i != idx && (#[trigger] creatures[i]).is_some() ==> can_pair(
            c,
            creatures[i].unwrap(),
            params,
        ) && can_pair(creatures[i].unwrap(), c, params)
}

/// Once a creature has been taken out of a world that is in order, the
/// creatures that are left can be processed, and the creature can mate with
/// each of them without failing.
pub proof fn lemma_lifted_fits(
    creatures: Seq<Option<CreatureState>>,
    hole: int,
    c: CreatureState,
    params: Params,
    cycle: u64,
    random: RngState,
)
    requires
        0 <= hole < creatures.len(),
        creatures[hole].is_none(),
        all_fit(creatures.update(hole, Some(c)), params, cycle, random),
    ensures
        all_fit(creatures, params, cycle, random),
        c.fit(params, cycle),
        queue_suits(random, c),
        forall|i: int|
            0 <= i < creatures.len() && (#[trigger] creatures[i]).is_some() ==> can_pair(
                c,
                creatures[i].unwrap(),
                params,
            ) && can_pair(creatures[i].unwrap(), c, params) && can_splice(
                c.program.len() as int,
                creatures[i].unwrap().program.len() as int,
                random,
            ),
{
    let whole = creatures.update(hole, Some(c));
    assert(whole[hole].is_some());
    assert forall|i: int, j: int|
        0 <= i < creatures.len() && 0 <= j < creatures.len() && i != j && (
        #[trigger] creatures[i]).is_some() && (#[trigger] creatures[j]).is_some() implies can_pair(
        creatures[i].unwrap(),
        creatures[j].unwrap(),
        params,
    ) by {
        assert(whole[i].is_some() && whole[j].is_some());
    }
    assert forall|i: int|
        0 <= i < creatures.len() && (#[trigger] creatures[i]).is_some() implies creatures[i].unwrap().fit(
        params,
        cycle,
    ) && queue_suits(random, creatures[i].unwrap()) && can_pair(c, creatures[i].unwrap(), params)
        && can_pair(creatures[i].unwrap(), c, params) && can_splice(
        c.program.len() as int,
        creatures[i].unwrap().program.len() as int,
        random,
    ) by {
        let b = creatures[i].unwrap();
        assert(whole[i].is_some());
        assert(can_pair(whole[hole].unwrap(), whole[i].unwrap(), params));
        assert(can_pair(whole[i].unwrap(), whole[hole].unwrap(), params));
        assert(random.suits_len(b.program.len() as int));
        assert(random.suits_len(c.program.len() as int));
        if random.queue.len() >= 1 {
            assert(random.queue[0] + 1 < b.program.len());
            assert(random.queue[0] + 1 < c.program.len());
        }
    }
}

/// Once a creature has been processed and put down again, the world is in
/// order as before: every creature is one that was there or is as long as
/// the creature that has been processed.
pub proof fn lemma_landed_fits(
    before: Seq<Option<CreatureState>>,
    after: Seq<Option<CreatureState>>,
    hole: int,
    cell: int,
    c0: CreatureState,
    c1: CreatureState,
    params: Params,
    cycle: u64,
    r0: RngState,
    r1: RngState,
)
    requires
        before.len() == after.len(),
        0 <= hole < before.len(),
        0 <= cell < after.len(),
        before[hole].is_none(),
        all_fit(before.update(hole, Some(c0)), params, cycle, r0),
        r1.left_of(r0),
        c1.fit(params, cycle),
        c1.program == c0.program,
        forall|i: int|
            0 <= i < after.len() && (#[trigger] after[i]).is_some() ==> after[i].unwrap().fit(
                params,
                cycle,
            ) && (after[i] == before[i] || (after[i].unwrap().program.len() == c0.program.len() && (
            exists|k: int| 0 <= k < before.len() && (#[trigger] before[k]).is_some()))),
    ensures
        all_fit(after.update(cell, Some(c1)), params, cycle, r1),
{
    lemma_lifted_fits(before, hole, c0, params, cycle, r0);
    lemma_left_of(r1, r0);
    let whole = after.update(cell, Some(c1));
    let peopled = exists|k: int| 0 <= k < before.len() && (#[trigger] before[k]).is_some();
    if peopled {
        let k = choose|k: int| 0 <= k < before.len() && (#[trigger] before[k]).is_some();
        assert(can_pair(before[k].unwrap(), c0, params));
    }
    // every creature is as long as one that was there before
    assert forall|i: int| 0 <= i < whole.len() && (#[trigger] whole[i]).is_some() implies {
        &&& whole[i].unwrap().fit(params, cycle)
        &&& queue_suits(r1, whole[i].unwrap())
        &&& (whole[i].unwrap().program.len() == c0.program.len() || (i != cell && before[i].is_some()
            && whole[i] == before[i]))
    } by {
        let a = whole[i].unwrap();
        if i != cell {
            assert(after[i].is_some());
            if after[i] == before[i] {
                assert(queue_suits(r0, before[i].unwrap()));
            }
        }
        if a.program.len() >= 2 {
            assert(r0.suits_len(a.program.len() as int));
            assert(r1.suits_len(a.program.len() as int));
        }
    }
    assert forall|i: int, j: int|
        0 <= i < whole.len() && 0 <= j < whole.len() && i != j && (#[trigger] whole[i]).is_some() && (
        #[trigger] whole[j]).is_some() implies can_pair(
        whole[i].unwrap(),
        whole[j].unwrap(),
        params,
    ) by {
        let a = whole[i].unwrap();
        let b = whole[j].unwrap();
        let a_new = a.program.len() == c0.program.len();
        let b_new = b.program.len() == c0.program.len();
        if !a_new {
            assert(before[i].is_some() && whole[i] == before[i]);
            assert(can_pair(before[i].unwrap(), c0, params));
            assert(can_pair(c0, before[i].unwrap(), params));
        }
        if !b_new {
            assert(before[j].is_some() && whole[j] == before[j]);
            assert(can_pair(before[j].unwrap(), c0, params));
            assert(can_pair(c0, before[j].unwrap(), params));
        }
        if !a_new && !b_new {
            let world = before.update(hole, Some(c0));
            assert(i != hole && j != hole);
            assert(world[i].is_some() && world[j].is_some());
            assert(can_pair(world[i].unwrap(), world[j].unwrap(), params));
        }
        if a_new && b_new {
            // two creatures as long as the processed one: one of them is
            // new or was there before, so the terrain was not empty
            if i != cell {
                assert(after[i].is_some());
                if after[i] == before[i] {
                    assert(before[i].is_some());
                }
            }
            if j != cell {
                assert(after[j].is_some());
                if after[j] == before[j] {
                    assert(before[j].is_some());
                }
            }
            assert(peopled);
        }
    }
}

/// What processes the creatures of a world in one cycle.
pub struct Processor {
    /// The configuration of the run.
    pub params: Params,
    /// The log.
    pub log: Log,
    /// The random source.
    pub random: RNG,
    /// The current cycle.
    pub cycle: u64,
}

impl CreatureVisitor for Processor {
    type State = ProcessorState;

    open spec fn state(&self) -> ProcessorState {
        ProcessorState {
            params: self.params,
            log: self.log@,
            random: self.random@,
            cycle: self.cycle,
        }
    }

    open spec fn admits(s: ProcessorState, creatures: Seq<Option<CreatureState>>) -> bool {
        &&& s.params.wf()
        &&& s.random.all_queued_below(s.params.world_size as int)
        &&& all_fit(creatures, s.params, s.cycle, s.random)
    }

    open spec fn visited(s: ProcessorState, t: TerrainState, c: CreatureState, pos: (u32, u32)) -> Visit<
        ProcessorState,
    > {
        processed_one(s, t, c, pos)
    }

    /// Processes `creature` for one cycle: the creature pays one energy
    /// point; if it has then run out of energy or reached the greatest age it
    /// leaves the terrain, else it lives through one cycle of its program.
    fn visit(&mut self, terrain: &mut Terrain, creature: &mut Creature, pos: (u32, u32)) -> (r:
        Option<(u32, u32)>) {
        let ghost t = terrain@;
        let ghost hole = t.cell(pos);
        let ghost c0 = creature@;
        let ghost r0 = self.random@;
        proof {
            lemma_cell(t, pos);
            lemma_lifted_fits(t.creatures, hole, c0, self.params, self.cycle, r0);
            assert(t.occupied.take(t.occupied.len() as int) =~= t.occupied);
        }
        creature.lastprocd = self.cycle;
        creature.ep -= 1;
        if (creature.age() >= self.params.creature_max_age) || (creature.ep == 0) {
            return None;
        }
        self.log.count_cycle();
        let mut ctx = PContext::new(
            &self.params,
            &mut self.log,
            &mut self.random,
            terrain,
            self.cycle,
            pos,
        );
        let landing = creature.do_cycle(&mut ctx);
        proof {
            let after = terrain@;
            lemma_cell(after, landing);
            lemma_left_of(self.random@, r0);
            lemma_landed_fits(
                t.creatures,
                after.creatures,
                hole,
                after.cell(landing),
                c0,
                creature@,
                self.params,
                self.cycle,
                r0,
                self.random@,
            );
        }
        return Some(landing);
    }
}

impl WorldState {
    /// Whether the world is in order: its configuration is usable, its
    /// terrain is consistent and as large as configured, every creature can
    /// be processed, any two creatures can mate without failing, and what is
    /// queued in the random source can answer the draws of a cycle: every
    /// queued value is a coordinate of the terrain and suits every creature.
    /// A queued value is asked to suit every draw that may fall to it, as
    /// only the run shows which draw that is.
    pub open spec fn sound(self) -> bool {
        &&& self.params.wf()
        &&& self.terrain.wf()
        &&& self.terrain.size == self.params.world_size
        &&& self.random.all_queued_below(self.terrain.size as int)
        &&& all_fit(self.terrain.creatures, self.params, self.cycle, self.random)
    }

    /// The world one cycle later on its clock.
    pub open spec fn ticked(self) -> WorldState {
        WorldState { cycle: (self.cycle + 1) as u64, ..self }
    }

    /// The world with a plant of `ep` energy points at a drawn position.
    pub open spec fn with_random_plant(self, ep: u32) -> WorldState {
        WorldState {
            random: self.random.after_draw(self.terrain.size).after_draw(self.terrain.size),
            terrain: self.terrain.with_plant(
                self.terrain.cell(self.terrain.drawn_pos(self.random)),
                Some(Plant { ep }),
            ),
            ..self
        }
    }

    /// The world after the growth of plants in a cycle: a number below one
    /// million is drawn; if it lies below the probability of growth, a plant
    /// grows at a drawn position.
    pub open spec fn grown(self) -> WorldState {
        let prob = growth_prob(self.params, self.cycle);
        let drawn = WorldState { random: self.random.after_pick(PROB_ONE), ..self };
        match grown_plant(self.params, prob, self.random.picked(PROB_ONE)) {
            Some(ep) => drawn.with_random_plant(ep),
            None => drawn,
        }
    }

    /// What processes the creatures of the world.
    pub open spec fn processor(self) -> ProcessorState {
        ProcessorState { params: self.params, log: self.log, random: self.random, cycle: self.cycle }
    }

    /// The world after every creature has been processed once.
    pub open spec fn processed(self) -> WorldState {
        let done = walked::<Processor>(
            self.processor(),
            self.terrain,
            0,
            self.terrain.occupied.len() as int,
        );
        WorldState {
            params: self.params,
            random: done.0.random,
            terrain: done.1,
            cycle: self.cycle,
            log: done.0.log,
        }
    }

    /// The world after one cycle: the clock has moved on, a plant may have
    /// grown, and every creature has been processed.
    pub open spec fn advanced(self) -> WorldState {
        self.ticked().grown().processed()
    }

    /// The world after `n` cycles.
    pub open spec fn after_cycles(self, n: nat) -> WorldState
        decreases n,
    {
        if n == 0 {
            self
        } else {
            self.after_cycles((n - 1) as nat).advanced()
        }
    }

    /// The random source after the program of a starting creature has been
    /// drawn.
    pub open spec fn rng_after_program(self) -> RngState {
        self.random.after_draw(2).after_draws(
            self.params.instrs().len() as u32,
            (self.params.ring_size * (self.params.ring_count - 1)) as nat,
        )
    }

    /// The creature that the world starts with next: its first ring follows
    /// the basic strategy, its other rings are drawn from the instructions in
    /// use; then the cycle of its birth is drawn from the cycles before the
    /// current one, and last its heading.
    pub open spec fn start_creature(self) -> CreatureState {
        let rng = self.rng_after_program();
        CreatureState {
            program: alternating(self.params.ring_size as nat, self.random.drawn(2) as int)
                + drawn_program(
                self.params.instrs(),
                (self.params.ring_size * (self.params.ring_count - 1)) as nat,
                self.random.after_draw(2),
            ),
            rsize: self.params.ring_size,
            bcycle: rng.drawn(self.cycle as u32) as u64,
            lastprocd: 0,
            bearing: heading(rng.after_draw(self.cycle as u32).picked(4) as int),
            ep: self.params.creature_start_ep,
            pc: 0,
            cc: 0,
        }
    }

    /// The world after one more starting creature has been made and, if a
    /// free position was found for it, put into the terrain.
    pub open spec fn with_start_creature(self) -> WorldState {
        let rng = self.rng_after_program().after_draw(self.cycle as u32).after_pick(4);
        WorldState {
            random: self.terrain.rng_after_free_pos(rng, 20),
            terrain: match self.terrain.drawn_free_pos(rng, 20) {
                Some(pos) => self.terrain.with_creature(
                    self.terrain.cell(pos),
                    Some(self.start_creature()),
                ),
                None => self.terrain,
            },
            ..self
        }
    }

    /// The world after `n` more starting creatures.
    pub open spec fn with_start_creatures(self, n: nat) -> WorldState
        decreases n,
    {
        if n == 0 {
            self
        } else {
            self.with_start_creatures((n - 1) as nat).with_start_creature()
        }
    }

    /// The world after `n` more plants of `ep` energy points at drawn
    /// positions.
    pub open spec fn with_random_plants(self, n: nat, ep: u32) -> WorldState
        decreases n,
    {
        if n == 0 {
            self
        } else {
            self.with_random_plants((n - 1) as nat, ep).with_random_plant(ep)
        }
    }

    /// The world with its starting creatures and plants, at cycle 10000.
    pub open spec fn seeded(self) -> WorldState {
        (WorldState { cycle: 10_000, ..self }).with_start_creatures(
            self.params.start_pop_size as nat,
        ).with_random_plants(self.params.start_plant_count as nat, self.params.plant_start_ep)
    }

    /// The world with its clock at cycle 10000, where the seeding sets it.
    pub open spec fn reset(self) -> WorldState {
        WorldState { cycle: 10_000, ..self }
    }

    /// Whether the world can be given its starting creatures: with its clock
    /// at cycle 10000 it is in order, so that no creature was born or
    /// processed after that cycle; creatures with programs of the configured
    /// length can mate with each other and with the creatures that are
    /// there; moving and eating are in use; and what is queued in the random
    /// source can answer the draws of the seeding: every queued value is 0 or
    /// 1 and suits the programs of the configured length.
    pub open spec fn seedable(self) -> bool {
        &&& self.reset().sound()
        &&& self.params.mating_ok()
        &&& self.params.has_instr(Instr::MOV)
        &&& self.params.has_instr(Instr::EAT)
        &&& self.random.all_queued_below(2)
        &&& self.random.suits_len(self.params.program_len())
        &&& forall|i: int|
            0 <= i < self.terrain.creatures.len() && (#[trigger] self.terrain.creatures[i]).is_some()
                ==> 2 <= self.terrain.creatures[i].unwrap().program.len()
                && self.params.program_len() - 1
                <= self.terrain.creatures[i].unwrap().program.len() <= self.params.program_len()
                + 1
    }

    /// The age above which a creature counts as an adult.
    pub open spec fn adult_age(self) -> int {
        self.params.creature_start_ep + self.params.eat_ep
    }

    /// The readable programs of the adults among the creatures at the first
    /// `k` places of the list of occupied cells.
    pub open spec fn adults_below(self, k: int) -> Seq<Seq<char>>
        decreases k,
    {
        if k <= 0 {
            Seq::empty()
        } else {
            let c = self.terrain.creatures[self.terrain.occupied[k - 1] as int].unwrap();
            if c.age() > self.adult_age() {
                self.adults_below(k - 1).push(
                    rendered(c.program, c.rsize as int, c.program.len() as int),
                )
            } else {
                self.adults_below(k - 1)
            }
        }
    }

    /// The world with a new log entry that records the number of creatures.
    pub open spec fn logged(self) -> WorldState {
        WorldState {
            log: self.log.with_entry(self.cycle).with_num_creatures(
                self.terrain.occupied.len() as u32,
            ),
            ..self
        }
    }

    /// The world after one more logging interval: the cycles of the interval
    /// have passed and the number of creatures has been logged; at the end of
    /// the run the programs of the adults have been logged too.
    pub open spec fn batched(self) -> WorldState {
        let w = self.after_cycles(self.params.log_interval as nat).logged();
        if w.cycle >= w.params.world_end {
            WorldState {
                log: w.log.with_programs(w.adults_below(w.terrain.occupied.len() as int)),
                ..w
            }
        } else {
            w
        }
    }

    /// The number of cycles that are left of the run.
    pub open spec fn cycles_left(self) -> int {
        if self.cycle < self.params.world_end {
            self.params.world_end - self.cycle
        } else {
            0
        }
    }

    /// Whether the run goes on: more than one creature is left, and the end
    /// of the run has not come.
    pub open spec fn running(self) -> bool {
        self.terrain.occupied.len() > 1 && self.cycle < self.params.world_end
    }

    /// The world at the end of its run: one logging interval follows the
    /// other while the run goes on.
    pub open spec fn finished(self) -> WorldState
        decreases self.cycles_left(),
        when self.params.log_interval >= 1 && self.params.world_end + self.params.log_interval
            <= u64::MAX
        via Self::finished_decreases
    {
        if self.running() {
            self.batched().finished()
        } else {
            self
        }
    }

    #[via_fn]
    proof fn finished_decreases(self) {
        if self.running() {
            lemma_after_cycles(self, self.params.log_interval as nat);
        }
    }
}

/// Cycles move the clock on and leave the configuration as it is.
pub proof fn lemma_after_cycles(w: WorldState, n: nat)
    requires
        w.cycle + n <= u64::MAX,
    ensures
        w.after_cycles(n).cycle == w.cycle + n,
        w.after_cycles(n).params == w.params,
    decreases n,
{
    if n > 0 {
        lemma_after_cycles(w, (n - 1) as nat);
    }
}

/// In a world that is in order every creature has its program counter
/// within its program and no more than the greatest energy.
pub proof fn lemma_creatures_in_bounds(w: WorldState, pos: (u32, u32))
    requires
        w.sound(),
        w.terrain.in_grid(pos),
        w.terrain.creature_at(pos).is_some(),
    ensures
        0 <= w.terrain.creature_at(pos).unwrap().pc < w.terrain.creature_at(
            pos,
        ).unwrap().program.len(),
        w.terrain.creature_at(pos).unwrap().ep <= w.params.creature_max_ep,
        w.terrain.creature_at(pos).unwrap().program.len() % (w.params.ring_size as nat) == 0,
{
    lemma_cell(w.terrain, pos);
}

/// A creature leaves the world in the cycle in which, after its upkeep, it
/// has no energy left or has reached the greatest age, and in no other: then
/// its cell holds no creature and is no longer listed; otherwise the creature
/// is put down again.
pub proof fn lemma_expired_leave(s: ProcessorState, t: TerrainState, j: int, end: int)
    requires
        t.wf(),
        0 <= j < end <= t.occupied.len(),
    ensures
        ({
            let hole = t.occupied[j] as int;
            let c = t.creatures[hole].unwrap();
            let v = processed_one(s, t.lifted(hole), c, t.pos_of(hole));
            &&& v.pos.is_none() <==> expired(kept_up(c, s.cycle), s.params)
            &&& v.pos.is_none() ==> {
                &&& walked::<Processor>(s, t, j, end) == walked::<Processor>(
                    s,
                    t.lifted(hole).dropped(j, end),
                    j,
                    end - 1,
                )
                &&& t.lifted(hole).dropped(j, end).wf()
                &&& t.lifted(hole).dropped(j, end).creatures[hole].is_none()
                &&& !t.lifted(hole).dropped(j, end).occupied.contains(hole as usize)
            }
        }),
{
    let hole = t.occupied[j] as int;
    let c = t.creatures[hole].unwrap();
    let lifted = t.lifted(hole);
    let v = processed_one(s, lifted, c, t.pos_of(hole));
    if v.pos.is_none() {
        let u = lifted.dropped(j, end);
        crate::terrain::lemma_dropped(lifted, j, end);
    }
}

/// A world.
pub struct World {
    /// The name of the world, if it has one.
    pub name: Option<String>,
    /// The configuration of the run.
    pub params: Params,
    /// The random source.
    pub random: RNG,
    /// The terrain.
    pub terrain: Terrain,
    /// The current cycle.
    pub cycle: u64,
    /// The log.
    pub log: Log,
}

impl View for World {
    type V = WorldState;

    open spec fn view(&self) -> WorldState {
        WorldState {
            params: self.params,
            random: self.random@,
            terrain: self.terrain@,
            cycle: self.cycle,
            log: self.log@,
        }
    }
}

impl World {
    /// A world with the given name and configuration: its terrain is empty,
    /// its clock is at 0, and its random source has a seed that the
    /// operating system provides.
    pub fn new(name: &str, params: Params) -> (world: World)
        requires
            params.world_size <= MAX_SIZE,
        ensures
            world.name.is_some(),
            world.name.unwrap()@ == name@,
            world@.params == params,
            world@.cycle == 0,
            world@.log.entries.len() == 0,
            world@.log.total_cycles == 0,
            world@.random.queue.len() == 0,
            fresh(world@.random),
            world@.terrain.wf(),
            world@.terrain.size == params.world_size,
            world@.terrain.occupied.len() == 0,
            forall|i: int| 0 <= i < world@.terrain.cells() ==> world@.terrain.plants[i].is_none(),
            params.wf() ==> world@.sound(),
    {
        let terrain = Terrain::with_size(params.world_size);
        World {
            name: Some(name.to_owned()),
            params,
            random: RNG::new(),
            terrain,
            cycle: 0,
            log: Log::new(),
        }
    }

    /// A world without a name, with the configuration for tests.
    pub fn for_testing() -> (world: World)
        ensures
            world.name.is_none(),
            world@.params == Params::defaults(),
            world@.cycle == 0,
            world@.log.entries.len() == 0,
            world@.random.queue.len() == 0,
            fresh(world@.random),
            world@.terrain.occupied.len() == 0,
            forall|i: int| 0 <= i < world@.terrain.cells() ==> world@.terrain.plants[i].is_none(),
            world@.sound(),
    {
        let params = Params::for_testing();
        let terrain = Terrain::with_size(params.world_size);
        World { name: None, params, random: RNG::new(), terrain, cycle: 0, log: Log::new() }
    }

    /// Puts the creature `c` at `pos`.
    pub fn add_creature(&mut self, c: Creature, pos: (u32, u32))
        requires
            old(self)@.terrain.wf(),
            old(self)@.terrain.in_grid(pos),
        ensures
            final(self)@ == (WorldState {
                terrain: old(self)@.terrain.with_creature(old(self)@.terrain.cell(pos), Some(c@)),
                ..old(self)@
            }),
            final(self)@.terrain.creature_at(pos) == Some(c@),
            final(self)@.terrain.wf(),
            old(self)@.sound() && c@.fit(old(self)@.params, old(self)@.cycle) && queue_suits(
                old(self)@.random,
                c@,
            ) && joins(
                c@,
                old(self)@.terrain.creatures,
                old(self)@.terrain.cell(pos),
                old(self)@.params,
            ) ==> final(self)@.sound(),
    {
        proof {
            lemma_cell(self@.terrain, pos);
        }
        self.terrain.set_creature_at(Some(c), pos);
    }

    /// The creature at `pos`, if there is one.
    pub fn creature_at(&self, pos: (u32, u32)) -> (c: Option<&Creature>)
        requires
            self@.terrain.grid_ok(),
            self@.terrain.in_grid(pos),
        ensures
            c.is_some() == self@.terrain.creature_at(pos).is_some(),
            c matches Some(c) ==> self@.terrain.creature_at(pos) == Some(c@),
    {
        self.terrain.creature_at(pos)
    }

    /// The number of creatures.
    pub fn num_creatures(&self) -> (n: u32)
        requires
            self@.terrain.wf(),
        ensures
            n == self@.terrain.occupied.len(),
            n == self@.terrain.occupied_cells().len(),
    {
        self.terrain.num_creatures()
    }

    /// Tells whether the population has outlived the run: more than one
    /// creature is left.
    pub fn ended_ok(&self) -> (ok: bool)
        requires
            self@.terrain.wf(),
        ensures
            ok == (self@.terrain.occupied.len() > 1),
    {
        self.num_creatures() > 1
    }

    /// Puts the plant `p` at `pos`, with the configured energy of a new
    /// plant.
    pub fn add_plant(&mut self, p: Plant, pos: (u32, u32))
        requires
            old(self)@.terrain.grid_ok(),
            old(self)@.terrain.in_grid(pos),
        ensures
            final(self)@ == (WorldState {
                terrain: old(self)@.terrain.with_plant(
                    old(self)@.terrain.cell(pos),
                    Some(Plant { ep: old(self)@.params.plant_start_ep }),
                ),
                ..old(self)@
            }),
            final(self)@.terrain.plant_at(pos) == Some(
                Plant { ep: old(self)@.params.plant_start_ep },
            ),
            old(self)@.sound() ==> final(self)@.sound(),
    {
        let mut p = p;
        p.ep = self.params.plant_start_ep;
        self.terrain.set_plant_at(Some(p), pos);

    }

    /// The plant at `pos`, if there is one.
    pub fn plant_at(&self, pos: (u32, u32)) -> (p: Option<&Plant>)
        requires
            self@.terrain.grid_ok(),
            self@.terrain.in_grid(pos),
        ensures
            p.is_some() == self@.terrain.plant_at(pos).is_some(),
            p matches Some(p) ==> self@.terrain.plant_at(pos) == Some(*p),
    {
        self.terrain.plant_at(pos)
    }

    fn add_random_plant(&mut self, start_ep: u32)
        requires
            old(self)@.sound(),
        ensures
            final(self)@ == old(self)@.with_random_plant(start_ep),
            final(self)@.sound(),
    {
        let mut plant = Plant::new();
        plant.ep = start_ep;
        let pos = self.terrain.rand_pos(&mut self.random);
        self.terrain.set_plant_at(Some(plant), pos);

    }

    /// Gives the world its starting creatures and plants, and sets its clock
    /// to cycle 10000, so that the creatures can differ in age.
    pub fn add_initial_plants_and_creatures(&mut self)
        requires
            old(self)@.seedable(),
        ensures
            final(self)@ == old(self)@.seeded(),
            final(self)@.sound(),
            final(self)@.cycle == 10_000,
            final(self)@.params == old(self)@.params,
    {
        self.cycle = 10_000;
        let ghost start = self@;
        let mut made: u32 = 0;
        while made < self.params.start_pop_size
            invariant
                made <= self@.params.start_pop_size,
                self@.seedable(),
                self@.cycle == 10_000,
                self@.params == start.params,
                self@ == start.with_start_creatures(made as nat),
            decreases self@.params.start_pop_size - made,
        {
            self.add_start_creature();
            made = made + 1;
        }
        let ghost crowded = self@;
        let mut grown: u32 = 0;
        while grown < self.params.start_plant_count
            invariant
                grown <= self@.params.start_plant_count,
                self@.sound(),
                self@.cycle == 10_000,
                self@.params == start.params,
                self@ == crowded.with_random_plants(grown as nat, self@.params.plant_start_ep),
            decreases self@.params.start_plant_count - grown,
        {
            let ep = self.params.plant_start_ep;
            self.add_random_plant(ep);
            grown = grown + 1;
        }
    }

    fn add_start_creature(&mut self)
        requires
            old(self)@.seedable(),
            old(self)@.cycle == 10_000,
        ensures
            final(self)@ == old(self)@.with_start_creature(),
            final(self)@.seedable(),
            final(self)@.cycle == old(self)@.cycle,
            final(self)@.params == old(self)@.params,
    {
        let ghost w = self@;
        let creature = self.make_start_creature();
        let ghost r4 = self@.random;
        proof {
            lemma_left_of(r4, w.random);
            assert(r4.all_queued_below(w.terrain.size as int));
        }
        let found = self.terrain.rand_free_pos(&mut self.random);
        let ghost r5 = self@.random;
        proof {
            lemma_left_of_left(r5, r4, w.random);
            lemma_left_of(r5, w.random);
            assert(r5.all_queued_below(2));
            assert(r5.all_queued_below(w.terrain.size as int));
            assert(r5.suits_len(w.params.program_len()));
            assert forall|i: int|
                0 <= i < w.terrain.creatures.len() && (#[trigger] w.terrain.creatures[i]).is_some() implies queue_suits(
                r5,
                w.terrain.creatures[i].unwrap(),
            ) by {
                let c = w.terrain.creatures[i].unwrap();
                assert(queue_suits(w.random, c));
                if c.program.len() >= 2 {
                    assert(r5.suits_len(c.program.len() as int));
                }
            }
        }
        if let Some(pos) = found {
            let ghost cell = self@.terrain.cell(pos);
            proof {
                lemma_cell(self@.terrain, pos);
            }
            self.terrain.set_creature_at(Some(creature), pos);
            proof {
                let after = self@.terrain;
                assert forall|i: int|
                    0 <= i < after.creatures.len() && (#[trigger] after.creatures[i]).is_some() implies after.creatures[i].unwrap().fit(
                    w.params,
                    w.cycle,
                ) && queue_suits(r5, after.creatures[i].unwrap()) by {
                    if i != cell {
                        assert(w.terrain.creatures[i].is_some());
                    }
                }
            }
        }
    }

    /// Makes the creature that the world starts with next.
    fn make_start_creature(&mut self) -> (creature: Creature)
        requires
            old(self)@.params.wf(),
            old(self)@.params.has_instr(Instr::MOV),
            old(self)@.params.has_instr(Instr::EAT),
            old(self)@.cycle == 10_000,
            old(self)@.random.all_queued_below(2),
        ensures
            creature@ == old(self)@.start_creature(),
            creature@.fit(old(self)@.params, old(self)@.cycle),
            creature@.program.len() == old(self)@.params.program_len(),
            final(self)@ == (WorldState {
                random: old(self)@.rng_after_program().after_draw(
                    old(self)@.cycle as u32,
                ).after_pick(4),
                ..old(self)@
            }),
            final(self)@.random.left_of(old(self)@.random),
    {
        let ghost w = self@;
        proof {
            lemma_instrs(w.params, 9);
            assert(w.params.ring_size * (w.params.ring_count - 1) + w.params.ring_size
                == w.params.ring_size * w.params.ring_count) by (nonlinear_arith);
            vstd::arithmetic::div_mod::lemma_mod_multiples_basic(
                w.params.ring_count as int,
                w.params.ring_size as int,
            );
        }
        let mut prog: Vec<Instr> = Vec::new();
        let mut head = base_strategy(self.params.ring_size, &mut self.random);
        prog.append(&mut head);
        let list = self.params.instr_list();
        let ghost r1 = self@.random;
        let ghost tail_len = (w.params.ring_size * (w.params.ring_count - 1)) as nat;
        proof {
            assert(instrs_of(list@) =~= w.params.instrs());
            // moving and eating are in use, so the list has two entries
            let mov = w.params.instrs().index_of(Instr::MOV);
            let eat = w.params.instrs().index_of(Instr::EAT);
            assert(w.params.instrs().contains(Instr::MOV));
            assert(w.params.instrs().contains(Instr::EAT));
            assert(w.params.instrs()[mov] != w.params.instrs()[eat]);
            assert(list@.len() >= 2);
            lemma_draw_shrinks(w.random, 2);
            lemma_left_of(r1, w.random);
            assert(r1.all_queued_below(2));
            lemma_draws_shrink(r1, list@.len() as u32, tail_len);
        }
        let mut tail = rand_program(
            list,
            self.params.ring_size * (self.params.ring_count - 1),
            &mut self.random,
        );
        proof {
            assert forall|i: int| 0 <= i < tail@.len() implies w.params.has_instr(
                #[trigger] tail@[i],
            ) by {
                let k = draw_index(r1, w.params.instrs().len() as u32, i);
                assert(0 <= k < w.params.instrs().len());
                assert(tail@[i] == w.params.instrs()[k]);
            }
        }
        prog.append(&mut tail);
        let mut creature = Creature::new(prog, &self.params);
        let ghost r2 = self@.random;
        proof {
            lemma_left_of_left(r2, r1, w.random);
            lemma_left_of(r2, w.random);
            assert(r2.all_queued_below(2));
            lemma_draw_shrinks(r2, w.cycle as u32);
        }
        creature.bcycle = self.random.next_u32(self.cycle as u32) as u64;
        let ghost r3 = self@.random;
        proof {
            lemma_left_of_left(r3, r2, w.random);
            lemma_draw_shrinks(r3, 4);
            lemma_left_of_left(r3.after_pick(4), r3, w.random);
        }
        let headings: [u16; 4] = [0, 90, 180, 270];
        creature.bearing = self.random.choose_one(&headings);
        proof {
            assert(creature@ =~= w.start_creature());
        }
        creature
    }

    /// Lets the world live through one cycle.
    pub fn do_one_cycle(&mut self)
        requires
            old(self)@.sound(),
            old(self)@.cycle < u64::MAX,
        ensures
            final(self)@ == old(self)@.advanced(),
            final(self)@.sound(),
            final(self)@.cycle == old(self)@.cycle + 1,
            final(self)@.params == old(self)@.params,
    {
        self.inc_worldtime();
        self.grow_plants();
        self.process_all_creatures();
    }

    /// Moves the clock of the world on by one cycle.
    pub fn inc_worldtime(&mut self)
        requires
            old(self)@.cycle < u64::MAX,
        ensures
            final(self)@ == old(self)@.ticked(),
            old(self)@.sound() ==> final(self)@.sound(),
    {
        self.cycle += 1;
    }

    fn grow_plants(&mut self)
        requires
            old(self)@.sound(),
        ensures
            final(self)@ == old(self)@.grown(),
            final(self)@.sound(),
    {
        let p = self.plant_prob();
        let drawn = self.random.pick_u32(PROB_ONE);
        if let Some(ep) = plant_growth(&self.params, p, drawn) {
            self.add_random_plant(ep);
        }
    }

    /// The probability in millionths that a plant grows in the current
    /// cycle.
    pub fn plant_prob(&self) -> (prob: u32)
        requires
            self.params.plant_prob <= PROB_ONE,
            self.params.plant_prob_end <= PROB_ONE,
        ensures
            prob == growth_prob(self.params, self.cycle),
            prob <= PROB_ONE,
    {
        plant_growth_prob(&self.params, self.cycle)
    }

    fn process_all_creatures(&mut self)
        requires
            old(self)@.sound(),
        ensures
            final(self)@ == old(self)@.processed(),
            final(self)@.sound(),
    {
        // the log and the random source go to the processor for the walk and
        // come back afterwards
        let mut processor = Processor {
            params: self.params,
            log: Log::new(),
            random: RNG::from_seed(&[0, 0, 0, 0]),
            cycle: self.cycle,
        };
        std::mem::swap(&mut processor.log, &mut self.log);
        std::mem::swap(&mut processor.random, &mut self.random);
        proof {
            lemma_walked_keeps(
                processor.state(),
                self@.terrain,
                0,
                self@.terrain.occupied.len() as int,
            );
        }
        self.terrain.do_with_creatures_mut(&mut processor);
        std::mem::swap(&mut processor.log, &mut self.log);
        std::mem::swap(&mut processor.random, &mut self.random);
    }

    /// Lets the world live through `num` cycles.
    pub fn do_cycles(&mut self, num: u64)
        requires
            old(self)@.sound(),
            old(self)@.cycle + num <= u64::MAX,
        ensures
            final(self)@ == old(self)@.after_cycles(num as nat),
            final(self)@.sound(),
            final(self)@.cycle == old(self)@.cycle + num,
            final(self)@.params == old(self)@.params,
    {
        let mut done: u64 = 0;
        while done < num
            invariant
                done <= num,
                self@.sound(),
                self@ == old(self)@.after_cycles(done as nat),
                self@.cycle == old(self)@.cycle + done,
                self@.params == old(self)@.params,
                old(self)@.cycle + num <= u64::MAX,
            decreases num - done,
        {
            self.do_one_cycle();
            done = done + 1;
        }
    }
    /// Lets the world live to the end of its run, logging the number of
    /// creatures at the start and after every logging interval. The run ends
    /// when no more than one creature is left or the configured last cycle
    /// has come; in that case the programs of the adult creatures are logged
    /// too.
    pub fn do_cycles_until_end(&mut self)
        requires
            old(self)@.sound(),
            old(self)@.params.log_interval >= 1,
            old(self)@.params.world_end + old(self)@.params.log_interval <= u64::MAX,
        ensures
            final(self)@ == old(self)@.logged().finished(),
            final(self)@.sound(),
            !final(self)@.running(),
            final(self)@.params == old(self)@.params,
    {
        self.log.add_entry(self.cycle);
        let n = self.num_creatures();
        self.log.set_num_creatures(n);
        let ghost start = self@;
        while self.num_creatures() > 1 && self.cycle < self.params.world_end
            invariant
                self@.sound(),
                self@.params == start.params,
                self@.params.log_interval >= 1,
                self@.params.world_end + self@.params.log_interval <= u64::MAX,
                self@.finished() == start.finished(),
            decreases self@.cycles_left(),
        {
            let log_period = self.params.log_interval;
            self.do_cycles(log_period);
            self.log.add_entry(self.cycle);
            let n = self.num_creatures();
            self.log.set_num_creatures(n);
            if self.cycle >= self.params.world_end {
                self.log_adults();
            }
        }
    }

    /// Logs the programs of the adult creatures.
    fn log_adults(&mut self)
        requires
            old(self)@.sound(),
        ensures
            final(self)@ == (WorldState {
                log: old(self)@.log.with_programs(
                    old(self)@.adults_below(old(self)@.terrain.occupied.len() as int),
                ),
                ..old(self)@
            }),
    {
        let all = self.terrain.all_creatures();
        let mut adults: Vec<&Creature> = Vec::new();
        let ghost w = self@;
        proof {
            lemma_occupied_len(w.terrain);
            lemma_cell_bound(w.terrain);
        }
        let mut k: usize = 0;
        while k < all.len()
            invariant
                k <= all@.len(),
                all@.len() == w.terrain.occupied.len() <= u32::MAX,
                w == self@,
                w.sound(),
                forall|i: int|
                    0 <= i < all@.len() ==> Some((#[trigger] all@[i])@)
                        == w.terrain.creatures[w.terrain.occupied[i] as int],
                adults@.len() <= k,
                forall|i: int| 0 <= i < adults@.len() ==> (#[trigger] adults@[i]).rsize > 0,
                renderings(adults@) == w.adults_below(k as int),
            decreases all@.len() - k,
        {
            let c = all[k];
            if c.age() > (self.params.creature_start_ep + self.params.eat_ep) as u64 {
                adults.push(c);
            }
            k = k + 1;
        }
        self.log.set_programs(adults);
    }

    /// Runs the world from its seeding to the end of its run.
    pub fn run(&mut self)
        requires
            old(self)@.seedable(),
            old(self)@.params.log_interval >= 1,
            old(self)@.params.world_end + old(self)@.params.log_interval <= u64::MAX,
        ensures
            final(self)@ == old(self)@.seeded().logged().finished(),
            final(self)@.sound(),
            !final(self)@.running(),
    {
        self.add_initial_plants_and_creatures();
        self.do_cycles_until_end();
    }
}

} // verus!
