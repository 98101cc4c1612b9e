//! Creatures and the interpreter that runs their programs.
//!
//! A creature's program is divided into rings of equal length. The program
//! counter walks round the current ring; only a jump takes it to another
//! ring. Each instruction takes a number of cycles before it takes effect.

use vstd::prelude::*;
use vstd::arithmetic::div_mod::lemma_fundamental_div_mod;
use vstd::arithmetic::div_mod::lemma_fundamental_div_mod_converse;
use vstd::arithmetic::div_mod::lemma_mod_pos_bound;
use vstd::string::StringExecFns;
use crate::genetics::can_splice;
use crate::genetics::cut_n_splice_crossover;
use crate::genetics::spliced_child;
use crate::genetics::spliced_rng;
use crate::log::Log;
use crate::log::LogState;
use crate::params::Params;
use crate::plant::Plant;
use crate::program::Instr;
use crate::random::lemma_draw_shrinks;
use crate::random::RngState;
use crate::random::RNG;
use crate::terrain::lemma_ahead_moves;
use crate::terrain::lemma_cell;
use crate::terrain::Terrain;
use crate::terrain::TerrainState;

verus! {

/// The mathematical state of a creature.
#[verifier::ext_equal]
pub struct CreatureState {
    /// The instructions that steer the creature.
    pub program: Seq<Instr>,
    /// The number of instructions in a ring.
    pub rsize: usize,
    /// The cycle in which the creature was born.
    pub bcycle: u64,
    /// The cycle in which the creature was last processed, 0 if never.
    pub lastprocd: u64,
    /// The heading in degrees: 0 is north, 90 east.
    pub bearing: u16,
    /// The energy points.
    pub ep: u32,
    /// The position in the program of the next instruction.
    pub pc: usize,
    /// The cycles left until the next instruction takes effect, 0 if it has
    /// not been looked at yet.
    pub cc: u64,
}

/// Whether `bearing` is one of the four headings.
pub open spec fn valid_bearing(bearing: u16) -> bool {
    bearing == 0 || bearing == 90 || bearing == 180 || bearing == 270
}

/// The heading `bearing` turned by `delta` degrees.
pub open spec fn turned(bearing: u16, delta: u16) -> u16 {
    ((bearing + delta) % 360) as u16
}

/// The heading `bearing` after `n` turns by `delta` degrees.
pub open spec fn turned_n(bearing: u16, delta: u16, n: nat) -> u16
    decreases n,
{
    if n == 0 {
        bearing
    } else {
        turned(turned_n(bearing, delta, (n - 1) as nat), delta)
    }
}

impl CreatureState {
    /// Whether the program consists of whole rings and the program counter
    /// points into it.
    pub open spec fn shaped(self) -> bool {
        &&& self.rsize > 0
        &&& (self.program.len() as int) % (self.rsize as int) == 0
        &&& self.pc < self.program.len() <= usize::MAX
    }

    /// The number of cycles between birth and the last processing.
    pub open spec fn age(self) -> u64 {
        if self.lastprocd == 0 {
            0
        } else {
            (self.lastprocd - self.bcycle) as u64
        }
    }

    /// The instruction that the program counter points to.
    pub open spec fn current_instr(self) -> Instr {
        self.program[self.pc as int]
    }

    /// The program counter moved to the next slot of its ring; after the last
    /// slot of the ring comes the first.
    pub open spec fn pc_next(self) -> usize {
        let r = self.rsize as int;
        let pc = self.pc as int;
        (pc - pc % r + (pc % r + 1) % r) as usize
    }

    /// The first slot of the ring after the one that the program counter is
    /// in; after the last ring comes the first.
    pub open spec fn pc_next_ring(self) -> usize {
        let r = self.rsize as int;
        (((self.pc as int / r + 1) % (self.program.len() as int / r)) * r) as usize
    }

    /// The creature with its program counter at `pc`.
    pub open spec fn with_pc(self, pc: usize) -> CreatureState {
        CreatureState { pc, ..self }
    }

    /// The creature with the heading `bearing`.
    pub open spec fn with_bearing(self, bearing: u16) -> CreatureState {
        CreatureState { bearing, ..self }
    }

    /// The creature with `ep` energy points.
    pub open spec fn with_ep(self, ep: u32) -> CreatureState {
        CreatureState { ep, ..self }
    }

    /// The creature with `cc` cycles left.
    pub open spec fn with_cc(self, cc: u64) -> CreatureState {
        CreatureState { cc, ..self }
    }

    /// A new creature with the given program, as the configuration shapes it.
    pub open spec fn fresh(program: Seq<Instr>, params: Params) -> CreatureState {
        CreatureState {
            program,
            rsize: params.ring_size,
            bcycle: 0,
            lastprocd: 0,
            bearing: 0,
            ep: params.creature_start_ep,
            pc: 0,
            cc: 0,
        }
    }
}

/// Moving on within a ring keeps the program counter in its ring, and in the
/// program if the program consists of whole rings.
pub proof fn lemma_pc_next(c: CreatureState)
    requires
        c.rsize > 0,
        c.shaped() || c.pc as int - c.pc as int % (c.rsize as int) + c.rsize <= usize::MAX,
    ensures
        c.pc_next() as int == c.pc as int - c.pc as int % (c.rsize as int) + (c.pc as int % (
        c.rsize as int) + 1) % (c.rsize as int),
        c.pc_next() as int / (c.rsize as int) == c.pc as int / (c.rsize as int),
        c.shaped() ==> c.pc_next() < c.program.len(),
{
    let r = c.rsize as int;
    let pc = c.pc as int;
    let q = pc / r;
    let m = pc % r;
    let t = (m + 1) % r;
    lemma_fundamental_div_mod(pc, r);
    lemma_mod_pos_bound(pc, r);
    lemma_mod_pos_bound(m + 1, r);
    lemma_mod_at_most(pc, r);
    lemma_fundamental_div_mod_converse(q * r + t, r, q, t);
    if c.shaped() {
        let len = c.program.len() as int;
        let rings = len / r;
        lemma_fundamental_div_mod(len, r);
        assert(q < rings) by (nonlinear_arith)
            requires
                r * q + m < r * rings,
                m >= 0,
                r > 0,
        ;
        assert(r * q + r <= r * rings) by (nonlinear_arith)
            requires
                q < rings,
                r > 0,
        ;
    }
}

/// A jump to the next ring lands on the first slot of a ring that lies
/// within the program.
pub proof fn lemma_pc_next_ring(c: CreatureState)
    requires
        c.rsize > 0,
        c.shaped() || c.rsize <= c.program.len(),
        c.program.len() <= usize::MAX,
    ensures
        c.program.len() as int / (c.rsize as int) > 0,
        c.pc_next_ring() as int == ((c.pc as int / (c.rsize as int) + 1) % (c.program.len() as int
            / (c.rsize as int))) * (c.rsize as int),
        c.pc_next_ring() + c.rsize <= c.program.len(),
        c.pc_next_ring() as int % (c.rsize as int) == 0,
{
    let r = c.rsize as int;
    let pc = c.pc as int;
    let len = c.program.len() as int;
    let rings = len / r;
    lemma_fundamental_div_mod(len, r);
    lemma_mod_pos_bound(len, r);
    assert(rings > 0) by (nonlinear_arith)
        requires
            len == r * rings + len % r,
            len % r < r,
            len >= r || (len > 0 && len % r == 0),
            r > 0,
    ;
    let ring = (pc / r + 1) % rings;
    lemma_mod_pos_bound(pc / r + 1, rings);
    assert(0 <= ring * r && ring * r + r <= rings * r) by (nonlinear_arith)
        requires
            0 <= ring < rings,
            r > 0,
    ;
    lemma_fundamental_div_mod_converse(ring * r + 0, r, ring, 0);
}

/// In a program of whole rings the ring of the program counter lies within
/// the program.
pub proof fn lemma_ring_within(c: CreatureState)
    requires
        c.shaped(),
    ensures
        c.rsize <= c.program.len(),
        c.pc as int - c.pc as int % (c.rsize as int) + c.rsize <= c.program.len(),
{
    lemma_pc_next(c);
    lemma_pc_next_ring(c);
    let r = c.rsize as int;
    let pc = c.pc as int;
    let len = c.program.len() as int;
    lemma_fundamental_div_mod(pc, r);
    lemma_fundamental_div_mod(len, r);
    lemma_mod_pos_bound(pc, r);
    let q = pc / r;
    let rings = len / r;
    assert(q < rings) by (nonlinear_arith)
        requires
            r * q + pc % r < r * rings,
            pc % r >= 0,
            r > 0,
    ;
    assert(r * q + r <= r * rings) by (nonlinear_arith)
        requires
            q < rings,
            r > 0,
    ;
    assert(r <= r * rings) by (nonlinear_arith)
        requires
            rings >= 1,
            r > 0,
    ;
}

/// Neither the quotient nor the remainder of a division of a natural number
/// exceeds that number.
pub proof fn lemma_mod_at_most(x: int, d: int)
    requires
        0 <= x,
        0 < d,
    ensures
        0 <= x % d <= x,
        0 <= x / d <= x,
{
    lemma_fundamental_div_mod(x, d);
    lemma_mod_pos_bound(x, d);
    let q = x / d;
    let m = x % d;
    assert(0 <= q) by (nonlinear_arith)
        requires
            x == d * q + m,
            0 <= x,
            m < d,
            d > 0,
    ;
    assert(q <= d * q) by (nonlinear_arith)
        requires
            0 <= q,
            d >= 1,
    ;
}

/// A creature.
pub struct Creature {
    /// The instructions that steer the creature.
    pub program: Vec<Instr>,
    /// The number of instructions in a ring.
    pub rsize: usize,
    /// The cycle in which the creature was born.
    pub bcycle: u64,
    /// The cycle in which the creature was last processed, 0 if never.
    pub lastprocd: u64,
    /// The heading in degrees: 0 is north, 90 east.
    pub bearing: u16,
    /// The energy points.
    pub ep: u32,
    /// The position in the program of the next instruction.
    pub pc: usize,
    /// The cycles left until the next instruction takes effect.
    pub cc: u64,
}

impl View for Creature {
    type V = CreatureState;

    open spec fn view(&self) -> CreatureState {
        CreatureState {
            program: self.program@,
            rsize: self.rsize,
            bcycle: self.bcycle,
            lastprocd: self.lastprocd,
            bearing: self.bearing,
            ep: self.ep,
            pc: self.pc,
            cc: self.cc,
        }
    }
}

/// The mathematical state of the surroundings in which a creature is
/// processed.
#[verifier::ext_equal]
pub struct ContextState {
    /// The configuration of the run.
    pub params: Params,
    /// The log of the run.
    pub stats: LogState,
    /// The random source of the run.
    pub random: RngState,
    /// The terrain, from which the creature has been taken out.
    pub terrain: TerrainState,
    /// The current cycle of the world.
    pub world_cycle: u64,
    /// The position of the creature.
    pub pos: (u32, u32),
}

/// A creature together with its surroundings.
#[verifier::ext_equal]
pub struct Step {
    /// The creature.
    pub creature: CreatureState,
    /// Its surroundings.
    pub ctx: ContextState,
}

/// Whether a cut and splice crossover can put a window of the program of `b`
/// into the program of `a`, whatever the length of the window: the program
/// of `b` has at least two instructions and is at most one instruction
/// longer than that of `a`.
pub open spec fn crossable(a: CreatureState, b: CreatureState) -> bool {
    &&& b.program.len() >= 2
    &&& a.program.len() + 1 >= b.program.len()
}

/// Whether the creature `a` can mate with the creature `b` without failing:
/// their programs can be crossed, and with more than the energy required
/// for mating `a` can pay the starting energy of the offspring.
pub open spec fn can_pair(a: CreatureState, b: CreatureState, params: Params) -> bool {
    crossable(a, b) && params.creature_start_ep <= params.min_mating_ep
}

/// Whether what is queued in the random source suits the creature `c`: if
/// the creature is long enough to mate, the queued values can answer the
/// draws of a crossover with its program.
pub open spec fn queue_suits(rng: RngState, c: CreatureState) -> bool {
    c.program.len() >= 2 ==> rng.suits_len(c.program.len() as int)
}

/// The heading with the number `i`, counted clockwise from north.
pub open spec fn heading(i: int) -> u16 {
    (90 * i) as u16
}

impl CreatureState {
    /// Whether the creature can be processed in a run with the configuration
    /// `params`: its program consists of whole rings, of its own ring size as
    /// well as of the configured one, and uses only instructions that are in
    /// use; its heading is one of the four, its energy is within the limit,
    /// and it was not processed before its birth.
    pub open spec fn sound(self, params: Params) -> bool {
        &&& self.shaped()
        &&& self.program.len() <= u32::MAX
        &&& params.ring_size > 0
        &&& (self.program.len() as int) % (params.ring_size as int) == 0
        &&& valid_bearing(self.bearing)
        &&& self.ep <= params.creature_max_ep
        &&& (self.lastprocd == 0 || self.bcycle <= self.lastprocd)
        &&& forall|k: int|
            0 <= k < self.program.len() ==> params.has_instr(#[trigger] self.program[k])
    }

    /// Whether the creature is in order in the cycle `cycle`: it has energy
    /// left, and it was neither born nor processed after that cycle.
    pub open spec fn alive(self, cycle: u64) -> bool {
        &&& self.ep >= 1
        &&& self.bcycle <= cycle
        &&& self.lastprocd <= cycle
    }

    /// Whether the creature can be processed in the cycle `cycle` of a run
    /// with the configuration `params`.
    pub open spec fn fit(self, params: Params, cycle: u64) -> bool {
        self.sound(params) && self.alive(cycle)
    }

    /// Whether the creature is ready to mate with `other`: it has more than
    /// the required energy, and the other one is old enough.
    pub open spec fn can_mate(self, other: CreatureState, params: Params) -> bool {
        self.ep > params.min_mating_ep && other.age() > (params.creature_start_ep
            + params.eat_ep) as u64
    }

    /// The offspring of the creature and `other`: its program is a cut and
    /// splice crossover of theirs, it is born in the current cycle, and its
    /// heading is drawn after the crossover.
    pub open spec fn offspring(self, other: CreatureState, x: ContextState) -> CreatureState {
        CreatureState {
            program: spliced_child(self.program, other.program, x.random),
            rsize: x.params.ring_size,
            bcycle: x.world_cycle,
            lastprocd: 0,
            bearing: heading(spliced_rng(self.program, other.program, x.random).picked(4) as int),
            ep: x.params.creature_start_ep,
            pc: 0,
            cc: 0,
        }
    }
}

impl ContextState {
    /// The surroundings with the creature at `pos`.
    pub open spec fn with_pos(self, pos: (u32, u32)) -> ContextState {
        ContextState { pos, ..self }
    }

    /// The surroundings with the terrain `terrain`.
    pub open spec fn with_terrain(self, terrain: TerrainState) -> ContextState {
        ContextState { terrain, ..self }
    }

    /// The surroundings with the random source `random`.
    pub open spec fn with_random(self, random: RngState) -> ContextState {
        ContextState { random, ..self }
    }

    /// The surroundings with the log `stats`.
    pub open spec fn with_stats(self, stats: LogState) -> ContextState {
        ContextState { stats, ..self }
    }

    /// Whether every creature of the terrain can be processed.
    pub open spec fn creatures_sound(self) -> bool {
        forall|i: int|
            0 <= i < self.terrain.creatures.len() && (#[trigger] self.terrain.creatures[i]).is_some()
                ==> self.terrain.creatures[i].unwrap().fit(self.params, self.world_cycle)
    }

    /// Whether the creature `c` can mate without failing with every creature
    /// of the terrain that it is ready to mate with: the crossover of their
    /// programs can make its draws, with what is queued in the random source,
    /// and the creature keeps energy to live on when it has paid the starting
    /// energy of the offspring.
    pub open spec fn matches(self, c: CreatureState) -> bool {
        forall|i: int|
            0 <= i < self.terrain.creatures.len() && (#[trigger] self.terrain.creatures[i]).is_some()
                && c.can_mate(self.terrain.creatures[i].unwrap(), self.params) ==> can_splice(
                c.program.len() as int,
                self.terrain.creatures[i].unwrap().program.len() as int,
                self.random,
            ) && c.ep > self.params.creature_start_ep
    }

    /// Whether the creature `c`, taken out of the cell `hole`, can be
    /// processed in these surroundings.
    pub open spec fn fits(self, c: CreatureState, hole: int) -> bool {
        &&& c.fit(self.params, self.world_cycle)
        &&& self.sound(hole)
        &&& self.matches(c)
    }

    /// Whether a creature taken out of the cell `hole` can be processed in
    /// these surroundings: the configuration is usable, the terrain is
    /// consistent but for that cell, the creature stands on the grid, its
    /// cell is free, and every creature of the terrain can be processed.
    pub open spec fn sound(self, hole: int) -> bool {
        &&& self.params.wf()
        &&& self.terrain.wf_lifted(hole)
        &&& self.terrain.in_grid(self.pos)
        &&& self.terrain.creature_at(self.pos).is_none()
        &&& self.creatures_sound()
    }
}

/// The outcome of eating: the creature takes from the plant in its cell what
/// it can hold, at most the configured amount. A plant that holds less than
/// that is eaten up and leaves the terrain.
pub open spec fn ate(c: CreatureState, x: ContextState) -> Step {
    match x.terrain.plant_at(x.pos) {
        None => Step { creature: c, ctx: x },
        Some(plant) => {
            let room = (x.params.creature_max_ep - c.ep) as u32;
            let cap = if x.params.eat_ep <= room {
                x.params.eat_ep
            } else {
                room
            };
            if plant.ep < cap {
                Step {
                    creature: c.with_ep((c.ep + plant.ep) as u32),
                    ctx: x.with_terrain(x.terrain.with_plant(x.terrain.cell(x.pos), None)),
                }
            } else {
                Step {
                    creature: c.with_ep((c.ep + cap) as u32),
                    ctx: x.with_terrain(
                        x.terrain.with_plant(
                            x.terrain.cell(x.pos),
                            Some(Plant { ep: (plant.ep - cap) as u32 }),
                        ),
                    ),
                }
            }
        },
    }
}

/// The outcome of an attempt to mate with the creature at `partner_pos`: if
/// both are ready, the offspring is put at `offspring_pos` and the creature
/// pays the starting energy of the offspring.
pub open spec fn mated(
    c: CreatureState,
    partner_pos: (u32, u32),
    offspring_pos: (u32, u32),
    x: ContextState,
) -> Step {
    match x.terrain.creature_at(partner_pos) {
        None => Step { creature: c, ctx: x },
        Some(other) => {
            if c.can_mate(other, x.params) {
                Step {
                    creature: c.with_ep((c.ep - x.params.creature_start_ep) as u32),
                    ctx: x.with_random(
                        spliced_rng(c.program, other.program, x.random).after_pick(4),
                    ).with_terrain(
                        x.terrain.with_creature(
                            x.terrain.cell(offspring_pos),
                            Some(c.offspring(other, x)),
                        ),
                    ),
                }
            } else {
                Step { creature: c, ctx: x }
            }
        },
    }
}

/// The outcome of moving: the creature steps ahead if the cell there is
/// free. If it is not, the creature tries to mate with the creature there,
/// provided that one of its own neighbouring cells is free for the offspring.
pub open spec fn moved(c: CreatureState, x: ContextState) -> Step {
    let target = x.terrain.ahead(x.pos, c.bearing);
    if x.terrain.creature_at(target).is_none() {
        Step { creature: c, ctx: x.with_pos(target) }
    } else {
        match x.terrain.free_near(x.pos) {
            Some(offspring_pos) => mated(c, target, offspring_pos, x),
            None => Step { creature: c, ctx: x },
        }
    }
}

/// The effect of the instruction `instr` on a creature whose program counter
/// has already moved on.
pub open spec fn effect(instr: Instr, c: CreatureState, x: ContextState) -> Step {
    match instr {
        Instr::NOP => Step { creature: c, ctx: x },
        Instr::TUR => Step { creature: c.with_bearing(turned(c.bearing, 90)), ctx: x },
        Instr::TUL => Step { creature: c.with_bearing(turned(c.bearing, 270)), ctx: x },
        Instr::MOV => moved(c, x),
        Instr::EAT => ate(c, x),
        Instr::JMP => Step { creature: c.with_pc(c.pc_next_ring()), ctx: x },
        Instr::JMZ => Step { creature: c.with_pc(0), ctx: x },
        Instr::BFH => if x.terrain.plant_at(x.pos).is_some() {
            Step { creature: c.with_pc(c.pc_next_ring()), ctx: x }
        } else {
            Step { creature: c, ctx: x }
        },
        Instr::BFA => if x.terrain.plant_in_view(x.pos, c.bearing, x.params.view_distance as nat) {
            Step { creature: c.with_pc(c.pc_next_ring()), ctx: x }
        } else {
            Step { creature: c, ctx: x }
        },
    }
}

/// The effect of the instruction `instr`, counted in the log.
pub open spec fn executed(instr: Instr, c: CreatureState, x: ContextState) -> Step {
    let s = effect(instr, c, x);
    Step { creature: s.creature, ctx: s.ctx.with_stats(s.ctx.stats.counted(instr)) }
}

/// The creature after it has looked at its next instruction, if it had not
/// done so yet: the instruction's cycles are what it has to wait.
pub open spec fn fetched(c: CreatureState, params: Params) -> CreatureState {
    if c.cc > 0 {
        c
    } else {
        c.with_cc(params.cycles_of(c.current_instr()))
    }
}

/// One cycle in the life of a creature: it waits one cycle less for its next
/// instruction; when the wait is over, the program counter moves on within
/// its ring and the instruction takes effect.
pub open spec fn cycled(c: CreatureState, x: ContextState) -> Step {
    let f = fetched(c, x.params);
    let waited = f.with_cc((f.cc - 1) as u64);
    if waited.cc > 0 {
        Step { creature: waited, ctx: x }
    } else {
        executed(waited.current_instr(), waited.with_pc(waited.pc_next()), x)
    }
}

/// Whether the surroundings `after` have come out of `before` by the
/// processing of the creature `c`, taken out of the cell `hole`: they are
/// still fit for processing, what is queued is what was left of the queue,
/// a creature that was not there before is an offspring of `c` and of a
/// creature of the terrain and has a program as long as that of `c`, and
/// neither the configuration nor the cycle nor the order of the occupied
/// cells has changed.
pub open spec fn kept(before: ContextState, after: ContextState, hole: int, c: CreatureState) -> bool {
    &&& after.sound(hole)
    &&& after.random.left_of(before.random)
    &&& forall|i: int|
        0 <= i < after.terrain.creatures.len() && (#[trigger] after.terrain.creatures[i]).is_some()
            ==> after.terrain.creatures[i] == before.terrain.creatures[i] || (
        after.terrain.creatures[i].unwrap().program.len() == c.program.len()
            && before.terrain.has_creature())
    &&& after.params == before.params
    &&& after.world_cycle == before.world_cycle
    &&& after.terrain.grown_from(before.terrain)
}

/// The creature and its surroundings after `n` cycles in which nothing else
/// touches the surroundings.
pub open spec fn cycled_n(c: CreatureState, x: ContextState, n: nat) -> Step
    decreases n,
{
    if n == 0 {
        Step { creature: c, ctx: x }
    } else {
        cycled(cycled_n(c, x, (n - 1) as nat).creature, cycled_n(c, x, (n - 1) as nat).ctx)
    }
}

/// While a creature waits for an instruction that takes `cost` cycles,
/// nothing changes but the count of the cycles that are left.
pub proof fn lemma_waiting(c: CreatureState, x: ContextState, k: nat)
    requires
        c.cc == 0,
        x.params.has_instr(c.current_instr()),
        1 <= k < x.params.cycles_of(c.current_instr()),
    ensures
        cycled_n(c, x, k) == (Step {
            creature: c.with_cc((x.params.cycles_of(c.current_instr()) - k) as u64),
            ctx: x,
        }),
    decreases k,
{
    let cost = x.params.cycles_of(c.current_instr());
    if k > 1 {
        lemma_waiting(c, x, (k - 1) as nat);
    } else {
        assert(cycled_n(c, x, 0) == (Step { creature: c, ctx: x }));
    }
}

/// A creature that is about to move relocates to the cell ahead after
/// exactly as many cycles as moving takes, and not before: from `(x, y)` it
/// comes to `(x, y - 1)` when it faces north and to `(x + 1, y)` when it faces
/// east, each taken modulo the side of the terrain. The cell ahead must be
/// free.
pub proof fn lemma_move_takes_its_cycles(c: CreatureState, x: ContextState)
    requires
        c.cc == 0,
        c.current_instr() == Instr::MOV,
        x.params.has_instr(Instr::MOV),
        x.params.cycles_of(Instr::MOV) >= 1,
        x.terrain.creature_at(x.terrain.ahead(x.pos, c.bearing)).is_none(),
    ensures
        forall|k: nat|
            k < x.params.cycles_of(Instr::MOV) ==> (#[trigger] cycled_n(c, x, k)).ctx.pos == x.pos,
        cycled_n(c, x, x.params.cycles_of(Instr::MOV) as nat).ctx.pos == x.terrain.ahead(
            x.pos,
            c.bearing,
        ),
        c.bearing == 0 ==> x.terrain.ahead(x.pos, c.bearing) == (
            x.pos.0,
            ((x.pos.1 + x.terrain.size - 1) % (x.terrain.size as int)) as u32,
        ),
        c.bearing == 90 ==> x.terrain.ahead(x.pos, c.bearing) == (
            ((x.pos.0 + 1) % (x.terrain.size as int)) as u32,
            x.pos.1,
        ),
{
    let cost = x.params.cycles_of(Instr::MOV) as nat;
    assert forall|k: nat| k < cost implies (#[trigger] cycled_n(c, x, k)).ctx.pos == x.pos by {
        if k >= 1 {
            lemma_waiting(c, x, k);
        }
    }
    if cost >= 2 {
        lemma_waiting(c, x, (cost - 1) as nat);
    }
    let before = cycled_n(c, x, (cost - 1) as nat);
}

/// Eating from a plant: a creature that has room for a whole meal takes the
/// configured amount from a plant that holds at least that much, and the
/// plant keeps the rest; it takes all from a plant that holds less, and that
/// plant leaves the terrain.
pub proof fn lemma_eating(c: CreatureState, x: ContextState, plant: Plant)
    requires
        x.terrain.plant_at(x.pos) == Some(plant),
        0 <= x.terrain.cell(x.pos) < x.terrain.plants.len(),
        c.ep + x.params.eat_ep <= x.params.creature_max_ep,
    ensures
        plant.ep >= x.params.eat_ep ==> ate(c, x).creature.ep == c.ep + x.params.eat_ep && ate(
            c,
            x,
        ).ctx.terrain.plant_at(x.pos) == Some(Plant { ep: (plant.ep - x.params.eat_ep) as u32 }),
        plant.ep < x.params.eat_ep ==> ate(c, x).creature.ep == c.ep + plant.ep && ate(
            c,
            x,
        ).ctx.terrain.plant_at(x.pos).is_none(),
        ate(c, x).creature.ep <= x.params.creature_max_ep,
{
}

/// Eating never takes a creature above the greatest energy, and what the
/// creature gains is what the plant loses.
pub proof fn lemma_eating_is_capped(c: CreatureState, x: ContextState, plant: Plant)
    requires
        x.terrain.plant_at(x.pos) == Some(plant),
        0 <= x.terrain.cell(x.pos) < x.terrain.plants.len(),
        c.ep <= x.params.creature_max_ep,
    ensures
        c.ep <= ate(c, x).creature.ep <= x.params.creature_max_ep,
        ate(c, x).creature.ep - c.ep <= x.params.eat_ep,
        ate(c, x).creature.ep - c.ep <= plant.ep,
        ate(c, x).ctx.terrain.plant_at(x.pos) matches Some(rest) ==> rest.ep == plant.ep - (ate(
            c,
            x,
        ).creature.ep - c.ep),
        ate(c, x).ctx.terrain.plant_at(x.pos).is_none() ==> ate(c, x).creature.ep - c.ep
            == plant.ep,
{
}

/// Whatever stands in the cell of a creature, a plant or none, eating never
/// lowers the energy of the creature and never takes it above the greatest
/// energy.
pub proof fn lemma_eating_keeps_bounds(c: CreatureState, x: ContextState)
    requires
        c.ep <= x.params.creature_max_ep,
    ensures
        c.ep <= ate(c, x).creature.ep <= x.params.creature_max_ep,
        ate(c, x).creature.pc == c.pc,
        ate(c, x).creature.program == c.program,
{
}

/// The surroundings in which a creature is processed.
pub struct PContext<'a> {
    /// The configuration of the run.
    pub params: &'a Params,
    /// The log of the run.
    pub stats: &'a mut Log,
    /// The random source of the run.
    pub random: &'a mut RNG,
    /// The terrain, from which the creature has been taken out.
    pub terrain: &'a mut Terrain,
    /// The current cycle of the world.
    pub world_cycle: u64,
    /// The position of the creature.
    pub pos: (u32, u32),
}

impl<'a> View for PContext<'a> {
    type V = ContextState;

    open spec fn view(&self) -> ContextState {
        ContextState {
            params: *self.params,
            stats: (*self.stats)@,
            random: (*self.random)@,
            terrain: (*self.terrain)@,
            world_cycle: self.world_cycle,
            pos: self.pos,
        }
    }
}

impl<'a> PContext<'a> {
    /// The surroundings made of the given parts.
    pub fn new(
        params: &'a Params,
        stats: &'a mut Log,
        random: &'a mut RNG,
        terrain: &'a mut Terrain,
        world_cycle: u64,
        pos: (u32, u32),
    ) -> (ctx: PContext<'a>)
        ensures
            ctx@ == (ContextState {
                params: *params,
                stats: old(stats)@,
                random: old(random)@,
                terrain: old(terrain)@,
                world_cycle,
                pos,
            }),
            *final(ctx.stats) == *final(stats),
            *final(ctx.random) == *final(random),
            *final(ctx.terrain) == *final(terrain),
    {
        PContext { params, stats, random, terrain, world_cycle, pos }
    }
}

/// The name of an instruction.
pub open spec fn instr_name(instr: Instr) -> Seq<char> {
    match instr {
        Instr::NOP => "NOP"@,
        Instr::TUR => "TUR"@,
        Instr::TUL => "TUL"@,
        Instr::MOV => "MOV"@,
        Instr::EAT => "EAT"@,
        Instr::JMP => "JMP"@,
        Instr::JMZ => "JMZ"@,
        Instr::BFH => "BFH"@,
        Instr::BFA => "BFA"@,
    }
}

/// The first `n` instructions of a program in readable form: each name is
/// followed by a blank, and each full ring by a semicolon and a blank.
pub open spec fn rendered(program: Seq<Instr>, rsize: int, n: int) -> Seq<char>
    decreases n,
{
    if n <= 0 {
        Seq::empty()
    } else {
        rendered(program, rsize, n - 1) + instr_name(program[n - 1]) + " "@ + (if n % rsize == 0 {
            "; "@
        } else {
            Seq::empty()
        })
    }
}

fn name_of(instr: Instr) -> (name: &'static str)
    ensures
        name@ == instr_name(instr),
{
    match instr {
        Instr::NOP => "NOP",
        Instr::TUR => "TUR",
        Instr::TUL => "TUL",
        Instr::MOV => "MOV",
        Instr::EAT => "EAT",
        Instr::JMP => "JMP",
        Instr::JMZ => "JMZ",
        Instr::BFH => "BFH",
        Instr::BFA => "BFA",
    }
}

impl Creature {
    /// A new creature with the given program: it faces north, has the
    /// starting energy and begins at the first instruction.
    pub fn new(program: Vec<Instr>, params: &Params) -> (c: Creature)
        ensures
            c@ == CreatureState::fresh(program@, *params),
    {
        Creature {
            program,
            rsize: params.ring_size,
            bcycle: 0,
            lastprocd: 0,
            bearing: 0,
            ep: params.creature_start_ep,
            pc: 0,
            cc: 0,
        }
    }

    /// Sets the program counter to the first instruction of the program.
    pub fn pc_reset(&mut self)
        ensures
            final(self)@ == old(self)@.with_pc(0),
    {
        self.pc = 0;
    }

    /// Moves the program counter to the next slot of its ring.
    pub fn pc_incr(&mut self)
        requires
            old(self).rsize > 0,
            old(self).pc as int - old(self).pc as int % (old(self).rsize as int) + old(self).rsize
                <= usize::MAX,
        ensures
            final(self)@ == old(self)@.with_pc(old(self)@.pc_next()),
            final(self).pc as int / (old(self).rsize as int) == old(self).pc as int / (old(
                self,
            ).rsize as int),
            old(self)@.shaped() ==> final(self)@.shaped(),
    {
        proof {
            lemma_pc_next(self@);
            lemma_mod_pos_bound(self.pc as int, self.rsize as int);
            lemma_mod_pos_bound(self.pc as int % (self.rsize as int) + 1, self.rsize as int);
            lemma_mod_at_most(self.pc as int, self.rsize as int);
        }
        let pc_ring = self.pc % self.rsize;
        let new_pc_ring = (pc_ring + 1) % self.rsize;
        self.pc = self.pc - pc_ring + new_pc_ring;
    }

    /// Moves the program counter to the first slot of the next ring. The
    /// program must hold at least one ring.
    pub fn pc_incr_ring(&mut self)
        requires
            old(self).rsize > 0,
            old(self).rsize <= old(self).program@.len(),
            old(self).pc < usize::MAX,
        ensures
            final(self)@ == old(self)@.with_pc(old(self)@.pc_next_ring()),
            final(self).pc + final(self).rsize <= final(self).program@.len(),
            old(self)@.shaped() ==> final(self)@.shaped(),
    {
        let len = self.program.len();
        proof {
            lemma_pc_next_ring(self@);
            lemma_mod_at_most(self.pc as int, self.rsize as int);
        }
        let ring = self.pc / self.rsize;
        let new_ring = (ring + 1) % (len / self.rsize);
        self.pc = new_ring * self.rsize;
    }

    /// The instruction that the program counter points to.
    pub fn current_instr(&self) -> (instr: Instr)
        requires
            self.pc < self.program@.len(),
        ensures
            instr == self@.current_instr(),
    {
        self.program[self.pc]
    }

    /// Turns the creature by `delta` degrees.
    pub fn add_to_bearing(&mut self, delta: u16)
        requires
            old(self).bearing + delta <= u16::MAX,
        ensures
            final(self)@ == old(self)@.with_bearing(turned(old(self).bearing, delta)),
            final(self).bearing < 360,
    {
        self.bearing = (self.bearing + delta) % 360
    }

    /// The number of cycles between birth and the last processing; 0 for a
    /// creature that has not been processed yet.
    pub fn age(&self) -> (age: u64)
        requires
            self.lastprocd == 0 || self.bcycle <= self.lastprocd,
        ensures
            age == self@.age(),
    {
        if self.lastprocd == 0 {
            return 0;
        }
        self.lastprocd - self.bcycle
    }

    /// Processes the creature for one cycle and returns the position at
    /// which it stands afterwards.
    ///
    /// The creature must have been taken out of the terrain, from the cell of
    /// the position that `ctx` gives.
    pub fn do_cycle(&mut self, ctx: &mut PContext) -> (pos: (u32, u32))
        requires
            old(ctx)@.fits(old(self)@, old(ctx)@.terrain.cell(old(ctx)@.pos)),
        ensures
            (Step { creature: final(self)@, ctx: final(ctx)@ }) == cycled(old(self)@, old(ctx)@),
            pos == final(ctx)@.pos,
            final(self).pc < final(self).program@.len(),
            1 <= final(self).ep <= old(ctx)@.params.creature_max_ep,
            final(self)@.fit(old(ctx)@.params, old(ctx)@.world_cycle),
            kept(old(ctx)@, final(ctx)@, old(ctx)@.terrain.cell(old(ctx)@.pos), final(self)@),
            final(self).program@ == old(self).program@,
            *final(final(ctx).stats) == *final(old(ctx).stats),
            *final(final(ctx).random) == *final(old(ctx).random),
            *final(final(ctx).terrain) == *final(old(ctx).terrain),
    {
        self.fetch_instr_if_necessary(ctx.params);
        self.cc -= 1;
        self.exec_instr_when_ready(ctx);
        ctx.pos
    }

    fn fetch_instr_if_necessary(&mut self, params: &Params)
        requires
            old(self)@.sound(*params),
            params.wf(),
        ensures
            final(self)@ == fetched(old(self)@, *params),
            final(self).cc >= 1,
    {
        if self.cc > 0 {
            return ;
        }
        let instr = self.current_instr();
        self.cc = params.instr_cycles(&instr);
    }

    fn exec_instr_when_ready(&mut self, ctx: &mut PContext)
        requires
            old(ctx)@.fits(old(self)@, old(ctx)@.terrain.cell(old(ctx)@.pos)),
        ensures
            (Step { creature: final(self)@, ctx: final(ctx)@ }) == (if old(self).cc > 0 {
                Step { creature: old(self)@, ctx: old(ctx)@ }
            } else {
                executed(
                    old(self)@.current_instr(),
                    old(self)@.with_pc(old(self)@.pc_next()),
                    old(ctx)@,
                )
            }),
            final(self)@.fit(old(ctx)@.params, old(ctx)@.world_cycle),
            kept(old(ctx)@, final(ctx)@, old(ctx)@.terrain.cell(old(ctx)@.pos), final(self)@),
            final(self).program@ == old(self).program@,
            *final(final(ctx).stats) == *final(old(ctx).stats),
            *final(final(ctx).random) == *final(old(ctx).random),
            *final(final(ctx).terrain) == *final(old(ctx).terrain),
    {
        if self.cc > 0 {
            proof {
                assert(ctx@.terrain.occupied.take(ctx@.terrain.occupied.len() as int)
                    =~= ctx@.terrain.occupied);
                lemma_draw_shrinks(ctx@.random, 1);
            }
            return ;
        }
        let instr = self.current_instr();
        proof {
            lemma_ring_within(self@);
        }
        self.pc_incr();
        self.exec_instr(instr, ctx);
    }

    fn exec_instr(&mut self, instr: Instr, ctx: &mut PContext)
        requires
            old(ctx)@.fits(old(self)@, old(ctx)@.terrain.cell(old(ctx)@.pos)),
        ensures
            (Step { creature: final(self)@, ctx: final(ctx)@ }) == executed(
                instr,
                old(self)@,
                old(ctx)@,
            ),
            final(self)@.fit(old(ctx)@.params, old(ctx)@.world_cycle),
            kept(old(ctx)@, final(ctx)@, old(ctx)@.terrain.cell(old(ctx)@.pos), final(self)@),
            final(self).program@ == old(self).program@,
            *final(final(ctx).stats) == *final(old(ctx).stats),
            *final(final(ctx).random) == *final(old(ctx).random),
            *final(final(ctx).terrain) == *final(old(ctx).terrain),
    {
        proof {
            assert(ctx@.terrain.occupied.take(ctx@.terrain.occupied.len() as int)
                =~= ctx@.terrain.occupied);
            lemma_draw_shrinks(ctx@.random, 1);
        }
        match instr {
            Instr::TUR => self.exec_turn_right(),
            Instr::TUL => self.exec_turn_left(),
            Instr::MOV => self.exec_move(ctx),
            Instr::EAT => self.exec_eat(ctx),
            Instr::JMP => self.exec_jump(),
            Instr::JMZ => self.exec_jump_zero(),
            Instr::BFH => self.exec_branch_food_here(ctx),
            Instr::BFA => self.exec_branch_food_ahead(ctx),
            Instr::NOP => self.exec_nop(),
        }
        ctx.stats.incr_instr_counter(instr);
    }

    fn exec_turn_right(&mut self)
        requires
            valid_bearing(old(self).bearing),
        ensures
            final(self)@ == old(self)@.with_bearing(turned(old(self).bearing, 90)),
            valid_bearing(final(self).bearing),
    {
        self.add_to_bearing(90);
    }

    fn exec_turn_left(&mut self)
        requires
            valid_bearing(old(self).bearing),
        ensures
            final(self)@ == old(self)@.with_bearing(turned(old(self).bearing, 270)),
            valid_bearing(final(self).bearing),
    {
        self.add_to_bearing(270);
    }

    fn exec_move(&mut self, ctx: &mut PContext)
        requires
            old(ctx)@.fits(old(self)@, old(ctx)@.terrain.cell(old(ctx)@.pos)),
        ensures
            (Step { creature: final(self)@, ctx: final(ctx)@ }) == moved(old(self)@, old(ctx)@),
            final(self)@.fit(old(ctx)@.params, old(ctx)@.world_cycle),
            kept(old(ctx)@, final(ctx)@, old(ctx)@.terrain.cell(old(ctx)@.pos), final(self)@),
            final(self).program@ == old(self).program@,
            final(ctx)@.stats == old(ctx)@.stats,
            *final(final(ctx).stats) == *final(old(ctx).stats),
            *final(final(ctx).random) == *final(old(ctx).random),
            *final(final(ctx).terrain) == *final(old(ctx).terrain),
    {
        proof {
            assert(ctx@.terrain.occupied.take(ctx@.terrain.occupied.len() as int)
                =~= ctx@.terrain.occupied);
            lemma_draw_shrinks(ctx@.random, 1);
        }
        let target_pos = ctx.terrain.pos_ahead(ctx.pos, self.bearing);
        if ctx.terrain.creature_at(target_pos).is_none() {
            ctx.pos = target_pos;
        } else if let Some(offspring_pos) = ctx.terrain.free_pos_near(ctx.pos) {
            proof {
                let t = ctx@.terrain;
                lemma_ahead_moves(t, ctx@.pos, 0);
                lemma_ahead_moves(t, ctx@.pos, 90);
                lemma_ahead_moves(t, ctx@.pos, 180);
                lemma_ahead_moves(t, ctx@.pos, 270);
            }
            self.try_mate(target_pos, offspring_pos, ctx);
        }
    }

    fn exec_eat(&mut self, ctx: &mut PContext)
        requires
            old(ctx)@.fits(old(self)@, old(ctx)@.terrain.cell(old(ctx)@.pos)),
        ensures
            (Step { creature: final(self)@, ctx: final(ctx)@ }) == ate(old(self)@, old(ctx)@),
            old(self).ep <= final(self).ep <= old(ctx)@.params.creature_max_ep,
            final(self)@.fit(old(ctx)@.params, old(ctx)@.world_cycle),
            kept(old(ctx)@, final(ctx)@, old(ctx)@.terrain.cell(old(ctx)@.pos), final(self)@),
            final(self).program@ == old(self).program@,
            final(ctx)@.stats == old(ctx)@.stats,
            *final(final(ctx).stats) == *final(old(ctx).stats),
            *final(final(ctx).random) == *final(old(ctx).random),
            *final(final(ctx).terrain) == *final(old(ctx).terrain),
    {
        proof {
            lemma_cell(ctx@.terrain, ctx@.pos);
            assert(ctx@.terrain.occupied.take(ctx@.terrain.occupied.len() as int)
                =~= ctx@.terrain.occupied);
            lemma_draw_shrinks(ctx@.random, 1);
        }
        let taken = ctx.terrain.take_plant_at(ctx.pos);
        if let Some(mut plant) = taken {
            let room = ctx.params.creature_max_ep - self.ep;
            let ep_consumable = if ctx.params.eat_ep <= room {
                ctx.params.eat_ep
            } else {
                room
            };
            if plant.ep < ep_consumable {
                self.ep += plant.ep;
            } else {
                self.ep += ep_consumable;
                plant.ep -= ep_consumable;
                ctx.terrain.set_plant_at(Some(plant), ctx.pos);
            }
        }
    }

    fn exec_jump(&mut self)
        requires
            old(self)@.shaped(),
        ensures
            final(self)@ == old(self)@.with_pc(old(self)@.pc_next_ring()),
            final(self)@.shaped(),
    {
        proof {
            lemma_ring_within(self@);
        }
        self.pc_incr_ring()
    }

    fn exec_jump_zero(&mut self)
        ensures
            final(self)@ == old(self)@.with_pc(0),
    {
        self.pc_reset();
    }

    fn exec_branch_food_here(&mut self, ctx: &PContext)
        requires
            old(self)@.shaped(),
            ctx@.terrain.grid_ok(),
            ctx@.terrain.in_grid(ctx@.pos),
        ensures
            final(self)@ == (if ctx@.terrain.plant_at(ctx@.pos).is_some() {
                old(self)@.with_pc(old(self)@.pc_next_ring())
            } else {
                old(self)@
            }),
            final(self)@.shaped(),
    {
        if ctx.terrain.plant_at(ctx.pos).is_some() {
            self.exec_jump();
        }
    }

    fn exec_branch_food_ahead(&mut self, ctx: &PContext)
        requires
            old(self)@.shaped(),
            valid_bearing(old(self).bearing),
            ctx@.terrain.grid_ok(),
            ctx@.terrain.in_grid(ctx@.pos),
        ensures
            final(self)@ == (if ctx@.terrain.plant_in_view(
                ctx@.pos,
                old(self).bearing,
                ctx@.params.view_distance as nat,
            ) {
                old(self)@.with_pc(old(self)@.pc_next_ring())
            } else {
                old(self)@
            }),
            final(self)@.shaped(),
    {
        let mut fpos = ctx.pos;
        let mut d: u32 = 0;
        while d < ctx.params.view_distance
            invariant
                d <= ctx@.params.view_distance,
                *self == *old(self),
                self@.shaped(),
                valid_bearing(self.bearing),
                ctx@.terrain.grid_ok(),
                ctx@.terrain.in_grid(ctx@.pos),
                ctx@.terrain.in_grid(fpos),
                fpos == ctx@.terrain.ahead_n(ctx@.pos, self.bearing, d as nat),
                forall|k: nat|
                    1 <= k <= d ==> (#[trigger] ctx@.terrain.plant_at(
                        ctx@.terrain.ahead_n(ctx@.pos, self.bearing, k),
                    )).is_none(),
            decreases ctx@.params.view_distance - d,
        {
            fpos = ctx.terrain.pos_ahead(fpos, self.bearing);
            d = d + 1;
            if ctx.terrain.plant_at(fpos).is_some() {
                proof {
                    assert(ctx@.terrain.plant_at(
                        ctx@.terrain.ahead_n(ctx@.pos, self.bearing, d as nat),
                    ).is_some());
                }
                self.exec_jump();
                return ;
            }
        }
    }

    fn exec_nop(&mut self)
        ensures
            final(self)@ == old(self)@,
    {
    }

    fn try_mate(
        &mut self,
        partner_pos: (u32, u32),
        offspring_pos: (u32, u32),
        ctx: &mut PContext,
    )
        requires
            old(ctx)@.fits(old(self)@, old(ctx)@.terrain.cell(old(ctx)@.pos)),
            old(ctx)@.terrain.in_grid(partner_pos),
            old(ctx)@.terrain.in_grid(offspring_pos),
            old(ctx)@.terrain.creature_at(offspring_pos).is_none(),
            offspring_pos != old(ctx)@.pos,
        ensures
            (Step { creature: final(self)@, ctx: final(ctx)@ }) == mated(
                old(self)@,
                partner_pos,
                offspring_pos,
                old(ctx)@,
            ),
            final(self)@.fit(old(ctx)@.params, old(ctx)@.world_cycle),
            kept(old(ctx)@, final(ctx)@, old(ctx)@.terrain.cell(old(ctx)@.pos), final(self)@),
            final(self).program@ == old(self).program@,
            final(ctx)@.stats == old(ctx)@.stats,
            *final(final(ctx).stats) == *final(old(ctx).stats),
            *final(final(ctx).random) == *final(old(ctx).random),
            *final(final(ctx).terrain) == *final(old(ctx).terrain),
    {
        let ghost x = ctx@;
        proof {
            lemma_cell(x.terrain, x.pos);
            lemma_cell(x.terrain, partner_pos);
            lemma_cell(x.terrain, offspring_pos);
            assert(x.terrain.occupied.take(x.terrain.occupied.len() as int)
                =~= x.terrain.occupied);
        }
        let mut born: Option<Creature> = None;
        if let Some(other) = ctx.terrain.creature_at(partner_pos) {
            if self.can_mate(other, ctx.params) {
                born = Some(self.mate(other, ctx.params, ctx.random, ctx.world_cycle));
            }
        }
        proof {
            lemma_draw_shrinks(x.random, 1);
        }
        if let Some(offspring) = born {
            ctx.terrain.set_creature_at(Some(offspring), offspring_pos);
            proof {
                let cell = x.terrain.cell(offspring_pos);
                let t = ctx@.terrain;
                assert(t.occupied.take(x.terrain.occupied.len() as int) =~= x.terrain.occupied);
                assert(x.terrain.creatures[x.terrain.cell(partner_pos)].is_some());
                assert(x.terrain.has_creature());
                assert forall|i: int|
                    0 <= i < t.creatures.len() && (#[trigger] t.creatures[i]).is_some() implies t.creatures[i].unwrap().fit(
                    x.params,
                    x.world_cycle,
                ) && (t.creatures[i] == x.terrain.creatures[i] || t.creatures[i].unwrap().program.len()
                    == self@.program.len()) by {
                    if i != cell {
                        assert(x.terrain.creatures[i].is_some());
                    }
                }
            }
        }
    }

    fn can_mate(&self, other: &Creature, params: &Params) -> (ready: bool)
        requires
            other.lastprocd == 0 || other.bcycle <= other.lastprocd,
            params.creature_start_ep + params.eat_ep <= u32::MAX,
        ensures
            ready == self@.can_mate(other@, *params),
    {
        self.ep > params.min_mating_ep && other.age() > (params.creature_start_ep
            + params.eat_ep) as u64
    }

    fn mate(&mut self, other: &Creature, params: &Params, random: &mut RNG, world_cycle: u64) -> (offspring:
        Creature)
        requires
            old(self)@.fit(*params, world_cycle),
            other@.sound(*params),
            params.wf(),
            old(self).ep >= params.creature_start_ep,
            can_splice(old(self).program@.len() as int, other.program@.len() as int, old(random)@),
        ensures
            offspring@.fit(*params, world_cycle),
            offspring@.program.len() == old(self)@.program.len(),
            old(self).ep > params.creature_start_ep ==> final(self)@.fit(*params, world_cycle),
            offspring@ == (CreatureState {
                program: spliced_child(old(self).program@, other.program@, old(random)@),
                rsize: params.ring_size,
                bcycle: world_cycle,
                lastprocd: 0,
                bearing: heading(
                    spliced_rng(old(self).program@, other.program@, old(random)@).picked(4) as int,
                ),
                ep: params.creature_start_ep,
                pc: 0,
                cc: 0,
            }),
            offspring@.sound(*params),
            final(self)@ == old(self)@.with_ep((old(self).ep - params.creature_start_ep) as u32),
            final(random)@ == spliced_rng(
                old(self).program@,
                other.program@,
                old(random)@,
            ).after_pick(4),
            final(random)@.left_of(old(random)@),
    {
        let program = cut_n_splice_crossover(&self.program, &other.program, random);
        proof {
            assert forall|k: int| 0 <= k < program@.len() implies params.has_instr(
                #[trigger] program@[k],
            ) by {
                if self.program@.contains(program@[k]) {
                    let j = self.program@.index_of(program@[k]);
                    assert(params.has_instr(self.program@[j]));
                } else {
                    let j = other.program@.index_of(program@[k]);
                    assert(params.has_instr(other.program@[j]));
                }
            }
        }
        let mut offspring = Creature::new(program, params);
        offspring.bcycle = world_cycle;
        let headings: [u16; 4] = [0, 90, 180, 270];
        offspring.bearing = random.choose_one(&headings);
        self.ep -= offspring.ep;
        return offspring;
    }

    /// The program in readable form, ring by ring.
    pub fn pp_program(&self) -> (out: String)
        requires
            self.rsize > 0,
        ensures
            out@ == rendered(self.program@, self.rsize as int, self.program@.len() as int),
    {
        let mut out = String::new();
        let mut i: usize = 0;
        while i < self.program.len()
            invariant
                i <= self.program@.len(),
                self.rsize > 0,
                out@ == rendered(self.program@, self.rsize as int, i as int),
            decreases self.program@.len() - i,
        {
            out.append(name_of(self.program[i]));
            out.append(" ");
            if (i + 1) % self.rsize == 0 {
                out.append("; ");
            }
            i = i + 1;
        }
        out
    }
}

/// Two turns in a row amount to one turn by the sum of their degrees.
pub proof fn lemma_turn_twice(bearing: u16, a: u16, d: u16)
    requires
        bearing < 360,
        a < 360,
        d < 360,
    ensures
        turned(turned(bearing, a), d) == (bearing + a + d) % 360,
        turned(bearing, a) < 360,
{
    let u = bearing + a;
    let k = u / 360;
    let v = u % 360 + d;
    assert(v % 360 == (v + 360 * k) % 360);
}

/// A turn by `a` degrees may be made before or after `n` turns by `d`
/// degrees.
pub proof fn lemma_turn_commutes(bearing: u16, a: u16, d: u16, n: nat)
    requires
        bearing < 360,
        a < 360,
        d < 360,
    ensures
        turned_n(turned(bearing, a), d, n) == turned(turned_n(bearing, d, n), a),
        turned_n(bearing, d, n) < 360,
    decreases n,
{
    if n > 0 {
        lemma_turn_commutes(bearing, a, d, (n - 1) as nat);
        let y = turned_n(bearing, d, (n - 1) as nat);
        lemma_turn_twice(y, a, d);
        lemma_turn_twice(y, d, a);
    }
}

/// Turning right and then left as many times gives the heading that one
/// started with, and so does turning left and then right.
pub proof fn lemma_turns_cancel(bearing: u16, n: nat)
    requires
        bearing < 360,
    ensures
        turned_n(turned_n(bearing, 90, n), 270, n) == bearing,
        turned_n(turned_n(bearing, 270, n), 90, n) == bearing,
    decreases n,
{
    if n > 0 {
        let m = (n - 1) as nat;
        lemma_turns_cancel(bearing, m);
        let r = turned_n(bearing, 90, m);
        let l = turned_n(bearing, 270, m);
        lemma_turn_commutes(bearing, 0, 90, m);
        lemma_turn_commutes(bearing, 0, 270, m);
        lemma_turn_commutes(r, 90, 270, m);
        lemma_turn_commutes(l, 270, 90, m);
        let y = turned_n(r, 270, m);
        let z = turned_n(l, 90, m);
        lemma_turn_twice(y, 90, 270);
        lemma_turn_twice(z, 270, 90);
    }
}

} // verus!
