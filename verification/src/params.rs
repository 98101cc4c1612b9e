//! The configuration of one simulation run.

use vstd::prelude::*;
use crate::program::Instr;
use crate::program::INSTR_COUNT;

verus! {

/// The value that stands for a probability of one: probabilities are counted
/// in millionths.
pub const PROB_ONE: u32 = 1_000_000;

/// The configuration of one run. It stays as it is while the run lasts.
#[derive(Clone, Copy, Debug)]
pub struct Params {
    /// The cycle at which the run ends.
    pub world_end: u64,
    /// The number of cycles between two log entries.
    pub log_interval: u64,
    /// The side of the square world.
    pub world_size: u32,
    /// The number of creatures to start with.
    pub start_pop_size: u32,
    /// The number of plants to start with.
    pub start_plant_count: u32,
    /// The energy of a new plant.
    pub plant_start_ep: u32,
    /// The probability, in millionths, that a plant grows in a cycle at the
    /// start of the run.
    pub plant_prob: u32,
    /// The probability, in millionths, that a plant grows in a cycle at the
    /// end of the run.
    pub plant_prob_end: u32,
    /// The age at which a creature dies.
    pub creature_max_age: u64,
    /// The energy of a new creature.
    pub creature_start_ep: u32,
    /// The most energy that a creature can hold.
    pub creature_max_ep: u32,
    /// The most energy that a creature takes from a plant at once.
    pub eat_ep: u32,
    /// The energy that a creature must exceed to mate.
    pub min_mating_ep: u32,
    /// How many cells ahead a creature sees food.
    pub view_distance: u32,
    /// The number of rings in a program.
    pub ring_count: usize,
    /// The number of instructions in a ring.
    pub ring_size: usize,
    /// The cycles that each instruction takes, by the instruction's position
    /// in the declaration order. An instruction without an entry is not in
    /// use.
    pub instructions: [Option<u64>; 9],
}

impl Params {
    /// Whether `instr` is in use.
    pub open spec fn has_instr(self, instr: Instr) -> bool {
        self.instructions[instr.code()].is_some()
    }

    /// The cycles that `instr` takes.
    pub open spec fn cycles_of(self, instr: Instr) -> u64 {
        self.instructions[instr.code()].unwrap()
    }

    /// The instructions in use with a code below `n`, in ascending order.
    pub open spec fn instrs_below(self, n: int) -> Seq<Instr>
        decreases n,
    {
        if n <= 0 {
            Seq::empty()
        } else if self.instructions[n - 1].is_some() {
            self.instrs_below(n - 1).push(Instr::of_code(n - 1))
        } else {
            self.instrs_below(n - 1)
        }
    }

    /// The instructions in use, in ascending order.
    pub open spec fn instrs(self) -> Seq<Instr> {
        self.instrs_below(INSTR_COUNT as int)
    }

    /// The number of instructions in a program.
    pub open spec fn program_len(self) -> int {
        self.ring_size * self.ring_count
    }

    /// Whether a run can be made with this configuration: the world has
    /// cells, programs consist of whole rings, a new creature has energy
    /// within the limit, every instruction in use takes at least one cycle,
    /// and the probabilities are at most one.
    pub open spec fn wf(self) -> bool {
        &&& 1 <= self.world_size <= 0xFFFF
        &&& 1 <= self.ring_size
        &&& 1 <= self.ring_count
        &&& self.program_len() <= u32::MAX
        &&& 1 <= self.creature_start_ep <= self.creature_max_ep
        &&& self.creature_start_ep + self.eat_ep <= u32::MAX
        &&& self.plant_prob <= PROB_ONE
        &&& self.plant_prob_end <= PROB_ONE
        &&& forall|i: int|
            0 <= i < INSTR_COUNT ==> (#[trigger] self.instructions[i]).is_some()
                ==> self.instructions[i].unwrap() >= 1
    }

    /// Whether creatures made with this configuration can mate: their
    /// programs have the two instructions that a crossover needs, and a
    /// creature with more than the energy required for mating can pay the
    /// starting energy of its offspring.
    pub open spec fn mating_ok(self) -> bool {
        &&& 2 <= self.program_len()
        &&& self.creature_start_ep <= self.min_mating_ep
    }

    /// Whether a run with this configuration can be seeded and run to its
    /// end: the configuration is usable, its creatures can mate, moving and
    /// eating are in use, the logging interval is not empty, and the clock
    /// cannot overflow.
    pub open spec fn runnable(self) -> bool {
        &&& self.wf()
        &&& self.mating_ok()
        &&& self.has_instr(Instr::MOV)
        &&& self.has_instr(Instr::EAT)
        &&& self.log_interval >= 1
        &&& self.world_end + self.log_interval <= u64::MAX
    }

    /// Tells whether a run can be made with this configuration.
    pub fn is_valid(&self) -> (valid: bool)
        ensures
            valid == self.wf(),
    {
        if self.world_size < 1 || self.world_size > 0xFFFF {
            return false;
        }
        if self.ring_size < 1 || self.ring_count < 1 {
            return false;
        }
        let len = match self.ring_size.checked_mul(self.ring_count) {
            Some(len) => len,
            None => {
                return false;
            },
        };
        if len > u32::MAX as usize {
            return false;
        }
        if self.creature_start_ep < 1 || self.creature_start_ep > self.creature_max_ep {
            return false;
        }
        if self.eat_ep > u32::MAX - self.creature_start_ep {
            return false;
        }
        if self.plant_prob > PROB_ONE || self.plant_prob_end > PROB_ONE {
            return false;
        }
        let mut i: usize = 0;
        while i < INSTR_COUNT
            invariant
                i <= INSTR_COUNT,
                forall|k: int|
                    0 <= k < i ==> (#[trigger] self.instructions[k]).is_some()
                        ==> self.instructions[k].unwrap() >= 1,
            decreases INSTR_COUNT - i,
        {
            if let Some(cycles) = self.instructions[i] {
                if cycles < 1 {
                    return false;
                }
            }
            i = i + 1;
        }
        true
    }

    /// Tells whether a run with this configuration can be seeded and run to
    /// its end.
    pub fn is_runnable(&self) -> (ok: bool)
        ensures
            ok == self.runnable(),
    {
        if !self.is_valid() {
            return false;
        }
        let len = self.ring_size * self.ring_count;
        len >= 2 && self.creature_start_ep <= self.min_mating_ep
            && self.instructions[Instr::MOV.index()].is_some()
            && self.instructions[Instr::EAT.index()].is_some() && self.log_interval >= 1
            && self.world_end <= u64::MAX - self.log_interval
    }

    /// The default configuration.
    pub fn new() -> (params: Params)
        ensures
            params == (Params {
                world_end: 3_000_000,
                log_interval: 100_000,
                world_size: 150,
                start_pop_size: 500,
                start_plant_count: 3000,
                plant_start_ep: 1000,
                plant_prob: 250_000,
                plant_prob_end: 250_000,
                creature_max_age: 50_000,
                creature_start_ep: 500,
                creature_max_ep: 5000,
                eat_ep: 200,
                min_mating_ep: 4000,
                view_distance: 4,
                ring_count: 2,
                ring_size: 3,
                instructions: Params::default_instr_table(),
            }),
            params.wf(),
    {
        let params = Params {
            world_end: 3_000_000,
            log_interval: 100_000,
            world_size: 150,
            start_pop_size: 500,
            start_plant_count: 3000,
            plant_start_ep: 1000,
            plant_prob: 250_000,
            plant_prob_end: 250_000,
            creature_start_ep: 500,
            creature_max_ep: 5000,
            creature_max_age: 50_000,
            eat_ep: 200,
            min_mating_ep: 4000,
            view_distance: 4,
            ring_size: 3,
            ring_count: 2,
            instructions: Params::default_instr_map(),
        };
        params
    }

    /// The configuration that the tests of this crate start from.
    pub fn for_testing() -> (params: Params)
        ensures
            params == Params::defaults(),
            params.wf(),
    {
        let mut params = Params::new();
        params.ring_size = 3;
        params.ring_count = 2;
        params
    }

    /// The default configuration, as a value.
    pub open spec fn defaults() -> Params {
        Params {
            world_end: 3_000_000,
            log_interval: 100_000,
            world_size: 150,
            start_pop_size: 500,
            start_plant_count: 3000,
            plant_start_ep: 1000,
            plant_prob: 250_000,
            plant_prob_end: 250_000,
            creature_max_age: 50_000,
            creature_start_ep: 500,
            creature_max_ep: 5000,
            eat_ep: 200,
            min_mating_ep: 4000,
            view_distance: 4,
            ring_count: 2,
            ring_size: 3,
            instructions: Params::default_instr_table(),
        }
    }

    /// The default cycles of the instructions, in the declaration order:
    /// eating takes 10 cycles, moving 5, a turn 3, anything else 1.
    pub open spec fn default_instr_table() -> [Option<u64>; 9] {
        [Some(1u64), Some(3u64), Some(3u64), Some(5u64), Some(10u64), Some(1u64), Some(1u64), Some(
            1u64,
        ), Some(1u64)]
    }

    fn default_instr_map() -> (table: [Option<u64>; 9])
        ensures
            table == Params::default_instr_table(),
    {
        let mut table: [Option<u64>; 9] = [None, None, None, None, None, None, None, None, None];
        table[Instr::EAT.index()] = Some(10);
        table[Instr::MOV.index()] = Some(5);
        table[Instr::TUR.index()] = Some(3);
        table[Instr::TUL.index()] = Some(3);
        table[Instr::NOP.index()] = Some(1);
        table[Instr::JMP.index()] = Some(1);
        table[Instr::JMZ.index()] = Some(1);
        table[Instr::BFH.index()] = Some(1);
        table[Instr::BFA.index()] = Some(1);
        table
    }

    /// The instructions in use, in ascending order.
    pub fn instr_list(&self) -> (list: Vec<&Instr>)
        ensures
            list@.len() == self.instrs().len(),
            forall|k: int| 0 <= k < list@.len() ==> *list@[k] == self.instrs()[k],
    {
        let mut instr_vec: Vec<&Instr> = Vec::new();
        let mut i: usize = 0;
        while i < INSTR_COUNT
            invariant
                i <= INSTR_COUNT,
                instr_vec@.len() == self.instrs_below(i as int).len(),
                forall|k: int|
                    0 <= k < instr_vec@.len() ==> *instr_vec@[k] == self.instrs_below(i as int)[k],
            decreases INSTR_COUNT - i,
        {
            if self.instructions[i].is_some() {
                instr_vec.push(Instr::at(i));
            }
            i = i + 1;
        }
        instr_vec
    }

    /// The cycles that `instr` takes. The instruction must be in use.
    pub fn instr_cycles(&self, instr: &Instr) -> (cycles: u64)
        requires
            self.has_instr(*instr),
        ensures
            cycles == self.cycles_of(*instr),
    {
        self.instructions[instr.index()].unwrap()
    }

    /// Puts `instr` in use, taking `cycles` cycles.
    pub fn set_instr_cycles(&mut self, instr: Instr, cycles: u64)
        ensures
            final(self).instructions@ == old(self).instructions@.update(instr.code(), Some(cycles)),
            final(self).has_instr(instr),
            final(self).cycles_of(instr) == cycles,
            *final(self) == (Params { instructions: final(self).instructions, ..*old(self) }),
    {
        self.instructions[instr.index()] = Some(cycles);
    }
}

/// The list of the instructions in use is strictly ascending and holds an
/// instruction exactly if it is in use.
pub proof fn lemma_instrs(params: Params, n: int)
    requires
        0 <= n <= INSTR_COUNT,
    ensures
        params.instrs_below(n).len() <= n,
        forall|k: int|
            0 <= k < params.instrs_below(n).len() ==> 0 <= (#[trigger] params.instrs_below(
                n,
            )[k]).code() < n && params.has_instr(params.instrs_below(n)[k]),
        forall|j: int, k: int|
            0 <= j < k < params.instrs_below(n).len() ==> params.instrs_below(n)[j].code()
                < params.instrs_below(n)[k].code(),
        forall|instr: Instr|
            instr.code() < n && params.has_instr(instr) ==> params.instrs_below(n).contains(instr),
    decreases n,
{
    if n > 0 {
        lemma_instrs(params, n - 1);
        let prev = params.instrs_below(n - 1);
        let cur = params.instrs_below(n);
        if params.instructions[n - 1].is_some() {
            assert forall|instr: Instr|
                instr.code() < n && params.has_instr(instr) implies cur.contains(instr) by {
                if instr.code() == n - 1 {
                    assert(cur[cur.len() - 1] == instr);
                } else {
                    let k = choose|k: int| 0 <= k < prev.len() && prev[k] == instr;
                    assert(cur[k] == instr);
                }
            }
        }
    }
}

} // verus!
