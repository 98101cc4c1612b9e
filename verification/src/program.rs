//! The instruction set of creature programs.

use vstd::prelude::*;
use crate::random::lemma_after_draws;
use crate::random::RNG;
use crate::random::RngState;

verus! {

/// One instruction of a creature's program.
///
/// The declaration order is the order in which instruction lists are sorted.
#[derive(Copy, Clone, Hash, Eq, PartialEq, Debug, PartialOrd, Ord, Structural)]
pub enum Instr {
    /// Do nothing.
    NOP,
    /// Turn right by 90 degrees.
    TUR,
    /// Turn left by 90 degrees.
    TUL,
    /// Move one cell ahead, or try to mate with the creature there.
    MOV,
    /// Eat from the plant in the current cell.
    EAT,
    /// Jump to the start of the next ring.
    JMP,
    /// Jump to the start of the first ring.
    JMZ,
    /// Jump to the next ring if there is food in the current cell.
    BFH,
    /// Jump to the next ring if there is food ahead.
    BFA,
}

/// The number of distinct instructions.
pub const INSTR_COUNT: usize = 9;

impl Instr {
    /// The position of the instruction in the declaration order.
    pub open spec fn code(self) -> int {
        match self {
            Instr::NOP => 0,
            Instr::TUR => 1,
            Instr::TUL => 2,
            Instr::MOV => 3,
            Instr::EAT => 4,
            Instr::JMP => 5,
            Instr::JMZ => 6,
            Instr::BFH => 7,
            Instr::BFA => 8,
        }
    }

    /// The instruction at position `code` of the declaration order.
    pub open spec fn of_code(code: int) -> Instr {
        if code == 0 {
            Instr::NOP
        } else if code == 1 {
            Instr::TUR
        } else if code == 2 {
            Instr::TUL
        } else if code == 3 {
            Instr::MOV
        } else if code == 4 {
            Instr::EAT
        } else if code == 5 {
            Instr::JMP
        } else if code == 6 {
            Instr::JMZ
        } else if code == 7 {
            Instr::BFH
        } else {
            Instr::BFA
        }
    }

    /// The position of the instruction in the declaration order.
    pub fn index(self) -> (i: usize)
        ensures
            i == self.code(),
            i < INSTR_COUNT,
    {
        match self {
            Instr::NOP => 0,
            Instr::TUR => 1,
            Instr::TUL => 2,
            Instr::MOV => 3,
            Instr::EAT => 4,
            Instr::JMP => 5,
            Instr::JMZ => 6,
            Instr::BFH => 7,
            Instr::BFA => 8,
        }
    }

    /// The instruction at position `i` of the declaration order.
    pub fn at(i: usize) -> (instr: &'static Instr)
        requires
            i < INSTR_COUNT,
        ensures
            *instr == Instr::of_code(i as int),
            instr.code() == i,
    {
        match i {
            0 => &Instr::NOP,
            1 => &Instr::TUR,
            2 => &Instr::TUL,
            3 => &Instr::MOV,
            4 => &Instr::EAT,
            5 => &Instr::JMP,
            6 => &Instr::JMZ,
            7 => &Instr::BFH,
            _ => &Instr::BFA,
        }
    }
}

/// The index that draw number `i` of a series of draws below `ceiling` hands
/// out, counting from zero.
pub open spec fn draw_index(rng: RngState, ceiling: u32, i: int) -> int {
    rng.after_draws(ceiling, i as nat).drawn(ceiling) as int
}

/// The instructions that a list refers to.
pub open spec fn instrs_of(instr_list: Seq<&Instr>) -> Seq<Instr> {
    Seq::new(instr_list.len(), |k: int| *instr_list[k])
}

/// The program of `size` instructions that successive draws pick from
/// `instrs`.
pub open spec fn drawn_program(instrs: Seq<Instr>, size: nat, rng: RngState) -> Seq<Instr> {
    Seq::new(size, |i: int| instrs[draw_index(rng, instrs.len() as u32, i)])
}

/// A program of `size` instructions, each drawn from `instr_list`.
pub fn rand_program(instr_list: Vec<&Instr>, size: usize, rng: &mut RNG) -> (prog: Vec<Instr>)
    requires
        size > 0 ==> 0 < instr_list@.len(),
        instr_list@.len() <= u32::MAX,
        forall|k: int| 0 <= k < size ==> old(rng)@.queued_below(k, instr_list@.len() as int),
    ensures
        prog@ == drawn_program(instrs_of(instr_list@), size as nat, old(rng)@),
        final(rng)@ == old(rng)@.after_draws(instr_list@.len() as u32, size as nat),
        prog@.len() == size,
        forall|i: int|
            0 <= i < size ==> 0 <= #[trigger] draw_index(
                old(rng)@,
                instr_list@.len() as u32,
                i,
            ) < instr_list@.len(),
        old(rng)@.queue.len() == 0 ==> final(rng)@.queue.len() == 0,
{
    let mut prog: Vec<Instr> = Vec::new();
    let ghost start = old(rng)@;
    let ghost ceiling = instr_list@.len() as u32;
    let mut i: usize = 0;
    while i < size
        invariant
            i <= size,
            size > 0 ==> 0 < instr_list@.len(),
            ceiling == instr_list@.len(),
            forall|k: int| 0 <= k < size ==> start.queued_below(k, instr_list@.len() as int),
            rng@ == start.after_draws(ceiling, i as nat),
            prog@.len() == i,
            forall|j: int|
                0 <= j < i ==> 0 <= #[trigger] draw_index(start, ceiling, j) < instr_list@.len(),
            forall|j: int|
                0 <= j < i ==> #[trigger] prog@[j] == *instr_list@[draw_index(start, ceiling, j)],
        decreases size - i,
    {
        proof {
            lemma_after_draws(start, ceiling, i as nat);
            assert(start.queued_below(i as int, instr_list@.len() as int));
        }
        let k = rng.next_usize(instr_list.len());
        let instr: Instr = *instr_list[k];
        prog.push(instr);
        i = i + 1;
    }
    proof {
        lemma_after_draws(start, ceiling, size as nat);
    }
    prog
}

/// The program of `size` instructions that alternates moving and eating and
/// starts with the instruction that `first` stands for: eating if `first` is
/// even, moving if it is odd.
pub open spec fn alternating(size: nat, first: int) -> Seq<Instr> {
    Seq::new(
        size,
        |i: int|
            if (first + 1 + i) % 2 == 0 {
                Instr::MOV
            } else {
                Instr::EAT
            },
    )
}

/// The basic strategy: a program that alternates moving and eating. One draw
/// decides which of the two comes first.
pub fn base_strategy(size: usize, rng: &mut RNG) -> (prog: Vec<Instr>)
    requires
        old(rng)@.can_draw(2),
    ensures
        prog@ == alternating(size as nat, old(rng)@.drawn(2) as int),
        final(rng)@ == old(rng)@.after_draw(2),
        prog@.len() == size,
        forall|i: int| 0 <= i < size ==> prog@[i] == Instr::MOV || prog@[i] == Instr::EAT,
        forall|i: int| 0 <= i < size - 1 ==> #[trigger] prog@[i] != prog@[i + 1],
{
    let first = rng.next_usize(2);
    let mut idx: usize = first % 2;
    let mut prog: Vec<Instr> = Vec::new();
    let mut i: usize = 0;
    while i < size
        invariant
            i <= size,
            idx == (first + i) % 2,
            prog@.len() == i,
            forall|j: int| 0 <= j < i ==> prog@[j] == alternating(size as nat, first as int)[j],
        decreases size - i,
    {
        idx = (idx + 1) % 2;
        if idx == 0 {
            prog.push(Instr::MOV);
        } else {
            prog.push(Instr::EAT);
        }
        i = i + 1;
    }
    prog
}

} // verus!
