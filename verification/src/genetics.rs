//! The genetic operators: two ways to cross two programs, and mutation.
//!
//! Every operator takes its random numbers from the random source it is
//! given, so that its outcome is fixed by the state of that source.

use vstd::prelude::*;
use crate::program::Instr;
use crate::random::RNG;
use crate::random::RngState;

verus! {

/// The child of a single point crossover: the start of one parent up to the
/// crossover point, then the rest of the other parent. The first draw decides
/// which parent comes first, the second draw is the crossover point.
pub open spec fn single_point_child(p0: Seq<Instr>, p1: Seq<Instr>, rng: RngState) -> Seq<Instr> {
    let coin = rng.drawn(2);
    let xpt = rng.after_draw(2).drawn(p0.len() as u32) as int;
    if coin == 0 {
        p0.take(xpt) + p1.skip(xpt)
    } else {
        p1.take(xpt) + p0.skip(xpt)
    }
}

/// The crossover point of a single point crossover: the second draw.
pub open spec fn single_point_split(p0: Seq<Instr>, rng: RngState) -> int {
    rng.after_draw(2).drawn(p0.len() as u32) as int
}

/// The random source after a single point crossover.
pub open spec fn single_point_rng(p0: Seq<Instr>, rng: RngState) -> RngState {
    rng.after_draw(2).after_draw(p0.len() as u32)
}

/// Crosses two programs of the same length at one point.
///
/// The child has the length of its parents. Before the crossover point it
/// equals one parent, from that point on the other.
pub fn single_point_crossover<'a>(p0: &Vec<Instr>, p1: &Vec<Instr>, rng: &'a mut RNG) -> (child:
    Vec<Instr>)
    requires
        p0@.len() == p1@.len(),
        0 < p0@.len() <= u32::MAX,
        old(rng)@.queued_below(0, 2),
        old(rng)@.queued_below(1, p0@.len() as int),
    ensures
        child@ == single_point_child(p0@, p1@, old(rng)@),
        final(rng)@ == single_point_rng(p0@, old(rng)@),
        child@.len() == p0@.len(),
        old(rng)@.drawn(2) < 2,
        0 <= single_point_split(p0@, old(rng)@) < p0@.len(),
        old(rng)@.drawn(2) == 0 ==> child@.take(single_point_split(p0@, old(rng)@)) == p0@.take(
            single_point_split(p0@, old(rng)@),
        ) && child@.skip(single_point_split(p0@, old(rng)@)) == p1@.skip(
            single_point_split(p0@, old(rng)@),
        ),
        old(rng)@.drawn(2) == 1 ==> child@.take(single_point_split(p0@, old(rng)@)) == p1@.take(
            single_point_split(p0@, old(rng)@),
        ) && child@.skip(single_point_split(p0@, old(rng)@)) == p0@.skip(
            single_point_split(p0@, old(rng)@),
        ),
{
    let coin = rng.next_usize(2);
    let xpt = rng.next_usize(p0.len());
    let mut result: Vec<Instr> = Vec::new();
    let mut i: usize = 0;
    while i < p0.len()
        invariant
            i <= p0@.len(),
            p0@.len() == p1@.len(),
            xpt <= p0@.len(),
            result@.len() == i,
            forall|k: int|
                0 <= k < i ==> result@[k] == (if (k < xpt) == (coin == 0) {
                    p0@[k]
                } else {
                    p1@[k]
                }),
        decreases p0@.len() - i,
    {
        let from_p0 = (i < xpt) == (coin == 0);
        if from_p0 {
            result.push(p0[i]);
        } else {
            result.push(p1[i]);
        }
        i = i + 1;
    }
    proof {
        let x = xpt as int;
        assert(result@ =~= single_point_child(p0@, p1@, old(rng)@));
        if coin == 0 {
            assert(result@.take(x) =~= p0@.take(x));
            assert(result@.skip(x) =~= p1@.skip(x));
        } else {
            assert(result@.take(x) =~= p1@.take(x));
            assert(result@.skip(x) =~= p0@.skip(x));
        }
    }
    result
}

/// The length of the window that a cut and splice crossover copies.
pub open spec fn splice_len(p1: Seq<Instr>, rng: RngState) -> int {
    rng.drawn((p1.len() - 1) as u32) as int
}

/// Where in `p1` the window of a cut and splice crossover starts.
pub open spec fn splice_src(p1: Seq<Instr>, rng: RngState) -> int {
    let l = splice_len(p1, rng);
    rng.after_draw((p1.len() - 1) as u32).drawn((p1.len() - l) as u32) as int
}

/// Where in `p0` the window of a cut and splice crossover lands.
pub open spec fn splice_dst(p0: Seq<Instr>, p1: Seq<Instr>, rng: RngState) -> int {
    let l = splice_len(p1, rng);
    rng.after_draw((p1.len() - 1) as u32).after_draw((p1.len() - l) as u32).drawn(
        (p0.len() - l) as u32,
    ) as int
}

/// The child of a cut and splice crossover: `p0` with one window overwritten
/// by a window of the same length from `p1`.
pub open spec fn spliced_child(p0: Seq<Instr>, p1: Seq<Instr>, rng: RngState) -> Seq<Instr> {
    let l = splice_len(p1, rng);
    let s = splice_src(p1, rng);
    let d = splice_dst(p0, p1, rng);
    p0.take(d) + p1.subrange(s, s + l) + p0.skip(d + l)
}

/// The random source after a cut and splice crossover.
pub open spec fn spliced_rng(p0: Seq<Instr>, p1: Seq<Instr>, rng: RngState) -> RngState {
    let l = splice_len(p1, rng);
    rng.after_draw((p1.len() - 1) as u32).after_draw((p1.len() - l) as u32).after_draw(
        (p0.len() - l) as u32,
    )
}

/// Whether a cut and splice crossover of programs of these lengths can make
/// its three draws: the lengths allow a window, and what is queued lies in
/// the range of the draw that it will answer.
pub open spec fn can_splice(len0: int, len1: int, rng: RngState) -> bool {
    &&& 2 <= len1 <= u32::MAX
    &&& len0 <= u32::MAX
    &&& rng.queue.len() == 0 ==> len0 + 1 >= len1
    &&& rng.queue.len() >= 1 ==> rng.queue[0] < len1 - 1 && rng.queue[0] < len0
    &&& rng.queue.len() >= 2 ==> rng.queue[1] < len1 - rng.queue[0]
    &&& rng.queue.len() >= 3 ==> rng.queue[2] < len0 - rng.queue[0]
}

/// Crosses two programs by overwriting a window of `p0` with a window of
/// `p1`. The parents may differ in length; the child has the length of `p0`.
pub fn cut_n_splice_crossover<'a>(p0: &Vec<Instr>, p1: &Vec<Instr>, rng: &'a mut RNG) -> (child:
    Vec<Instr>)
    requires
        can_splice(p0@.len() as int, p1@.len() as int, old(rng)@),
    ensures
        child@ == spliced_child(p0@, p1@, old(rng)@),
        final(rng)@ == spliced_rng(p0@, p1@, old(rng)@),
        child@.len() == p0@.len(),
        0 <= splice_len(p1@, old(rng)@) < p1@.len() - 1,
        0 <= splice_src(p1@, old(rng)@) < p1@.len() - splice_len(p1@, old(rng)@),
        0 <= splice_dst(p0@, p1@, old(rng)@) < p0@.len() - splice_len(p1@, old(rng)@),
        forall|j: int|
            0 <= j < splice_len(p1@, old(rng)@) ==> #[trigger] child@[splice_dst(
                p0@,
                p1@,
                old(rng)@,
            ) + j] == p1@[splice_src(p1@, old(rng)@) + j],
        forall|i: int|
            0 <= i < splice_dst(p0@, p1@, old(rng)@) || splice_dst(p0@, p1@, old(rng)@)
                + splice_len(p1@, old(rng)@) <= i < p0@.len() ==> #[trigger] child@[i] == p0@[i],
        forall|i: int| 0 <= i < child@.len() ==> p0@.contains(child@[i]) || p1@.contains(child@[i]),
        final(rng)@.queue == old(rng)@.queue.skip(
            if old(rng)@.queue.len() < 3 {
                old(rng)@.queue.len() as int
            } else {
                3
            },
        ),
{
    let l = rng.next_usize(p1.len() - 1);
    let s = rng.next_usize(p1.len() - l);
    let d = rng.next_usize(p0.len() - l);
    let mut pc: Vec<Instr> = Vec::new();
    let mut i: usize = 0;
    while i < p0.len()
        invariant
            i <= p0@.len(),
            d + l <= p0@.len(),
            s + l <= p1@.len() <= u32::MAX,
            pc@.len() == i,
            forall|k: int|
                0 <= k < i ==> pc@[k] == (if d <= k < d + l {
                    p1@[k - d + s]
                } else {
                    p0@[k]
                }),
        decreases p0@.len() - i,
    {
        if d <= i && i - d < l {
            pc.push(p1[s + (i - d)]);
        } else {
            pc.push(p0[i]);
        }
        i = i + 1;
    }
    proof {
        let q = old(rng)@.queue;
        assert(q.skip(0) =~= q);
        if q.len() >= 2 {
            assert(q.skip(1).skip(1) =~= q.skip(2));
        }
        if q.len() >= 3 {
            assert(q.skip(2).skip(1) =~= q.skip(3));
        }
        assert(rng@.queue =~= q.skip(
            if q.len() < 3 {
                q.len() as int
            } else {
                3
            },
        ));
    }
    pc
}

/// Replaces the instruction at a random position by a random instruction of
/// `instr_list`. The first draw is the position, the second the instruction.
pub fn mutation<'a>(p: &mut Vec<Instr>, instr_list: Vec<&Instr>, rng: &'a mut RNG)
    requires
        0 < old(p)@.len() <= u32::MAX,
        0 < instr_list@.len() <= u32::MAX,
        old(rng)@.queued_below(0, old(p)@.len() as int),
        old(rng)@.queued_below(1, instr_list@.len() as int),
    ensures
        final(p)@ == old(p)@.update(
            old(rng)@.drawn(old(p)@.len() as u32) as int,
            *instr_list@[old(rng)@.after_draw(old(p)@.len() as u32).drawn(
                instr_list@.len() as u32,
            ) as int],
        ),
        old(rng)@.drawn(old(p)@.len() as u32) < old(p)@.len(),
        old(rng)@.after_draw(old(p)@.len() as u32).drawn(instr_list@.len() as u32)
            < instr_list@.len(),
        final(rng)@ == old(rng)@.after_draw(old(p)@.len() as u32).after_draw(
            instr_list@.len() as u32,
        ),
{
    let mpt = rng.next_usize(p.len());
    let k = rng.next_usize(instr_list.len());
    let instr: Instr = *instr_list[k];
    p.set(mpt, instr);
}

} // verus!
