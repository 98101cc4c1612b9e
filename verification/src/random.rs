//! A seedable source of random numbers with an optional replay queue.
//!
//! The numbers come from an xorshift generator. For a fixed seed and a fixed
//! sequence of calls the source hands out the same numbers on every run and on
//! every machine: all draws are made on 32 bit integers. Values queued with
//! `set_next_values` are handed out first, which lets a caller decide the
//! outcome of the next draws.

use vstd::prelude::*;
use rand::Rng;
use rand::RngCore;
use rand::SeedableRng;
use rand_xorshift::XorShiftRng;

verus! {

/// The generator `rand_xorshift::XorShiftRng`, which holds four 32 bit words.
#[verifier::external_type_specification]
#[verifier::external_body]
pub struct ExXorShiftRng(XorShiftRng);

/// The four words that a generator holds.
pub uninterp spec fn generator_words(g: XorShiftRng) -> Seq<u32>;

/// What `gen_range(0..ceiling)` hands out on a generator holding `words`:
/// the number drawn and the words that the generator holds afterwards.
pub uninterp spec fn uniform_draw(words: Seq<u32>, ceiling: u32) -> (u32, Seq<u32>);

/// The word that starts at byte `4 * k`, least significant byte first.
pub open spec fn le_word(bytes: Seq<u8>, k: int) -> u32 {
    (bytes[4 * k] as u32) | ((bytes[4 * k + 1] as u32) << 8) | ((bytes[4 * k + 2] as u32) << 16)
        | ((bytes[4 * k + 3] as u32) << 24)
}

/// The words used in place of a seed that is zero throughout.
pub open spec fn fallback_words() -> Seq<u32> {
    seq![0x0BAD_5EEDu32, 0x0BAD_5EEDu32, 0x0BAD_5EEDu32, 0x0BAD_5EEDu32]
}

/// The words that a generator holds once it has been seeded with 16 bytes.
pub open spec fn seeded_words(bytes: Seq<u8>) -> Seq<u32> {
    if le_word(bytes, 0) == 0 && le_word(bytes, 1) == 0 && le_word(bytes, 2) == 0 && le_word(
        bytes,
        3,
    ) == 0 {
        fallback_words()
    } else {
        seq![le_word(bytes, 0), le_word(bytes, 1), le_word(bytes, 2), le_word(bytes, 3)]
    }
}

/// The words that a source holds once it has been seeded with four words.
pub open spec fn words_of_seed(seed: Seq<u32>) -> Seq<u32> {
    if seed[0] == 0 && seed[1] == 0 && seed[2] == 0 && seed[3] == 0 {
        fallback_words()
    } else {
        seed
    }
}

/// Calls `XorShiftRng::from_seed`, which reads the 16 bytes as four words,
/// least significant byte first, and replaces a seed of zeros by a preset one.
#[verifier::external_body]
fn seeded_generator(bytes: [u8; 16]) -> (g: XorShiftRng)
    ensures
        generator_words(g) == seeded_words(bytes@),
{
    XorShiftRng::from_seed(bytes)
}

/// Calls `Rng::gen_range` with the range `0..ceiling`, which panics on an
/// empty range and otherwise returns a number of that range. The call advances
/// the generator; both the number and the new state depend on nothing but the
/// old state and the ceiling.
#[verifier::external_body]
fn draw_below(g: &mut XorShiftRng, ceiling: u32) -> (r: u32)
    requires
        ceiling > 0,
    ensures
        r < ceiling,
        (r, generator_words(*final(g))) == uniform_draw(generator_words(*old(g)), ceiling),
{
    g.gen_range(0..ceiling)
}

/// Calls `next_u32` on `rand::thread_rng()`: a word from the generator that
/// the operating system seeds for each thread. Nothing is known of the word.
/// The call fails only where the operating system cannot provide a seed.
#[verifier::external_body]
fn entropy_word() -> u32 {
    rand::thread_rng().next_u32()
}

/// The mathematical state of a random source.
#[verifier::ext_equal]
pub struct RngState {
    /// The seed that the source was made from.
    pub seed: Seq<u32>,
    /// The words that the generator holds.
    pub words: Seq<u32>,
    /// The queued values, the next one first.
    pub queue: Seq<u32>,
}

impl RngState {
    /// Whether a draw below `ceiling` is possible: a queued value must lie
    /// below the ceiling, and the generator needs a positive ceiling.
    pub open spec fn can_draw(self, ceiling: u32) -> bool {
        if self.queue.len() > 0 {
            self.queue[0] < ceiling
        } else {
            ceiling > 0
        }
    }

    /// The number that a draw below `ceiling` hands out.
    pub open spec fn drawn(self, ceiling: u32) -> u32 {
        if self.queue.len() > 0 {
            self.queue[0]
        } else {
            uniform_draw(self.words, ceiling).0
        }
    }

    /// The state after a draw below `ceiling`.
    pub open spec fn after_draw(self, ceiling: u32) -> RngState {
        if self.queue.len() > 0 {
            RngState { seed: self.seed, words: self.words, queue: self.queue.skip(1) }
        } else {
            RngState { seed: self.seed, words: uniform_draw(self.words, ceiling).1, queue: self.queue }
        }
    }

    /// The number that a draw from the generator itself hands out, whatever
    /// is queued.
    pub open spec fn picked(self, ceiling: u32) -> u32 {
        uniform_draw(self.words, ceiling).0
    }

    /// The state after a draw from the generator itself.
    pub open spec fn after_pick(self, ceiling: u32) -> RngState {
        RngState { seed: self.seed, words: uniform_draw(self.words, ceiling).1, queue: self.queue }
    }

    /// Whether the queued value at position `k`, if there is one, lies below
    /// `bound`.
    pub open spec fn queued_below(self, k: int, bound: int) -> bool {
        0 <= k < self.queue.len() ==> self.queue[k] < bound
    }

    /// Whether every queued value lies below `bound`.
    pub open spec fn all_queued_below(self, bound: int) -> bool {
        forall|k: int| 0 <= k < self.queue.len() ==> self.queue[k] < bound
    }

    /// Whether every queued value can answer whichever draw of a cut and
    /// splice crossover among programs of `len` instructions falls to it. As
    /// the length of the window it must lie below `len - 1`; the value that
    /// follows it, and the one after that, are then the places of the window
    /// in the two programs, and must leave room for the window.
    pub open spec fn suits_len(self, len: int) -> bool {
        &&& forall|k: int| 0 <= k < self.queue.len() ==> (#[trigger] self.queue[k]) + 1 < len
        &&& forall|i: int, j: int|
            0 <= i < j < self.queue.len() && j <= i + 2 ==> (#[trigger] self.queue[i])
                + (#[trigger] self.queue[j]) < len
    }

    /// Whether the queue is what draws have left of the queue of `before`.
    pub open spec fn left_of(self, before: RngState) -> bool {
        &&& self.queue.len() <= before.queue.len()
        &&& self.queue == before.queue.skip(before.queue.len() - self.queue.len())
    }

    /// The state after `n` draws below `ceiling`.
    pub open spec fn after_draws(self, ceiling: u32, n: nat) -> RngState
        decreases n,
    {
        if n == 0 {
            self
        } else {
            self.after_draws(ceiling, (n - 1) as nat).after_draw(ceiling)
        }
    }
}

/// A draw leaves the queue as it is or takes its first value.
pub proof fn lemma_draw_shrinks(rng: RngState, ceiling: u32)
    ensures
        rng.after_draw(ceiling).left_of(rng),
        rng.after_pick(ceiling).left_of(rng),
        rng.left_of(rng),
{
    assert(rng.queue.skip(0) =~= rng.queue);
}

/// Any number of draws leave what is left of the queue.
pub proof fn lemma_draws_shrink(rng: RngState, ceiling: u32, n: nat)
    ensures
        rng.after_draws(ceiling, n).left_of(rng),
    decreases n,
{
    lemma_draw_shrinks(rng, ceiling);
    if n > 0 {
        let before = rng.after_draws(ceiling, (n - 1) as nat);
        lemma_draws_shrink(rng, ceiling, (n - 1) as nat);
        lemma_draw_shrinks(before, ceiling);
        lemma_left_of_left(before.after_draw(ceiling), before, rng);
    }
}

/// What is left of what is left of a queue is left of that queue.
pub proof fn lemma_left_of_left(a: RngState, b: RngState, c: RngState)
    requires
        a.left_of(b),
        b.left_of(c),
    ensures
        a.left_of(c),
{
    assert(c.queue.skip(c.queue.len() - b.queue.len()).skip(b.queue.len() - a.queue.len())
        =~= c.queue.skip(c.queue.len() - a.queue.len()));
}

/// What holds of every value of a queue holds of every value that is left
/// of it.
pub proof fn lemma_left_of(a: RngState, b: RngState)
    requires
        a.left_of(b),
    ensures
        forall|bound: int| b.all_queued_below(bound) ==> #[trigger] a.all_queued_below(bound),
        forall|len: int| b.suits_len(len) ==> #[trigger] a.suits_len(len),
{
    let gone = b.queue.len() - a.queue.len();
    assert forall|bound: int| b.all_queued_below(bound) implies #[trigger] a.all_queued_below(
        bound,
    ) by {
        assert forall|k: int| 0 <= k < a.queue.len() implies a.queue[k] < bound by {
            assert(a.queue[k] == b.queue[k + gone]);
        }
    }
    assert forall|len: int| b.suits_len(len) implies #[trigger] a.suits_len(len) by {
        assert forall|k: int| 0 <= k < a.queue.len() implies (#[trigger] a.queue[k]) + 1
            < len by {
            assert(a.queue[k] == b.queue[k + gone]);
        }
        assert forall|i: int, j: int| 0 <= i < j < a.queue.len() && j <= i + 2 implies (
        #[trigger] a.queue[i]) + (#[trigger] a.queue[j]) < len by {
            assert(a.queue[i] == b.queue[i + gone]);
            assert(a.queue[j] == b.queue[j + gone]);
        }
    }
}

/// Draws take the queued values in their order: after `n` draws the first
/// `n` queued values are gone, and the generator has not been used while
/// values were queued.
pub proof fn lemma_after_draws(rng: RngState, ceiling: u32, n: nat)
    ensures
        n <= rng.queue.len() ==> rng.after_draws(ceiling, n) == (RngState {
            seed: rng.seed,
            words: rng.words,
            queue: rng.queue.skip(n as int),
        }),
        n >= rng.queue.len() ==> rng.after_draws(ceiling, n).queue.len() == 0,
        rng.after_draws(ceiling, n).seed == rng.seed,
    decreases n,
{
    if n > 0 {
        lemma_after_draws(rng, ceiling, (n - 1) as nat);
    }
}

/// A seedable random source with a replay queue.
pub struct RNG {
    seed: [u32; 4],
    system_rng: XorShiftRng,
    stubbed_seq: Option<Vec<u32>>,
}

impl View for RNG {
    type V = RngState;

    closed spec fn view(&self) -> RngState {
        RngState {
            seed: self.seed@,
            words: generator_words(self.system_rng),
            queue: match self.stubbed_seq {
                Some(seq) => seq@.reverse(),
                None => Seq::empty(),
            },
        }
    }
}

/// Word `w` shifted right by `j` bytes, for `j` below 4.
pub open spec fn shifted(w: u32, j: int) -> u32 {
    if j == 0 {
        w
    } else if j == 1 {
        w >> 8u32
    } else if j == 2 {
        w >> 16u32
    } else {
        w >> 24u32
    }
}

/// Byte `j` of word `w`, counted from the least significant one.
pub open spec fn nth_byte(w: u32, j: int) -> u8 {
    (shifted(w, j) & 0xFF) as u8
}

/// The 16 bytes of four words, each word least significant byte first.
pub open spec fn le_bytes(seed: Seq<u32>) -> Seq<u8> {
    Seq::new(16, |i: int| nth_byte(seed[i / 4], i % 4))
}

proof fn lemma_word_round_trip(s: u32, b0: u8, b1: u8, b2: u8, b3: u8)
    requires
        b0 == (s & 0xFF) as u8,
        b1 == ((s >> 8u32) & 0xFF) as u8,
        b2 == ((s >> 16u32) & 0xFF) as u8,
        b3 == ((s >> 24u32) & 0xFF) as u8,
    ensures
        (b0 as u32) | ((b1 as u32) << 8) | ((b2 as u32) << 16) | ((b3 as u32) << 24) == s,
{
    assert((b0 as u32) | ((b1 as u32) << 8) | ((b2 as u32) << 16) | ((b3 as u32) << 24) == s)
        by (bit_vector)
        requires
            b0 == (s & 0xFF) as u8,
            b1 == ((s >> 8u32) & 0xFF) as u8,
            b2 == ((s >> 16u32) & 0xFF) as u8,
            b3 == ((s >> 24u32) & 0xFF) as u8,
    ;
}

proof fn lemma_shift_step(w: u32, j: int)
    requires
        0 <= j < 3,
    ensures
        shifted(w, j) >> 8u32 == shifted(w, j + 1),
        (shifted(w, j) & 0xFF) < 256,
        (shifted(w, 3) & 0xFF) < 256,
{
    assert((w >> 8u32) >> 8u32 == w >> 16u32) by (bit_vector);
    assert((w >> 16u32) >> 8u32 == w >> 24u32) by (bit_vector);
    assert((w & 0xFF) < 256) by (bit_vector);
    assert(((w >> 8u32) & 0xFF) < 256) by (bit_vector);
    assert(((w >> 16u32) & 0xFF) < 256) by (bit_vector);
    assert(((w >> 24u32) & 0xFF) < 256) by (bit_vector);
}

proof fn lemma_le_word(seed: Seq<u32>, k: int)
    requires
        seed.len() == 4,
        0 <= k < 4,
    ensures
        le_word(le_bytes(seed), k) == seed[k],
{
    let bytes = le_bytes(seed);
    let b0 = bytes[4 * k];
    let b1 = bytes[4 * k + 1];
    let b2 = bytes[4 * k + 2];
    let b3 = bytes[4 * k + 3];
    assert(b0 == nth_byte(seed[k], 0) && b1 == nth_byte(seed[k], 1) && b2 == nth_byte(seed[k], 2)
        && b3 == nth_byte(seed[k], 3)) by {
    }
    lemma_word_round_trip(seed[k], b0, b1, b2, b3);
}

/// Writing four words as bytes and seeding a generator with them gives the
/// generator those four words, unless all are zero.
pub proof fn lemma_seed_round_trip(seed: Seq<u32>)
    requires
        seed.len() == 4,
    ensures
        seeded_words(le_bytes(seed)) == words_of_seed(seed),
{
    lemma_le_word(seed, 0);
    lemma_le_word(seed, 1);
    lemma_le_word(seed, 2);
    lemma_le_word(seed, 3);
    let bytes = le_bytes(seed);
    assert(seq![le_word(bytes, 0), le_word(bytes, 1), le_word(bytes, 2), le_word(bytes, 3)]
        =~= seed);
}

impl RNG {
    /// A source with a seed that the operating system provides.
    pub fn new() -> (rng: RNG)
        ensures
            rng@.queue.len() == 0,
            rng@.seed.len() == 4,
            rng@.words == words_of_seed(rng@.seed),
            fresh(rng@),
    {
        let a = entropy_word();
        let b = entropy_word();
        let c = entropy_word();
        let d = entropy_word();
        RNG::from_seed(&[a, b, c, d])
    }

    /// The source that the four words of `seed` determine.
    pub fn from_seed(seed: &[u32; 4]) -> (rng: RNG)
        ensures
            rng@.seed == seed@,
            rng@.words == words_of_seed(seed@),
            rng@.queue.len() == 0,
            fresh(rng@),
    {
        let mut as_u8: [u8; 16] = [0, 0, 0, 0, 0, 0, 0, 0, 0, 0, 0, 0, 0, 0, 0, 0];
        let mut i: usize = 0;
        while i < 4
            invariant
                i <= 4,
                forall|k: int| 0 <= k < 4 * i ==> as_u8@[k] == le_bytes(seed@)[k],
            decreases 4 - i,
        {
            let mut s: u32 = seed[i];
            let mut j: usize = 0;
            while j < 4
                invariant
                    i < 4,
                    j <= 4,
                    j < 4 ==> s == shifted(seed@[i as int], j as int),
                    forall|k: int| 0 <= k < 4 * i + j ==> as_u8@[k] == le_bytes(seed@)[k],
                decreases 4 - j,
            {
                proof {
                    if j < 3 {
                        lemma_shift_step(seed@[i as int], j as int);
                    } else {
                        lemma_shift_step(seed@[i as int], 0);
                    }
                }
                as_u8[i * 4 + j] = (s & 0xFF) as u8;
                s = s >> 8;
                j = j + 1;
            }
            i = i + 1;
        }
        proof {
            lemma_seed_round_trip(seed@);
        }
        RNG { seed: *seed, system_rng: seeded_generator(as_u8), stubbed_seq: None }
    }

    /// The seed that the source was made from.
    pub fn seed(&self) -> (seed: &[u32; 4])
        ensures
            seed@ == self@.seed,
    {
        &self.seed
    }

    /// The next queued value, if there is one.
    fn get_next_value(&mut self) -> (next: Option<u32>)
        ensures
            old(self)@.queue.len() > 0 ==> next == Some(old(self)@.queue[0]) && final(self)@ == (
            RngState {
                seed: old(self)@.seed,
                words: old(self)@.words,
                queue: old(self)@.queue.skip(1),
            }),
            old(self)@.queue.len() == 0 ==> next.is_none() && final(self)@ == old(self)@,
    {
        match &mut self.stubbed_seq {
            Some(seq) => {
                let next = seq.pop();
                next
            },
            None => None,
        }
    }

    /// Draws a number below `ceiling`: the next queued value if there is one,
    /// else a number from the generator.
    ///
    /// A queued value that does not lie below the ceiling is a mistake of the
    /// caller, and so is a ceiling of zero.
    pub fn next_u32(&mut self, ceiling: u32) -> (r: u32)
        requires
            old(self)@.can_draw(ceiling),
        ensures
            r == old(self)@.drawn(ceiling),
            r < ceiling,
            final(self)@ == old(self)@.after_draw(ceiling),
    {
        if let Some(val) = self.get_next_value() {
            return val;
        }
        draw_below(&mut self.system_rng, ceiling)
    }

    /// Draws an index below `ceiling`, as `next_u32` does.
    pub fn next_usize(&mut self, ceiling: usize) -> (r: usize)
        requires
            ceiling <= u32::MAX,
            old(self)@.can_draw(ceiling as u32),
        ensures
            r == old(self)@.drawn(ceiling as u32),
            r < ceiling,
            final(self)@ == old(self)@.after_draw(ceiling as u32),
    {
        self.next_u32(ceiling as u32) as usize
    }

    /// Draws a number below `ceiling` from the generator itself, leaving the
    /// queue as it is.
    pub fn pick_u32(&mut self, ceiling: u32) -> (r: u32)
        requires
            ceiling > 0,
        ensures
            r == old(self)@.picked(ceiling),
            r < ceiling,
            final(self)@ == old(self)@.after_pick(ceiling),
    {
        draw_below(&mut self.system_rng, ceiling)
    }

    /// Picks one of `values` with a draw from the generator itself.
    pub fn choose_one<T>(&mut self, values: &[T]) -> (r: T) where T: Clone
        requires
            0 < values@.len() <= u32::MAX,
        ensures
            old(self)@.picked(values@.len() as u32) < values@.len(),
            cloned(values@[old(self)@.picked(values@.len() as u32) as int], r),
            final(self)@ == old(self)@.after_pick(values@.len() as u32),
    {
        let i = self.pick_u32(values.len() as u32) as usize;
        values[i].clone()
    }

    /// Queues `values` to be handed out by the next draws, the first value
    /// first. An earlier queue is dropped.
    pub fn set_next_values(&mut self, values: &[u32])
        ensures
            final(self)@ == (RngState {
                seed: old(self)@.seed,
                words: old(self)@.words,
                queue: values@,
            }),
    {
        let mut seq: Vec<u32> = Vec::new();
        let mut i: usize = values.len();
        while i > 0
            invariant
                i <= values@.len(),
                seq@.len() == values@.len() - i,
                forall|k: int| 0 <= k < seq@.len() ==> seq@[k] == values@[values@.len() - 1 - k],
            decreases i,
        {
            i = i - 1;
            seq.push(values[i]);
        }
        self.stubbed_seq = Some(seq);
    }
}

/// The numbers that successive draws below the given ceilings hand out.
pub open spec fn draw_seq(rng: RngState, ceilings: Seq<u32>) -> Seq<u32>
    decreases ceilings.len(),
{
    if ceilings.len() == 0 {
        Seq::empty()
    } else {
        seq![rng.drawn(ceilings[0])] + draw_seq(rng.after_draw(ceilings[0]), ceilings.skip(1))
    }
}

/// Whether a source is as `from_seed` makes it, but for what is queued.
pub open spec fn fresh(rng: RngState) -> bool {
    rng.seed.len() == 4 && rng.words == words_of_seed(rng.seed)
}

/// Two sources made from the same seed, with the same values queued, hand
/// out the same numbers in the same sequence of draws.
pub proof fn lemma_same_seed_same_draws(a: RngState, b: RngState, ceilings: Seq<u32>)
    requires
        fresh(a),
        fresh(b),
        a.seed == b.seed,
        a.queue == b.queue,
    ensures
        draw_seq(a, ceilings) == draw_seq(b, ceilings),
        forall|ceiling: u32| a.drawn(ceiling) == b.drawn(ceiling),
        forall|ceiling: u32| a.picked(ceiling) == b.picked(ceiling),
        forall|ceiling: u32| a.after_draw(ceiling) == b.after_draw(ceiling),
        forall|ceiling: u32| a.after_pick(ceiling) == b.after_pick(ceiling),
{
}

} // verus!
