//! The statistics of a run: one entry per logged cycle.

use vstd::prelude::*;
use crate::creature::rendered;
use crate::creature::Creature;
use crate::program::Instr;
use crate::program::INSTR_COUNT;

verus! {

/// The mathematical state of a log entry.
#[verifier::ext_equal]
pub struct EntryState {
    /// The cycle that the entry belongs to.
    pub cycle: u64,
    /// The number of creatures, if it has been recorded.
    pub num_creatures: Option<u32>,
    /// The number of distinct programs, if it has been recorded.
    pub num_programs: Option<u32>,
    /// How many creatures have each program, if it has been recorded. The
    /// programs are given in readable form.
    pub programs: Option<Map<Seq<char>, u32>>,
    /// How often each instruction has taken effect, by the instruction's
    /// position in the declaration order.
    pub instr_count: Seq<u32>,
}

/// The mathematical state of a log.
#[verifier::ext_equal]
pub struct LogState {
    /// The entries, the oldest first.
    pub entries: Seq<EntryState>,
    /// The number of creature cycles processed in the whole run.
    pub total_cycles: u64,
}

/// `count` plus one, or the largest number if there is no room for it.
pub open spec fn bumped(count: u32) -> u32 {
    if count < u32::MAX {
        (count + 1) as u32
    } else {
        count
    }
}

/// How often `key` occurs in `items`.
pub open spec fn occurrences(items: Seq<Seq<char>>, key: Seq<char>) -> nat
    decreases items.len(),
{
    if items.len() == 0 {
        0
    } else {
        occurrences(items.drop_last(), key) + (if items.last() == key {
            1nat
        } else {
            0nat
        })
    }
}

/// The number of distinct items among `items`.
pub open spec fn distinct(items: Seq<Seq<char>>) -> nat
    decreases items.len(),
{
    if items.len() == 0 {
        0
    } else {
        distinct(items.drop_last()) + (if occurrences(items.drop_last(), items.last()) == 0 {
            1nat
        } else {
            0nat
        })
    }
}

/// There are no more distinct items than items.
pub proof fn lemma_distinct_bound(items: Seq<Seq<char>>)
    ensures
        distinct(items) <= items.len(),
    decreases items.len(),
{
    if items.len() > 0 {
        lemma_distinct_bound(items.drop_last());
    }
}

/// The histogram of `items`: every item that occurs, with the number of its
/// occurrences.
pub open spec fn tally(items: Seq<Seq<char>>) -> Map<Seq<char>, u32> {
    Map::new(|key: Seq<char>| occurrences(items, key) > 0, |key: Seq<char>| occurrences(items, key) as u32)
}

/// The readable forms of the programs of `creatures`.
pub open spec fn renderings(creatures: Seq<&Creature>) -> Seq<Seq<char>> {
    Seq::new(
        creatures.len(),
        |i: int| rendered(creatures[i].program@, creatures[i].rsize as int, creatures[i].program@.len() as int),
    )
}

/// No item occurs more often than there are items.
pub proof fn lemma_occurrences_bound(items: Seq<Seq<char>>, key: Seq<char>)
    ensures
        occurrences(items, key) <= items.len(),
    decreases items.len(),
{
    if items.len() > 0 {
        lemma_occurrences_bound(items.drop_last(), key);
    }
}

impl EntryState {
    /// A new entry for `cycle`, with nothing recorded.
    pub open spec fn blank(cycle: u64) -> EntryState {
        EntryState {
            cycle,
            num_creatures: None,
            num_programs: None,
            programs: None,
            instr_count: Seq::new(INSTR_COUNT as nat, |i: int| 0u32),
        }
    }
}

impl LogState {
    /// The log with a new entry for `cycle` at its end.
    pub open spec fn with_entry(self, cycle: u64) -> LogState {
        LogState { entries: self.entries.push(EntryState::blank(cycle)), total_cycles: self.total_cycles }
    }

    /// The log with its last entry replaced by `entry`; a log without
    /// entries stays as it is.
    pub open spec fn with_last(self, entry: EntryState) -> LogState {
        if self.entries.len() == 0 {
            self
        } else {
            LogState {
                entries: self.entries.update(self.entries.len() - 1, entry),
                total_cycles: self.total_cycles,
            }
        }
    }

    /// The log after `n` has been recorded as the number of creatures.
    pub open spec fn with_num_creatures(self, n: u32) -> LogState {
        self.with_last(EntryState { num_creatures: Some(n), ..self.entries.last() })
    }

    /// The log after the programs with the given readable forms have been
    /// recorded.
    pub open spec fn with_programs(self, items: Seq<Seq<char>>) -> LogState {
        self.with_last(
            EntryState {
                num_programs: Some(distinct(items) as u32),
                programs: Some(tally(items)),
                ..self.entries.last()
            },
        )
    }

    /// The log after one more effect of `instr` has been counted.
    pub open spec fn counted(self, instr: Instr) -> LogState {
        self.with_last(
            EntryState {
                instr_count: self.entries.last().instr_count.update(
                    instr.code(),
                    bumped(self.entries.last().instr_count[instr.code()]),
                ),
                ..self.entries.last()
            },
        )
    }

    /// The log after one more processed creature cycle has been counted.
    pub open spec fn ticked(self) -> LogState {
        LogState {
            entries: self.entries,
            total_cycles: if self.total_cycles < u64::MAX {
                (self.total_cycles + 1) as u64
            } else {
                self.total_cycles
            },
        }
    }
}

/// How many creatures have each program.
pub struct Histogram {
    /// The programs in readable form, each once.
    pub names: Vec<String>,
    /// The number of creatures with the program of the same position.
    pub counts: Vec<u32>,
}

impl Histogram {
    /// Whether every program is listed once and has a count.
    pub open spec fn wf(&self) -> bool {
        &&& self.names@.len() == self.counts@.len()
        &&& forall|i: int, j: int|
            0 <= i < j < self.names@.len() ==> (#[trigger] self.names@[i])@ != (
            #[trigger] self.names@[j])@
    }

    /// The position at which `key` is listed, if it is.
    pub open spec fn position(&self, key: Seq<char>) -> int {
        choose|i: int| 0 <= i < self.names@.len() && (#[trigger] self.names@[i])@ == key
    }

    /// Whether `key` is listed.
    pub open spec fn lists(&self, key: Seq<char>) -> bool {
        exists|i: int| 0 <= i < self.names@.len() && (#[trigger] self.names@[i])@ == key
    }
}

impl View for Histogram {
    type V = Map<Seq<char>, u32>;

    open spec fn view(&self) -> Map<Seq<char>, u32> {
        Map::new(|key: Seq<char>| self.lists(key), |key: Seq<char>| self.counts@[self.position(key)])
    }
}

/// One entry of the log.
pub struct LogEntry {
    /// The cycle that the entry belongs to.
    pub cycle: u64,
    /// The number of creatures, if it has been recorded.
    pub num_creatures: Option<u32>,
    /// The number of distinct programs, if it has been recorded.
    pub num_programs: Option<u32>,
    /// How many creatures have each program, if it has been recorded.
    pub programs: Option<Histogram>,
    /// How often each instruction has taken effect, by the instruction's
    /// position in the declaration order.
    pub instr_count: [u32; 9],
}

impl View for LogEntry {
    type V = EntryState;

    open spec fn view(&self) -> EntryState {
        EntryState {
            cycle: self.cycle,
            num_creatures: self.num_creatures,
            num_programs: self.num_programs,
            programs: match self.programs {
                Some(h) => Some(h@),
                None => None,
            },
            instr_count: self.instr_count@,
        }
    }
}

/// The log of a run.
pub struct Log {
    /// The entries, the oldest first.
    pub entries: Vec<LogEntry>,
    /// The number of creature cycles processed in the whole run.
    pub total_cycles: u64,
}

impl View for Log {
    type V = LogState;

    open spec fn view(&self) -> LogState {
        LogState {
            entries: Seq::new(self.entries@.len(), |i: int| self.entries@[i]@),
            total_cycles: self.total_cycles,
        }
    }
}

impl Log {
    /// A log without entries.
    pub fn new() -> (log: Log)
        ensures
            log@.entries.len() == 0,
            log@.total_cycles == 0,
    {
        Log { entries: Vec::new(), total_cycles: 0 }
    }

    /// Starts a new entry for `cycle`.
    pub fn add_entry(&mut self, cycle: u64)
        ensures
            final(self)@ == old(self)@.with_entry(cycle),
    {
        let entry = LogEntry {
            cycle,
            num_creatures: None,
            num_programs: None,
            programs: None,
            instr_count: [0, 0, 0, 0, 0, 0, 0, 0, 0],
        };
        proof {
            assert(entry@.instr_count =~= EntryState::blank(cycle).instr_count);
        }
        self.entries.push(entry);
    }

    /// Records `n` as the number of creatures in the last entry. Without an
    /// entry nothing is recorded.
    pub fn set_num_creatures(&mut self, n: u32)
        ensures
            final(self)@ == old(self)@.with_num_creatures(n),
    {
        if let Some(mut entry) = self.entries.pop() {
            entry.num_creatures = Some(n);
            self.entries.push(entry);
        }
    }

    /// Records in the last entry how many of `creatures` have each program,
    /// and how many distinct programs there are. Without an entry nothing is
    /// recorded.
    pub fn set_programs(&mut self, creatures: Vec<&Creature>)
        requires
            creatures@.len() <= u32::MAX,
            forall|i: int| 0 <= i < creatures@.len() ==> (#[trigger] creatures@[i]).rsize > 0,
        ensures
            final(self)@ == old(self)@.with_programs(renderings(creatures@)),
    {
        let programs = Log::count_programs(&creatures);
        let distinct = programs.names.len() as u32;
        if let Some(mut entry) = self.entries.pop() {
            entry.num_programs = Some(distinct);
            entry.programs = Some(programs);
            self.entries.push(entry);
        }
    }

    /// Counts how many of `creatures` have each program.
    pub fn count_programs(creatures: &Vec<&Creature>) -> (hist: Histogram)
        requires
            creatures@.len() <= u32::MAX,
            forall|i: int| 0 <= i < creatures@.len() ==> (#[trigger] creatures@[i]).rsize > 0,
        ensures
            hist.wf(),
            hist@ == tally(renderings(creatures@)),
            hist.names@.len() == distinct(renderings(creatures@)),
            hist.names@.len() <= creatures@.len(),
    {
        let mut hist = Histogram { names: Vec::new(), counts: Vec::new() };
        let ghost all = renderings(creatures@);
        let mut i: usize = 0;
        while i < creatures.len()
            invariant
                i <= creatures@.len() <= u32::MAX,
                all == renderings(creatures@),
                forall|k: int| 0 <= k < creatures@.len() ==> (#[trigger] creatures@[k]).rsize > 0,
                hist.wf(),
                hist.names@.len() <= i,
                hist.names@.len() == distinct(all.take(i as int)),
                hist@ == tally(all.take(i as int)),
                forall|k: int|
                    0 <= k < hist.names@.len() ==> hist.counts@[k] == occurrences(
                        all.take(i as int),
                        (#[trigger] hist.names@[k])@,
                    ),
            decreases creatures@.len() - i,
        {
            let p = creatures[i].pp_program();
            let ghost seen = all.take(i as int);
            let ghost next = all.take(i + 1);
            let ghost before = hist;
            proof {
                assert(next.drop_last() =~= seen);
                lemma_occurrences_bound(next, p@);
            }
            let mut k: usize = 0;
            let mut found = false;
            while k < hist.names.len() && !found
                invariant
                    k <= hist.names@.len(),
                    hist.names@.len() == hist.counts@.len(),
                    forall|j: int| 0 <= j < k && !found ==> (#[trigger] hist.names@[j])@ != p@,
                    found ==> k < hist.names@.len() && hist.names@[k as int]@ == p@,
                decreases hist.names@.len() - k + (if found { 0int } else { 1int }),
            {
                if hist.names[k] == p {
                    found = true;
                } else {
                    k = k + 1;
                }
            }
            proof {
                if found {
                    assert(tally(seen).dom().contains(p@));
                } else {
                    assert(tally(seen).dom().contains(p@) == before@.dom().contains(p@));
                }
            }
            if found {
                let count = hist.counts[k];
                hist.counts.set(k, count + 1);
                proof {
                    assert forall|key: Seq<char>| hist.lists(key) == before.lists(key) by {
                        if before.lists(key) {
                            let j = before.position(key);
                            assert(hist.names@[j]@ == key);
                        }
                        if hist.lists(key) {
                            let j = hist.position(key);
                        }
                    }
                    assert forall|key: Seq<char>| #[trigger] tally(next).dom().contains(key)
                        == hist@.dom().contains(key) by {
                        assert(tally(seen).dom().contains(key) == before@.dom().contains(key));
                    }
                    assert forall|key: Seq<char>| hist@.dom().contains(key) implies #[trigger] hist@[key]
                        == tally(next)[key] by {
                        let j = hist.position(key);
                        lemma_occurrences_bound(next, key);
                        assert(tally(next).dom().contains(key));
                    }
                }
            } else {
                hist.names.push(p);
                hist.counts.push(1);
                proof {
                    let last = hist.names@.len() - 1;
                    assert forall|key: Seq<char>| hist.lists(key) == (before.lists(key) || key
                        == p@) by {
                        if before.lists(key) {
                            let j = before.position(key);
                            assert(hist.names@[j]@ == key);
                        }
                        if key == p@ {
                            assert(hist.names@[last]@ == key);
                        }
                    }
                    assert forall|key: Seq<char>| #[trigger] tally(next).dom().contains(key)
                        == hist@.dom().contains(key) by {
                        assert(tally(seen).dom().contains(key) == before@.dom().contains(key));
                    }
                }
            }
            i = i + 1;
        }
        proof {
            assert(all.take(i as int) =~= all);
        }
        hist
    }

    /// Counts one more effect of `instr` in the last entry. Without an entry
    /// nothing is counted. A count that has reached the largest number that
    /// it can hold stays there.
    pub fn incr_instr_counter(&mut self, instr: Instr)
        ensures
            final(self)@ == old(self)@.counted(instr),
    {
        if let Some(mut entry) = self.entries.pop() {
            let i = instr.index();
            let count = entry.instr_count[i];
            if count < u32::MAX {
                entry.instr_count[i] = count + 1;
            }
            self.entries.push(entry);
            proof {
                assert(self@.entries.last().instr_count =~= old(self)@.counted(
                    instr,
                ).entries.last().instr_count);
            }
        }
    }

    /// Counts one more processed creature cycle. The count stays at the
    /// largest number that it can hold.
    pub fn count_cycle(&mut self)
        ensures
            final(self)@ == old(self)@.ticked(),
    {
        if self.total_cycles < u64::MAX {
            self.total_cycles = self.total_cycles + 1;
        }
    }
}

} // verus!
