//! The terrain: a square grid that wraps round at its edges.
//!
//! Every cell holds at most one creature and at most one plant. The cells
//! that hold a creature are also kept in a list, so that all creatures can be
//! visited without a walk over the whole grid.

use vstd::prelude::*;
use vstd::arithmetic::div_mod::lemma_fundamental_div_mod_converse;
use vstd::arithmetic::div_mod::lemma_mod_pos_bound;
use crate::creature::valid_bearing;
use crate::creature::Creature;
use crate::creature::CreatureState;
use crate::plant::Plant;
use crate::random::lemma_draw_shrinks;
use crate::random::lemma_left_of;
use crate::random::lemma_left_of_left;
use crate::random::RNG;
use crate::random::RngState;

verus! {

/// The largest side that a terrain can have: the number of its cells must
/// fit in 32 bits.
pub const MAX_SIZE: u32 = 0xFFFF;

/// The mathematical state of a terrain.
#[verifier::ext_equal]
pub struct TerrainState {
    /// The side of the square grid.
    pub size: u32,
    /// The creature of each cell, row by row.
    pub creatures: Seq<Option<CreatureState>>,
    /// The plant of each cell, row by row.
    pub plants: Seq<Option<Plant>>,
    /// The cells that hold a creature, in no meaningful order.
    pub occupied: Seq<usize>,
}

impl TerrainState {
    /// The number of cells.
    pub open spec fn cells(self) -> int {
        self.size as int * self.size as int
    }

    /// Whether the grid has a cell for every position.
    pub open spec fn grid_ok(self) -> bool {
        &&& self.size <= MAX_SIZE
        &&& self.creatures.len() == self.cells()
        &&& self.plants.len() == self.cells()
    }

    /// Whether `pos` is a position of the grid.
    pub open spec fn in_grid(self, pos: (u32, u32)) -> bool {
        pos.0 < self.size && pos.1 < self.size
    }

    /// The cell of the position `pos`.
    pub open spec fn cell(self, pos: (u32, u32)) -> int {
        pos.1 as int * self.size as int + pos.0 as int
    }

    /// The position of the cell `idx`.
    pub open spec fn pos_of(self, idx: int) -> (u32, u32) {
        ((idx % (self.size as int)) as u32, (idx / (self.size as int)) as u32)
    }

    /// The position one step from `pos` in the direction `bearing`. A step
    /// over an edge of the grid leads to the opposite edge.
    pub open spec fn ahead(self, pos: (u32, u32), bearing: u16) -> (u32, u32) {
        let s = self.size as int;
        if bearing == 0 {
            (pos.0, ((pos.1 + s - 1) % s) as u32)
        } else if bearing == 90 {
            (((pos.0 + 1) % s) as u32, pos.1)
        } else if bearing == 180 {
            (pos.0, ((pos.1 + 1) % s) as u32)
        } else {
            (((pos.0 + s - 1) % s) as u32, pos.1)
        }
    }

    /// The position `n` steps from `pos` in the direction `bearing`.
    pub open spec fn ahead_n(self, pos: (u32, u32), bearing: u16, n: nat) -> (u32, u32)
        decreases n,
    {
        if n == 0 {
            pos
        } else {
            self.ahead(self.ahead_n(pos, bearing, (n - 1) as nat), bearing)
        }
    }

    /// The creature at `pos`, if there is one.
    pub open spec fn creature_at(self, pos: (u32, u32)) -> Option<CreatureState> {
        self.creatures[self.cell(pos)]
    }

    /// The plant at `pos`, if there is one.
    pub open spec fn plant_at(self, pos: (u32, u32)) -> Option<Plant> {
        self.plants[self.cell(pos)]
    }

    /// The first neighbour of `pos` without a creature, looking north, east,
    /// south and west in this order.
    pub open spec fn free_near(self, pos: (u32, u32)) -> Option<(u32, u32)> {
        if self.creature_at(self.ahead(pos, 0)).is_none() {
            Some(self.ahead(pos, 0))
        } else if self.creature_at(self.ahead(pos, 90)).is_none() {
            Some(self.ahead(pos, 90))
        } else if self.creature_at(self.ahead(pos, 180)).is_none() {
            Some(self.ahead(pos, 180))
        } else if self.creature_at(self.ahead(pos, 270)).is_none() {
            Some(self.ahead(pos, 270))
        } else {
            None
        }
    }

    /// Whether a plant stands within `dist` steps from `pos` in the direction
    /// `bearing`; the cell of `pos` itself does not count.
    pub open spec fn plant_in_view(self, pos: (u32, u32), bearing: u16, dist: nat) -> bool {
        exists|d: nat|
            1 <= d <= dist && (#[trigger] self.plant_at(self.ahead_n(pos, bearing, d))).is_some()
    }

    /// Whether the list of occupied cells holds cells of the grid, each at
    /// most once, and among them every cell with a creature.
    pub open spec fn tracked_ok(self) -> bool {
        &&& self.occupied.no_duplicates()
        &&& forall|k: int| 0 <= k < self.occupied.len() ==> #[trigger] self.occupied[k] < self.cells()
        &&& forall|i: int|
            0 <= i < self.creatures.len() && (#[trigger] self.creatures[i]).is_some()
                ==> self.occupied.contains(i as usize)
    }

    /// Whether the terrain is consistent: the list of occupied cells holds
    /// exactly the cells with a creature.
    pub open spec fn wf(self) -> bool {
        &&& self.grid_ok()
        &&& self.tracked_ok()
        &&& forall|k: int|
            0 <= k < self.occupied.len() ==> self.creatures[(#[trigger] self.occupied[k]) as int].is_some()
    }

    /// Whether the terrain is consistent but for the cell `hole`, whose
    /// creature has been taken out while the cell is still listed.
    pub open spec fn wf_lifted(self, hole: int) -> bool {
        &&& self.grid_ok()
        &&& self.tracked_ok()
        &&& 0 <= hole < self.cells()
        &&& self.occupied.contains(hole as usize)
        &&& self.creatures[hole].is_none()
        &&& forall|k: int|
            0 <= k < self.occupied.len() && (#[trigger] self.occupied[k]) != hole
                ==> self.creatures[self.occupied[k] as int].is_some()
    }

    /// Whether the cell `idx` can take a creature or give one up: it is a
    /// cell of the grid, and not one whose creature has been taken out.
    pub open spec fn settled(self, idx: int) -> bool {
        &&& 0 <= idx < self.cells()
        &&& self.creatures[idx].is_none() ==> !self.occupied.contains(idx as usize)
    }

    /// The terrain after the creature of cell `idx` has been set to `c`: a
    /// cell that gets its first creature joins the list of occupied cells at
    /// the end, a cell that loses its creature leaves the list. Where `idx`
    /// is no cell of the grid the terrain stays as it is.
    pub open spec fn with_creature(self, idx: int, c: Option<CreatureState>) -> TerrainState {
        if 0 <= idx < self.creatures.len() {
            TerrainState {
                size: self.size,
                creatures: self.creatures.update(idx, c),
                plants: self.plants,
                occupied: if self.creatures[idx].is_none() && c.is_some() {
                    self.occupied.push(idx as usize)
                } else if self.creatures[idx].is_some() && c.is_none() {
                    self.occupied.remove(self.occupied.index_of(idx as usize))
                } else {
                    self.occupied
                },
            }
        } else {
            self
        }
    }

    /// The terrain after the plant of cell `idx` has been set to `p`. Where
    /// `idx` is no cell of the grid the terrain stays as it is.
    pub open spec fn with_plant(self, idx: int, p: Option<Plant>) -> TerrainState {
        if 0 <= idx < self.plants.len() {
            TerrainState {
                size: self.size,
                creatures: self.creatures,
                plants: self.plants.update(idx, p),
                occupied: self.occupied,
            }
        } else {
            self
        }
    }

    /// Whether the terrain has come out of `before` by changes that leave
    /// the grid's size and the order of the occupied cells as they were:
    /// cells may have joined the list at its end, none has left it.
    pub open spec fn grown_from(self, before: TerrainState) -> bool {
        &&& self.size == before.size
        &&& self.occupied.len() >= before.occupied.len()
        &&& self.occupied.take(before.occupied.len() as int) == before.occupied
    }

    /// The terrain with the creature of cell `hole` taken out; the cell stays
    /// in the list of occupied cells.
    pub open spec fn lifted(self, hole: int) -> TerrainState {
        TerrainState {
            size: self.size,
            creatures: self.creatures.update(hole, None),
            plants: self.plants,
            occupied: self.occupied,
        }
    }

    /// The terrain after the creature `c`, which had been taken out of the
    /// cell at place `j` of the list of occupied cells, has been put down at
    /// `pos`: the cell of `pos` takes that place of the list.
    pub open spec fn landed(self, j: int, c: CreatureState, pos: (u32, u32)) -> TerrainState {
        TerrainState {
            size: self.size,
            creatures: self.creatures.update(self.cell(pos), Some(c)),
            plants: self.plants,
            occupied: self.occupied.update(j, self.cell(pos) as usize),
        }
    }

    /// The terrain after place `j` has left the list of occupied cells, of
    /// which the places below `end` were there when the walk over the list
    /// began: the cell of place `end - 1` moves to place `j`, and the last
    /// cell of the list to place `end - 1`.
    pub open spec fn dropped(self, j: int, end: int) -> TerrainState {
        let moved = self.occupied.update(j, self.occupied[end - 1]);
        TerrainState {
            size: self.size,
            creatures: self.creatures,
            plants: self.plants,
            occupied: moved.update(end - 1, moved.last()).drop_last(),
        }
    }

    /// Whether any cell holds a creature.
    pub open spec fn has_creature(self) -> bool {
        exists|i: int| 0 <= i < self.creatures.len() && (#[trigger] self.creatures[i]).is_some()
    }

    /// The set of the cells that hold a creature.
    pub open spec fn occupied_cells(self) -> Set<usize> {
        Set::new(|i: usize| i < self.creatures.len() && self.creatures[i as int].is_some())
    }

    /// The position that two draws below the side of the grid hand out.
    pub open spec fn drawn_pos(self, rng: RngState) -> (u32, u32) {
        (rng.drawn(self.size), rng.after_draw(self.size).drawn(self.size))
    }

    /// The first position without a creature among up to `tries` drawn
    /// positions, if there is one.
    pub open spec fn drawn_free_pos(self, rng: RngState, tries: nat) -> Option<(u32, u32)>
        decreases tries,
    {
        if tries == 0 {
            None
        } else if self.creature_at(self.drawn_pos(rng)).is_none() {
            Some(self.drawn_pos(rng))
        } else {
            self.drawn_free_pos(rng.after_draw(self.size).after_draw(self.size), (tries - 1) as nat)
        }
    }

    /// The random source after the search for a free position.
    pub open spec fn rng_after_free_pos(self, rng: RngState, tries: nat) -> RngState
        decreases tries,
    {
        if tries == 0 {
            rng
        } else if self.creature_at(self.drawn_pos(rng)).is_none() {
            rng.after_draw(self.size).after_draw(self.size)
        } else {
            self.rng_after_free_pos(
                rng.after_draw(self.size).after_draw(self.size),
                (tries - 1) as nat,
            )
        }
    }

    /// The plants of the cells below `n` with their positions, row by row.
    pub open spec fn plants_below(self, n: int) -> Seq<((u32, u32), Plant)>
        decreases n,
    {
        if n <= 0 {
            Seq::empty()
        } else if self.plants[n - 1].is_some() {
            self.plants_below(n - 1).push((self.pos_of(n - 1), self.plants[n - 1].unwrap()))
        } else {
            self.plants_below(n - 1)
        }
    }
}

/// The view of a creature that may be missing.
pub open spec fn opt_view(c: Option<Creature>) -> Option<CreatureState> {
    match c {
        Some(c) => Some(c@),
        None => None,
    }
}

/// The views of the creatures of a grid.
pub open spec fn creature_views(creatures: Seq<Option<Creature>>) -> Seq<Option<CreatureState>> {
    Seq::new(creatures.len(), |i: int| opt_view(creatures[i]))
}

/// A position of the grid has a cell of the grid, and the position of that
/// cell is the position itself.
pub proof fn lemma_cell(t: TerrainState, pos: (u32, u32))
    requires
        t.size <= MAX_SIZE,
        t.in_grid(pos),
    ensures
        0 <= t.cell(pos) < t.cells(),
        t.cells() <= u32::MAX,
        t.pos_of(t.cell(pos)) == pos,
{
    let s = t.size as int;
    let x = pos.0 as int;
    let y = pos.1 as int;
    assert(y * s + s <= s * s) by (nonlinear_arith)
        requires
            0 <= y < s,
    ;
    assert(0 <= y * s) by (nonlinear_arith)
        requires
            0 <= y,
            0 <= s,
    ;
    assert(s * s <= 0xFFFF * 0xFFFF) by (nonlinear_arith)
        requires
            0 <= s <= 0xFFFF,
    ;
    lemma_fundamental_div_mod_converse(y * s + x, s, y, x);
}

/// The number of cells fits in 32 bits.
pub proof fn lemma_cell_bound(t: TerrainState)
    requires
        t.size <= MAX_SIZE,
    ensures
        0 <= t.cells() <= u32::MAX,
{
    assert(0 <= t.size as int * t.size as int <= 0xFFFF * 0xFFFF) by (nonlinear_arith)
        requires
            0 <= t.size <= 0xFFFF,
    ;
}

/// A cell of the grid has a position of the grid, and the cell of that
/// position is the cell itself.
pub proof fn lemma_pos_of(t: TerrainState, idx: int)
    requires
        t.size <= MAX_SIZE,
        0 <= idx < t.cells(),
    ensures
        t.in_grid(t.pos_of(idx)),
        t.cell(t.pos_of(idx)) == idx,
{
    let s = t.size as int;
    assert(s > 0) by (nonlinear_arith)
        requires
            0 <= idx < s * s,
            s >= 0,
    ;
    vstd::arithmetic::div_mod::lemma_fundamental_div_mod(idx, s);
    lemma_mod_pos_bound(idx, s);
    let q = idx / s;
    let m = idx % s;
    assert(0 <= q < s) by (nonlinear_arith)
        requires
            idx == s * q + m,
            0 <= m < s,
            0 <= idx < s * s,
            s > 0,
    ;
    assert(q * s == s * q) by (nonlinear_arith);
}

/// On a grid with more than one cell a step leads to another position.
pub proof fn lemma_ahead_moves(t: TerrainState, pos: (u32, u32), bearing: u16)
    requires
        t.in_grid(pos),
        t.size >= 2,
    ensures
        t.ahead(pos, bearing) != pos,
{
    let s = t.size as int;
    let x = pos.0 as int;
    let y = pos.1 as int;
    if x + 1 < s {
        vstd::arithmetic::div_mod::lemma_small_mod((x + 1) as nat, s as nat);
    } else {
        vstd::arithmetic::div_mod::lemma_mod_self_0(s);
    }
    if y + 1 < s {
        vstd::arithmetic::div_mod::lemma_small_mod((y + 1) as nat, s as nat);
    } else {
        vstd::arithmetic::div_mod::lemma_mod_self_0(s);
    }
    if x >= 1 {
        vstd::arithmetic::div_mod::lemma_mod_add_multiples_vanish(x - 1, s);
        vstd::arithmetic::div_mod::lemma_small_mod((x - 1) as nat, s as nat);
    } else {
        vstd::arithmetic::div_mod::lemma_small_mod((s - 1) as nat, s as nat);
    }
    if y >= 1 {
        vstd::arithmetic::div_mod::lemma_mod_add_multiples_vanish(y - 1, s);
        vstd::arithmetic::div_mod::lemma_small_mod((y - 1) as nat, s as nat);
    } else {
        vstd::arithmetic::div_mod::lemma_small_mod((s - 1) as nat, s as nat);
    }
}

/// A list of distinct numbers below `n` has at most `n` entries.
pub proof fn lemma_distinct_below(s: Seq<usize>, n: int)
    requires
        s.no_duplicates(),
        forall|k: int| 0 <= k < s.len() ==> #[trigger] s[k] < n,
    ensures
        s.len() <= n || s.len() == 0,
    decreases n,
{
    if s.len() > 0 && n > 0 {
        if s.contains((n - 1) as usize) {
            let k = s.index_of((n - 1) as usize);
            let rest = s.remove(k);
            assert forall|j: int| 0 <= j < rest.len() implies #[trigger] rest[j] < n - 1 by {
            }
            lemma_distinct_below(rest, n - 1);
        } else {
            assert forall|j: int| 0 <= j < s.len() implies #[trigger] s[j] < n - 1 by {
            }
            lemma_distinct_below(s, n - 1);
        }
    } else if s.len() > 0 {
        assert(s[0] < n);
    }
}

/// In a consistent terrain the list of occupied cells is as long as the
/// number of cells that hold a creature, and that number is at most the
/// number of cells.
pub proof fn lemma_occupied_len(t: TerrainState)
    requires
        t.wf(),
    ensures
        t.occupied.to_set() == t.occupied_cells(),
        t.occupied_cells().finite(),
        t.occupied.len() == t.occupied_cells().len(),
        t.occupied.len() <= t.cells(),
{
    assert forall|i: usize| t.occupied.to_set().contains(i) == t.occupied_cells().contains(i) by {
    }
    t.occupied.unique_seq_to_set();
    vstd::seq_lib::seq_to_set_is_finite(t.occupied);
    lemma_distinct_below(t.occupied, t.cells());
}

/// Setting the creature of a cell keeps a terrain consistent, also while the
/// creature of another cell is taken out.
pub proof fn lemma_with_creature(t: TerrainState, idx: int, c: Option<CreatureState>)
    requires
        t.grid_ok(),
        t.tracked_ok(),
        t.settled(idx),
    ensures
        t.with_creature(idx, c).grid_ok(),
        t.with_creature(idx, c).tracked_ok(),
        t.with_creature(idx, c).settled(idx),
        t.wf() ==> t.with_creature(idx, c).wf(),
        forall|hole: int|
            t.wf_lifted(hole) ==> #[trigger] t.with_creature(idx, c).wf_lifted(hole),
        forall|other: int|
            t.settled(other) ==> #[trigger] t.with_creature(idx, c).settled(other),
{
    let u = t.with_creature(idx, c);
    let i = idx as usize;
    assert(t.cells() <= 0xFFFF * 0xFFFF) by (nonlinear_arith)
        requires
            t.cells() == t.size as int * t.size as int,
            0 <= t.size <= 0xFFFF,
    ;
    if t.creatures[idx].is_none() && c.is_some() {
        assert forall|j: int| 0 <= j < u.creatures.len() && (#[trigger] u.creatures[j]).is_some()
            implies u.occupied.contains(j as usize) by {
            if j == idx {
                assert(u.occupied[u.occupied.len() - 1] == i);
            } else {
                let k = t.occupied.index_of(j as usize);
                assert(u.occupied[k] == j as usize);
            }
        }
        assert forall|hole: int| t.wf_lifted(hole) implies #[trigger] u.wf_lifted(hole) by {
            let k = t.occupied.index_of(hole as usize);
            assert(u.occupied[k] == hole as usize);
            assert forall|j: int|
                0 <= j < u.occupied.len() && (#[trigger] u.occupied[j]) != hole implies u.creatures[u.occupied[j] as int].is_some() by {
            }
        }
    } else if t.creatures[idx].is_some() && c.is_none() {
        let at = t.occupied.index_of(i);
        assert forall|j: int| 0 <= j < u.creatures.len() && (#[trigger] u.creatures[j]).is_some()
            implies u.occupied.contains(j as usize) by {
            let k = t.occupied.index_of(j as usize);
            if k < at {
                assert(u.occupied[k] == j as usize);
            } else {
                assert(u.occupied[k - 1] == t.occupied[k]);
            }
        }
        assert forall|hole: int| t.wf_lifted(hole) implies #[trigger] u.wf_lifted(hole) by {
            let k = t.occupied.index_of(hole as usize);
            if k < at {
                assert(u.occupied[k] == hole as usize);
            } else {
                assert(u.occupied[k - 1] == t.occupied[k]);
            }
        }
    }
}

/// What a visit to a creature leaves behind.
#[verifier::ext_equal]
pub struct Visit<S> {
    /// The state of the visitor.
    pub state: S,
    /// The terrain, from which the creature is still taken out.
    pub terrain: TerrainState,
    /// The creature.
    pub creature: CreatureState,
    /// The position at which the creature is to be put down, or nothing if
    /// it is to leave the terrain.
    pub pos: Option<(u32, u32)>,
}

/// What is done with every creature of a terrain in a walk over all of them.
///
/// For a visit the creature is taken out of its cell. The visitor may change
/// it, may change plants and may put new creatures into free cells. It says
/// where the creature is to be put down, or that it is to leave the terrain.
pub trait CreatureVisitor {
    /// The mathematical state of the visitor.
    type State;

    /// The state of the visitor.
    spec fn state(&self) -> Self::State;

    /// Whether the visitor can visit every one of `creatures`.
    spec fn admits(s: Self::State, creatures: Seq<Option<CreatureState>>) -> bool;

    /// What the visit to the creature `c`, taken out of the terrain `t` at
    /// `pos`, leaves behind.
    spec fn visited(s: Self::State, t: TerrainState, c: CreatureState, pos: (u32, u32)) -> Visit<
        Self::State,
    >;

    /// Visits `creature`, which has been taken out of `terrain` at `pos`.
    fn visit(&mut self, terrain: &mut Terrain, creature: &mut Creature, pos: (u32, u32)) -> (r:
        Option<(u32, u32)>)
        requires
            old(terrain)@.in_grid(pos),
            old(terrain)@.wf_lifted(old(terrain)@.cell(pos)),
            Self::admits(
                old(self).state(),
                old(terrain)@.creatures.update(old(terrain)@.cell(pos), Some(old(creature)@)),
            ),
        ensures
            (Visit {
                state: final(self).state(),
                terrain: final(terrain)@,
                creature: final(creature)@,
                pos: r,
            }) == Self::visited(old(self).state(), old(terrain)@, old(creature)@, pos),
            final(terrain)@.wf_lifted(old(terrain)@.cell(pos)),
            final(terrain)@.grown_from(old(terrain)@),
            r matches Some(p) ==> final(terrain)@.in_grid(p) && final(terrain)@.creature_at(
                p,
            ).is_none() && Self::admits(
                final(self).state(),
                final(terrain)@.creatures.update(final(terrain)@.cell(p), Some(final(creature)@)),
            ),
            r.is_none() ==> Self::admits(final(self).state(), final(terrain)@.creatures),
    ;
}

/// The walk over the creatures at the places from `j` up to `end` of the
/// list of occupied cells: each creature is taken out and visited; then it is
/// put down where the visitor says, or it leaves the list.
pub open spec fn walked<V: CreatureVisitor>(s: V::State, t: TerrainState, j: int, end: int) -> (
    V::State,
    TerrainState,
)
    decreases end - j,
{
    if j >= end {
        (s, t)
    } else {
        let hole = t.occupied[j] as int;
        let v = V::visited(s, t.lifted(hole), t.creatures[hole].unwrap(), t.pos_of(hole));
        match v.pos {
            Some(p) => walked::<V>(v.state, v.terrain.landed(j, v.creature, p), j + 1, end),
            None => walked::<V>(v.state, v.terrain.dropped(j, end), j, end - 1),
        }
    }
}

/// Putting a creature down keeps a terrain consistent.
pub proof fn lemma_landed(t: TerrainState, j: int, c: CreatureState, pos: (u32, u32))
    requires
        0 <= j < t.occupied.len(),
        t.wf_lifted(t.occupied[j] as int),
        t.in_grid(pos),
        t.creature_at(pos).is_none(),
    ensures
        t.landed(j, c, pos).wf(),
{
    let u = t.landed(j, c, pos);
    let hole = t.occupied[j];
    let cell = t.cell(pos);
    lemma_cell(t, pos);
    assert forall|i: int| 0 <= i < u.creatures.len() && (#[trigger] u.creatures[i]).is_some()
        implies u.occupied.contains(i as usize) by {
        if i == cell {
            assert(u.occupied[j] == i as usize);
        } else {
            let k = t.occupied.index_of(i as usize);
            assert(u.occupied[k] == i as usize);
        }
    }
}

/// Dropping from the list the cell of a creature that has been taken out
/// keeps a terrain consistent.
pub proof fn lemma_dropped(t: TerrainState, j: int, end: int)
    requires
        0 <= j < end <= t.occupied.len(),
        t.wf_lifted(t.occupied[j] as int),
    ensures
        t.dropped(j, end).wf(),
        t.dropped(j, end).occupied.len() == t.occupied.len() - 1,
        forall|k: int| 0 <= k < j ==> t.dropped(j, end).occupied[k] == t.occupied[k],
{
    let u = t.dropped(j, end);
    let last = t.occupied.len() - 1;
    assert(t.cells() <= 0xFFFF * 0xFFFF) by (nonlinear_arith)
        requires
            t.cells() == t.size as int * t.size as int,
            0 <= t.size <= 0xFFFF,
    ;
    // where each place of the new list comes from
    let from = |k: int|
        if k == end - 1 {
            last
        } else if k == j {
            end - 1
        } else {
            k
        };
    assert forall|i: int| 0 <= i < u.creatures.len() && (#[trigger] u.creatures[i]).is_some()
        implies u.occupied.contains(i as usize) by {
        let k = t.occupied.index_of(i as usize);
        // the place of the new list that holds what place k held
        let to = if k == end - 1 {
            j
        } else if k == last {
            end - 1
        } else {
            k
        };
        assert(u.occupied[to] == t.occupied[from(to)]);
    }
}

/// Once a creature has been removed from a consistent terrain, its former
/// cell holds no creature and is no longer listed, and the list of occupied
/// cells is one shorter.
pub proof fn lemma_removed(t: TerrainState, idx: int)
    requires
        t.wf(),
        0 <= idx < t.cells(),
        t.creatures[idx].is_some(),
    ensures
        t.with_creature(idx, None).wf(),
        t.with_creature(idx, None).creatures[idx].is_none(),
        !t.with_creature(idx, None).occupied.contains(idx as usize),
        t.with_creature(idx, None).occupied.len() == t.occupied.len() - 1,
{
    lemma_with_creature(t, idx, None);
}

/// A terrain.
pub struct Terrain {
    size: u32,
    creatures: Vec<Option<Creature>>,
    plants: Vec<Option<Plant>>,
    occupied: Vec<usize>,
}

impl View for Terrain {
    type V = TerrainState;

    closed spec fn view(&self) -> TerrainState {
        TerrainState {
            size: self.size,
            creatures: creature_views(self.creatures@),
            plants: self.plants@,
            occupied: self.occupied@,
        }
    }
}

impl Terrain {
    /// An empty terrain of the given side.
    pub fn with_size(size: u32) -> (t: Terrain)
        requires
            size <= MAX_SIZE,
        ensures
            t@.size == size,
            t@.wf(),
            t@.occupied.len() == 0,
            forall|i: int| 0 <= i < t@.cells() ==> t@.creatures[i].is_none(),
            forall|i: int| 0 <= i < t@.cells() ==> t@.plants[i].is_none(),
    {
        assert(size * size <= 0xFFFF * 0xFFFF) by (nonlinear_arith)
            requires
                0 <= size <= 0xFFFF,
        ;
        Terrain {
            size,
            creatures: Terrain::make_nones(size * size),
            plants: Terrain::make_nones(size * size),
            occupied: Vec::with_capacity(1000),
        }
    }

    fn make_nones<T>(n: u32) -> (result: Vec<Option<T>>)
        ensures
            result@.len() == n,
            forall|i: int| 0 <= i < n ==> result@[i].is_none(),
    {
        let mut result: Vec<Option<T>> = Vec::with_capacity(n as usize);
        let mut i: u32 = 0;
        while i < n
            invariant
                i <= n,
                result@.len() == i,
                forall|k: int| 0 <= k < i ==> result@[k].is_none(),
            decreases n - i,
        {
            result.push(None);
            i = i + 1;
        }
        result
    }

    /// The side of the grid.
    pub fn size(&self) -> (size: u32)
        ensures
            size == self@.size,
    {
        self.size
    }

    /// The number of creatures.
    pub fn num_creatures(&self) -> (n: u32)
        requires
            self@.wf(),
        ensures
            n == self@.occupied.len(),
            n == self@.occupied_cells().len(),
    {
        proof {
            lemma_occupied_len(self@);
            assert(self@.cells() <= 0xFFFF * 0xFFFF) by (nonlinear_arith)
                requires
                    self@.cells() == self@.size as int * self@.size as int,
                    0 <= self@.size <= 0xFFFF,
            ;
        }
        self.occupied.len() as u32
    }

    /// The cells that hold a creature, in the order in which the creatures
    /// are visited.
    pub fn occupied(&self) -> (list: &Vec<usize>)
        ensures
            list@ == self@.occupied,
    {
        &self.occupied
    }

    /// The position of the cell `idx`.
    pub fn idx_to_pos(&self, idx: usize) -> (pos: (u32, u32))
        requires
            self@.size <= MAX_SIZE,
            idx < self@.cells(),
        ensures
            pos == self@.pos_of(idx as int),
            self@.in_grid(pos),
            self@.cell(pos) == idx,
    {
        proof {
            lemma_pos_of(self@, idx as int);
            lemma_cell(self@, self@.pos_of(idx as int));
        }
        let i = idx as u32;
        ((i % self.size), (i / self.size))
    }

    /// The cell of the position `pos`.
    pub fn pos_to_idx(&self, pos: (u32, u32)) -> (idx: usize)
        requires
            self@.size <= MAX_SIZE,
            self@.in_grid(pos),
        ensures
            idx == self@.cell(pos),
            idx < self@.cells(),
    {
        proof {
            lemma_cell(self@, pos);
        }
        (pos.1 * self.size + pos.0) as usize
    }

    /// The position one step from `pos` in the direction `bearing`.
    pub fn pos_ahead(&self, pos: (u32, u32), bearing: u16) -> (ahead: (u32, u32))
        requires
            self@.size <= MAX_SIZE,
            self@.in_grid(pos),
            valid_bearing(bearing),
        ensures
            ahead == self@.ahead(pos, bearing),
            self@.in_grid(ahead),
    {
        proof {
            let s = self@.size as int;
            vstd::arithmetic::div_mod::lemma_mod_add_multiples_vanish(pos.0 as int, s);
            vstd::arithmetic::div_mod::lemma_mod_add_multiples_vanish(pos.1 as int, s);
            vstd::arithmetic::div_mod::lemma_mod_add_multiples_vanish(pos.0 + 1, s);
            vstd::arithmetic::div_mod::lemma_mod_add_multiples_vanish(pos.1 + 1, s);
            vstd::arithmetic::div_mod::lemma_small_mod(pos.0 as nat, s as nat);
            vstd::arithmetic::div_mod::lemma_small_mod(pos.1 as nat, s as nat);
        }
        self.add_to_pos(pos, Terrain::dpos(bearing, 1))
    }

    /// The position one step from `pos` in the direction `bearing`, found
    /// without a detour over signed numbers.
    pub fn pos_ahead_fast(&self, pos: (u32, u32), bearing: u16) -> (ahead: (u32, u32))
        requires
            self@.size <= MAX_SIZE,
            self@.in_grid(pos),
            valid_bearing(bearing),
        ensures
            ahead == self@.ahead(pos, bearing),
            self@.in_grid(ahead),
    {
        let s = self.size;
        if bearing == 0 {
            (pos.0, (pos.1 + s - 1) % s)
        } else if bearing == 90 {
            ((pos.0 + 1) % s, pos.1)
        } else if bearing == 180 {
            (pos.0, (pos.1 + 1) % s)
        } else {
            ((pos.0 + s - 1) % s, pos.1)
        }
    }

    /// The positions from one step up to `length` steps from `pos` in the
    /// direction `bearing`, the nearest first.
    pub fn beam_ahead(&self, pos: (u32, u32), bearing: u16, length: u32) -> (beam: Vec<(u32, u32)>)
        requires
            self@.size <= MAX_SIZE,
            self@.in_grid(pos),
            valid_bearing(bearing),
        ensures
            beam@.len() == length,
            forall|i: int|
                0 <= i < length ==> #[trigger] beam@[i] == self@.ahead_n(
                    pos,
                    bearing,
                    (i + 1) as nat,
                ),
            forall|i: int| 0 <= i < length ==> self@.in_grid(#[trigger] beam@[i]),
    {
        let mut beam: Vec<(u32, u32)> = Vec::new();
        let mut cur = pos;
        let mut d: u32 = 0;
        while d < length
            invariant
                d <= length,
                self@.size <= MAX_SIZE,
                valid_bearing(bearing),
                self@.in_grid(cur),
                cur == self@.ahead_n(pos, bearing, d as nat),
                beam@.len() == d,
                forall|i: int|
                    0 <= i < d ==> #[trigger] beam@[i] == self@.ahead_n(
                        pos,
                        bearing,
                        (i + 1) as nat,
                    ),
                forall|i: int| 0 <= i < d ==> self@.in_grid(#[trigger] beam@[i]),
            decreases length - d,
        {
            cur = self.pos_ahead(cur, bearing);
            beam.push(cur);
            d = d + 1;
        }
        beam
    }

    /// The first neighbour of `pos` without a creature, looking north, east,
    /// south and west in this order.
    pub fn free_pos_near(&self, pos: (u32, u32)) -> (free: Option<(u32, u32)>)
        requires
            self@.grid_ok(),
            self@.in_grid(pos),
        ensures
            free == self@.free_near(pos),
            free matches Some(p) ==> self@.in_grid(p) && self@.creature_at(p).is_none(),
    {
        let bearings: [u16; 4] = [0, 90, 180, 270];
        let mut k: usize = 0;
        while k < 4
            invariant
                k <= 4,
                self@.grid_ok(),
                self@.in_grid(pos),
                bearings@ == seq![0u16, 90u16, 180u16, 270u16],
                forall|j: int|
                    0 <= j < k ==> self@.creature_at(
                        self@.ahead(pos, #[trigger] bearings@[j]),
                    ).is_some(),
            decreases 4 - k,
        {
            let p = self.pos_ahead(pos, bearings[k]);
            if self.creature_at(p).is_none() {
                return Some(p);
            }
            k = k + 1;
        }
        None
    }

    /// The first neighbour of `pos` without a creature, found by turning a
    /// heading instead of reading a list of headings.
    pub fn free_pos_near_fast(&self, pos: (u32, u32)) -> (free: Option<(u32, u32)>)
        requires
            self@.grid_ok(),
            self@.in_grid(pos),
        ensures
            free == self@.free_near(pos),
            free matches Some(p) ==> self@.in_grid(p) && self@.creature_at(p).is_none(),
    {
        let mut bearing: u16 = 0;
        let mut k: usize = 0;
        while k < 4
            invariant
                k <= 4,
                bearing == 90 * k,
                self@.grid_ok(),
                self@.in_grid(pos),
                forall|j: int|
                    0 <= j < k ==> self@.creature_at(
                        #[trigger] self@.ahead(pos, (90 * j) as u16),
                    ).is_some(),
            decreases 4 - k,
        {
            let p = self.pos_ahead(pos, bearing);
            if self.creature_at(p).is_none() {
                proof {
                    assert(k > 0 ==> self@.creature_at(self@.ahead(pos, (90 * 0) as u16)).is_some());
                    assert(k > 1 ==> self@.creature_at(self@.ahead(pos, (90 * 1) as u16)).is_some());
                    assert(k > 2 ==> self@.creature_at(self@.ahead(pos, (90 * 2) as u16)).is_some());
                }
                return Some(p);
            }
            bearing = bearing + 90;
            k = k + 1;
        }
        proof {
            assert(self@.creature_at(self@.ahead(pos, (90 * 0) as u16)).is_some());
            assert(self@.creature_at(self@.ahead(pos, (90 * 1) as u16)).is_some());
            assert(self@.creature_at(self@.ahead(pos, (90 * 2) as u16)).is_some());
            assert(self@.creature_at(self@.ahead(pos, (90 * 3) as u16)).is_some());
        }
        None
    }

    fn add_to_pos(&self, pos: (u32, u32), d: (i32, i32)) -> (sum: (u32, u32))
        requires
            self@.size <= MAX_SIZE,
            self@.in_grid(pos),
            -(self@.size as int) <= d.0 <= self@.size,
            -(self@.size as int) <= d.1 <= self@.size,
        ensures
            sum.0 == (pos.0 + d.0 + self@.size) % (self@.size as int),
            sum.1 == (pos.1 + d.1 + self@.size) % (self@.size as int),
            self@.in_grid(sum),
    {
        let s: i32 = self.size as i32;
        (((pos.0 as i32 + d.0 + s) % s) as u32, ((pos.1 as i32 + d.1 + s) % s) as u32)
    }

    fn dpos(bearing: u16, n: i32) -> (d: (i32, i32))
        requires
            valid_bearing(bearing),
            -(MAX_SIZE as int) <= n <= MAX_SIZE,
        ensures
            d == (if bearing == 0 {
                (0i32, (-n) as i32)
            } else if bearing == 90 {
                (n, 0i32)
            } else if bearing == 180 {
                (0i32, n)
            } else {
                ((-n) as i32, 0i32)
            }),
    {
        if bearing == 0 {
            (0, 0 - n)
        } else if bearing == 90 {
            (n, 0)
        } else if bearing == 180 {
            (0, n)
        } else {
            (0 - n, 0)
        }
    }

    /// A position drawn from the random source: first the column, then the
    /// row.
    pub fn rand_pos(&self, rng: &mut RNG) -> (pos: (u32, u32))
        requires
            self@.size > 0,
            old(rng)@.queued_below(0, self@.size as int),
            old(rng)@.queued_below(1, self@.size as int),
        ensures
            pos == self@.drawn_pos(old(rng)@),
            final(rng)@ == old(rng)@.after_draw(self@.size).after_draw(self@.size),
            final(rng)@.left_of(old(rng)@),
            self@.in_grid(pos),
    {
        proof {
            let mid = rng@.after_draw(self@.size);
            lemma_draw_shrinks(rng@, self@.size);
            lemma_draw_shrinks(mid, self@.size);
            lemma_left_of_left(mid.after_draw(self@.size), mid, rng@);
        }
        let x = rng.next_u32(self.size);
        let y = rng.next_u32(self.size);
        (x, y)
    }

    /// A position without a creature, drawn from the random source. The
    /// search gives up after 20 positions that hold a creature.
    pub fn rand_free_pos(&self, rng: &mut RNG) -> (free: Option<(u32, u32)>)
        requires
            self@.grid_ok(),
            self@.size > 0,
            old(rng)@.all_queued_below(self@.size as int),
        ensures
            free == self@.drawn_free_pos(old(rng)@, 20),
            final(rng)@ == self@.rng_after_free_pos(old(rng)@, 20),
            free matches Some(p) ==> self@.in_grid(p) && self@.creature_at(p).is_none(),
            final(rng)@.all_queued_below(self@.size as int),
            final(rng)@.left_of(old(rng)@),
    {
        let ghost start = rng@;
        let mut tries: u32 = 0;
        proof {
            lemma_draw_shrinks(start, 1);
        }
        while tries < 20
            invariant
                tries <= 20,
                start == old(rng)@,
                self@.grid_ok(),
                self@.size > 0,
                rng@.all_queued_below(self@.size as int),
                rng@.left_of(start),
                self@.drawn_free_pos(start, 20) == self@.drawn_free_pos(rng@, (20 - tries) as nat),
                self@.rng_after_free_pos(start, 20) == self@.rng_after_free_pos(
                    rng@,
                    (20 - tries) as nat,
                ),
            decreases 20 - tries,
        {
            let ghost before = rng@;
            let p = self.rand_pos(rng);
            proof {
                lemma_left_of_left(rng@, before, start);
                lemma_left_of(rng@, before);
            }
            if self.creature_at(p).is_none() {
                return Some(p);
            }
            tries = tries + 1;
        }
        None
    }

    /// The creatures, in the order in which they are visited.
    pub fn all_creatures(&self) -> (list: Vec<&Creature>)
        requires
            self@.wf(),
        ensures
            list@.len() == self@.occupied.len(),
            forall|k: int|
                0 <= k < list@.len() ==> Some((#[trigger] list@[k])@)
                    == self@.creatures[self@.occupied[k] as int],
    {
        let mut list: Vec<&Creature> = Vec::new();
        let mut k: usize = 0;
        while k < self.occupied.len()
            invariant
                k <= self.occupied@.len(),
                self@.wf(),
                list@.len() == k,
                forall|i: int|
                    0 <= i < k ==> Some((#[trigger] list@[i])@)
                        == self@.creatures[self@.occupied[i] as int],
            decreases self.occupied@.len() - k,
        {
            let idx = self.occupied[k];
            if let Some(c) = self.creatures[idx].as_ref() {
                list.push(c);
            }
            k = k + 1;
        }
        list
    }

    /// The creatures with their positions, in the order in which they are
    /// visited.
    pub fn all_creatures_with_pos(&self) -> (list: Vec<((u32, u32), &Creature)>)
        requires
            self@.wf(),
        ensures
            list@.len() == self@.occupied.len(),
            forall|k: int|
                0 <= k < list@.len() ==> (#[trigger] list@[k]).0 == self@.pos_of(
                    self@.occupied[k] as int,
                ) && Some(list@[k].1@) == self@.creatures[self@.occupied[k] as int],
    {
        let mut list: Vec<((u32, u32), &Creature)> = Vec::new();
        let mut k: usize = 0;
        while k < self.occupied.len()
            invariant
                k <= self.occupied@.len(),
                self@.wf(),
                list@.len() == k,
                forall|i: int|
                    0 <= i < k ==> (#[trigger] list@[i]).0 == self@.pos_of(
                        self@.occupied[i] as int,
                    ) && Some(list@[i].1@) == self@.creatures[self@.occupied[i] as int],
            decreases self.occupied@.len() - k,
        {
            let idx = self.occupied[k];
            let p = self.idx_to_pos(idx);
            if let Some(c) = self.creatures[idx].as_ref() {
                list.push((p, c));
            }
            k = k + 1;
        }
        list
    }

    /// The plants with their positions, row by row.
    pub fn all_plants_with_pos(&self) -> (list: Vec<((u32, u32), &Plant)>)
        requires
            self@.grid_ok(),
        ensures
            list@.len() == self@.plants_below(self@.cells()).len(),
            forall|k: int|
                0 <= k < list@.len() ==> (#[trigger] list@[k]).0 == self@.plants_below(
                    self@.cells(),
                )[k].0 && *list@[k].1 == self@.plants_below(self@.cells())[k].1,
    {
        let mut out: Vec<((u32, u32), &Plant)> = Vec::new();
        let mut y: u32 = 0;
        while y < self.size
            invariant
                y <= self@.size,
                self@.grid_ok(),
                out@.len() == self@.plants_below(y * self@.size).len(),
                forall|k: int|
                    0 <= k < out@.len() ==> (#[trigger] out@[k]).0 == self@.plants_below(
                        y * self@.size,
                    )[k].0 && *out@[k].1 == self@.plants_below(y * self@.size)[k].1,
            decreases self@.size - y,
        {
            let mut x: u32 = 0;
            while x < self.size
                invariant
                    x <= self@.size,
                    y < self@.size,
                    self@.grid_ok(),
                    out@.len() == self@.plants_below(y * self@.size + x).len(),
                    forall|k: int|
                        0 <= k < out@.len() ==> (#[trigger] out@[k]).0 == self@.plants_below(
                            y * self@.size + x,
                        )[k].0 && *out@[k].1 == self@.plants_below(y * self@.size + x)[k].1,
                decreases self@.size - x,
            {
                proof {
                    lemma_cell(self@, (x, y));
                }
                let i = self.pos_to_idx((x, y));
                if let Some(p) = self.plants[i].as_ref() {
                    out.push(((x, y), p));
                }
                x = x + 1;
            }
            proof {
                assert(y * self@.size + self@.size == (y + 1) * self@.size) by (nonlinear_arith);
            }
            y = y + 1;
        }
        out
    }

    /// Visits every creature that the terrain holds at the start of the walk,
    /// each once. Creatures that the visitor puts into the terrain during the
    /// walk are not visited.
    ///
    /// For its visit a creature is taken out of its cell. Afterwards it is
    /// put down at the position that the visitor returns, which may be its
    /// old one, or it leaves the terrain if the visitor returns nothing.
    pub fn do_with_creatures_mut<V: CreatureVisitor>(&mut self, visitor: &mut V)
        requires
            old(self)@.wf(),
            V::admits(old(visitor).state(), old(self)@.creatures),
        ensures
            (final(visitor).state(), final(self)@) == walked::<V>(
                old(visitor).state(),
                old(self)@,
                0,
                old(self)@.occupied.len() as int,
            ),
            final(self)@.wf(),
            final(self)@.size == old(self)@.size,
            V::admits(final(visitor).state(), final(self)@.creatures),
    {
        let ghost start_state = visitor.state();
        let ghost start = self@;
        let ghost total = self@.occupied.len() as int;
        let mut j: usize = 0;
        let mut end: usize = self.occupied.len();
        while j < end
            invariant
                0 <= j <= end <= self@.occupied.len(),
                self@.wf(),
                self@.size == start.size,
                V::admits(visitor.state(), self@.creatures),
                walked::<V>(start_state, start, 0, total) == walked::<V>(
                    visitor.state(),
                    self@,
                    j as int,
                    end as int,
                ),
            decreases end - j,
        {
            let ghost t = self@;
            let idx = self.occupied[j];
            let ghost hole = idx as int;
            let mut slot: Option<Creature> = None;
            self.creatures.set_and_swap(idx, &mut slot);
            let mut creature = slot.unwrap();
            let pos_before = self.idx_to_pos(idx);
            proof {
                assert(self@ =~= t.lifted(hole));
                assert(self@.creatures.update(hole, Some(creature@)) =~= t.creatures);
            }
            let outcome = visitor.visit(self, &mut creature, pos_before);
            let ghost after = self@;
            match outcome {
                Some(pos_after) => {
                    proof {
                        lemma_landed(after, j as int, creature@, pos_after);
                    }
                    let new_idx = self.pos_to_idx(pos_after);
                    self.creatures.set(new_idx, Some(creature));
                    self.occupied.set(j, new_idx);
                    proof {
                        assert(self@ =~= after.landed(j as int, creature@, pos_after));
                    }
                    j = j + 1;
                },
                None => {
                    proof {
                        lemma_dropped(after, j as int, end as int);
                    }
                    let last = self.occupied.len() - 1;
                    let moved = self.occupied[end - 1];
                    self.occupied.set(j, moved);
                    let tail = self.occupied[last];
                    self.occupied.set(end - 1, tail);
                    self.occupied.pop();
                    end = end - 1;
                },
            }
        }
    }

    /// Sets the creature at `pos`: puts `c` there, or clears the cell.
    ///
    /// The list of occupied cells follows: a cell that gets its first
    /// creature joins the list, a cell that is cleared leaves it.
    pub fn set_creature_at(&mut self, c: Option<Creature>, pos: (u32, u32))
        requires
            old(self)@.grid_ok(),
            old(self)@.tracked_ok(),
            old(self)@.in_grid(pos),
            old(self)@.settled(old(self)@.cell(pos)),
        ensures
            final(self)@ == old(self)@.with_creature(old(self)@.cell(pos), opt_view(c)),
            final(self)@.creature_at(pos) == opt_view(c),
            final(self)@.grid_ok(),
            final(self)@.tracked_ok(),
            old(self)@.wf() ==> final(self)@.wf(),
            forall|hole: int| old(self)@.wf_lifted(hole) ==> final(self)@.wf_lifted(hole),
    {
        let ghost cv = opt_view(c);
        proof {
            lemma_with_creature(self@, self@.cell(pos), cv);
        }
        let idx = self.pos_to_idx(pos);
        let was_free = self.creatures[idx].is_none();
        let is_free = c.is_none();
        self.creatures.set(idx, c);
        if was_free && !is_free {
            self.occupied.push(idx);
        } else if !was_free && is_free {
            let n = self.occupied.len();
            let mut k: usize = 0;
            while self.occupied[k] != idx
                invariant
                    0 <= k < self.occupied@.len() == n,
                    self.occupied@ == old(self).occupied@,
                    old(self).occupied@.contains(idx),
                    forall|j: int| 0 <= j < k ==> self.occupied@[j] != idx,
                decreases self.occupied@.len() - k,
            {
                k = k + 1;
            }
            self.occupied.remove(k);
        }
        proof {
            assert(creature_views(self.creatures@) =~= creature_views(old(self).creatures@).update(
                idx as int,
                cv,
            ));
        }
    }

    /// The creature at `pos`, if there is one.
    pub fn creature_at(&self, pos: (u32, u32)) -> (c: Option<&Creature>)
        requires
            self@.grid_ok(),
            self@.in_grid(pos),
        ensures
            c.is_some() == self@.creature_at(pos).is_some(),
            c matches Some(c) ==> self@.creature_at(pos) == Some(c@),
    {
        let idx = self.pos_to_idx(pos);
        self.creatures[idx].as_ref()
    }

    /// Sets the plant at `pos`: puts `p` there, or clears the cell.
    pub fn set_plant_at(&mut self, p: Option<Plant>, pos: (u32, u32))
        requires
            old(self)@.grid_ok(),
            old(self)@.in_grid(pos),
        ensures
            final(self)@ == old(self)@.with_plant(old(self)@.cell(pos), p),
            final(self)@.plant_at(pos) == p,
            final(self)@.grid_ok(),
            old(self)@.wf() ==> final(self)@.wf(),
    {
        let idx = self.pos_to_idx(pos);
        self.plants.set(idx, p);
    }

    /// The plant at `pos`, if there is one.
    pub fn plant_at(&self, pos: (u32, u32)) -> (p: Option<&Plant>)
        requires
            self@.grid_ok(),
            self@.in_grid(pos),
        ensures
            p.is_some() == self@.plant_at(pos).is_some(),
            p matches Some(p) ==> self@.plant_at(pos) == Some(*p),
    {
        let idx = self.pos_to_idx(pos);
        self.plants[idx].as_ref()
    }

    /// Takes the plant at `pos` out of the terrain, if there is one.
    pub fn take_plant_at(&mut self, pos: (u32, u32)) -> (p: Option<Plant>)
        requires
            old(self)@.grid_ok(),
            old(self)@.in_grid(pos),
        ensures
            p == old(self)@.plant_at(pos),
            final(self)@ == old(self)@.with_plant(old(self)@.cell(pos), None),
    {
        let idx = self.pos_to_idx(pos);
        let p = self.plants[idx];
        if p.is_some() {
            self.plants.set(idx, None);
        }
        p
    }
}

} // verus!
