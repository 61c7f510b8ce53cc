use crate::cell::CellState;
use crate::grid::Grid;
use crate::rng::rand_in_range;
use crate::util::{fits_i32, neighbor_offset, CellsToRender, Vector};
use vstd::prelude::*;

verus! {

/// Ticks an organism lives through before dying of old age.
pub const LIFESPAN: u16 = 1000;

/// A producer cell emits food when a draw from 0..=100 is at most this.
pub const FOOD_PROD_PROB: i32 = 5;

/// Food stock above which an organism attempts to reproduce.
pub const REPRO_TRIGGER: u16 = 10;

/// Food deducted from the parent on a successful birth.
pub const REPRO_COST: u16 = 10;

/// Each axis of a candidate offspring anchor is drawn from the symmetric
/// inclusive range `-REPRO_RANGE..=REPRO_RANGE` around the parent's anchor.
pub const REPRO_RANGE: i32 = 3;

/// What an organism reports after its per-tick update.
#[derive(Clone, Copy, PartialEq, Eq, Structural, Debug)]
pub enum OrganismState {
    Live,
    Die,
}

/// Whether `(x, y)` is one of the offsets in `offs`, anchored at `(ax, ay)`.
pub open spec fn covered_by(offs: Seq<Vector>, ax: int, ay: int, x: int, y: int) -> bool {
    exists|i: int|
        0 <= i < offs.len() && x == ax + (#[trigger] offs[i]).x && y == ay + offs[i].y
}

/// The absolute positions named by `offs` anchored at `(ax, ay)`, in order.
/// Meaningful when every position is representable.
pub open spec fn placed_positions(offs: Seq<Vector>, ax: int, ay: int) -> Seq<Vector> {
    Seq::new(offs.len(), |i: int| Vector { x: (ax + offs[i].x) as i32, y: (ay + offs[i].y) as i32 })
}

/// Whether `(x, y)` is among the first `k` 8-neighbors of `c`, in the fixed
/// order given by `neighbor_offset`.
pub open spec fn neighbor_upto(c: Vector, x: int, y: int, k: int) -> bool {
    exists|j: int|
        0 <= j < k && x == c.x + (#[trigger] neighbor_offset(j)).0 && y == c.y + neighbor_offset(
            j,
        ).1
}

/// Number of the first `k` 8-neighbors of `c` that read `Food` on `g`.
pub open spec fn food_neighbors_upto(g: Grid, c: Vector, k: int) -> int
    decreases k,
{
    if k <= 0 {
        0
    } else {
        food_neighbors_upto(g, c, k - 1) + if g.in_bounds(
            c.x + neighbor_offset(k - 1).0,
            c.y + neighbor_offset(k - 1).1,
        ) && g.state_at(c.x + neighbor_offset(k - 1).0, c.y + neighbor_offset(k - 1).1)
            == CellState::Food {
            1int
        } else {
            0int
        }
    }
}

/// The coordinates a `Mouth` at `c` appends to the dirty list while eating
/// its first `k` neighbors on `g`: the `Food` ones, in scan order.
pub open spec fn eaten_dirty(g: Grid, c: Vector, k: int) -> Seq<Vector>
    decreases k,
{
    if k <= 0 {
        Seq::empty()
    } else {
        eaten_dirty(g, c, k - 1) + if g.in_bounds(
            c.x + neighbor_offset(k - 1).0,
            c.y + neighbor_offset(k - 1).1,
        ) && g.state_at(c.x + neighbor_offset(k - 1).0, c.y + neighbor_offset(k - 1).1)
            == CellState::Food {
            seq![
                Vector {
                    x: (c.x + neighbor_offset(k - 1).0) as i32,
                    y: (c.y + neighbor_offset(k - 1).1) as i32,
                },
            ]
        } else {
            Seq::empty()
        }
    }
}

/// The coordinates appended to the dirty list when the offsets `offs`,
/// anchored at `(ax, ay)`, are written in order: the in-bounds targets, the
/// out-of-bounds ones skipped by the bounds-checked writes.
pub open spec fn placed_dirty(g: Grid, offs: Seq<Vector>, ax: int, ay: int) -> Seq<Vector>
    decreases offs.len(),
{
    if offs.len() == 0 {
        Seq::empty()
    } else {
        placed_dirty(g, offs.drop_last(), ax, ay) + if g.in_bounds(
            ax + offs.last().x,
            ay + offs.last().y,
        ) {
            seq![Vector { x: (ax + offs.last().x) as i32, y: (ay + offs.last().y) as i32 }]
        } else {
            Seq::empty()
        }
    }
}

/// Whether `(x, y)` lies in the 8-neighborhood of the integer coordinate
/// `(cx, cy)`.
pub open spec fn adjacent8(cx: int, cy: int, x: int, y: int) -> bool {
    exists|k: int|
        0 <= k < 8 && x == cx + (#[trigger] neighbor_offset(k)).0 && y == cy + neighbor_offset(
            k,
        ).1
}

pub proof fn lemma_neighbor_upto_adjacent8(c: Vector, x: int, y: int)
    ensures
        neighbor_upto(c, x, y, 8) == adjacent8(c.x as int, c.y as int, x, y),
{
    if neighbor_upto(c, x, y, 8) {
        let k = choose|k: int|
            0 <= k < 8 && x == c.x + (#[trigger] neighbor_offset(k)).0 && y == c.y
                + neighbor_offset(k).1;
        assert(adjacent8(c.x as int, c.y as int, x, y));
    }
    if adjacent8(c.x as int, c.y as int, x, y) {
        let k = choose|k: int|
            0 <= k < 8 && x == c.x + (#[trigger] neighbor_offset(k)).0 && y == c.y
                + neighbor_offset(k).1;
        assert(neighbor_upto(c, x, y, 8));
    }
}

/// Whether `(x, y)` neighbors a body cell of `o` with index below `i` that
/// reads `Mouth` on `g`.
pub open spec fn near_mouth_upto(o: Organism, g: Grid, x: int, y: int, i: int) -> bool {
    exists|j: int|
        0 <= j < i && g.state_at(#[trigger] o.abs_x(j), o.abs_y(j)) == CellState::Mouth
            && adjacent8(o.abs_x(j), o.abs_y(j), x, y)
}

/// Whether `(x, y)` is an orthogonal neighbor of a body cell of `o` that
/// reads `Producer` on `g`.
pub open spec fn beside_producer(o: Organism, g: Grid, x: int, y: int) -> bool {
    exists|j: int, k: int|
        0 <= j < o.cells@.len() && 0 <= k < 4 && g.state_at(#[trigger] o.abs_x(j), o.abs_y(j))
            == CellState::Producer && x == o.abs_x(j) + (#[trigger] neighbor_offset(k)).0 && y
            == o.abs_y(j) + neighbor_offset(k).1
}

/// Whether `(x, y)` neighbors any body cell of `o` that reads `Mouth` on `g`.
pub open spec fn beside_mouth(o: Organism, g: Grid, x: int, y: int) -> bool {
    near_mouth_upto(o, g, x, y, o.cells@.len() as int)
}

/// Among the first `k` neighbors of body cell `j`: those in bounds, reading
/// `Food` on `g`, and not already next to an earlier `Mouth` body cell — so
/// across the whole body each `Food` cell is counted once, at the first
/// `Mouth` it neighbors.
pub open spec fn fresh_food_upto(o: Organism, g: Grid, j: int, k: int) -> int
    decreases k,
{
    if k <= 0 {
        0
    } else {
        fresh_food_upto(o, g, j, k - 1) + if g.in_bounds(
            o.abs_x(j) + neighbor_offset(k - 1).0,
            o.abs_y(j) + neighbor_offset(k - 1).1,
        ) && g.state_at(
            o.abs_x(j) + neighbor_offset(k - 1).0,
            o.abs_y(j) + neighbor_offset(k - 1).1,
        ) == CellState::Food && !near_mouth_upto(
            o,
            g,
            o.abs_x(j) + neighbor_offset(k - 1).0,
            o.abs_y(j) + neighbor_offset(k - 1).1,
            j,
        ) {
            1int
        } else {
            0int
        }
    }
}

/// The number of distinct grid cells reading `Food` on `g` that neighbor a
/// `Mouth` among the first `i` body cells of `o`.
pub open spec fn mouth_food_upto(o: Organism, g: Grid, i: int) -> int
    decreases i,
{
    if i <= 0 {
        0
    } else {
        mouth_food_upto(o, g, i - 1) + if g.state_at(o.abs_x(i - 1), o.abs_y(i - 1))
            == CellState::Mouth {
            fresh_food_upto(o, g, i - 1, 8)
        } else {
            0
        }
    }
}

/// Food that was fresh at tick start and is still on the grid is counted by
/// the mouth that now scans it.
pub proof fn lemma_fresh_le_current(
    o: Organism,
    g_old: Grid,
    g_cur: Grid,
    c: Vector,
    j: int,
    k: int,
)
    requires
        0 <= k <= 8,
        c.x as int == o.abs_x(j),
        c.y as int == o.abs_y(j),
        g_cur.dims() == g_old.dims(),
        forall|x: int, y: int|
            g_old.in_bounds(x, y) && g_old.state_at(x, y) == CellState::Food && !near_mouth_upto(
                o,
                g_old,
                x,
                y,
                j,
            ) ==> #[trigger] g_cur.state_at(x, y) == CellState::Food,
    ensures
        0 <= fresh_food_upto(o, g_old, j, k) <= food_neighbors_upto(g_cur, c, k),
    decreases k,
{
    lemma_food_neighbors_bound(g_cur, c, k);
    if k > 0 {
        lemma_fresh_le_current(o, g_old, g_cur, c, j, k - 1);
        let x = o.abs_x(j) + neighbor_offset(k - 1).0;
        let y = o.abs_y(j) + neighbor_offset(k - 1).1;
        if g_old.in_bounds(x, y) && g_old.state_at(x, y) == CellState::Food && !near_mouth_upto(
            o,
            g_old,
            x,
            y,
            j,
        ) {
            assert(g_cur.state_at(x, y) == CellState::Food);
            assert(x == c.x + neighbor_offset(k - 1).0 && y == c.y + neighbor_offset(k - 1).1);
        }
    }
}

/// At most one unit of food is counted per neighbor.
pub proof fn lemma_food_neighbors_bound(g: Grid, c: Vector, k: int)
    requires
        k >= 0,
    ensures
        0 <= food_neighbors_upto(g, c, k) <= k,
    decreases k,
{
    if k > 0 {
        lemma_food_neighbors_bound(g, c, k - 1);
    }
}

/// Organisms `a` and `b` occupy no common grid cell.
pub open spec fn org_disjoint(a: Organism, b: Organism) -> bool {
    forall|x: int, y: int|
        #![trigger a.occupies(x, y), b.occupies(x, y)]
        !(a.occupies(x, y) && b.occupies(x, y))
}

pub proof fn lemma_disjoint_symm(a: Organism, b: Organism)
    requires
        org_disjoint(a, b),
    ensures
        org_disjoint(b, a),
{
    assert forall|x: int, y: int| #![trigger b.occupies(x, y), a.occupies(x, y)] !(b.occupies(x, y)
        && a.occupies(x, y)) by {
        assert(!(a.occupies(x, y) && b.occupies(x, y)));
    }
}

/// An organism's footprint depends only on its anchor and body plan, so
/// disjointness survives changes to its counters.
pub proof fn lemma_same_footprint_disjoint(a1: Organism, a2: Organism, b: Organism)
    requires
        a1.pos == a2.pos,
        a1.cells@ == a2.cells@,
        org_disjoint(a1, b),
    ensures
        org_disjoint(a2, b),
{
    assert forall|x: int, y: int| #![trigger a2.occupies(x, y), b.occupies(x, y)] !(a2.occupies(
        x,
        y,
    ) && b.occupies(x, y)) by {
        if a2.occupies(x, y) {
            let i = choose|i: int|
                0 <= i < a2.cells@.len() && x == #[trigger] a2.abs_x(i) && y == a2.abs_y(i);
            assert(x == a1.abs_x(i) && y == a1.abs_y(i));
            assert(a1.occupies(x, y));
            assert(!(a1.occupies(x, y) && b.occupies(x, y)));
        }
    }
}

/// A grid change that leaves every organism-body cell alone preserves the
/// occupied-cell invariant.
pub proof fn lemma_occupied_preserved(z: Organism, g0: Grid, g1: Grid)
    requires
        z.occupied_wf(g0),
        g1.dims() == g0.dims(),
        forall|x: int, y: int|
            g0.in_bounds(x, y) && (g0.state_at(x, y) == CellState::Producer || g0.state_at(x, y)
                == CellState::Mouth) ==> #[trigger] g1.state_at(x, y) == g0.state_at(x, y),
    ensures
        z.occupied_wf(g1),
{
    assert forall|i: int| 0 <= i < z.cells@.len() implies g1.in_bounds(
        #[trigger] z.abs_x(i),
        z.abs_y(i),
    ) && (g1.state_at(z.abs_x(i), z.abs_y(i)) == CellState::Producer || g1.state_at(
        z.abs_x(i),
        z.abs_y(i),
    ) == CellState::Mouth) by {
        assert(g0.in_bounds(z.abs_x(i), z.abs_y(i)));
        assert(g1.state_at(z.abs_x(i), z.abs_y(i)) == g0.state_at(z.abs_x(i), z.abs_y(i)));
    }
}

/// A grid change confined to the cells another, disjoint organism covers
/// preserves the occupied-cell invariant.
pub proof fn lemma_occupied_preserved_uncovered(z: Organism, o: Organism, g0: Grid, g1: Grid)
    requires
        z.occupied_wf(g0),
        g1.dims() == g0.dims(),
        org_disjoint(z, o),
        forall|x: int, y: int|
            g0.in_bounds(x, y) && !covered_by(o.cells@, o.pos.x as int, o.pos.y as int, x, y)
                ==> #[trigger] g1.state_at(x, y) == g0.state_at(x, y),
    ensures
        z.occupied_wf(g1),
{
    assert forall|i: int| 0 <= i < z.cells@.len() implies g1.in_bounds(
        #[trigger] z.abs_x(i),
        z.abs_y(i),
    ) && (g1.state_at(z.abs_x(i), z.abs_y(i)) == CellState::Producer || g1.state_at(
        z.abs_x(i),
        z.abs_y(i),
    ) == CellState::Mouth) by {
        assert(g0.in_bounds(z.abs_x(i), z.abs_y(i)));
        assert(z.occupies(z.abs_x(i), z.abs_y(i)));
        if covered_by(o.cells@, o.pos.x as int, o.pos.y as int, z.abs_x(i), z.abs_y(i)) {
            o.lemma_occupies_is_covered(z.abs_x(i), z.abs_y(i));
            assert(o.occupies(z.abs_x(i), z.abs_y(i)));
            assert(!(z.occupies(z.abs_x(i), z.abs_y(i)) && o.occupies(z.abs_x(i), z.abs_y(i))));
            assert(false);
        }
        assert(g1.state_at(z.abs_x(i), z.abs_y(i)) == g0.state_at(z.abs_x(i), z.abs_y(i)));
    }
}

/// An organism born on ground that read `Empty` shares no cell with one
/// whose cells all read organism-body states on the same grid.
pub proof fn lemma_newborn_disjoint(nb: Organism, z: Organism, g: Grid)
    requires
        z.occupied_wf(g),
        forall|i: int|
            0 <= i < nb.cells@.len() ==> g.state_at(#[trigger] nb.abs_x(i), nb.abs_y(i))
                == CellState::Empty,
    ensures
        org_disjoint(nb, z),
        org_disjoint(z, nb),
{
    assert forall|x: int, y: int| #![trigger nb.occupies(x, y), z.occupies(x, y)] !(nb.occupies(
        x,
        y,
    ) && z.occupies(x, y)) by {
        if nb.occupies(x, y) && z.occupies(x, y) {
            let i = choose|i: int|
                0 <= i < nb.cells@.len() && x == #[trigger] nb.abs_x(i) && y == nb.abs_y(i);
            let j = choose|j: int|
                0 <= j < z.cells@.len() && x == #[trigger] z.abs_x(j) && y == z.abs_y(j);
            assert(g.state_at(x, y) == CellState::Empty);
            assert(g.state_at(x, y) == CellState::Producer || g.state_at(x, y)
                == CellState::Mouth);
        }
    }
    assert forall|x: int, y: int| #![trigger z.occupies(x, y), nb.occupies(x, y)] !(z.occupies(
        x,
        y,
    ) && nb.occupies(x, y)) by {
        assert(!(nb.occupies(x, y) && z.occupies(x, y)));
    }
}

/// An organism: a body plan of relative cell offsets anchored at `pos`, plus
/// its food and age counters. While it lives, every occupied grid cell reads
/// `Producer` or `Mouth`.
pub struct Organism {
    pub pos: Vector,
    pub cells: Vec<Vector>,
    pub food: u16,
    pub age: u16,
}

impl Organism {
    /// The x coordinate of the `i`-th occupied cell.
    pub open spec fn abs_x(self, i: int) -> int {
        self.pos.x + self.cells@[i].x
    }

    /// The y coordinate of the `i`-th occupied cell.
    pub open spec fn abs_y(self, i: int) -> int {
        self.pos.y + self.cells@[i].y
    }

    /// Whether this organism occupies the absolute cell `(x, y)`.
    pub open spec fn occupies(self, x: int, y: int) -> bool {
        exists|i: int|
            0 <= i < self.cells@.len() && x == #[trigger] self.abs_x(i) && y == self.abs_y(i)
    }

    /// `occupies` is coverage of the body plan anchored at the organism's
    /// own anchor.
    pub proof fn lemma_occupies_is_covered(self, x: int, y: int)
        ensures
            self.occupies(x, y) == covered_by(
                self.cells@,
                self.pos.x as int,
                self.pos.y as int,
                x,
                y,
            ),
    {
        if self.occupies(x, y) {
            let i = choose|i: int|
                0 <= i < self.cells@.len() && x == #[trigger] self.abs_x(i) && y == self.abs_y(i);
            assert(x == self.pos.x + (self.cells@[i]).x && y == self.pos.y + self.cells@[i].y);
            assert(covered_by(self.cells@, self.pos.x as int, self.pos.y as int, x, y));
        }
        if covered_by(self.cells@, self.pos.x as int, self.pos.y as int, x, y) {
            let i = choose|i: int|
                0 <= i < self.cells@.len() && x == self.pos.x + (#[trigger] self.cells@[i]).x && y
                    == self.pos.y + self.cells@[i].y;
            assert(x == self.abs_x(i) && y == self.abs_y(i));
            assert(self.occupies(x, y));
        }
    }

    /// The occupied-cell invariant: every cell the body plan names is in
    /// bounds and reads an organism-body state on `g`. An occupied cell
    /// observed as `Empty` or `Food` is a modeling contradiction.
    pub open spec fn occupied_wf(self, g: Grid) -> bool {
        forall|i: int|
            0 <= i < self.cells@.len() ==> g.in_bounds(#[trigger] self.abs_x(i), self.abs_y(i)) && (
            g.state_at(self.abs_x(i), self.abs_y(i)) == CellState::Producer || g.state_at(
                self.abs_x(i),
                self.abs_y(i),
            ) == CellState::Mouth)
    }

    /// Whether the body plan, anchored at `(ax, ay)`, would occupy only
    /// in-bounds cells that currently read `Empty` on `g`.
    pub open spec fn clear_at(self, ax: int, ay: int, g: Grid) -> bool {
        forall|i: int|
            0 <= i < self.cells@.len() ==> g.in_bounds(
                ax + (#[trigger] self.cells@[i]).x,
                ay + self.cells@[i].y,
            ) && g.state_at(ax + self.cells@[i].x, ay + self.cells@[i].y) == CellState::Empty
    }

    /// A fresh organism: given anchor and body plan, zero food and age.
    pub fn new(pos: Vector, cells: Vec<Vector>) -> (r: Self)
        ensures
            r.pos == pos,
            r.cells@ == cells@,
            r.food == 0,
            r.age == 0,
    {
        Self { pos, cells, food: 0, age: 0 }
    }

    /// Whether every cell the body plan would occupy at anchor `pos`
    /// currently reads `Empty`. An offset whose absolute position is not even
    /// representable is outside every grid, hence not clear.
    pub fn is_pos_clear(&self, pos: Vector, grid: &Grid) -> (r: bool)
        requires
            grid.wf(),
        ensures
            r == self.clear_at(pos.x as int, pos.y as int, *grid),
    {
        let mut i: usize = 0;
        while i < self.cells.len()
            invariant
                grid.wf(),
                0 <= i <= self.cells@.len(),
                forall|j: int|
                    0 <= j < i ==> grid.in_bounds(
                        pos.x + (#[trigger] self.cells@[j]).x,
                        pos.y + self.cells@[j].y,
                    ) && grid.state_at(pos.x + self.cells@[j].x, pos.y + self.cells@[j].y)
                        == CellState::Empty,
            decreases self.cells@.len() - i,
        {
            match pos.checked_add(self.cells[i]) {
                Some(p) => {
                    if !grid.match_state(p, CellState::Empty) {
                        return false;
                    }
                },
                None => {
                    // an unrepresentable coordinate is out of bounds
                    return false;
                },
            }
            i = i + 1;
        }
        true
    }

    /// Builds a fresh organism at `pos` from explicit per-offset cell states,
    /// writing each state onto the grid in body-plan order (a later duplicate
    /// target overwrites an earlier one).
    pub fn new_with_cells(
        pos: Vector,
        cells: Vec<(Vector, CellState)>,
        grid: &mut Grid,
        cells_to_render: &mut CellsToRender,
    ) -> (r: Organism)
        requires
            old(grid).wf(),
            forall|i: int|
                0 <= i < cells@.len() ==> fits_i32(pos.x + (#[trigger] cells@[i]).0.x) && fits_i32(
                    pos.y + cells@[i].0.y,
                ),
        ensures
            final(grid).wf(),
            final(grid).dims() == old(grid).dims(),
            r.pos == pos,
            r.cells@ == cells@.map_values(|c: (Vector, CellState)| c.0),
            r.food == 0,
            r.age == 0,
            // a target cell reads the state written for it, provided every
            // later write to the same target writes the same state
            forall|j: int|
                0 <= j < cells@.len() && old(grid).in_bounds(
                    pos.x + (#[trigger] cells@[j]).0.x,
                    pos.y + cells@[j].0.y,
                ) && (forall|k: int|
                    j < k < cells@.len() ==> !((#[trigger] cells@[k]).0.x == cells@[j].0.x
                        && cells@[k].0.y == cells@[j].0.y) || cells@[k].1 == cells@[j].1)
                    ==> final(grid).state_at(pos.x + cells@[j].0.x, pos.y + cells@[j].0.y)
                    == cells@[j].1,
            // in particular, the last write to a target always wins
            forall|j: int|
                0 <= j < cells@.len() && old(grid).in_bounds(
                    pos.x + (#[trigger] cells@[j]).0.x,
                    pos.y + cells@[j].0.y,
                ) && (forall|k: int|
                    j < k < cells@.len() ==> !((#[trigger] cells@[k]).0.x == cells@[j].0.x
                        && cells@[k].0.y == cells@[j].0.y)) ==> final(grid).state_at(
                    pos.x + cells@[j].0.x,
                    pos.y + cells@[j].0.y,
                ) == cells@[j].1,
            // cells the body plan does not cover are untouched
            forall|x: int, y: int|
                old(grid).in_bounds(x, y) && !covered_by(
                    cells@.map_values(|c: (Vector, CellState)| c.0),
                    pos.x as int,
                    pos.y as int,
                    x,
                    y,
                ) ==> #[trigger] final(grid).state_at(x, y) == old(grid).state_at(x, y),
            old(cells_to_render)@.is_prefix_of(final(cells_to_render)@),
            // the dirty list grows by exactly the in-bounds targets, in
            // write order, out-of-bounds targets skipped
            final(cells_to_render)@ == old(cells_to_render)@ + placed_dirty(
                *old(grid),
                cells@.map_values(|c: (Vector, CellState)| c.0),
                pos.x as int,
                pos.y as int,
            ),
            // when every target is in bounds the dirty list grows by exactly
            // the absolute positions, in order
            (forall|i: int|
                0 <= i < cells@.len() ==> old(grid).in_bounds(
                    pos.x + (#[trigger] cells@[i]).0.x,
                    pos.y + cells@[i].0.y,
                )) ==> final(cells_to_render)@ == old(cells_to_render)@ + placed_positions(
                cells@.map_values(|c: (Vector, CellState)| c.0),
                pos.x as int,
                pos.y as int,
            ),
    {
        let ghost offs = cells@.map_values(|c: (Vector, CellState)| c.0);
        let ghost dseq = placed_positions(offs, pos.x as int, pos.y as int);
        let mut cell_poses: Vec<Vector> = Vec::new();
        let mut i: usize = 0;
        while i < cells.len()
            invariant
                grid.wf(),
                grid.dims() == old(grid).dims(),
                offs == cells@.map_values(|c: (Vector, CellState)| c.0),
                dseq == placed_positions(offs, pos.x as int, pos.y as int),
                0 <= i <= cells@.len(),
                forall|k: int|
                    0 <= k < cells@.len() ==> fits_i32(pos.x + (#[trigger] cells@[k]).0.x)
                        && fits_i32(pos.y + cells@[k].0.y),
                cell_poses@.len() == i,
                forall|j: int| 0 <= j < i ==> #[trigger] cell_poses@[j] == cells@[j].0,
                // already-written targets hold their state, unless a later
                // processed write to the same target disagreed
                forall|j: int|
                    0 <= j < i && grid.in_bounds(
                        pos.x + (#[trigger] cells@[j]).0.x,
                        pos.y + cells@[j].0.y,
                    ) && (forall|k: int|
                        j < k < i ==> !((#[trigger] cells@[k]).0.x == cells@[j].0.x && cells@[k].0.y
                            == cells@[j].0.y) || cells@[k].1 == cells@[j].1) ==> grid.state_at(
                        pos.x + cells@[j].0.x,
                        pos.y + cells@[j].0.y,
                    ) == cells@[j].1,
                forall|x: int, y: int|
                    old(grid).in_bounds(x, y) && !covered_by(offs.take(i as int), pos.x as int, pos.y as int, x, y)
                        ==> #[trigger] grid.state_at(x, y) == old(grid).state_at(x, y),
                old(cells_to_render)@.is_prefix_of(cells_to_render@),
                cells_to_render@ == old(cells_to_render)@ + placed_dirty(
                    *old(grid),
                    offs.take(i as int),
                    pos.x as int,
                    pos.y as int,
                ),
                (forall|k: int|
                    0 <= k < cells@.len() ==> old(grid).in_bounds(
                        pos.x + (#[trigger] cells@[k]).0.x,
                        pos.y + cells@[k].0.y,
                    )) ==> cells_to_render@ == old(cells_to_render)@ + dseq.take(i as int),
            decreases cells@.len() - i,
        {
            let (cell_pos, cell_state) = cells[i];
            let target = pos.add(cell_pos);
            let ghost g_pre = *grid;
            grid.set_state(target, cell_state, cells_to_render);
            cell_poses.push(cell_pos);
            proof {
                assert(offs.take(i + 1) =~= offs.take(i as int).push(offs[i as int]));
                assert(dseq.take(i + 1) =~= dseq.take(i as int).push(dseq[i as int]));
                assert(dseq[i as int] == target);
                assert(offs.take(i + 1).drop_last() =~= offs.take(i as int));
                assert(offs.take(i + 1).last() == offs[i as int]);
                assert(placed_dirty(*old(grid), offs.take(i + 1), pos.x as int, pos.y as int)
                    == placed_dirty(*old(grid), offs.take(i as int), pos.x as int, pos.y as int)
                    + (if old(grid).in_bounds(
                    pos.x + offs[i as int].x,
                    pos.y + offs[i as int].y,
                ) {
                    seq![target]
                } else {
                    Seq::empty()
                }));
                assert(cells_to_render@ =~= old(cells_to_render)@ + placed_dirty(
                    *old(grid),
                    offs.take(i + 1),
                    pos.x as int,
                    pos.y as int,
                ));
                let gx = pos.x as int;
                let gy = pos.y as int;
                assert forall|x: int, y: int|
                    old(grid).in_bounds(x, y) && !covered_by(offs.take(i + 1), gx, gy, x, y)
                        implies #[trigger] grid.state_at(x, y) == old(grid).state_at(x, y) by {
                    assert(offs.take(i + 1)[i as int] == offs[i as int]);
                    assert(!(x == gx + offs[i as int].x && y == gy + offs[i as int].y));
                    if covered_by(offs.take(i as int), gx, gy, x, y) {
                        let j = choose|j: int|
                            0 <= j < offs.take(i as int).len() && x == gx + (#[trigger] offs.take(
                                i as int,
                            )[j]).x && y == gy + offs.take(i as int)[j].y;
                        assert(offs.take(i + 1)[j] == offs[j]);
                        assert(covered_by(offs.take(i + 1), gx, gy, x, y));
                    }
                    assert(g_pre.state_at(x, y) == old(grid).state_at(x, y));
                }
            }
            i = i + 1;
        }
        proof {
            assert(cell_poses@ =~= offs);
            assert(offs.take(cells@.len() as int) =~= offs);
            assert(dseq.take(cells@.len() as int) =~= dseq);
        }
        Self::new(pos, cell_poses)
    }

    /// Copies this organism's live per-cell grid states onto a new anchor and
    /// returns the offspring. The clone reads the parent's *current* states
    /// before writing any of them, so a cell produced differently than the
    /// parent's original template is copied as it stands.
    pub fn clone_with_cells(
        &self,
        pos: Vector,
        grid: &mut Grid,
        cells_to_render: &mut CellsToRender,
    ) -> (r: Organism)
        requires
            old(grid).wf(),
            forall|i: int|
                0 <= i < self.cells@.len() ==> old(grid).in_bounds(
                    #[trigger] self.abs_x(i),
                    self.abs_y(i),
                ),
            forall|i: int|
                0 <= i < self.cells@.len() ==> fits_i32(pos.x + (#[trigger] self.cells@[i]).x)
                    && fits_i32(pos.y + self.cells@[i].y),
        ensures
            final(grid).wf(),
            final(grid).dims() == old(grid).dims(),
            r.pos == pos,
            r.cells@ == self.cells@,
            r.food == 0,
            r.age == 0,
            // every target cell now reads the parent's state at that offset
            forall|j: int|
                0 <= j < self.cells@.len() && old(grid).in_bounds(
                    pos.x + (#[trigger] self.cells@[j]).x,
                    pos.y + self.cells@[j].y,
                ) ==> final(grid).state_at(pos.x + self.cells@[j].x, pos.y + self.cells@[j].y)
                    == old(grid).state_at(self.abs_x(j), self.abs_y(j)),
            forall|x: int, y: int|
                old(grid).in_bounds(x, y) && !covered_by(self.cells@, pos.x as int, pos.y as int, x, y)
                    ==> #[trigger] final(grid).state_at(x, y) == old(grid).state_at(x, y),
            old(cells_to_render)@.is_prefix_of(final(cells_to_render)@),
            (forall|i: int|
                0 <= i < self.cells@.len() ==> old(grid).in_bounds(
                    pos.x + (#[trigger] self.cells@[i]).x,
                    pos.y + self.cells@[i].y,
                )) ==> final(cells_to_render)@ == old(cells_to_render)@ + placed_positions(
                self.cells@,
                pos.x as int,
                pos.y as int,
            ),
            // unconditionally, the dirty list grows by exactly the in-bounds
            // targets in write order
            final(cells_to_render)@ == old(cells_to_render)@ + placed_dirty(
                *old(grid),
                self.cells@,
                pos.x as int,
                pos.y as int,
            ),
    {
        let mut cells: Vec<(Vector, CellState)> = Vec::new();
        let mut i: usize = 0;
        while i < self.cells.len()
            invariant
                grid.wf(),
                *grid == *old(grid),
                forall|j: int|
                    0 <= j < self.cells@.len() ==> grid.in_bounds(
                        #[trigger] self.abs_x(j),
                        self.abs_y(j),
                    ),
                0 <= i <= self.cells@.len(),
                cells@.len() == i,
                forall|j: int|
                    0 <= j < i ==> (#[trigger] cells@[j]).0 == self.cells@[j] && cells@[j].1
                        == grid.state_at(self.abs_x(j), self.abs_y(j)),
            decreases self.cells@.len() - i,
        {
            let cell_pos = self.cells[i];
            proof {
                assert(grid.in_bounds(self.abs_x(i as int), self.abs_y(i as int)));
            }
            let abs = self.pos.add(cell_pos);
            let cell_state = match grid.get(abs) {
                Some(cell) => cell.state,
                None => {
                    proof {
                        assert(false);
                    }
                    CellState::Empty
                },
            };
            cells.push((cell_pos, cell_state));
            i = i + 1;
        }
        let ghost cseq = cells@;
        proof {
            assert(cseq.map_values(|c: (Vector, CellState)| c.0) =~= self.cells@);
            assert(placed_positions(cseq.map_values(|c: (Vector, CellState)| c.0), pos.x as int, pos.y as int)
                =~= placed_positions(self.cells@, pos.x as int, pos.y as int));
            assert(placed_dirty(
                *old(grid),
                cseq.map_values(|c: (Vector, CellState)| c.0),
                pos.x as int,
                pos.y as int,
            ) == placed_dirty(*old(grid), self.cells@, pos.x as int, pos.y as int));
        }
        let r = Self::new_with_cells(pos, cells, grid, cells_to_render);
        proof {
            // duplicate offsets read the same parent cell, so every later
            // write to the same target carries the same state
            assert forall|j: int|
                0 <= j < self.cells@.len() && old(grid).in_bounds(
                    pos.x + (#[trigger] self.cells@[j]).x,
                    pos.y + self.cells@[j].y,
                ) implies grid.state_at(pos.x + self.cells@[j].x, pos.y + self.cells@[j].y) == old(grid).state_at(self.abs_x(j), self.abs_y(j)) by {
                assert forall|k: int|
                    j < k < cseq.len() implies !((#[trigger] cseq[k]).0.x == cseq[j].0.x
                        && cseq[k].0.y == cseq[j].0.y) || cseq[k].1 == cseq[j].1 by {
                    if cseq[k].0.x == cseq[j].0.x && cseq[k].0.y == cseq[j].0.y {
                        assert(self.abs_x(k) == self.abs_x(j) && self.abs_y(k) == self.abs_y(j));
                    }
                }
            }
        }
        r
    }

    /// One `Mouth` cell's per-tick behavior: scan the 8 neighbors of
    /// `center` in the fixed order; every neighbor currently reading `Food`
    /// becomes `Empty` and feeds this organism exactly one unit. No
    /// randomness is involved: all adjacent food is consumed, once each.
    pub fn mouth_consume(
        &mut self,
        center: Vector,
        grid: &mut Grid,
        cells_to_render: &mut CellsToRender,
    )
        requires
            old(grid).wf(),
            old(grid).in_bounds(center.x as int, center.y as int),
            old(self).food + 8 <= u16::MAX,
        ensures
            final(grid).wf(),
            final(grid).dims() == old(grid).dims(),
            final(self).pos == old(self).pos,
            final(self).cells@ == old(self).cells@,
            final(self).age == old(self).age,
            final(self).food == old(self).food + food_neighbors_upto(*old(grid), center, 8),
            forall|x: int, y: int|
                old(grid).in_bounds(x, y) && neighbor_upto(center, x, y, 8) && old(grid).state_at(x, y) == CellState::Food ==> #[trigger] final(grid).state_at(x, y)
                    == CellState::Empty,
            forall|x: int, y: int|
                old(grid).in_bounds(x, y) && !(neighbor_upto(center, x, y, 8) && old(grid).state_at(x, y) == CellState::Food) ==> #[trigger] final(grid).state_at(x, y)
                    == old(grid).state_at(x, y),
            old(cells_to_render)@.is_prefix_of(final(cells_to_render)@),
            // the dirty list grows by exactly the eaten coordinates, in order
            final(cells_to_render)@ == old(cells_to_render)@ + eaten_dirty(*old(grid), center, 8),
    {
        let neighbors = center.neighbors();
        let mut k: usize = 0;
        while k < neighbors.len()
            invariant
                grid.wf(),
                grid.dims() == old(grid).dims(),
                neighbors@.len() == 8,
                forall|j: int|
                    0 <= j < 8 ==> (#[trigger] neighbors@[j]).x == center.x + neighbor_offset(j).0
                        && neighbors@[j].y == center.y + neighbor_offset(j).1,
                0 <= k <= 8,
                self.pos == old(self).pos,
                self.cells@ == old(self).cells@,
                self.age == old(self).age,
                old(self).food + 8 <= u16::MAX,
                0 <= food_neighbors_upto(*old(grid), center, k as int) <= k,
                self.food == old(self).food + food_neighbors_upto(*old(grid), center, k as int),
                forall|x: int, y: int|
                    old(grid).in_bounds(x, y) && neighbor_upto(center, x, y, k as int) && old(grid).state_at(x, y) == CellState::Food ==> #[trigger] grid.state_at(x, y)
                        == CellState::Empty,
                forall|x: int, y: int|
                    old(grid).in_bounds(x, y) && !(neighbor_upto(center, x, y, k as int) && old(grid).state_at(x, y) == CellState::Food) ==> #[trigger] grid.state_at(x, y) == old(grid).state_at(x, y),
                old(cells_to_render)@.is_prefix_of(cells_to_render@),
                cells_to_render@ == old(cells_to_render)@ + eaten_dirty(
                    *old(grid),
                    center,
                    k as int,
                ),
            decreases 8 - k,
        {
            let n = neighbors[k];
            let ghost nx = n.x as int;
            let ghost ny = n.y as int;
            proof {
                // this neighbor is none of the earlier ones
                assert(!neighbor_upto(center, nx, ny, k as int)) by {
                    if neighbor_upto(center, nx, ny, k as int) {
                        let j = choose|j: int|
                            0 <= j < k && nx == center.x + (#[trigger] neighbor_offset(j)).0 && ny
                                == center.y + neighbor_offset(j).1;
                        crate::util::lemma_neighbor_offsets_distinct(j, k as int);
                    }
                }
            }
            let ghost g_pre = *grid;
            let ate: bool;
            if grid.match_state(n, CellState::Food) {
                grid.set_state(n, CellState::Empty, cells_to_render);
                self.food = self.food + 1;
                ate = true;
            } else {
                ate = false;
            }
            proof {
                // the neighbor's pre-iteration state equals its original one
                assert(old(grid).in_bounds(nx, ny) ==> g_pre.state_at(nx, ny) == old(grid).state_at(nx, ny));
                assert(food_neighbors_upto(*old(grid), center, k + 1) == food_neighbors_upto(
                    *old(grid),
                    center,
                    k as int,
                ) + if old(grid).in_bounds(nx, ny) && old(grid).state_at(nx, ny)
                    == CellState::Food {
                    1int
                } else {
                    0int
                });
                assert(ate == (old(grid).in_bounds(nx, ny) && old(grid).state_at(nx, ny)
                    == CellState::Food));
                assert(eaten_dirty(*old(grid), center, k + 1) == eaten_dirty(
                    *old(grid),
                    center,
                    k as int,
                ) + (if old(grid).in_bounds(nx, ny) && old(grid).state_at(nx, ny)
                    == CellState::Food {
                    seq![Vector { x: nx as i32, y: ny as i32 }]
                } else {
                    Seq::empty()
                }));
                if ate {
                    assert(n == (Vector { x: nx as i32, y: ny as i32 }));
                    assert(cells_to_render@ =~= old(cells_to_render)@ + eaten_dirty(
                        *old(grid),
                        center,
                        k + 1,
                    ));
                } else {
                    assert(cells_to_render@ =~= old(cells_to_render)@ + eaten_dirty(
                        *old(grid),
                        center,
                        k + 1,
                    ));
                }
                assert forall|x: int, y: int|
                    old(grid).in_bounds(x, y) && neighbor_upto(center, x, y, k + 1) && old(grid).state_at(x, y) == CellState::Food implies #[trigger] grid.state_at(x, y)
                    == CellState::Empty by {
                    if x == nx && y == ny {
                    } else {
                        let j = choose|j: int|
                            0 <= j < k + 1 && x == center.x + (#[trigger] neighbor_offset(j)).0 && y
                                == center.y + neighbor_offset(j).1;
                        assert(j < k);
                        assert(neighbor_upto(center, x, y, k as int));
                        assert(g_pre.state_at(x, y) == CellState::Empty);
                    }
                }
                assert forall|x: int, y: int|
                    old(grid).in_bounds(x, y) && !(neighbor_upto(center, x, y, k + 1) && old(grid).state_at(x, y) == CellState::Food) implies #[trigger] grid.state_at(x, y)
                    == old(grid).state_at(x, y) by {
                    assert(neighbor_upto(center, nx, ny, k + 1));
                    if !(x == nx && y == ny) {
                        if neighbor_upto(center, x, y, k as int) {
                            assert(neighbor_upto(center, x, y, k + 1));
                        }
                        assert(g_pre.state_at(x, y) == old(grid).state_at(x, y));
                    }
                }
            }
            k = k + 1;
        }
    }

    /// Exec check of the occupied-cell invariant: whether every cell this
    /// organism occupies is in bounds and reads `Producer` or `Mouth`.
    pub fn check_occupied(&self, grid: &Grid) -> (r: bool)
        requires
            grid.wf(),
        ensures
            r == self.occupied_wf(*grid),
    {
        let mut i: usize = 0;
        while i < self.cells.len()
            invariant
                grid.wf(),
                0 <= i <= self.cells@.len(),
                forall|j: int|
                    0 <= j < i ==> grid.in_bounds(#[trigger] self.abs_x(j), self.abs_y(j)) && (
                    grid.state_at(self.abs_x(j), self.abs_y(j)) == CellState::Producer
                        || grid.state_at(self.abs_x(j), self.abs_y(j)) == CellState::Mouth),
            decreases self.cells@.len() - i,
        {
            match self.pos.checked_add(self.cells[i]) {
                Some(p) => {
                    proof {
                        assert(p.x as int == self.abs_x(i as int) && p.y as int == self.abs_y(
                            i as int,
                        ));
                    }
                    if !(grid.match_state(p, CellState::Producer) || grid.match_state(
                        p,
                        CellState::Mouth,
                    )) {
                        return false;
                    }
                },
                None => {
                    // an unrepresentable coordinate is out of bounds
                    proof {
                        assert(!grid.in_bounds(self.abs_x(i as int), self.abs_y(i as int)));
                    }
                    return false;
                },
            }
            i = i + 1;
        }
        true
    }

    /// One reproduction attempt with an already-drawn anchor offset: if every
    /// cell the offspring would occupy at `pos + offset` currently reads
    /// `Empty`, the offspring is born there as a copy of the parent's live
    /// cell states and the parent pays the reproduction cost; otherwise the
    /// attempt silently fails and nothing at all changes.
    pub fn try_reproduce(
        &mut self,
        offset: Vector,
        grid: &mut Grid,
        organisms: &mut Vec<Organism>,
        cells_to_render: &mut CellsToRender,
    )
        requires
            old(grid).wf(),
            old(self).occupied_wf(*old(grid)),
            old(self).food > REPRO_TRIGGER,
            fits_i32(old(self).pos.x + offset.x),
            fits_i32(old(self).pos.y + offset.y),
        ensures
            final(grid).wf(),
            final(grid).dims() == old(grid).dims(),
            final(self).pos == old(self).pos,
            final(self).cells@ == old(self).cells@,
            final(self).age == old(self).age,
            // success: the candidate site was fully clear
            old(self).clear_at(
                old(self).pos.x + offset.x,
                old(self).pos.y + offset.y,
                *old(grid),
            ) ==> ({
                let nb = final(organisms)@.last();
                &&& final(organisms)@ == old(organisms)@.push(nb)
                &&& nb.pos.x == old(self).pos.x + offset.x
                &&& nb.pos.y == old(self).pos.y + offset.y
                &&& nb.cells@ == old(self).cells@
                &&& nb.food == 0
                &&& nb.age == 0
                &&& final(self).food == old(self).food - REPRO_COST
                &&& (forall|j: int|
                    0 <= j < old(self).cells@.len() ==> final(grid).state_at(
                        nb.pos.x + (#[trigger] old(self).cells@[j]).x,
                        nb.pos.y + old(self).cells@[j].y,
                    ) == old(grid).state_at(old(self).abs_x(j), old(self).abs_y(j)))
                &&& (forall|x: int, y: int|
                    old(grid).in_bounds(x, y) && !covered_by(
                        old(self).cells@,
                        nb.pos.x as int,
                        nb.pos.y as int,
                        x,
                        y,
                    ) ==> #[trigger] final(grid).state_at(x, y) == old(grid).state_at(x, y))
                &&& final(cells_to_render)@ == old(cells_to_render)@ + placed_positions(
                    old(self).cells@,
                    nb.pos.x as int,
                    nb.pos.y as int,
                )
            }),
            // failure: nothing changes and no food is deducted
            !old(self).clear_at(
                old(self).pos.x + offset.x,
                old(self).pos.y + offset.y,
                *old(grid),
            ) ==> *final(grid) == *old(grid) && final(organisms)@ == old(organisms)@
                && *final(self) == *old(self) && final(cells_to_render)@ == old(cells_to_render)@,
            // in either case a cell that did not read Empty is untouched
            forall|x: int, y: int|
                old(grid).in_bounds(x, y) && old(grid).state_at(x, y) != CellState::Empty
                    ==> #[trigger] final(grid).state_at(x, y) == old(grid).state_at(x, y),
    {
        let cand = self.pos.add(offset);
        if self.is_pos_clear(cand, grid) {
            let nb = self.clone_with_cells(cand, grid, cells_to_render);
            organisms.push(nb);
            self.food = self.food - REPRO_COST;
            proof {
                assert forall|x: int, y: int|
                    old(grid).in_bounds(x, y) && old(grid).state_at(x, y) != CellState::Empty
                        implies #[trigger] grid.state_at(x, y) == old(grid).state_at(x, y) by {
                    if covered_by(old(self).cells@, cand.x as int, cand.y as int, x, y) {
                        let i = choose|i: int|
                            0 <= i < old(self).cells@.len() && x == cand.x + (#[trigger] old(self).cells@[i]).x && y == cand.y + old(self).cells@[i].y;
                        assert(old(grid).state_at(x, y) == CellState::Empty);
                    }
                }
            }
        }
    }

    /// One organism tick. At the lifespan boundary the organism dies and
    /// every one of its occupied cells is converted to `Food`. Otherwise,
    /// with food above the reproduction trigger, it makes one reproduction
    /// attempt at a uniformly drawn candidate anchor within
    /// `REPRO_RANGE` of its own (skipped for an anchor so near the edge of
    /// the representable plane that the candidate could not be named); then
    /// each body cell acts in body-plan order: a `Producer` may emit food
    /// into a random orthogonal neighbor, a `Mouth` eats all adjacent food;
    /// finally the organism ages by one and reports `Live`.
    pub fn update(
        &mut self,
        grid: &mut Grid,
        organisms: &mut Vec<Organism>,
        cells_to_render: &mut CellsToRender,
    ) -> (r: OrganismState)
        requires
            old(grid).wf(),
            old(self).occupied_wf(*old(grid)),
            old(self).age <= LIFESPAN,
            old(self).food + 8 * old(self).cells@.len() <= u16::MAX,
        ensures
            final(grid).wf(),
            final(grid).dims() == old(grid).dims(),
            r == OrganismState::Die <==> old(self).age == LIFESPAN,
            // death: every occupied cell becomes food, nothing else changes
            r == OrganismState::Die ==> *final(self) == *old(self) && final(organisms)@ == old(organisms)@ && (forall|j: int|
                0 <= j < old(self).cells@.len() ==> final(grid).state_at(
                    old(self).abs_x(j),
                    old(self).abs_y(j),
                ) == CellState::Food) && (forall|x: int, y: int|
                old(grid).in_bounds(x, y) && !covered_by(
                    old(self).cells@,
                    old(self).pos.x as int,
                    old(self).pos.y as int,
                    x,
                    y,
                ) ==> #[trigger] final(grid).state_at(x, y) == old(grid).state_at(x, y)) && final(cells_to_render)@ == old(cells_to_render)@ + placed_positions(
                old(self).cells@,
                old(self).pos.x as int,
                old(self).pos.y as int,
            ),
            // live: the body is unchanged and ages by one, and the organism's
            // own cells still read exactly what they read before the tick
            r == OrganismState::Live ==> final(self).pos == old(self).pos && final(self).cells@
                == old(self).cells@ && final(self).age == old(self).age + 1 && (forall|j: int|
                0 <= j < old(self).cells@.len() ==> final(grid).state_at(
                    old(self).abs_x(j),
                    old(self).abs_y(j),
                ) == old(grid).state_at(old(self).abs_x(j), old(self).abs_y(j)))
                && final(self).occupied_wf(*final(grid))
                && old(organisms)@.is_prefix_of(final(organisms)@) && final(organisms)@.len() <= old(organisms)@.len() + 1 && old(cells_to_render)@.is_prefix_of(
                final(cells_to_render)@,
            ),
            // a surviving organism's tick never rewrites any cell that reads
            // an organism-body state: producers fill only Empty cells, mouths
            // clear only Food cells, and births land only on clear ground
            r == OrganismState::Live ==> forall|x: int, y: int|
                old(grid).in_bounds(x, y) && (old(grid).state_at(x, y) == CellState::Producer
                    || old(grid).state_at(x, y) == CellState::Mouth)
                    ==> #[trigger] final(grid).state_at(x, y) == old(grid).state_at(x, y),
            // a Live tick is confined to the organism's reach: every cell
            // whose state changed either gained food beside one of its
            // producers, lost food beside one of its mouths, or belongs to
            // the newborn's footprint
            r == OrganismState::Live ==> forall|x: int, y: int|
                old(grid).in_bounds(x, y) && #[trigger] final(grid).state_at(x, y) != old(grid).state_at(x, y) ==> (old(grid).state_at(x, y) == CellState::Empty && final(grid).state_at(x, y) == CellState::Food && beside_producer(*old(self), *old(grid), x, y))
                    || (old(grid).state_at(x, y) == CellState::Food && final(grid).state_at(x, y)
                    == CellState::Empty && beside_mouth(*old(self), *old(grid), x, y)) || (final(organisms)@.len() == old(organisms)@.len() + 1 && covered_by(
                    old(self).cells@,
                    final(organisms)@.last().pos.x as int,
                    final(organisms)@.last().pos.y as int,
                    x,
                    y,
                )),
            // a Live tick feeds: the organism gains at least one unit for
            // every cell that read Food at tick start next to one of its
            // Mouth body cells (each such cell counted once); only a birth,
            // at its fixed cost, can offset the gain
            r == OrganismState::Live ==> final(self).food + (if final(organisms)@.len() == old(organisms)@.len() + 1 {
                REPRO_COST as int
            } else {
                0int
            }) >= old(self).food + mouth_food_upto(
                *old(self),
                *old(grid),
                old(self).cells@.len() as int,
            ),
            // an organism at or below the reproduction trigger never attempts it
            r == OrganismState::Live && old(self).food <= REPRO_TRIGGER ==> final(organisms)@
                == old(organisms)@ && final(self).food >= old(self).food,
            // without a birth, food never decreases
            r == OrganismState::Live && final(organisms)@.len() == old(organisms)@.len() ==> final(organisms)@ == old(organisms)@ && final(self).food >= old(self).food,
            // with a birth: the offspring copies the body plan onto a site
            // that was fully clear, within range of the parent's anchor, and
            // exactly the reproduction cost was deducted before any feeding
            r == OrganismState::Live && final(organisms)@.len() == old(organisms)@.len() + 1 ==> ({
                let nb = final(organisms)@.last();
                &&& old(self).food > REPRO_TRIGGER
                &&& final(organisms)@ == old(organisms)@.push(nb)
                &&& nb.cells@ == old(self).cells@
                &&& nb.food == 0
                &&& nb.age == 0
                &&& -REPRO_RANGE <= nb.pos.x - old(self).pos.x <= REPRO_RANGE
                &&& -REPRO_RANGE <= nb.pos.y - old(self).pos.y <= REPRO_RANGE
                &&& old(self).clear_at(nb.pos.x as int, nb.pos.y as int, *old(grid))
                &&& final(self).food + REPRO_COST >= old(self).food
                &&& nb.occupied_wf(*final(grid))
            }),
    {
        if self.age == LIFESPAN {
            let ghost dseq = placed_positions(
                self.cells@,
                self.pos.x as int,
                self.pos.y as int,
            );
            let mut i: usize = 0;
            while i < self.cells.len()
                invariant
                    grid.wf(),
                    grid.dims() == old(grid).dims(),
                    *self == *old(self),
                    old(self).occupied_wf(*old(grid)),
                    dseq == placed_positions(
                        old(self).cells@,
                        old(self).pos.x as int,
                        old(self).pos.y as int,
                    ),
                    0 <= i <= self.cells@.len(),
                    forall|j: int|
                        0 <= j < i ==> grid.state_at(
                            old(self).abs_x(j),
                            #[trigger] old(self).abs_y(j),
                        ) == CellState::Food,
                    forall|x: int, y: int|
                        old(grid).in_bounds(x, y) && !covered_by(
                            old(self).cells@.take(i as int),
                            old(self).pos.x as int,
                            old(self).pos.y as int,
                            x,
                            y,
                        ) ==> #[trigger] grid.state_at(x, y) == old(grid).state_at(x, y),
                    cells_to_render@ == old(cells_to_render)@ + dseq.take(i as int),
                decreases self.cells@.len() - i,
            {
                proof {
                    assert(grid.in_bounds(old(self).abs_x(i as int), old(self).abs_y(i as int)));
                }
                let target = self.pos.add(self.cells[i]);
                let ghost g_pre = *grid;
                grid.set_state(target, CellState::Food, cells_to_render);
                proof {
                    let gx = old(self).pos.x as int;
                    let gy = old(self).pos.y as int;
                    let offs = old(self).cells@;
                    assert(offs.take(i + 1) =~= offs.take(i as int).push(offs[i as int]));
                    assert(dseq.take(i + 1) =~= dseq.take(i as int).push(dseq[i as int]));
                    assert(dseq[i as int] == target);
                    assert forall|j: int|
                        0 <= j < i + 1 implies grid.state_at(
                        old(self).abs_x(j),
                        #[trigger] old(self).abs_y(j),
                    ) == CellState::Food by {
                        if j < i
                            && !(old(self).abs_x(j) == target.x as int && old(self).abs_y(j)
                            == target.y as int) {
                            assert(g_pre.state_at(old(self).abs_x(j), old(self).abs_y(j))
                                == CellState::Food);
                        }
                    }
                    assert forall|x: int, y: int|
                        old(grid).in_bounds(x, y) && !covered_by(offs.take(i + 1), gx, gy, x, y)
                            implies #[trigger] grid.state_at(x, y) == old(grid).state_at(x, y) by {
                        assert(offs.take(i + 1)[i as int] == offs[i as int]);
                        assert(!(x == gx + offs[i as int].x && y == gy + offs[i as int].y));
                        if covered_by(offs.take(i as int), gx, gy, x, y) {
                            let j = choose|j: int|
                                0 <= j < offs.take(i as int).len() && x == gx + (#[trigger] offs.take(
                                    i as int,
                                )[j]).x && y == gy + offs.take(i as int)[j].y;
                            assert(offs.take(i + 1)[j] == offs[j]);
                            assert(covered_by(offs.take(i + 1), gx, gy, x, y));
                        }
                        assert(g_pre.state_at(x, y) == old(grid).state_at(x, y));
                    }
                }
                i = i + 1;
            }
            proof {
                assert(old(self).cells@.take(old(self).cells@.len() as int) =~= old(self).cells@);
                assert(dseq.take(old(self).cells@.len() as int) =~= dseq);
            }
            return OrganismState::Die;
        }
        if self.food > REPRO_TRIGGER {
            if self.pos.x >= i32::MIN + REPRO_RANGE && self.pos.x <= i32::MAX - REPRO_RANGE
                && self.pos.y >= i32::MIN + REPRO_RANGE && self.pos.y <= i32::MAX - REPRO_RANGE {
                let dx = rand_in_range(-REPRO_RANGE, REPRO_RANGE);
                let dy = rand_in_range(-REPRO_RANGE, REPRO_RANGE);
                self.try_reproduce(Vector::new(dx, dy), grid, organisms, cells_to_render);
            }
        }
        let ghost g_rep = *grid;
        let ghost orgs_rep = organisms@;
        let ghost food_rep = self.food;
        proof {
            // reproduction touches only cells that read Empty, so the
            // occupied-cell invariant carries over to the post-attempt grid
            assert forall|i: int| 0 <= i < old(self).cells@.len() implies g_rep.in_bounds(
                #[trigger] old(self).abs_x(i),
                old(self).abs_y(i),
            ) && g_rep.state_at(old(self).abs_x(i), old(self).abs_y(i)) == old(grid).state_at(
                old(self).abs_x(i),
                old(self).abs_y(i),
            ) by {
                assert(old(grid).in_bounds(old(self).abs_x(i), old(self).abs_y(i)));
            }
            assert(old(self).occupied_wf(g_rep));
            // reproduction also leaves every Food cell alone
            assert forall|x: int, y: int|
                old(grid).in_bounds(x, y) && old(grid).state_at(x, y) == CellState::Food implies
                #[trigger] g_rep.state_at(x, y) == CellState::Food by {}
        }
        let mut i: usize = 0;
        while i < self.cells.len()
            invariant
                grid.wf(),
                grid.dims() == g_rep.dims(),
                g_rep.wf(),
                g_rep.dims() == old(grid).dims(),
                self.pos == old(self).pos,
                self.cells@ == old(self).cells@,
                self.age == old(self).age,
                old(self).occupied_wf(g_rep),
                organisms@ == orgs_rep,
                0 <= i <= self.cells@.len(),
                food_rep <= self.food,
                self.food <= food_rep + 8 * i,
                food_rep + 8 * old(self).cells@.len() <= u16::MAX,
                // organism-body cells keep their post-attempt state through
                // the whole scan: producers only fill Empty cells and mouths
                // only clear Food cells
                forall|x: int, y: int|
                    g_rep.in_bounds(x, y) && (g_rep.state_at(x, y) == CellState::Producer
                        || g_rep.state_at(x, y) == CellState::Mouth)
                        ==> #[trigger] grid.state_at(x, y) == g_rep.state_at(x, y),
                forall|j: int|
                    0 <= j < old(self).cells@.len() ==> g_rep.state_at(
                        #[trigger] old(self).abs_x(j),
                        old(self).abs_y(j),
                    ) == old(grid).state_at(old(self).abs_x(j), old(self).abs_y(j)),
                self.food >= food_rep + mouth_food_upto(*old(self), *old(grid), i as int),
                // food that was at tick start next to a not-yet-scanned
                // mouth is still on the grid
                forall|x: int, y: int|
                    old(grid).in_bounds(x, y) && old(grid).state_at(x, y) == CellState::Food
                        && !near_mouth_upto(*old(self), *old(grid), x, y, i as int)
                        ==> #[trigger] grid.state_at(x, y) == CellState::Food,
                old(cells_to_render)@.is_prefix_of(cells_to_render@),
                // the scan's changes so far: food made beside a producer or
                // food eaten beside an already-scanned mouth
                forall|x: int, y: int|
                    g_rep.in_bounds(x, y) && #[trigger] grid.state_at(x, y) != g_rep.state_at(x, y)
                        ==> (g_rep.state_at(x, y) == CellState::Empty && grid.state_at(x, y)
                        == CellState::Food && beside_producer(*old(self), *old(grid), x, y)) || (
                    g_rep.state_at(x, y) == CellState::Food && grid.state_at(x, y)
                        == CellState::Empty && near_mouth_upto(*old(self), *old(grid), x, y, i as int)),
            decreases self.cells@.len() - i,
        {
            proof {
                assert(g_rep.in_bounds(old(self).abs_x(i as int), old(self).abs_y(i as int)));
            }
            let cpos = self.pos.add(self.cells[i]);
            let st = match grid.get(cpos) {
                Some(cell) => cell.state,
                None => {
                    proof {
                        assert(false);
                    }
                    CellState::Empty
                },
            };
            let ghost g_pre = *grid;
            let ghost dirty_pre = cells_to_render@;
            match st {
                CellState::Producer => {
                    let roll = rand_in_range(0, 100);
                    if roll <= FOOD_PROD_PROB {
                        let nbrs = cpos.cross_neighbors();
                        let pick = rand_in_range(0, 3);
                        grid.set_state_if_empty(
                            nbrs[pick as usize],
                            CellState::Food,
                            cells_to_render,
                        );
                        proof {
                            let ax = old(self).abs_x(i as int);
                            let ay = old(self).abs_y(i as int);
                            assert forall|x: int, y: int|
                                g_rep.in_bounds(x, y) && #[trigger] grid.state_at(x, y)
                                    != g_pre.state_at(x, y) implies g_pre.state_at(x, y)
                                == CellState::Empty && grid.state_at(x, y) == CellState::Food
                                && beside_producer(*old(self), *old(grid), x, y) by {
                                assert(x == ax + neighbor_offset(pick as int).0 && y == ay
                                    + neighbor_offset(pick as int).1);
                                assert(old(grid).state_at(ax, ay) == CellState::Producer);
                                assert(beside_producer(*old(self), *old(grid), x, y));
                            }
                        }
                    }
                },
                CellState::Mouth => {
                    proof {
                        lemma_food_neighbors_bound(*grid, cpos, 8);
                        lemma_fresh_le_current(
                            *old(self),
                            *old(grid),
                            g_pre,
                            cpos,
                            i as int,
                            8,
                        );
                    }
                    self.mouth_consume(cpos, grid, cells_to_render);
                    proof {
                        let ax = old(self).abs_x(i as int);
                        let ay = old(self).abs_y(i as int);
                        assert forall|x: int, y: int|
                            g_rep.in_bounds(x, y) && #[trigger] grid.state_at(x, y)
                                != g_pre.state_at(x, y) implies g_pre.state_at(x, y)
                            == CellState::Food && grid.state_at(x, y) == CellState::Empty
                            && adjacent8(ax, ay, x, y) by {
                            lemma_neighbor_upto_adjacent8(cpos, x, y);
                        }
                    }
                },
                CellState::Empty => {
                    proof {
                        assert(false);
                    }
                },
                CellState::Food => {
                    proof {
                        assert(false);
                    }
                },
            }
            proof {
                assert forall|x: int, y: int|
                    g_rep.in_bounds(x, y) && (g_rep.state_at(x, y) == CellState::Producer
                        || g_rep.state_at(x, y) == CellState::Mouth) implies #[trigger] grid.state_at(
                    x,
                    y,
                ) == g_rep.state_at(x, y) by {
                    assert(g_pre.state_at(x, y) == g_rep.state_at(x, y));
                }
                assert(old(cells_to_render)@.is_prefix_of(cells_to_render@)) by {
                    assert(dirty_pre.is_prefix_of(cells_to_render@));
                    assert(cells_to_render@.subrange(0, old(cells_to_render)@.len() as int)
                        =~= old(cells_to_render)@);
                }
                let ghost ax = old(self).abs_x(i as int);
                let ghost ay = old(self).abs_y(i as int);
                assert(st == old(grid).state_at(ax, ay));
                assert forall|x: int, y: int|
                    g_rep.in_bounds(x, y) && #[trigger] grid.state_at(x, y) != g_rep.state_at(x, y)
                        implies (g_rep.state_at(x, y) == CellState::Empty && grid.state_at(x, y)
                        == CellState::Food && beside_producer(*old(self), *old(grid), x, y)) || (
                    g_rep.state_at(x, y) == CellState::Food && grid.state_at(x, y)
                        == CellState::Empty && near_mouth_upto(
                        *old(self),
                        *old(grid),
                        x,
                        y,
                        i + 1,
                    )) by {
                    if grid.state_at(x, y) == g_pre.state_at(x, y) {
                        if g_rep.state_at(x, y) == CellState::Food && g_pre.state_at(x, y)
                            == CellState::Empty {
                            assert(near_mouth_upto(*old(self), *old(grid), x, y, i as int));
                            let j = choose|j: int|
                                0 <= j < i && old(grid).state_at(
                                    #[trigger] old(self).abs_x(j),
                                    old(self).abs_y(j),
                                ) == CellState::Mouth && adjacent8(
                                    old(self).abs_x(j),
                                    old(self).abs_y(j),
                                    x,
                                    y,
                                );
                            assert(near_mouth_upto(*old(self), *old(grid), x, y, i + 1));
                        }
                    } else {
                        if st == CellState::Mouth {
                            assert(g_pre.state_at(x, y) == CellState::Food && grid.state_at(x, y)
                                == CellState::Empty && adjacent8(ax, ay, x, y));
                            if g_rep.state_at(x, y) == g_pre.state_at(x, y) {
                                assert(old(grid).state_at(ax, ay) == CellState::Mouth);
                                assert(near_mouth_upto(*old(self), *old(grid), x, y, i + 1));
                            }
                        }
                    }
                }
                assert(mouth_food_upto(*old(self), *old(grid), i + 1) == mouth_food_upto(
                    *old(self),
                    *old(grid),
                    i as int,
                ) + if old(grid).state_at(ax, ay) == CellState::Mouth {
                    fresh_food_upto(*old(self), *old(grid), i as int, 8)
                } else {
                    0int
                });
                assert(self.food >= food_rep + mouth_food_upto(*old(self), *old(grid), i + 1));
                assert forall|x: int, y: int|
                    old(grid).in_bounds(x, y) && old(grid).state_at(x, y) == CellState::Food
                        && !near_mouth_upto(*old(self), *old(grid), x, y, i + 1) implies
                    #[trigger] grid.state_at(x, y) == CellState::Food by {
                    assert(!near_mouth_upto(*old(self), *old(grid), x, y, i as int)) by {
                        if near_mouth_upto(*old(self), *old(grid), x, y, i as int) {
                            let j = choose|j: int|
                                0 <= j < i && old(grid).state_at(
                                    #[trigger] old(self).abs_x(j),
                                    old(self).abs_y(j),
                                ) == CellState::Mouth && adjacent8(
                                    old(self).abs_x(j),
                                    old(self).abs_y(j),
                                    x,
                                    y,
                                );
                            assert(near_mouth_upto(*old(self), *old(grid), x, y, i + 1));
                        }
                    }
                    assert(g_pre.state_at(x, y) == CellState::Food);
                    if st == CellState::Mouth {
                        assert(!neighbor_upto(cpos, x, y, 8)) by {
                            if neighbor_upto(cpos, x, y, 8) {
                                lemma_neighbor_upto_adjacent8(cpos, x, y);
                                assert(adjacent8(ax, ay, x, y));
                                assert(old(grid).state_at(ax, ay) == CellState::Mouth);
                                assert(near_mouth_upto(*old(self), *old(grid), x, y, i + 1));
                            }
                        }
                    }
                }
            }
            i = i + 1;
        }
        self.age = self.age + 1;
        proof {
            assert forall|x: int, y: int|
                old(grid).in_bounds(x, y) && #[trigger] grid.state_at(x, y) != old(grid).state_at(
                    x,
                    y,
                ) implies (old(grid).state_at(x, y) == CellState::Empty && grid.state_at(x, y)
                == CellState::Food && beside_producer(*old(self), *old(grid), x, y)) || (old(grid).state_at(x, y) == CellState::Food && grid.state_at(x, y) == CellState::Empty
                && beside_mouth(*old(self), *old(grid), x, y)) || (organisms@.len() == old(organisms)@.len() + 1 && covered_by(
                old(self).cells@,
                organisms@.last().pos.x as int,
                organisms@.last().pos.y as int,
                x,
                y,
            )) by {
                if g_rep.state_at(x, y) != old(grid).state_at(x, y) {
                    assert(organisms@.len() == old(organisms)@.len() + 1);
                    assert(covered_by(
                        old(self).cells@,
                        organisms@.last().pos.x as int,
                        organisms@.last().pos.y as int,
                        x,
                        y,
                    ));
                }
            }
            assert(self.food >= food_rep + mouth_food_upto(
                *old(self),
                *old(grid),
                old(self).cells@.len() as int,
            ));
            assert forall|x: int, y: int|
                old(grid).in_bounds(x, y) && (old(grid).state_at(x, y) == CellState::Producer
                    || old(grid).state_at(x, y) == CellState::Mouth) implies #[trigger] grid.state_at(
                x,
                y,
            ) == old(grid).state_at(x, y) by {
                assert(g_rep.state_at(x, y) == old(grid).state_at(x, y));
            }
            assert forall|j: int| 0 <= j < old(self).cells@.len() implies grid.state_at(
                old(self).abs_x(j),
                #[trigger] old(self).abs_y(j),
            ) == old(grid).state_at(old(self).abs_x(j), old(self).abs_y(j)) by {
                assert(g_rep.in_bounds(old(self).abs_x(j), old(self).abs_y(j)));
            }
            if organisms@.len() == old(organisms)@.len() + 1 {
                let nb = organisms@.last();
                assert forall|j: int| 0 <= j < nb.cells@.len() implies grid.in_bounds(
                    #[trigger] nb.abs_x(j),
                    nb.abs_y(j),
                ) && (grid.state_at(nb.abs_x(j), nb.abs_y(j)) == CellState::Producer
                    || grid.state_at(nb.abs_x(j), nb.abs_y(j)) == CellState::Mouth) by {
                    assert(old(self).clear_at(nb.pos.x as int, nb.pos.y as int, *old(grid)));
                    assert(old(grid).in_bounds(
                        nb.pos.x + old(self).cells@[j].x,
                        nb.pos.y + old(self).cells@[j].y,
                    ));
                    assert(g_rep.state_at(nb.abs_x(j), nb.abs_y(j)) == old(grid).state_at(
                        old(self).abs_x(j),
                        old(self).abs_y(j),
                    ));
                    assert(old(grid).in_bounds(old(self).abs_x(j), old(self).abs_y(j)));
                }
            }
        }
        OrganismState::Live
    }
}

} // verus!
