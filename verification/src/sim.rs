use crate::cell::CellState;
use crate::grid::Grid;
use crate::organism::{
    lemma_disjoint_symm, lemma_newborn_disjoint, lemma_occupied_preserved,
    lemma_occupied_preserved_uncovered, lemma_same_footprint_disjoint, org_disjoint, Organism,
    OrganismState, LIFESPAN, REPRO_RANGE,
};
use crate::util::{CellsToRender, Vector};
use vstd::prelude::*;

verus! {

/// Whether the engine's run loop should go on after handling an event.
#[derive(Clone, Copy, PartialEq, Eq, Structural, Debug)]
pub enum EngineState {
    Continue(),
    Exit,
}

/// A discrete input event from the input collaborator: either a request to
/// terminate the run loop, or a pointer click at an integer pixel coordinate
/// that places a new organism.
#[derive(Clone, Copy, PartialEq, Eq, Structural, Debug)]
pub enum InputEvent {
    Quit,
    Place(i32, i32),
}

/// The explicit fatal assertion for a corrupted tick: an organism's own
/// occupied cell was observed reading `Empty` or `Food`, which correct grid
/// usage never produces. The tick is abandoned rather than silently
/// producing wrong cell states.
#[derive(Clone, Copy, PartialEq, Eq, Structural, Debug)]
pub enum SimError {
    StateContradiction,
}

/// The fixed three-cell diagonal body plan a placement command seeds.
pub open spec fn template_offsets() -> Seq<Vector> {
    seq![Vector { x: -1i32, y: -1i32 }, Vector { x: 0i32, y: 0i32 }, Vector { x: 1i32, y: 1i32 }]
}

/// The state seeded at the `k`-th template offset: a `Mouth` at the anchor,
/// `Producer`s on the diagonal.
pub open spec fn template_state(k: int) -> CellState {
    if k == 1 {
        CellState::Mouth
    } else {
        CellState::Producer
    }
}

/// What seeding the template at grid anchor `(gx, gy)` does to the grid and
/// the dirty list: the three template cells take their template states, every
/// other cell is untouched, and (when the whole template is in bounds) the
/// dirty list grows by exactly the three coordinates in seeding order.
pub open spec fn placement_effect(
    g0: Grid,
    g1: Grid,
    d0: Seq<Vector>,
    d1: Seq<Vector>,
    gx: int,
    gy: int,
) -> bool {
    &&& g1.wf()
    &&& g1.dims() == g0.dims()
    &&& (g0.in_bounds(gx - 1, gy - 1) ==> g1.state_at(gx - 1, gy - 1) == CellState::Producer)
    &&& (g0.in_bounds(gx, gy) ==> g1.state_at(gx, gy) == CellState::Mouth)
    &&& (g0.in_bounds(gx + 1, gy + 1) ==> g1.state_at(gx + 1, gy + 1) == CellState::Producer)
    &&& (forall|x: int, y: int|
        g0.in_bounds(x, y) && !(x == gx - 1 && y == gy - 1) && !(x == gx && y == gy) && !(x == gx
            + 1 && y == gy + 1) ==> #[trigger] g1.state_at(x, y) == g0.state_at(x, y))
    &&& (g0.in_bounds(gx - 1, gy - 1) && g0.in_bounds(gx, gy) && g0.in_bounds(gx + 1, gy + 1)
        ==> d1 == d0 + seq![
        Vector { x: (gx - 1) as i32, y: (gy - 1) as i32 },
        Vector { x: gx as i32, y: gy as i32 },
        Vector { x: (gx + 1) as i32, y: (gy + 1) as i32 },
    ])
    &&& d0.is_prefix_of(d1)
}

/// The snapshot organisms that outlive their own update, in snapshot order:
/// exactly those below the lifespan boundary when their turn comes.
pub open spec fn live_snapshot(orgs: Seq<Organism>) -> Seq<Organism>
    decreases orgs.len(),
{
    if orgs.len() == 0 {
        Seq::empty()
    } else {
        let rest = live_snapshot(orgs.drop_last());
        if orgs.last().age == LIFESPAN {
            rest
        } else {
            rest.push(orgs.last())
        }
    }
}

/// Every survivor of the snapshot is one of its organisms, below the
/// lifespan boundary.
pub proof fn lemma_live_snapshot(orgs: Seq<Organism>)
    ensures
        live_snapshot(orgs).len() <= orgs.len(),
        forall|m: int|
            0 <= m < live_snapshot(orgs).len() ==> (#[trigger] live_snapshot(orgs)[m]).age
                != LIFESPAN && exists|k2: int| 0 <= k2 < orgs.len() && #[trigger] orgs[k2]
                == live_snapshot(orgs)[m],
    decreases orgs.len(),
{
    if orgs.len() > 0 {
        lemma_live_snapshot(orgs.drop_last());
        assert forall|m: int| 0 <= m < live_snapshot(orgs).len() implies (#[trigger] live_snapshot(
            orgs,
        )[m]).age != LIFESPAN && exists|k2: int|
            0 <= k2 < orgs.len() && #[trigger] orgs[k2] == live_snapshot(orgs)[m] by {
            let rest = live_snapshot(orgs.drop_last());
            if m < rest.len() {
                let k2 = choose|k2: int|
                    0 <= k2 < orgs.drop_last().len() && #[trigger] orgs.drop_last()[k2]
                        == rest[m];
                assert(orgs[k2] == live_snapshot(orgs)[m]);
            } else {
                assert(live_snapshot(orgs)[m] == orgs.last());
                assert(orgs[orgs.len() - 1] == live_snapshot(orgs)[m]);
            }
        }
    }
}

/// A well-formed population: every organism's occupied cells are in bounds
/// and read organism-body states, and no two organisms share a grid cell.
/// User placements that overlap existing organisms can break this; a
/// population grown only by reproduction keeps it.
pub open spec fn population_wf(orgs: Seq<Organism>, g: Grid) -> bool {
    &&& forall|k: int| 0 <= k < orgs.len() ==> (#[trigger] orgs[k]).occupied_wf(g)
    &&& forall|k1: int, k2: int|
        0 <= k1 < orgs.len() && 0 <= k2 < orgs.len() && k1 != k2 ==> org_disjoint(
            #[trigger] orgs[k1],
            #[trigger] orgs[k2],
        )
}

/// A freshly placed organism: template body plan anchored at `(gx, gy)`,
/// zero food and age.
pub open spec fn placed_organism(o: Organism, gx: int, gy: int) -> bool {
    &&& o.pos.x == gx
    &&& o.pos.y == gy
    &&& o.cells@ == template_offsets()
    &&& o.food == 0
    &&& o.age == 0
}

/// Seeds one new organism from a pointer click at pixel `(x, y)`: the pixel
/// coordinate is converted to a grid anchor by integer division with the
/// per-axis cell pixel size, the three template cells are written to the
/// grid, and the new organism joins the population. Template cells falling
/// outside the grid are skipped by the bounds-checked writes.
pub fn place_organism(
    grid: &mut Grid,
    organisms: &mut Vec<Organism>,
    cells_to_render: &mut CellsToRender,
    x: i32,
    y: i32,
    cell_size: Vector,
) -> (anchor: Vector)
    requires
        old(grid).wf(),
        cell_size.x > 0,
        cell_size.y > 0,
        x >= 0,
        y >= 0,
        x as int / (cell_size.x as int) < i32::MAX,
        y as int / (cell_size.y as int) < i32::MAX,
    ensures
        anchor.x == x as int / (cell_size.x as int),
        anchor.y == y as int / (cell_size.y as int),
        placement_effect(
            *old(grid),
            *final(grid),
            old(cells_to_render)@,
            final(cells_to_render)@,
            anchor.x as int,
            anchor.y as int,
        ),
        final(organisms)@ == old(organisms)@.push(final(organisms)@.last()),
        placed_organism(final(organisms)@.last(), anchor.x as int, anchor.y as int),
{
    let real_x = ((x as u32) / (cell_size.x as u32)) as i32;
    let real_y = ((y as u32) / (cell_size.y as u32)) as i32;
    let anchor = Vector::new(real_x, real_y);
    grid.set_state(Vector::new(real_x - 1, real_y - 1), CellState::Producer, cells_to_render);
    grid.set_state(anchor, CellState::Mouth, cells_to_render);
    grid.set_state(Vector::new(real_x + 1, real_y + 1), CellState::Producer, cells_to_render);
    let mut cells: Vec<Vector> = Vec::new();
    cells.push(Vector::new(-1, -1));
    cells.push(Vector::new(0, 0));
    cells.push(Vector::new(1, 1));
    proof {
        assert(cells@ =~= template_offsets());
        if old(grid).in_bounds(anchor.x - 1, anchor.y - 1) && old(grid).in_bounds(
            anchor.x as int,
            anchor.y as int,
        ) && old(grid).in_bounds(anchor.x + 1, anchor.y + 1) {
            assert(cells_to_render@ =~= old(cells_to_render)@ + seq![
                Vector { x: (anchor.x - 1) as i32, y: (anchor.y - 1) as i32 },
                Vector { x: anchor.x as i32, y: anchor.y as i32 },
                Vector { x: (anchor.x + 1) as i32, y: (anchor.y + 1) as i32 },
            ]);
        }
        assert(cells_to_render@.subrange(0, old(cells_to_render)@.len() as int) =~= old(cells_to_render)@);
    }
    organisms.push(Organism::new(anchor, cells));
    anchor
}

/// Applies one input event: `Quit` asks the run loop to exit and changes
/// nothing; a placement click seeds one organism and asks the loop to go on.
pub fn handle_event(
    event: InputEvent,
    grid: &mut Grid,
    organisms: &mut Vec<Organism>,
    cells_to_render: &mut CellsToRender,
    cell_size: Vector,
) -> (r: EngineState)
    requires
        old(grid).wf(),
        cell_size.x > 0,
        cell_size.y > 0,
        event matches InputEvent::Place(x, y) ==> x >= 0 && y >= 0 && x as int / (
        cell_size.x as int) < i32::MAX && y as int / (cell_size.y as int) < i32::MAX,
    ensures
        final(grid).wf(),
        final(grid).dims() == old(grid).dims(),
        r == EngineState::Exit <==> event == InputEvent::Quit,
        event == InputEvent::Quit ==> *final(grid) == *old(grid) && final(organisms)@ == old(organisms)@ && final(cells_to_render)@ == old(cells_to_render)@,
        event matches InputEvent::Place(x, y) ==> placement_effect(
            *old(grid),
            *final(grid),
            old(cells_to_render)@,
            final(cells_to_render)@,
            x as int / (cell_size.x as int),
            y as int / (cell_size.y as int),
        ) && final(organisms)@ == old(organisms)@.push(final(organisms)@.last())
            && placed_organism(
            final(organisms)@.last(),
            x as int / (cell_size.x as int),
            y as int / (cell_size.y as int),
        ),
{
    match event {
        InputEvent::Quit => EngineState::Exit,
        InputEvent::Place(x, y) => {
            place_organism(grid, organisms, cells_to_render, x, y, cell_size);
            EngineState::Continue()
        },
    }
}

/// Advances the whole simulation by one tick: takes a stable snapshot of the
/// population that existed at tick start, runs every snapshot organism's
/// update in order against the live grid (so food produced or organisms born
/// mid-tick are visible to later organisms in the same pass), removes the
/// dead and inserts the newborns. Newborns are not updated in the tick they
/// are born.
///
/// Before each organism acts, its occupied-cell invariant is checked against
/// the live grid; a contradiction (an occupied cell reading `Empty` or
/// `Food`) abandons the tick with the explicit fatal error.
pub fn tick(
    grid: &mut Grid,
    organisms: &mut Vec<Organism>,
    cells_to_render: &mut CellsToRender,
) -> (r: Result<(), SimError>)
    requires
        old(grid).wf(),
        forall|i: int|
            0 <= i < old(organisms)@.len() ==> (#[trigger] old(organisms)@[i]).age <= LIFESPAN && (
            old(organisms)@[i]).food + 8 * (old(organisms)@[i]).cells@.len() <= u16::MAX,
    ensures
        final(grid).wf(),
        final(grid).dims() == old(grid).dims(),
        old(cells_to_render)@.is_prefix_of(final(cells_to_render)@),
        r is Ok ==> forall|i: int|
            0 <= i < final(organisms)@.len() ==> (#[trigger] final(organisms)@[i]).age <= LIFESPAN,
        // each snapshot organism survives or dies and bears at most one child
        r is Ok ==> final(organisms)@.len() <= 2 * old(organisms)@.len(),
        // on a well-formed population the occupied-cell contradiction is
        // unreachable, and well-formedness survives the tick: deaths refill
        // only their own cells, production and birth take only empty ones
        population_wf(old(organisms)@, *old(grid)) ==> r is Ok && population_wf(
            final(organisms)@,
            *final(grid),
        ),
        // the tick does its work: the final population is exactly the
        // snapshot's survivors, in order, each aged by one with anchor and
        // body plan kept, followed by this tick's newborns and nothing else
        r is Ok ==> final(organisms)@.len() >= live_snapshot(old(organisms)@).len(),
        r is Ok ==> forall|m: int|
            0 <= m < live_snapshot(old(organisms)@).len() ==> (#[trigger] final(organisms)@[m]).pos
                == live_snapshot(old(organisms)@)[m].pos && final(organisms)@[m].cells@
                == live_snapshot(old(organisms)@)[m].cells@ && final(organisms)@[m].age
                == live_snapshot(old(organisms)@)[m].age + 1,
        // everything after the survivors is a newborn of this tick, not yet
        // updated: newborns wait out the tick they are born in, and each one
        // copies some snapshot organism's body plan onto an anchor within
        // reproduction range of its parent's
        r is Ok ==> forall|m: int|
            live_snapshot(old(organisms)@).len() <= m < final(organisms)@.len()
                ==> (#[trigger] final(organisms)@[m]).age == 0 && final(organisms)@[m].food == 0
                && (exists|k2: int|
                0 <= k2 < old(organisms)@.len() && final(organisms)@[m].cells@ == (
                #[trigger] old(organisms)@[k2]).cells@ && -(REPRO_RANGE as int) <= final(organisms)@[m].pos.x - old(organisms)@[k2].pos.x <= REPRO_RANGE && -(REPRO_RANGE as int)
                    <= final(organisms)@[m].pos.y - old(organisms)@[k2].pos.y <= REPRO_RANGE),
        // a snapshot organism at the lifespan boundary is gone afterwards;
        // when it is the last of the snapshot no later organism can touch
        // its carcass, so every cell it occupied still reads Food
        r is Ok && old(organisms)@.len() > 0 && old(organisms)@.last().age == LIFESPAN
            ==> forall|j: int|
            0 <= j < old(organisms)@.last().cells@.len() ==> final(grid).state_at(
                old(organisms)@.last().abs_x(j),
                #[trigger] old(organisms)@.last().abs_y(j),
            ) == CellState::Food,
{
    let n = organisms.len();
    let mut survivors: Vec<Organism> = Vec::new();
    let mut newborns: Vec<Organism> = Vec::new();
    let mut k: usize = 0;
    proof {
        assert(old(organisms)@.subrange(0, n as int) =~= old(organisms)@);
    }
    while k < n
        invariant
            grid.wf(),
            grid.dims() == old(grid).dims(),
            n == old(organisms)@.len(),
            0 <= k <= n,
            organisms@ == old(organisms)@.subrange(k as int, n as int),
            forall|i: int|
                0 <= i < old(organisms)@.len() ==> (#[trigger] old(organisms)@[i]).age <= LIFESPAN
                    && (old(organisms)@[i]).food + 8 * (old(organisms)@[i]).cells@.len()
                    <= u16::MAX,
            forall|i: int|
                0 <= i < survivors@.len() ==> (#[trigger] survivors@[i]).age <= LIFESPAN,
            forall|i: int|
                0 <= i < newborns@.len() ==> (#[trigger] newborns@[i]).age == 0 && newborns@[i].food
                    == 0 && (exists|k2: int|
                0 <= k2 < old(organisms)@.len() && newborns@[i].cells@ == (#[trigger] old(organisms)@[k2]).cells@ && -(REPRO_RANGE as int) <= newborns@[i].pos.x - old(organisms)@[k2].pos.x <= REPRO_RANGE && -(REPRO_RANGE as int) <= newborns@[i].pos.y - old(organisms)@[k2].pos.y <= REPRO_RANGE),
            survivors@.len() <= k,
            newborns@.len() <= k,
            survivors@.len() == live_snapshot(old(organisms)@.subrange(0, k as int)).len(),
            forall|m: int|
                0 <= m < survivors@.len() ==> (#[trigger] survivors@[m]).pos == live_snapshot(
                    old(organisms)@.subrange(0, k as int),
                )[m].pos && survivors@[m].cells@ == live_snapshot(
                    old(organisms)@.subrange(0, k as int),
                )[m].cells@ && survivors@[m].age == live_snapshot(
                    old(organisms)@.subrange(0, k as int),
                )[m].age + 1,
            k == n && n > 0 && old(organisms)@.last().age == LIFESPAN ==> forall|j: int|
                0 <= j < old(organisms)@.last().cells@.len() ==> grid.state_at(
                    old(organisms)@.last().abs_x(j),
                    #[trigger] old(organisms)@.last().abs_y(j),
                ) == CellState::Food,
            old(cells_to_render)@.is_prefix_of(cells_to_render@),
            population_wf(old(organisms)@, *old(grid)) ==> forall|i: int|
                0 <= i < organisms@.len() ==> (#[trigger] organisms@[i]).occupied_wf(*grid),
            population_wf(old(organisms)@, *old(grid)) ==> forall|i: int|
                0 <= i < survivors@.len() ==> (#[trigger] survivors@[i]).occupied_wf(*grid),
            population_wf(old(organisms)@, *old(grid)) ==> forall|i: int|
                0 <= i < newborns@.len() ==> (#[trigger] newborns@[i]).occupied_wf(*grid),
            population_wf(old(organisms)@, *old(grid)) ==> forall|k1: int, k2: int|
                0 <= k1 < organisms@.len() && 0 <= k2 < organisms@.len() && k1 != k2
                    ==> org_disjoint(#[trigger] organisms@[k1], #[trigger] organisms@[k2]),
            population_wf(old(organisms)@, *old(grid)) ==> forall|k1: int, k2: int|
                0 <= k1 < survivors@.len() && 0 <= k2 < survivors@.len() && k1 != k2
                    ==> org_disjoint(#[trigger] survivors@[k1], #[trigger] survivors@[k2]),
            population_wf(old(organisms)@, *old(grid)) ==> forall|k1: int, k2: int|
                0 <= k1 < newborns@.len() && 0 <= k2 < newborns@.len() && k1 != k2
                    ==> org_disjoint(#[trigger] newborns@[k1], #[trigger] newborns@[k2]),
            population_wf(old(organisms)@, *old(grid)) ==> forall|k1: int, k2: int|
                0 <= k1 < organisms@.len() && 0 <= k2 < survivors@.len() ==> org_disjoint(
                    #[trigger] organisms@[k1],
                    #[trigger] survivors@[k2],
                ),
            population_wf(old(organisms)@, *old(grid)) ==> forall|k1: int, k2: int|
                0 <= k1 < organisms@.len() && 0 <= k2 < newborns@.len() ==> org_disjoint(
                    #[trigger] organisms@[k1],
                    #[trigger] newborns@[k2],
                ),
            population_wf(old(organisms)@, *old(grid)) ==> forall|k1: int, k2: int|
                0 <= k1 < survivors@.len() && 0 <= k2 < newborns@.len() ==> org_disjoint(
                    #[trigger] survivors@[k1],
                    #[trigger] newborns@[k2],
                ),
        decreases n - k,
    {
        proof {
            assert(organisms@[0] == old(organisms)@[k as int]);
        }
        let ghost orgs_entry = organisms@;
        let ghost surv_entry = survivors@;
        let mut o = organisms.remove(0);
        let ghost o_pre = o;
        if !o.check_occupied(grid) {
            proof {
                if population_wf(old(organisms)@, *old(grid)) {
                    assert(orgs_entry[0].occupied_wf(*grid));
                }
            }
            return Err(SimError::StateContradiction);
        }
        let ghost g_entry = *grid;
        let ghost newborns_pre = newborns@;
        let ghost dirty_pre = cells_to_render@;
        let st = o.update(grid, &mut newborns, cells_to_render);
        let ghost o_post = o;
        match st {
            OrganismState::Live => {
                survivors.push(o);
            },
            OrganismState::Die => {},
        }
        proof {
            assert(old(organisms)@.subrange(k as int, n as int).remove(0) =~= old(organisms)@.subrange(k + 1, n as int));
            if newborns@.len() == newborns_pre.len() + 1 {
                assert(newborns@ == newborns_pre.push(newborns@.last()));
                assert forall|i: int| 0 <= i < newborns@.len() implies (#[trigger] newborns@[i]).age
                    == 0 && newborns@[i].food == 0 && (exists|k2: int|
                    0 <= k2 < old(organisms)@.len() && newborns@[i].cells@ == (#[trigger] old(organisms)@[k2]).cells@ && -(REPRO_RANGE as int) <= newborns@[i].pos.x - old(organisms)@[k2].pos.x <= REPRO_RANGE && -(REPRO_RANGE as int) <= newborns@[i].pos.y
                        - old(organisms)@[k2].pos.y <= REPRO_RANGE) by {
                    if i < newborns_pre.len() {
                        assert(newborns@[i] == newborns_pre[i]);
                    } else {
                        assert(newborns@[i] == newborns@.last());
                        assert(newborns@[i].cells@ == old(organisms)@[k as int].cells@);
                    }
                }
            }
            let ghost prefix_k = old(organisms)@.subrange(0, k as int);
            let ghost prefix_next = old(organisms)@.subrange(0, k + 1);
            assert(prefix_next.drop_last() =~= prefix_k);
            assert(prefix_next.last() == old(organisms)@[k as int]);
            assert(o_pre == old(organisms)@[k as int]);
            if st == OrganismState::Live {
                assert(o_pre.age != LIFESPAN);
                assert(live_snapshot(prefix_next) == live_snapshot(prefix_k).push(o_pre));
                assert forall|m: int| 0 <= m < survivors@.len() implies (#[trigger] survivors@[m]).pos
                    == live_snapshot(prefix_next)[m].pos && survivors@[m].cells@ == live_snapshot(
                    prefix_next,
                )[m].cells@ && survivors@[m].age == live_snapshot(prefix_next)[m].age + 1 by {
                    if m < surv_entry.len() {
                        assert(survivors@[m] == surv_entry[m]);
                        assert(live_snapshot(prefix_next)[m] == live_snapshot(prefix_k)[m]);
                    } else {
                        assert(survivors@[m] == o_post);
                        assert(live_snapshot(prefix_next)[m] == o_pre);
                    }
                }
            } else {
                assert(o_pre.age == LIFESPAN);
                assert(live_snapshot(prefix_next) == live_snapshot(prefix_k));
                if k + 1 == n && n > 0 {
                    assert(old(organisms)@.last() == o_pre);
                    assert forall|j: int| 0 <= j < o_pre.cells@.len() implies grid.state_at(
                        o_pre.abs_x(j),
                        #[trigger] o_pre.abs_y(j),
                    ) == CellState::Food by {}
                }
            }
            assert(cells_to_render@.subrange(0, old(cells_to_render)@.len() as int) =~= old(cells_to_render)@);
            if population_wf(old(organisms)@, *old(grid)) {
                let born = newborns@.len() == newborns_pre.len() + 1;
                let nb = newborns@.last();
                // every tracked organism's occupied cells survive o's turn
                assert forall|z: Organism|
                    z.occupied_wf(g_entry) && org_disjoint(z, o_pre) implies z.occupied_wf(
                    *grid,
                ) by {
                    if st == OrganismState::Live {
                        lemma_occupied_preserved(z, g_entry, *grid);
                    } else {
                        lemma_occupied_preserved_uncovered(z, o_pre, g_entry, *grid);
                    }
                }
                // the newborn took cells that read Empty on the grid o saw
                if born {
                    assert forall|i: int| 0 <= i < nb.cells@.len() implies g_entry.state_at(
                        #[trigger] nb.abs_x(i),
                        nb.abs_y(i),
                    ) == CellState::Empty by {
                        assert(nb.cells@[i] == o_pre.cells@[i]);
                    }
                }
                assert forall|i: int| 0 <= i < organisms@.len() implies (#[trigger] organisms@[i]).occupied_wf(
                    *grid,
                ) by {
                    assert(organisms@[i] == orgs_entry[i + 1]);
                    assert(org_disjoint(orgs_entry[i + 1], orgs_entry[0]));
                }
                assert forall|i: int| 0 <= i < survivors@.len() implies (#[trigger] survivors@[i]).occupied_wf(
                    *grid,
                ) by {
                    if i < surv_entry.len() {
                        assert(survivors@[i] == surv_entry[i]);
                        assert(org_disjoint(orgs_entry[0], surv_entry[i]));
                        lemma_disjoint_symm(orgs_entry[0], surv_entry[i]);
                    } else {
                        assert(survivors@[i] == o_post);
                    }
                }
                assert forall|i: int| 0 <= i < newborns@.len() implies (#[trigger] newborns@[i]).occupied_wf(
                    *grid,
                ) by {
                    if i < newborns_pre.len() {
                        assert(newborns@[i] == newborns_pre[i]);
                        assert(org_disjoint(orgs_entry[0], newborns_pre[i]));
                        lemma_disjoint_symm(orgs_entry[0], newborns_pre[i]);
                    }
                }
                // o keeps its footprint through the update, so every
                // disjointness involving it carries over
                assert forall|z: Organism| org_disjoint(orgs_entry[0], z) implies org_disjoint(
                    o_post,
                    z,
                ) && org_disjoint(z, o_post) by {
                    lemma_same_footprint_disjoint(o_pre, o_post, z);
                    lemma_disjoint_symm(o_post, z);
                }
                // and the newborn is disjoint from everything that held
                // organism-body cells when it was placed
                assert forall|z: Organism| born && z.occupied_wf(g_entry) implies org_disjoint(
                    nb,
                    z,
                ) && org_disjoint(z, nb) by {
                    lemma_newborn_disjoint(nb, z, g_entry);
                }
                assert forall|k1: int, k2: int|
                    0 <= k1 < survivors@.len() && 0 <= k2 < survivors@.len() && k1 != k2
                        implies org_disjoint(
                    #[trigger] survivors@[k1],
                    #[trigger] survivors@[k2],
                ) by {
                    if k1 < surv_entry.len() && k2 < surv_entry.len() {
                    } else if k2 >= surv_entry.len() {
                        assert(survivors@[k2] == o_post);
                        assert(org_disjoint(orgs_entry[0], surv_entry[k1]));
                        lemma_disjoint_symm(orgs_entry[0], surv_entry[k1]);
                        assert(org_disjoint(survivors@[k1], o_post)) by {
                            lemma_disjoint_symm(surv_entry[k1], orgs_entry[0]);
                            assert(org_disjoint(orgs_entry[0], surv_entry[k1]));
                            lemma_same_footprint_disjoint(o_pre, o_post, surv_entry[k1]);
                            lemma_disjoint_symm(o_post, surv_entry[k1]);
                        }
                    } else {
                        assert(survivors@[k1] == o_post);
                        assert(org_disjoint(orgs_entry[0], surv_entry[k2]));
                        lemma_same_footprint_disjoint(o_pre, o_post, surv_entry[k2]);
                    }
                }
                assert forall|k1: int, k2: int|
                    0 <= k1 < newborns@.len() && 0 <= k2 < newborns@.len() && k1 != k2
                        implies org_disjoint(
                    #[trigger] newborns@[k1],
                    #[trigger] newborns@[k2],
                ) by {
                    if k1 < newborns_pre.len() && k2 < newborns_pre.len() {
                    } else if k2 >= newborns_pre.len() {
                        assert(newborns@[k2] == nb);
                        assert(newborns@[k1] == newborns_pre[k1]);
                    } else {
                        assert(newborns@[k1] == nb);
                        assert(newborns@[k2] == newborns_pre[k2]);
                    }
                }
                assert forall|k1: int, k2: int|
                    0 <= k1 < organisms@.len() && 0 <= k2 < survivors@.len() implies org_disjoint(
                    #[trigger] organisms@[k1],
                    #[trigger] survivors@[k2],
                ) by {
                    assert(organisms@[k1] == orgs_entry[k1 + 1]);
                    if k2 < surv_entry.len() {
                        assert(survivors@[k2] == surv_entry[k2]);
                    } else {
                        assert(survivors@[k2] == o_post);
                        assert(org_disjoint(orgs_entry[k1 + 1], orgs_entry[0]));
                        lemma_disjoint_symm(orgs_entry[k1 + 1], orgs_entry[0]);
                    }
                }
                assert forall|k1: int, k2: int|
                    0 <= k1 < organisms@.len() && 0 <= k2 < newborns@.len() implies org_disjoint(
                    #[trigger] organisms@[k1],
                    #[trigger] newborns@[k2],
                ) by {
                    assert(organisms@[k1] == orgs_entry[k1 + 1]);
                    if k2 < newborns_pre.len() {
                        assert(newborns@[k2] == newborns_pre[k2]);
                    } else {
                        assert(newborns@[k2] == nb);
                    }
                }
                assert forall|k1: int, k2: int|
                    0 <= k1 < survivors@.len() && 0 <= k2 < newborns@.len() implies org_disjoint(
                    #[trigger] survivors@[k1],
                    #[trigger] newborns@[k2],
                ) by {
                    if k1 < surv_entry.len() {
                        assert(survivors@[k1] == surv_entry[k1]);
                        if k2 < newborns_pre.len() {
                            assert(newborns@[k2] == newborns_pre[k2]);
                        } else {
                            assert(newborns@[k2] == nb);
                        }
                    } else {
                        assert(survivors@[k1] == o_post);
                        if k2 < newborns_pre.len() {
                            assert(newborns@[k2] == newborns_pre[k2]);
                            assert(org_disjoint(orgs_entry[0], newborns_pre[k2]));
                            lemma_same_footprint_disjoint(o_pre, o_post, newborns_pre[k2]);
                        } else {
                            assert(newborns@[k2] == nb);
                            assert(org_disjoint(nb, o_pre) && org_disjoint(o_pre, nb));
                            lemma_same_footprint_disjoint(o_pre, o_post, nb);
                        }
                    }
                }
            }
        }
        k = k + 1;
    }
    let ghost surv_final = survivors@;
    let ghost newb_final = newborns@;
    organisms.append(&mut survivors);
    organisms.append(&mut newborns);
    proof {
        assert(old(organisms)@.subrange(0, n as int) =~= old(organisms)@);
        assert(organisms@ =~= surv_final + newb_final);
        lemma_live_snapshot(old(organisms)@);
        assert forall|m: int| 0 <= m < live_snapshot(old(organisms)@).len() implies (
        #[trigger] organisms@[m]).pos == live_snapshot(old(organisms)@)[m].pos && organisms@[m].cells@
            == live_snapshot(old(organisms)@)[m].cells@ && organisms@[m].age == live_snapshot(
            old(organisms)@,
        )[m].age + 1 by {
            assert(organisms@[m] == surv_final[m]);
        }
        assert forall|i: int| 0 <= i < organisms@.len() implies (#[trigger] organisms@[i]).age
            <= LIFESPAN by {
            if i < surv_final.len() {
                assert(organisms@[i] == surv_final[i]);
                let k2 = choose|k2: int|
                    0 <= k2 < old(organisms)@.len() && #[trigger] old(organisms)@[k2]
                        == live_snapshot(old(organisms)@)[i];
                assert(old(organisms)@[k2].age <= LIFESPAN);
            } else {
                assert(organisms@[i] == newb_final[i - surv_final.len()]);
            }
        }
        if population_wf(old(organisms)@, *old(grid)) {
            assert forall|k1: int, k2: int|
                0 <= k1 < organisms@.len() && 0 <= k2 < organisms@.len() && k1 != k2
                    implies org_disjoint(#[trigger] organisms@[k1], #[trigger] organisms@[k2]) by {
            }
        }
    }
    Ok(())
}
} // verus!
