use crate::cell::{Cell, CellState};
use crate::util::{CellsToRender, Vector};
use vstd::arithmetic::div_mod::lemma_fundamental_div_mod_converse;
use vstd::prelude::*;

verus! {

/// A dense row-major array of `width * height` cells. All accessors are
/// bounds-checked: an out-of-bounds coordinate reads as "no cell" and writes
/// to it are no-ops, never faults. State changes are additionally recorded in
/// a caller-supplied dirty list for incremental redraw.
pub struct Grid {
    cells: Vec<Cell>,
    dimensions: Vector,
}

impl Grid {
    /// The grid's dimensions, as a value specs can speak of.
    pub closed spec fn dims(self) -> Vector {
        self.dimensions
    }

    /// The backing cell array, as a sequence specs can speak of.
    pub closed spec fn cell_seq(self) -> Seq<Cell> {
        self.cells@
    }

    pub open spec fn width(self) -> int {
        self.dims().x as int
    }

    pub open spec fn height(self) -> int {
        self.dims().y as int
    }

    pub open spec fn in_bounds(self, x: int, y: int) -> bool {
        0 <= x < self.width() && 0 <= y < self.height()
    }

    pub open spec fn idx(self, x: int, y: int) -> int {
        y * self.width() + x
    }

    /// The state of the cell at `(x, y)`; meaningful only in bounds.
    pub open spec fn state_at(self, x: int, y: int) -> CellState {
        self.cell_seq()[self.idx(x, y)].state
    }

    /// Structural invariant: positive dimensions, a dense backing array, and
    /// each slot holding its own row-major coordinate.
    pub open spec fn wf(self) -> bool {
        &&& 0 < self.width()
        &&& 0 < self.height()
        &&& self.cell_seq().len() == self.width() * self.height()
        &&& forall|k: int|
            0 <= k < self.cell_seq().len() ==> (#[trigger] self.cell_seq()[k]).pos.x == k
                % self.width() && self.cell_seq()[k].pos.y == k / self.width()
    }

    /// Row-major index arithmetic: an in-bounds coordinate names a valid
    /// slot, and that slot's recorded position is the coordinate itself.
    pub proof fn lemma_idx(self, x: int, y: int)
        requires
            self.wf(),
            self.in_bounds(x, y),
        ensures
            0 <= self.idx(x, y) < self.cell_seq().len(),
            self.idx(x, y) % self.width() == x,
            self.idx(x, y) / self.width() == y,
            self.cell_seq()[self.idx(x, y)].pos.x == x,
            self.cell_seq()[self.idx(x, y)].pos.y == y,
    {
        let w = self.width();
        let h = self.height();
        assert(0 <= y * w + x < w * h) by (nonlinear_arith)
            requires
                0 <= x < w,
                0 <= y < h,
        ;
        lemma_fundamental_div_mod_converse(y * w + x, w, y, x);
    }

    /// Two distinct in-bounds coordinates name distinct slots.
    pub proof fn lemma_idx_injective(self, x1: int, y1: int, x2: int, y2: int)
        requires
            self.wf(),
            self.in_bounds(x1, y1),
            self.in_bounds(x2, y2),
            self.idx(x1, y1) == self.idx(x2, y2),
        ensures
            x1 == x2 && y1 == y2,
    {
        self.lemma_idx(x1, y1);
        self.lemma_idx(x2, y2);
    }

    /// Allocates a `width * height` grid of `Empty` cells, positions assigned
    /// in row-major scan order. Fails exactly on non-positive dimensions.
    pub fn new(dimensions: Vector) -> (r: Option<Grid>)
        requires
            dimensions.x * dimensions.y <= usize::MAX,
        ensures
            r is Some <==> dimensions.x > 0 && dimensions.y > 0,
            r matches Some(g) ==> g.wf() && g.dims() == dimensions && forall|x: int, y: int|
                g.in_bounds(x, y) ==> #[trigger] g.state_at(x, y) == CellState::Empty,
    {
        if dimensions.x <= 0 || dimensions.y <= 0 {
            return None;
        }
        let w = dimensions.x;
        let h = dimensions.y;
        let mut cells: Vec<Cell> = Vec::new();
        let mut y: i32 = 0;
        while y < h
            invariant
                0 < w <= i32::MAX,
                0 < h <= i32::MAX,
                0 <= y <= h,
                w * h <= usize::MAX,
                cells@.len() == y * w,
                forall|k: int|
                    0 <= k < cells@.len() ==> (#[trigger] cells@[k]).pos.x == k % (w as int)
                        && cells@[k].pos.y == k / (w as int) && cells@[k].state
                        == CellState::Empty,
            decreases h - y,
        {
            let mut x: i32 = 0;
            while x < w
                invariant
                    0 < w <= i32::MAX,
                    0 < h <= i32::MAX,
                    0 <= y < h,
                    0 <= x <= w,
                    w * h <= usize::MAX,
                    cells@.len() == y * w + x,
                    forall|k: int|
                        0 <= k < cells@.len() ==> (#[trigger] cells@[k]).pos.x == k % (w as int)
                            && cells@[k].pos.y == k / (w as int) && cells@[k].state
                            == CellState::Empty,
                decreases w - x,
            {
                proof {
                    assert(0 <= y * w + x < w * h) by (nonlinear_arith)
                        requires
                            0 <= x < w,
                            0 <= y < h,
                    ;
                    lemma_fundamental_div_mod_converse(y * w + x, w as int, y as int, x as int);
                }
                cells.push(Cell::new(Vector::new(x, y)));
                x = x + 1;
            }
            proof {
                assert((y + 1) * w == y * w + w) by (nonlinear_arith);
            }
            y = y + 1;
        }
        let g = Grid { cells, dimensions };
        proof {
            assert((w as int) * (h as int) == (h as int) * (w as int)) by (nonlinear_arith);
            assert(g.wf());
            assert forall|x: int, yy: int| g.in_bounds(x, yy) implies #[trigger] g.state_at(x, yy)
                == CellState::Empty by {
                g.lemma_idx(x, yy);
            }
        }
        Some(g)
    }

    /// Bounds-checked read: `Some` exactly on in-bounds coordinates, and the
    /// returned cell is the one whose `pos` equals the queried coordinate.
    pub fn get(&self, pos: Vector) -> (r: Option<&Cell>)
        requires
            self.wf(),
        ensures
            r is Some <==> self.in_bounds(pos.x as int, pos.y as int),
            r matches Some(c) ==> c.pos == pos && c.state == self.state_at(
                pos.x as int,
                pos.y as int,
            ),
    {
        if 0 <= pos.x && pos.x < self.dimensions.x && 0 <= pos.y && pos.y < self.dimensions.y {
            proof {
                self.lemma_idx(pos.x as int, pos.y as int);
                assert(self.cells.len() == self.cells@.len());
            }
            let i: usize = (pos.y as usize) * (self.dimensions.x as usize) + (pos.x as usize);
            Some(&self.cells[i])
        } else {
            None
        }
    }

    /// Bounds-checked mutable access: `Some` exactly on in-bounds
    /// coordinates. The caller sees the cell as it stands; the grid ends up
    /// with whatever the caller leaves behind the returned reference.
    pub fn get_mut(&mut self, pos: Vector) -> (r: Option<&mut Cell>)
        requires
            old(self).wf(),
        ensures
            r is Some <==> old(self).in_bounds(pos.x as int, pos.y as int),
            r matches Some(c) ==> *c == old(self).cell_seq()[old(self).idx(
                pos.x as int,
                pos.y as int,
            )] && final(self).cell_seq() == old(self).cell_seq().update(
                old(self).idx(pos.x as int, pos.y as int),
                *final(c),
            ) && final(self).dims() == old(self).dims(),
            r is None ==> *final(self) == *old(self),
    {
        if 0 <= pos.x && pos.x < self.dimensions.x && 0 <= pos.y && pos.y < self.dimensions.y {
            proof {
                self.lemma_idx(pos.x as int, pos.y as int);
                assert(self.cells.len() == self.cells@.len());
            }
            let i: usize = (pos.y as usize) * (self.dimensions.x as usize) + (pos.x as usize);
            Some(&mut self.cells[i])
        } else {
            None
        }
    }

    /// Bounds-checked write: on an in-bounds coordinate it sets the cell's
    /// state and appends the coordinate to the dirty list; out of bounds it
    /// leaves the grid and the dirty list untouched.
    pub fn set_state(&mut self, pos: Vector, state: CellState, cells_to_render: &mut CellsToRender)
        requires
            old(self).wf(),
        ensures
            final(self).wf(),
            final(self).dims() == old(self).dims(),
            old(self).in_bounds(pos.x as int, pos.y as int) ==> final(self).state_at(
                pos.x as int,
                pos.y as int,
            ) == state,
            old(self).in_bounds(pos.x as int, pos.y as int) ==> forall|x: int, y: int|
                old(self).in_bounds(x, y) && !(x == pos.x as int && y == pos.y as int)
                    ==> #[trigger] final(self).state_at(x, y) == old(self).state_at(x, y),
            old(self).in_bounds(pos.x as int, pos.y as int) ==> final(cells_to_render)@ == old(
                cells_to_render,
            )@.push(pos),
            !old(self).in_bounds(pos.x as int, pos.y as int) ==> *final(self) == *old(self)
                && final(cells_to_render)@ == old(cells_to_render)@,
    {
        if 0 <= pos.x && pos.x < self.dimensions.x && 0 <= pos.y && pos.y < self.dimensions.y {
            proof {
                self.lemma_idx(pos.x as int, pos.y as int);
                assert(self.cells.len() == self.cells@.len());
            }
            let i: usize = (pos.y as usize) * (self.dimensions.x as usize) + (pos.x as usize);
            let cell = &mut self.cells[i];
            cell.state = state;
            let changed = cell.pos;
            cells_to_render.push(changed);
            proof {
                assert forall|x: int, y: int|
                    old(self).in_bounds(x, y) && !(x == pos.x as int && y == pos.y as int) implies
                    #[trigger] self.state_at(x, y) == old(self).state_at(x, y) by {
                    old(self).lemma_idx(x, y);
                    if old(self).idx(x, y) == i as int {
                        old(self).lemma_idx_injective(x, y, pos.x as int, pos.y as int);
                    }
                }
            }
        }
    }

    /// Like `set_state`, but only when the target cell currently reads
    /// `Empty`; otherwise (occupied cell or out of bounds) it is a no-op that
    /// changes neither the grid nor the dirty list.
    pub fn set_state_if_empty(
        &mut self,
        pos: Vector,
        state: CellState,
        cells_to_render: &mut CellsToRender,
    )
        requires
            old(self).wf(),
        ensures
            final(self).wf(),
            final(self).dims() == old(self).dims(),
            old(self).in_bounds(pos.x as int, pos.y as int) && old(self).state_at(
                pos.x as int,
                pos.y as int,
            ) == CellState::Empty ==> final(self).state_at(pos.x as int, pos.y as int) == state
                && final(cells_to_render)@ == old(cells_to_render)@.push(pos) && forall|
                x: int,
                y: int,
            |
                old(self).in_bounds(x, y) && !(x == pos.x as int && y == pos.y as int)
                    ==> #[trigger] final(self).state_at(x, y) == old(self).state_at(x, y),
            !(old(self).in_bounds(pos.x as int, pos.y as int) && old(self).state_at(
                pos.x as int,
                pos.y as int,
            ) == CellState::Empty) ==> *final(self) == *old(self) && final(cells_to_render)@ == old(
                cells_to_render,
            )@,
    {
        if self.match_state(pos, CellState::Empty) {
            self.set_state(pos, state, cells_to_render);
        }
    }

    /// Bounds-checked state equality test; an out-of-bounds coordinate is a
    /// non-match, never an error.
    pub fn match_state(&self, pos: Vector, state: CellState) -> (r: bool)
        requires
            self.wf(),
        ensures
            r == (self.in_bounds(pos.x as int, pos.y as int) && self.state_at(
                pos.x as int,
                pos.y as int,
            ) == state),
    {
        match self.get(pos) {
            Some(cell) => cell.state == state,
            None => false,
        }
    }
}

} // verus!
