use crate::util::Vector;
use vstd::prelude::*;

verus! {

/// The discrete chemical state of one grid slot. `Producer` and `Mouth` are
/// organism-body states; `Empty` and `Food` are environment states.
#[derive(Clone, Copy, PartialEq, Eq, Structural, Debug)]
pub enum CellState {
    Empty,
    Food,
    Producer,
    Mouth,
}

/// One grid slot: its fixed position and its current chemical state. The
/// position is assigned at grid construction and never changes; the state is
/// mutated only through the grid's state-setting operations.
#[derive(Clone, Copy, PartialEq, Eq, Structural, Debug)]
pub struct Cell {
    pub pos: Vector,
    pub state: CellState,
}

impl Cell {
    pub fn new(pos: Vector) -> (r: Self)
        ensures
            r.pos == pos,
            r.state == CellState::Empty,
    {
        Self { pos, state: CellState::Empty }
    }
}

} // verus!
