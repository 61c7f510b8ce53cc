use vstd::prelude::*;

verus! {

/// Coordinates of the cells whose state changed since the dirty list was
/// last cleared; the rendering collaborator redraws exactly these.
pub type CellsToRender = Vec<Vector>;

/// An integer 2D coordinate, used both as an absolute grid position and as a
/// relative body-plan offset.
#[derive(Clone, Copy, PartialEq, Eq, Structural, Debug)]
pub struct Vector {
    pub x: i32,
    pub y: i32,
}

/// Whether a mathematical coordinate value is representable as an `i32`.
pub open spec fn fits_i32(v: int) -> bool {
    i32::MIN <= v <= i32::MAX
}

/// The relative offsets of the full 8-neighborhood, in the fixed order used
/// by `Vector::neighbors`: left, right, up, down, up-left, up-right,
/// down-left, down-right. The first four are the orthogonal ("cross")
/// neighbors, in the order used by `Vector::cross_neighbors`.
pub open spec fn neighbor_offset(k: int) -> (int, int) {
    if k == 0 {
        (-1, 0)
    } else if k == 1 {
        (1, 0)
    } else if k == 2 {
        (0, -1)
    } else if k == 3 {
        (0, 1)
    } else if k == 4 {
        (-1, -1)
    } else if k == 5 {
        (1, -1)
    } else if k == 6 {
        (-1, 1)
    } else {
        (1, 1)
    }
}

/// Distinct neighbor indices name distinct absolute positions.
pub proof fn lemma_neighbor_offsets_distinct(k1: int, k2: int)
    requires
        0 <= k1 < 8,
        0 <= k2 < 8,
        k1 != k2,
    ensures
        neighbor_offset(k1) != neighbor_offset(k2),
{
}

impl Vector {
    pub fn new(x: i32, y: i32) -> (r: Self)
        ensures
            r.x == x,
            r.y == y,
    {
        Self { x, y }
    }

    /// Componentwise sum of an absolute position and a relative offset.
    pub fn add(&self, rhs: Vector) -> (r: Self)
        requires
            fits_i32(self.x + rhs.x),
            fits_i32(self.y + rhs.y),
        ensures
            r.x == self.x + rhs.x,
            r.y == self.y + rhs.y,
    {
        Self { x: self.x + rhs.x, y: self.y + rhs.y }
    }

    /// Componentwise sum that reports an unrepresentable result instead of
    /// requiring it away; a position outside the `i32` range is outside any
    /// grid, so callers treat `None` as "out of bounds".
    pub fn checked_add(&self, rhs: Vector) -> (r: Option<Self>)
        ensures
            r is Some <==> fits_i32(self.x + rhs.x) && fits_i32(self.y + rhs.y),
            r matches Some(v) ==> v.x == self.x + rhs.x && v.y == self.y + rhs.y,
    {
        match (self.x.checked_add(rhs.x), self.y.checked_add(rhs.y)) {
            (Some(x), Some(y)) => Some(Self { x, y }),
            _ => None,
        }
    }

    pub fn down(&self) -> (r: Self)
        requires
            fits_i32(self.y + 1),
        ensures
            r.x == self.x,
            r.y == self.y + 1,
    {
        Self::new(self.x, self.y + 1)
    }

    pub fn up(&self) -> (r: Self)
        requires
            fits_i32(self.y - 1),
        ensures
            r.x == self.x,
            r.y == self.y - 1,
    {
        Self::new(self.x, self.y - 1)
    }

    pub fn left(&self) -> (r: Self)
        requires
            fits_i32(self.x - 1),
        ensures
            r.x == self.x - 1,
            r.y == self.y,
    {
        Self::new(self.x - 1, self.y)
    }

    pub fn right(&self) -> (r: Self)
        requires
            fits_i32(self.x + 1),
        ensures
            r.x == self.x + 1,
            r.y == self.y,
    {
        Self::new(self.x + 1, self.y)
    }

    pub fn down_left(&self) -> (r: Self)
        requires
            fits_i32(self.x - 1),
            fits_i32(self.y + 1),
        ensures
            r.x == self.x - 1,
            r.y == self.y + 1,
    {
        Self::new(self.x - 1, self.y + 1)
    }

    pub fn up_left(&self) -> (r: Self)
        requires
            fits_i32(self.x - 1),
            fits_i32(self.y - 1),
        ensures
            r.x == self.x - 1,
            r.y == self.y - 1,
    {
        Self::new(self.x - 1, self.y - 1)
    }

    pub fn down_right(&self) -> (r: Self)
        requires
            fits_i32(self.x + 1),
            fits_i32(self.y + 1),
        ensures
            r.x == self.x + 1,
            r.y == self.y + 1,
    {
        Self::new(self.x + 1, self.y + 1)
    }

    pub fn up_right(&self) -> (r: Self)
        requires
            fits_i32(self.x + 1),
            fits_i32(self.y - 1),
        ensures
            r.x == self.x + 1,
            r.y == self.y - 1,
    {
        Self::new(self.x + 1, self.y - 1)
    }

    /// The 4 orthogonal neighbors, in the fixed order left, right, up, down.
    pub fn cross_neighbors(&self) -> (r: Vec<Self>)
        requires
            fits_i32(self.x - 1),
            fits_i32(self.x + 1),
            fits_i32(self.y - 1),
            fits_i32(self.y + 1),
        ensures
            r@.len() == 4,
            forall|k: int|
                0 <= k < 4 ==> #[trigger] r@[k].x == self.x + neighbor_offset(k).0 && r@[k].y
                    == self.y + neighbor_offset(k).1,
    {
        let r = vec![self.left(), self.right(), self.up(), self.down()];
        proof {
            assert forall|k: int| 0 <= k < 4 implies #[trigger] r@[k].x == self.x
                + neighbor_offset(k).0 && r@[k].y == self.y + neighbor_offset(k).1 by {
                if k == 0 {
                } else if k == 1 {
                } else if k == 2 {
                } else {
                }
            }
        }
        r
    }

    /// The 4 diagonal neighbors, in the fixed order up-left, up-right,
    /// down-left, down-right.
    pub fn diagonal_neighbors(&self) -> (r: Vec<Self>)
        requires
            fits_i32(self.x - 1),
            fits_i32(self.x + 1),
            fits_i32(self.y - 1),
            fits_i32(self.y + 1),
        ensures
            r@.len() == 4,
            forall|k: int|
                0 <= k < 4 ==> #[trigger] r@[k].x == self.x + neighbor_offset(k + 4).0 && r@[k].y
                    == self.y + neighbor_offset(k + 4).1,
    {
        let r = vec![self.up_left(), self.up_right(), self.down_left(), self.down_right()];
        proof {
            assert forall|k: int| 0 <= k < 4 implies #[trigger] r@[k].x == self.x
                + neighbor_offset(k + 4).0 && r@[k].y == self.y + neighbor_offset(k + 4).1 by {
                if k == 0 {
                } else if k == 1 {
                } else if k == 2 {
                } else {
                }
            }
        }
        r
    }

    /// The full 8-neighborhood, in the fixed order given by `neighbor_offset`.
    pub fn neighbors(&self) -> (r: Vec<Self>)
        requires
            fits_i32(self.x - 1),
            fits_i32(self.x + 1),
            fits_i32(self.y - 1),
            fits_i32(self.y + 1),
        ensures
            r@.len() == 8,
            forall|k: int|
                0 <= k < 8 ==> #[trigger] r@[k].x == self.x + neighbor_offset(k).0 && r@[k].y
                    == self.y + neighbor_offset(k).1,
    {
        let r = vec![
            self.left(),
            self.right(),
            self.up(),
            self.down(),
            self.up_left(),
            self.up_right(),
            self.down_left(),
            self.down_right(),
        ];
        proof {
            assert forall|k: int| 0 <= k < 8 implies #[trigger] r@[k].x == self.x
                + neighbor_offset(k).0 && r@[k].y == self.y + neighbor_offset(k).1 by {
                if k == 0 {
                } else if k == 1 {
                } else if k == 2 {
                } else if k == 3 {
                } else if k == 4 {
                } else if k == 5 {
                } else if k == 6 {
                } else {
                }
            }
        }
        r
    }
}

} // verus!
