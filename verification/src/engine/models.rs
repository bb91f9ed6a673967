use vstd::prelude::*;

verus! {

/// A face of the unit cube.
#[derive(Clone, Copy, Debug, PartialEq, Eq, Structural)]
pub enum Side {
    Right,
    Left,
    Back,
    Front,
    Bottom,
    Top,
}

/// The position of each face in the order right, left, back, front, bottom, top.
pub open spec fn side_index(side: Side) -> int {
    match side {
        Side::Right => 0,
        Side::Left => 1,
        Side::Back => 2,
        Side::Front => 3,
        Side::Bottom => 4,
        Side::Top => 5,
    }
}

impl Side {
    /// The position of this face in the order right, left, back, front, bottom, top.
    pub fn index(&self) -> (r: usize)
        ensures
            r == side_index(*self),
    {
        match self {
            Side::Right => 0,
            Side::Left => 1,
            Side::Back => 2,
            Side::Front => 3,
            Side::Bottom => 4,
            Side::Top => 5,
        }
    }
}

/// Law: each face has its own position, below 6.
pub proof fn law_side_indices_distinct(a: Side, b: Side)
    ensures
        0 <= side_index(a) < 6,
        side_index(a) == side_index(b) <==> a == b,
{
}

} // verus!
