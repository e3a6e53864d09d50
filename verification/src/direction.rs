use vstd::prelude::*;

verus! {

/// One of the four grid directions a belt, pipe or drag line can point to.
#[derive(Debug, Clone, Copy, PartialEq, Eq, Structural, Hash, Default)]
pub enum Direction {
    #[default]
    East,
    North,
    West,
    South,
}

/// The unit step on the tile grid that a direction stands for.
pub open spec fn spec_offset(d: Direction) -> (int, int) {
    match d {
        Direction::East => (1, 0),
        Direction::North => (0, 1),
        Direction::West => (-1, 0),
        Direction::South => (0, -1),
    }
}

/// The direction a quarter turn counter-clockwise from `d`.
pub open spec fn spec_next(d: Direction) -> Direction {
    match d {
        Direction::East => Direction::North,
        Direction::North => Direction::West,
        Direction::West => Direction::South,
        Direction::South => Direction::East,
    }
}

/// The direction a quarter turn clockwise from `d`.
pub open spec fn spec_prev(d: Direction) -> Direction {
    match d {
        Direction::East => Direction::South,
        Direction::North => Direction::East,
        Direction::West => Direction::North,
        Direction::South => Direction::West,
    }
}

/// The direction whose step is `(dx, dy)`; every other offset maps to `East`.
pub open spec fn spec_from_offset(dx: int, dy: int) -> Direction {
    if dx == 1 && dy == 0 {
        Direction::East
    } else if dx == 0 && dy == 1 {
        Direction::North
    } else if dx == -1 && dy == 0 {
        Direction::West
    } else if dx == 0 && dy == -1 {
        Direction::South
    } else {
        Direction::East
    }
}

impl Direction {
    pub fn offset(&self) -> (r: (i32, i32))
        ensures
            r.0 == spec_offset(*self).0,
            r.1 == spec_offset(*self).1,
    {
        match self {
            Direction::East => (1, 0),
            Direction::North => (0, 1),
            Direction::West => (-1, 0),
            Direction::South => (0, -1),
        }
    }

    pub fn next(&self) -> (r: Direction)
        ensures
            r == spec_next(*self),
    {
        match self {
            Direction::East => Direction::North,
            Direction::North => Direction::West,
            Direction::West => Direction::South,
            Direction::South => Direction::East,
        }
    }

    pub fn prev(&self) -> (r: Direction)
        ensures
            r == spec_prev(*self),
    {
        match self {
            Direction::East => Direction::South,
            Direction::North => Direction::East,
            Direction::West => Direction::North,
            Direction::South => Direction::West,
        }
    }

    pub fn from_offset(dx: i32, dy: i32) -> (r: Direction)
        ensures
            r == spec_from_offset(dx as int, dy as int),
    {
        if dx == 1 && dy == 0 {
            Direction::East
        } else if dx == 0 && dy == 1 {
            Direction::North
        } else if dx == -1 && dy == 0 {
            Direction::West
        } else if dx == 0 && dy == -1 {
            Direction::South
        } else {
            Direction::East
        }
    }

    /// The two directions at right angles to this one, in the order
    /// north/south for a horizontal direction and east/west for a vertical one.
    pub fn perpendicular(&self) -> (r: [Direction; 2])
        ensures
            r@.len() == 2,
            (*self == Direction::East || *self == Direction::West) ==> (r@[0] == Direction::North
                && r@[1] == Direction::South),
            (*self == Direction::North || *self == Direction::South) ==> (r@[0] == Direction::East
                && r@[1] == Direction::West),
    {
        match self {
            Direction::East | Direction::West => [Direction::North, Direction::South],
            Direction::North | Direction::South => [Direction::East, Direction::West],
        }
    }
}

/// Turning a quarter turn one way and then back gives the direction one started from.
pub proof fn lemma_next_prev_inverse(d: Direction)
    ensures
        spec_prev(spec_next(d)) == d,
        spec_next(spec_prev(d)) == d,
{
}

/// Four quarter turns bring every direction back to itself.
pub proof fn lemma_next_four_times_identity(d: Direction)
    ensures
        spec_next(spec_next(spec_next(spec_next(d)))) == d,
{
}

/// The direction named by a direction's own step is that direction again.
pub proof fn lemma_from_offset_of_offset(d: Direction)
    ensures
        spec_from_offset(spec_offset(d).0, spec_offset(d).1) == d,
{
}

/// A quarter turn counter-clockwise maps the step (x, y) to (-y, x).
pub proof fn lemma_next_rotates_offset(d: Direction)
    ensures
        spec_offset(spec_next(d)).0 == -spec_offset(d).1,
        spec_offset(spec_next(d)).1 == spec_offset(d).0,
{
}

/// Steps are unit vectors, and distinct directions have distinct steps.
pub proof fn lemma_offset_injective(a: Direction, b: Direction)
    ensures
        spec_offset(a) == spec_offset(b) <==> a == b,
        spec_offset(a).0 * spec_offset(a).0 + spec_offset(a).1 * spec_offset(a).1 == 1,
{
}

/// Neither perpendicular direction is the direction itself or its opposite.
pub proof fn lemma_perpendicular_is_orthogonal(d: Direction)
    ensures
        spec_offset(d).0 * spec_offset(spec_next(d)).0 + spec_offset(d).1 * spec_offset(
            spec_next(d),
        ).1 == 0,
{
}

} // verus!
