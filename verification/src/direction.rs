use vstd::prelude::*;

verus! {

/// A step on the grid: one column left or right, or one row up or down.
#[derive(Clone, Debug)]
pub enum Direction {
    Left,
    Down,
    Right,
    Up,
}

/// The column and row offsets of a step.
pub open spec fn offsets(d: Direction) -> (i32, i32) {
    match d {
        Direction::Left => (-1i32, 0i32),
        Direction::Right => (1i32, 0i32),
        Direction::Up => (0i32, -1i32),
        Direction::Down => (0i32, 1i32),
    }
}

/// The step that an offset points to: the column decides first, then the row;
/// the null offset reads as a step to the right.
pub open spec fn direction_of(coords: (i32, i32)) -> Direction {
    if coords.0 < 0 {
        Direction::Left
    } else if coords.0 > 0 {
        Direction::Right
    } else if coords.1 < 0 {
        Direction::Up
    } else if coords.1 > 0 {
        Direction::Down
    } else {
        Direction::Right
    }
}

impl From<(i32, i32)> for Direction {
    fn from(coords: (i32, i32)) -> (d: Self) {
        let (col, row) = coords;
        if col < 0 {
            Self::Left
        } else if col > 0 {
            Self::Right
        } else if row < 0 {
            Self::Up
        } else if row > 0 {
            Self::Down
        } else {
            Self::Right
        }
    }
}

impl vstd::std_specs::convert::FromSpecImpl<(i32, i32)> for Direction {
    open spec fn obeys_from_spec() -> bool {
        true
    }

    open spec fn from_spec(coords: (i32, i32)) -> Direction {
        direction_of(coords)
    }
}

impl From<Direction> for (i32, i32) {
    fn from(d: Direction) -> (coords: (i32, i32)) {
        match d {
            Direction::Left => (-1, 0),
            Direction::Right => (1, 0),
            Direction::Up => (0, -1),
            Direction::Down => (0, 1),
        }
    }
}

impl vstd::std_specs::convert::FromSpecImpl<Direction> for (i32, i32) {
    open spec fn obeys_from_spec() -> bool {
        true
    }

    open spec fn from_spec(d: Direction) -> (i32, i32) {
        offsets(d)
    }
}

/// A step read back from its own offsets is the same step.
pub proof fn lemma_direction_round_trip(d: Direction)
    ensures
        direction_of(offsets(d)) == d,
{
}

}

verus! {

/// Each step moves by one cell: left and right change only the column, left lowering and
/// right raising it; up and down change only the row, up lowering and down raising it; so
/// opposite steps cancel.
pub proof fn lemma_steps_are_single_cells()
    ensures
        offsets(Direction::Right).0 == 1 && offsets(Direction::Right).1 == 0,
        offsets(Direction::Left).0 == -1 && offsets(Direction::Left).1 == 0,
        offsets(Direction::Down).0 == 0 && offsets(Direction::Down).1 == 1,
        offsets(Direction::Up).0 == 0 && offsets(Direction::Up).1 == -1,
{
}

}
