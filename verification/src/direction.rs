//! The four cardinal directions of the grid.

use vstd::prelude::*;

verus! {

/// A step from a cell to one of its four direct neighbours.
#[derive(Clone, Copy, Debug, Hash, PartialEq, Eq, Structural)]
pub enum Direction {
    Up,
    Down,
    Left,
    Right,
}

impl Direction {
    /// The column and row offsets of one step. Rows grow downwards, so `Up`
    /// has a negative row offset.
    pub open spec fn deltas(self) -> (int, int) {
        match self {
            Direction::Up => (0, -1),
            Direction::Down => (0, 1),
            Direction::Left => (-1, 0),
            Direction::Right => (1, 0),
        }
    }

    /// The direction of the step back.
    pub open spec fn opposite(self) -> Direction {
        match self {
            Direction::Up => Direction::Down,
            Direction::Down => Direction::Up,
            Direction::Left => Direction::Right,
            Direction::Right => Direction::Left,
        }
    }

    /// The column and row one step away from column `x` of row `y`.
    pub open spec fn step(self, x: int, y: int) -> (int, int) {
        (x + self.deltas().0, y + self.deltas().1)
    }

    /// A step and the opposite step lead back.
    pub proof fn lemma_step_back(self, x: int, y: int)
        ensures
            self.opposite().step(self.step(x, y).0, self.step(x, y).1) == (x, y),
            self.opposite().opposite() == self,
    {
    }

    /// The position of this direction in the order `Up`, `Down`, `Left`,
    /// `Right`.
    pub open spec fn index(self) -> u64 {
        match self {
            Direction::Up => 0,
            Direction::Down => 1,
            Direction::Left => 2,
            Direction::Right => 3,
        }
    }

    /// The position of this direction in the order `Up`, `Down`, `Left`,
    /// `Right`.
    pub fn to_index(self) -> (index: u64)
        ensures
            index == self.index(),
            index < 4,
    {
        match self {
            Direction::Up => 0,
            Direction::Down => 1,
            Direction::Left => 2,
            Direction::Right => 3,
        }
    }

    /// The direction at a position below 4 in the order `Up`, `Down`, `Left`,
    /// `Right`.
    pub fn from_index(index: u64) -> (direction: Direction)
        requires
            index < 4,
        ensures
            direction.index() == index,
            direction == Direction::at(index as int),
    {
        if index == 0 {
            Direction::Up
        } else if index == 1 {
            Direction::Down
        } else if index == 2 {
            Direction::Left
        } else {
            Direction::Right
        }
    }

    /// The direction at a position in the order `Up`, `Down`, `Left`,
    /// `Right`.
    pub open spec fn at(index: int) -> Direction {
        if index == 0 {
            Direction::Up
        } else if index == 1 {
            Direction::Down
        } else if index == 2 {
            Direction::Left
        } else {
            Direction::Right
        }
    }

    /// All four directions, in the order `Up`, `Down`, `Left`, `Right`.
    pub fn all() -> (directions: [Direction; 4])
        ensures
            forall|i: int| 0 <= i < 4 ==> (#[trigger] directions[i]).index() == i,
            forall|i: int| 0 <= i < 4 ==> #[trigger] directions[i] == Direction::at(i),
    {
        [Direction::Up, Direction::Down, Direction::Left, Direction::Right]
    }

    /// The column and row offsets of one step.
    pub fn get_deltas(self) -> (deltas: (i8, i8))
        ensures
            deltas.0 == self.deltas().0,
            deltas.1 == self.deltas().1,
    {
        match self {
            Direction::Up => (0, -1),
            Direction::Down => (0, 1),
            Direction::Left => (-1, 0),
            Direction::Right => (1, 0),
        }
    }

    /// The column and row one step away from column `x` of row `y`, where
    /// neither leaves the range of `usize`.
    pub fn shift(self, x: usize, y: usize) -> (stepped: Option<(usize, usize)>)
        ensures
            stepped is Some <==> 0 <= self.step(x as int, y as int).0 <= usize::MAX && 0
                <= self.step(x as int, y as int).1 <= usize::MAX,
            stepped matches Some((stepped_x, stepped_y)) ==> self.step(x as int, y as int) == (
                stepped_x as int,
                stepped_y as int,
            ),
    {
        let (delta_x, delta_y) = self.get_deltas();
        match (x.checked_add_signed(delta_x as isize), y.checked_add_signed(delta_y as isize)) {
            (Some(stepped_x), Some(stepped_y)) => Some((stepped_x, stepped_y)),
            _ => None,
        }
    }

    /// The direction of the step back.
    pub fn get_opposite(self) -> (opposite: Direction)
        ensures
            opposite == self.opposite(),
    {
        match self {
            Direction::Up => Direction::Down,
            Direction::Down => Direction::Up,
            Direction::Left => Direction::Right,
            Direction::Right => Direction::Left,
        }
    }
}

} // verus!
