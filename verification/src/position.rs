//! Facing directions and positions of movable actors: rotation tables and
//! movement deltas per facing.

use vstd::prelude::*;

verus! {

/// A facing on the board grid; rows grow downward, so `Up` moves toward
/// smaller rows.
#[derive(Clone, Copy, PartialEq, Eq, Structural, Debug)]
pub enum Direction {
    Up,
    Down,
    Left,
    Right,
}

impl Direction {
    /// The facing after a quarter turn counterclockwise.
    pub open spec fn rotate_left_spec(self) -> Direction {
        match self {
            Direction::Up => Direction::Left,
            Direction::Down => Direction::Right,
            Direction::Left => Direction::Down,
            Direction::Right => Direction::Up,
        }
    }

    /// The facing after a quarter turn clockwise.
    pub open spec fn rotate_right_spec(self) -> Direction {
        match self {
            Direction::Up => Direction::Right,
            Direction::Down => Direction::Left,
            Direction::Left => Direction::Up,
            Direction::Right => Direction::Down,
        }
    }

    /// The column and row delta of one step forward.
    pub open spec fn frontward_spec(self) -> (i32, i32) {
        match self {
            Direction::Up => (0i32, -1i32),
            Direction::Down => (0i32, 1i32),
            Direction::Right => (1i32, 0i32),
            Direction::Left => (-1i32, 0i32),
        }
    }

    /// The column and row delta of one step backward.
    pub open spec fn backward_spec(self) -> (i32, i32) {
        match self {
            Direction::Up => (0i32, 1i32),
            Direction::Down => (0i32, -1i32),
            Direction::Right => (-1i32, 0i32),
            Direction::Left => (1i32, 0i32),
        }
    }

    /// Rotates a quarter turn counterclockwise; see [`Direction::rotate_left_spec`].
    pub fn rotate_left(&self) -> (r: Direction)
        ensures
            r == self.rotate_left_spec(),
    {
        match self {
            Direction::Up => Direction::Left,
            Direction::Down => Direction::Right,
            Direction::Left => Direction::Down,
            Direction::Right => Direction::Up,
        }
    }

    /// Rotates a quarter turn clockwise; see [`Direction::rotate_right_spec`].
    pub fn rotate_right(&self) -> (r: Direction)
        ensures
            r == self.rotate_right_spec(),
    {
        match self {
            Direction::Up => Direction::Right,
            Direction::Down => Direction::Left,
            Direction::Left => Direction::Up,
            Direction::Right => Direction::Down,
        }
    }

    /// The movement delta of one step forward; see [`Direction::frontward_spec`].
    pub fn move_frontward(&self) -> (r: (i32, i32))
        ensures
            r == self.frontward_spec(),
    {
        match self {
            Direction::Up => (0, -1),
            Direction::Down => (0, 1),
            Direction::Right => (1, 0),
            Direction::Left => (-1, 0),
        }
    }

    /// The movement delta of one step backward; see [`Direction::backward_spec`].
    pub fn move_backward(&self) -> (r: (i32, i32))
        ensures
            r == self.backward_spec(),
    {
        match self {
            Direction::Up => (0, 1),
            Direction::Down => (0, -1),
            Direction::Right => (-1, 0),
            Direction::Left => (1, 0),
        }
    }
}

/// A position on the board grid together with a facing.
#[derive(Clone, Copy, PartialEq, Eq, Structural, Debug)]
pub struct Position {
    pub x: u32,
    pub y: u32,
    pub dir: Direction,
}

impl Position {
    /// Moves by the given delta; the caller guarantees the result stays on
    /// the unsigned grid.
    pub fn move_by(&mut self, dx: i32, dy: i32)
        requires
            0 <= old(self).x + dx <= u32::MAX,
            0 <= old(self).y + dy <= u32::MAX,
        ensures
            final(self).x == old(self).x + dx,
            final(self).y == old(self).y + dy,
            final(self).dir == old(self).dir,
    {
        self.x = (self.x as i64 + dx as i64) as u32;
        self.y = (self.y as i64 + dy as i64) as u32;
    }

    /// Turns the facing a quarter turn counterclockwise, in place.
    pub fn rotate_left(&mut self)
        ensures
            final(self).x == old(self).x,
            final(self).y == old(self).y,
            final(self).dir == old(self).dir.rotate_left_spec(),
    {
        self.dir = self.dir.rotate_left();
    }

    /// Turns the facing a quarter turn clockwise, in place.
    pub fn rotate_right(&mut self)
        ensures
            final(self).x == old(self).x,
            final(self).y == old(self).y,
            final(self).dir == old(self).dir.rotate_right_spec(),
    {
        self.dir = self.dir.rotate_right();
    }
}

} // verus!
