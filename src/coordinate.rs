use vstd::prelude::*;

verus! {

/// One of the four grid directions a blast wave can travel in.
#[derive(Debug, Clone, Copy, PartialEq, Eq, Structural, Hash)]
pub enum Direction {
    Up,
    Down,
    Left,
    Right,
}

/// A position on a square grid. `x` is the row, `y` the column, and
/// `max_value` the side length of the grid the position belongs to.
#[derive(Debug, Clone, Copy, PartialEq, Eq, Structural, Hash)]
pub struct Coordinate {
    pub x: u32,
    pub y: u32,
    pub max_value: u32,
}

impl Coordinate {
    /// The position lies inside its grid.
    pub open spec fn in_bounds(self) -> bool {
        self.x < self.max_value && self.y < self.max_value
    }

    /// The neighbour one step away in direction `d`, if it lies inside the grid.
    pub open spec fn step_spec(self, d: Direction) -> Option<Coordinate> {
        match d {
            Direction::Up => if self.x == 0 {
                None
            } else {
                Some(Coordinate { x: (self.x - 1) as u32, ..self })
            },
            Direction::Down => if self.x + 1 >= self.max_value {
                None
            } else {
                Some(Coordinate { x: (self.x + 1) as u32, ..self })
            },
            Direction::Left => if self.y == 0 {
                None
            } else {
                Some(Coordinate { y: (self.y - 1) as u32, ..self })
            },
            Direction::Right => if self.y + 1 >= self.max_value {
                None
            } else {
                Some(Coordinate { y: (self.y + 1) as u32, ..self })
            },
        }
    }

    pub fn new(x: u32, y: u32, max_value: u32) -> (r: Coordinate)
        ensures
            r == (Coordinate { x, y, max_value }),
    {
        Coordinate { x, y, max_value }
    }

    /// One row further down (`x + 1`), or `None` at the bottom edge.
    pub fn down(&self) -> (r: Option<Coordinate>)
        ensures
            r == self.step_spec(Direction::Down),
    {
        if self.x >= self.max_value || self.max_value - self.x == 1 {
            return None;
        }
        Some(Coordinate::new(self.x + 1, self.y, self.max_value))
    }

    /// One row further up (`x - 1`), or `None` at the top edge.
    pub fn up(&self) -> (r: Option<Coordinate>)
        ensures
            r == self.step_spec(Direction::Up),
    {
        if self.x == 0 {
            return None;
        }
        Some(Coordinate::new(self.x - 1, self.y, self.max_value))
    }

    /// One column further right (`y + 1`), or `None` at the right edge.
    pub fn right(&self) -> (r: Option<Coordinate>)
        ensures
            r == self.step_spec(Direction::Right),
    {
        if self.y >= self.max_value || self.max_value - self.y == 1 {
            return None;
        }
        Some(Coordinate::new(self.x, self.y + 1, self.max_value))
    }

    /// One column further left (`y - 1`), or `None` at the left edge.
    pub fn left(&self) -> (r: Option<Coordinate>)
        ensures
            r == self.step_spec(Direction::Left),
    {
        if self.y == 0 {
            return None;
        }
        Some(Coordinate::new(self.x, self.y - 1, self.max_value))
    }

    /// The neighbour one step away in direction `d`, if it lies inside the grid.
    pub fn step(&self, d: Direction) -> (r: Option<Coordinate>)
        ensures
            r == self.step_spec(d),
    {
        match d {
            Direction::Up => self.up(),
            Direction::Down => self.down(),
            Direction::Left => self.left(),
            Direction::Right => self.right(),
        }
    }
}

/// A move never leaves the grid: from an in-bounds position every
/// neighbour that exists is in bounds, and a step changes exactly one
/// axis by exactly one.
pub proof fn lemma_step_in_bounds(c: Coordinate, d: Direction)
    requires
        c.in_bounds(),
    ensures
        c.step_spec(d) matches Some(n) ==> n.in_bounds() && n.max_value == c.max_value,
{
}

} // verus!
