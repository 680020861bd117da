use vstd::prelude::*;

verus! {

/// How far apart two numbers are.
pub open spec fn distance(a: nat, b: nat) -> nat {
    if a >= b {
        (a - b) as nat
    } else {
        (b - a) as nat
    }
}

fn abs_diff(a: usize, b: usize) -> (r: usize)
    ensures
        r == distance(a as nat, b as nat),
{
    if a >= b {
        a - b
    } else {
        b - a
    }
}

/// A square of the chess board, by row and column (counted from 1 to 8).
#[derive(Debug, Clone, Copy, PartialEq, Eq, Structural)]
pub struct ChessPosition {
    row: usize,
    column: usize,
}

impl ChessPosition {
    pub closed spec fn row_spec(&self) -> nat {
        self.row as nat
    }

    pub closed spec fn column_spec(&self) -> nat {
        self.column as nat
    }

    /// Rows between the two squares.
    pub open spec fn dx(&self, o: &ChessPosition) -> nat {
        distance(self.row_spec(), o.row_spec())
    }

    /// Columns between the two squares.
    pub open spec fn dy(&self, o: &ChessPosition) -> nat {
        distance(self.column_spec(), o.column_spec())
    }

    pub open spec fn adjacent_spec(&self, o: &ChessPosition) -> bool {
        self.dx(o) <= 1 && self.dy(o) <= 1 && !(self.dx(o) == 0 && self.dy(o) == 0)
    }

    pub open spec fn same_line_spec(&self, o: &ChessPosition) -> bool {
        self.row_spec() == o.row_spec() || self.column_spec() == o.column_spec()
    }

    pub open spec fn diagonal_spec(&self, o: &ChessPosition) -> bool {
        self.dx(o) == self.dy(o)
    }

    pub open spec fn l_spec(&self, o: &ChessPosition) -> bool {
        (self.dx(o) == 1 && self.dy(o) == 2) || (self.dx(o) == 2 && self.dy(o) == 1)
    }

    pub open spec fn diagonal_1_spec(&self, o: &ChessPosition) -> bool {
        self.dx(o) == 1 && self.dy(o) == 1
    }

    /// The square at `row`, `column`.
    pub fn create_position(row: usize, column: usize) -> (r: Self)
        ensures
            r.row_spec() == row,
            r.column_spec() == column,
    {
        ChessPosition { row, column }
    }

    /// Whether `another_position` is one of the eight squares around this one.
    pub fn is_adjacent(&self, another_position: &ChessPosition) -> (r: bool)
        ensures
            r == self.adjacent_spec(another_position),
    {
        let dx = abs_diff(self.row, another_position.row);
        let dy = abs_diff(self.column, another_position.column);
        dx <= 1 && dy <= 1 && !(dx == 0 && dy == 0)
    }

    /// Whether `another_position` shares this square's row, column or diagonal.
    pub fn are_aligned(&self, another_position: &ChessPosition) -> (r: bool)
        ensures
            r == (self.same_line_spec(another_position) || self.diagonal_spec(another_position)),
    {
        self.are_in_same_row_or_column(another_position) || self.are_in_diagonal(another_position)
    }

    /// Whether `another_position` shares this square's row or column.
    pub fn are_in_same_row_or_column(&self, another_position: &ChessPosition) -> (r: bool)
        ensures
            r == self.same_line_spec(another_position),
    {
        self.row == another_position.row || self.column == another_position.column
    }

    /// Whether `another_position` lies on one of this square's diagonals.
    pub fn are_in_diagonal(&self, another_position: &ChessPosition) -> (r: bool)
        ensures
            r == self.diagonal_spec(another_position),
    {
        let dx = abs_diff(self.row, another_position.row);
        let dy = abs_diff(self.column, another_position.column);
        dx == dy
    }

    /// Whether `another_position` is a knight's move away.
    pub fn are_in_l(&self, another_position: &ChessPosition) -> (r: bool)
        ensures
            r == self.l_spec(another_position),
    {
        let dx = abs_diff(self.row, another_position.row);
        let dy = abs_diff(self.column, another_position.column);
        (dx == 1 && dy == 2) || (dx == 2 && dy == 1)
    }

    /// Whether `another_position` touches this square diagonally.
    pub fn are_diagonal_1(&self, another_position: &ChessPosition) -> (r: bool)
        ensures
            r == self.diagonal_1_spec(another_position),
    {
        let dx = abs_diff(self.row, another_position.row);
        let dy = abs_diff(self.column, another_position.column);
        dx == 1 && dy == 1
    }

    /// Whether `another_position` touches this square diagonally, one row below.
    pub fn one_position_down_diagonal(&self, another_position: &ChessPosition) -> (r: bool)
        ensures
            r == (another_position.row_spec() == self.row_spec() + 1 && self.dy(
                another_position,
            ) == 1),
    {
        let dy = abs_diff(self.column, another_position.column);
        self.row < another_position.row && another_position.row - self.row == 1 && dy == 1
    }

    /// Whether `another_position` touches this square diagonally, one row above.
    pub fn one_position_upward_diagonal(&self, another_position: &ChessPosition) -> (r: bool)
        ensures
            r == (self.row_spec() == another_position.row_spec() + 1 && self.dy(
                another_position,
            ) == 1),
    {
        let dy = abs_diff(self.column, another_position.column);
        self.row > another_position.row && self.row - another_position.row == 1 && dy == 1
    }
}

} // verus!
