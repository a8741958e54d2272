use vstd::prelude::*;

verus! {

/// A position in the maze: a row and a column, compared by value.
#[derive(Debug, Copy, Clone, Hash, PartialEq, Eq, Structural)]
pub struct GameEasyMazeState {
    pub row: i32,
    pub column: i32,
}

impl GameEasyMazeState {
    pub fn new(row: i32, column: i32) -> (r: GameEasyMazeState)
        ensures
            r.row == row,
            r.column == column,
    {
        GameEasyMazeState { row, column }
    }

    pub fn get_row(&self) -> (r: i32)
        ensures
            r == self.row,
    {
        self.row
    }

    pub fn get_column(&self) -> (r: i32)
        ensures
            r == self.column,
    {
        self.column
    }

    /// Moves this position by the given offsets.
    pub fn step(&mut self, diff_row: i32, diff_column: i32)
        requires
            i32::MIN <= old(self).row + diff_row <= i32::MAX,
            i32::MIN <= old(self).column + diff_column <= i32::MAX,
        ensures
            final(self).row == old(self).row + diff_row,
            final(self).column == old(self).column + diff_column,
    {
        self.row = self.row + diff_row;
        self.column = self.column + diff_column;
    }
}

} // verus!
