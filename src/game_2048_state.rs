use vstd::prelude::*;

verus! {

/// Side length of the board.
pub const BOARD_SIZE: usize = 4;

/// The value of an empty cell.
pub const EMPTY_LITERAL: i32 = 0;

/// A square board of tiles; an empty cell holds `EMPTY_LITERAL`.
#[derive(Debug, Copy, Clone)]
pub struct Game2048State {
    pub board: [[i32; BOARD_SIZE]; BOARD_SIZE],
}

/// `(i, j)` is a cell of the board.
pub open spec fn in_board(i: int, j: int) -> bool {
    0 <= i < BOARD_SIZE && 0 <= j < BOARD_SIZE
}

impl Game2048State {
    /// The value at row `i`, column `j`.
    pub open spec fn cell(&self, i: int, j: int) -> int {
        self.board[i][j] as int
    }

    /// Both boards hold the same values.
    pub open spec fn same_cells(&self, o: &Game2048State) -> bool {
        forall|i: int, j: int| in_board(i, j) ==> #[trigger] self.cell(i, j) == o.cell(i, j)
    }

    /// `after` is this board with `(i, j)` set to `v`.
    pub open spec fn with_cell(&self, after: &Game2048State, i: int, j: int, v: int) -> bool {
        forall|a: int, b: int|
            in_board(a, b) ==> #[trigger] after.cell(a, b) == if a == i && b == j {
                v
            } else {
                self.cell(a, b)
            }
    }

    /// Some cell is empty.
    pub open spec fn has_empty_cell(&self) -> bool {
        exists|i: int, j: int| in_board(i, j) && #[trigger] self.cell(i, j) == EMPTY_LITERAL
    }

    /// A board with every cell empty.
    pub fn new() -> (r: Game2048State)
        ensures
            forall|i: int, j: int| in_board(i, j) ==> #[trigger] r.cell(i, j) == EMPTY_LITERAL,
    {
        Game2048State { board: [[EMPTY_LITERAL; BOARD_SIZE]; BOARD_SIZE] }
    }

    pub fn get_board_size() -> (r: usize)
        ensures
            r == BOARD_SIZE,
    {
        BOARD_SIZE
    }

    pub fn get_empty_literal() -> (r: i32)
        ensures
            r == EMPTY_LITERAL,
    {
        EMPTY_LITERAL
    }

    pub fn set_element(&mut self, i: usize, j: usize, elem: i32)
        requires
            in_board(i as int, j as int),
        ensures
            old(self).with_cell(final(self), i as int, j as int, elem as int),
    {
        self.board[i][j] = elem;
    }

    pub fn get_element(&self, i: usize, j: usize) -> (r: i32)
        requires
            in_board(i as int, j as int),
        ensures
            r == self.cell(i as int, j as int),
    {
        self.board[i][j]
    }

    /// Doubles the value at `(i, j)`.
    pub fn double(&mut self, i: usize, j: usize)
        requires
            in_board(i as int, j as int),
            i32::MIN <= 2 * old(self).cell(i as int, j as int) <= i32::MAX,
        ensures
            old(self).with_cell(final(self), i as int, j as int, 2 * old(self).cell(i as int, j as int)),
    {
        let v = self.board[i][j];
        self.set_element(i, j, v * 2);
    }

    /// Moves the value at `(i2, j2)` to `(i1, j1)` and empties `(i2, j2)`.
    pub fn slide(&mut self, i1: usize, j1: usize, i2: usize, j2: usize)
        requires
            in_board(i1 as int, j1 as int),
            in_board(i2 as int, j2 as int),
        ensures
            forall|a: int, b: int|
                in_board(a, b) ==> #[trigger] final(self).cell(a, b) == if a == i2 && b == j2 {
                    EMPTY_LITERAL as int
                } else if a == i1 && b == j1 {
                    old(self).cell(i2 as int, j2 as int)
                } else {
                    old(self).cell(a, b)
                },
    {
        let v = self.board[i2][j2];
        self.set_element(i1, j1, v);
        self.set_element(i2, j2, EMPTY_LITERAL);
    }

    /// Whether `(i1, j1)` and `(i2, j2)` hold the same value.
    pub fn is_same(&self, i1: usize, j1: usize, i2: usize, j2: usize) -> (r: bool)
        requires
            in_board(i1 as int, j1 as int),
            in_board(i2 as int, j2 as int),
        ensures
            r == (self.cell(i1 as int, j1 as int) == self.cell(i2 as int, j2 as int)),
    {
        self.board[i1][j1] == self.board[i2][j2]
    }

    pub fn is_empty(&self, i: usize, j: usize) -> (r: bool)
        requires
            in_board(i as int, j as int),
        ensures
            r == (self.cell(i as int, j as int) == EMPTY_LITERAL),
    {
        self.board[i][j] == EMPTY_LITERAL
    }

    /// Whether some cell is empty.
    pub fn has_empty(&self) -> (r: bool)
        ensures
            r == self.has_empty_cell(),
    {
        let mut i: usize = 0;
        while i < BOARD_SIZE
            invariant
                i <= BOARD_SIZE,
                forall|a: int, b: int|
                    0 <= a < i && 0 <= b < BOARD_SIZE ==> #[trigger] self.cell(a, b) != EMPTY_LITERAL,
            decreases BOARD_SIZE - i,
        {
            let mut j: usize = 0;
            while j < BOARD_SIZE
                invariant
                    i < BOARD_SIZE,
                    j <= BOARD_SIZE,
                    forall|a: int, b: int|
                        (0 <= a < i && 0 <= b < BOARD_SIZE) || (a == i && 0 <= b < j)
                            ==> #[trigger] self.cell(a, b) != EMPTY_LITERAL,
                decreases BOARD_SIZE - j,
            {
                if self.is_empty(i, j) {
                    assert(in_board(i as int, j as int));
                    return true;
                }
                j = j + 1;
            }
            i = i + 1;
        }
        false
    }

    pub fn get_board_ref(&self) -> (r: &[[i32; BOARD_SIZE]; BOARD_SIZE])
        ensures
            *r == self.board,
    {
        &(self.board)
    }
}

impl PartialEq for Game2048State {
    fn eq(&self, other: &Game2048State) -> (r: bool) {
        let mut i: usize = 0;
        while i < BOARD_SIZE
            invariant
                i <= BOARD_SIZE,
                forall|a: int, b: int|
                    0 <= a < i && 0 <= b < BOARD_SIZE ==> #[trigger] self.cell(a, b) == other.cell(a, b),
            decreases BOARD_SIZE - i,
        {
            let mut j: usize = 0;
            while j < BOARD_SIZE
                invariant
                    i < BOARD_SIZE,
                    j <= BOARD_SIZE,
                    forall|a: int, b: int|
                        (0 <= a < i && 0 <= b < BOARD_SIZE) || (a == i && 0 <= b < j)
                            ==> #[trigger] self.cell(a, b) == other.cell(a, b),
                decreases BOARD_SIZE - j,
            {
                if other.board[i][j] != self.board[i][j] {
                    assert(!(self.cell(i as int, j as int) == other.cell(i as int, j as int)));
                    return false;
                }
                j = j + 1;
            }
            i = i + 1;
        }
        true
    }
}

impl vstd::std_specs::cmp::PartialEqSpecImpl for Game2048State {
    open spec fn obeys_eq_spec() -> bool {
        true
    }

    open spec fn eq_spec(&self, o: &Game2048State) -> bool {
        self.same_cells(o)
    }
}

impl Eq for Game2048State {}

} // verus!
