use vstd::prelude::*;

verus! {

/// What one square of the board holds.
#[derive(Debug, Clone, Copy, PartialEq, Eq, Structural)]
pub enum BoardCell {
    Empty,
    X,
    O,
}

/// Why an operation on the board was refused.
#[derive(Debug, Clone, Copy, PartialEq, Eq, Structural)]
pub enum BoardError {
    /// A cell number that names no kind of cell.
    BadCellId { id: usize },
    /// A position outside the board's width and height.
    OutOfBounds,
}

/// The number by which a cell kind travels over the wire.
pub open spec fn cell_id(cell: BoardCell) -> nat {
    match cell {
        BoardCell::Empty => 0,
        BoardCell::X => 1,
        BoardCell::O => 2,
    }
}

/// The cell kind that a wire number names, if any.
pub open spec fn cell_of_id(id: nat) -> Option<BoardCell> {
    if id == 0 {
        Some(BoardCell::Empty)
    } else if id == 1 {
        Some(BoardCell::X)
    } else if id == 2 {
        Some(BoardCell::O)
    } else {
        None
    }
}

/// A cell kind's wire number names that kind again.
pub proof fn lemma_cell_id_round_trip(cell: BoardCell)
    ensures
        cell_of_id(cell_id(cell)) == Some(cell),
{
}

/// A wire number that names a cell kind is that kind's number.
pub proof fn lemma_cell_of_id_inverse(id: nat)
    ensures
        cell_of_id(id) matches Some(cell) ==> cell_id(cell) == id,
        cell_of_id(id) is Some <==> id < 3,
{
}

impl BoardCell {
    pub fn from_usize(id: usize) -> (res: Result<BoardCell, BoardError>)
        ensures
            match cell_of_id(id as nat) {
                Some(c) => res == Ok::<BoardCell, BoardError>(c),
                None => res == Err::<BoardCell, BoardError>(BoardError::BadCellId { id }),
            },
    {
        match id {
            0 => Ok(BoardCell::Empty),
            1 => Ok(BoardCell::X),
            2 => Ok(BoardCell::O),
            _ => Err(BoardError::BadCellId { id }),
        }
    }

    pub fn to_usize(&self) -> (id: usize)
        ensures
            id == cell_id(*self),
    {
        match self {
            BoardCell::Empty => 0,
            BoardCell::X => 1,
            BoardCell::O => 2,
        }
    }
}


impl Default for BoardCell {
    fn default() -> (cell: BoardCell)
        ensures
            cell == BoardCell::Empty,
    {
        BoardCell::Empty
    }
}

/// `row` lengthened with empty squares to at least `n` squares.
pub open spec fn padded(row: Seq<BoardCell>, n: nat) -> Seq<BoardCell> {
    if row.len() >= n {
        row
    } else {
        row + Seq::new((n - row.len()) as nat, |i: int| BoardCell::Empty)
    }
}

/// The larger of two lengths.
pub open spec fn max_len(a: nat, b: nat) -> nat {
    if a >= b { a } else { b }
}

/// Whether the rows that `after` stores are those of `before` once `cell` is
/// written at column `x`, row `y`: the rows up to `y` are stored, row `y` is
/// lengthened with empty squares to reach column `x`, and the other rows keep
/// what they held.
pub open spec fn rows_after_put(before: Board, after: Board, x: usize, y: usize, cell: BoardCell) -> bool {
    &&& after.cells@.len() == max_len(before.cells@.len(), y as nat + 1)
    &&& after.cells@[y as int]@ == padded(before.row_of(y as int), x as nat + 1).update(x as int, cell)
    &&& forall|j: int|
        0 <= j < after.cells@.len() && j != y ==> #[trigger] after.cells@[j]@ == before.row_of(j)
}

/// A rectangular board. Rows are stored only as far as they have been written:
/// a square that no row holds reads as [`BoardCell::Empty`].
pub struct Board {
    pub width: usize,
    pub height: usize,
    pub teams: usize,
    /// `cells[y][x]` is the square in column `x` of row `y`.
    pub cells: Vec<Vec<BoardCell>>,
}

impl Board {
    /// What the square at column `x`, row `y` holds.
    pub open spec fn cell_at(self, x: int, y: int) -> BoardCell {
        if 0 <= y < self.cells@.len() && 0 <= x < self.cells@[y]@.len() {
            self.cells@[y]@[x]
        } else {
            BoardCell::Empty
        }
    }

    /// Every square of the board, by `(x, y)`.
    pub open spec fn grid(self) -> Map<(int, int), BoardCell> {
        Map::new(|p: (int, int)| true, |p: (int, int)| self.cell_at(p.0, p.1))
    }

    /// Whether every stored square lies inside the board's width and height.
    pub open spec fn stored_in_bounds(self) -> bool {
        forall|x: int, y: int|
            0 <= y < self.cells@.len() && 0 <= x < self.cells@[y]@.len() ==> #[trigger] self.in_bounds(x, y)
    }

    /// Whether `(x, y)` lies inside the board's width and height.
    pub open spec fn in_bounds(self, x: int, y: int) -> bool {
        0 <= x < self.width && 0 <= y < self.height
    }

    /// The squares that row `y` stores; empty where the row is not stored.
    pub open spec fn row_of(self, y: int) -> Seq<BoardCell> {
        if 0 <= y < self.cells@.len() {
            self.cells@[y]@
        } else {
            Seq::empty()
        }
    }

    pub fn new(width: usize, height: usize) -> (board: Board)
        ensures
            board.width == width,
            board.height == height,
            board.teams == 2,
            board.cells@.len() == 0,
            board.stored_in_bounds(),
            forall|x: int, y: int| #[trigger] board.cell_at(x, y) == BoardCell::Empty,
    {
        Board { width, height, teams: 2, cells: Vec::with_capacity(height) }
    }

    /// Writes `cell` at column `x`, row `y`, storing the rows and squares
    /// before it that were not stored yet; refuses a position outside the board.
    pub fn put(&mut self, x: usize, y: usize, cell: BoardCell) -> (res: Result<(), BoardError>)
        ensures
            res is Err <==> !old(self).in_bounds(x as int, y as int),
            res is Err ==> res == Err::<(), BoardError>(BoardError::OutOfBounds) && *final(self)
                == *old(self),
            res is Ok ==> {
                &&& final(self).width == old(self).width
                &&& final(self).height == old(self).height
                &&& final(self).teams == old(self).teams
                &&& rows_after_put(*old(self), *final(self), x, y, cell)
            },
            res is Ok ==> forall|i: int, j: int| #[trigger]
                final(self).cell_at(i, j) == if i == x && j == y {
                    cell
                } else {
                    old(self).cell_at(i, j)
                },
            old(self).stored_in_bounds() ==> final(self).stored_in_bounds(),
    {
        if x >= self.width || y >= self.height {
            return Err(BoardError::OutOfBounds);
        }
        while self.cells.len() <= y
            invariant
                self.width == old(self).width,
                self.height == old(self).height,
                self.teams == old(self).teams,
                y < self.height,
                old(self).cells@.len() <= self.cells@.len() <= max_len(old(self).cells@.len(), y as nat + 1),
                forall|j: int| 0 <= j < self.cells@.len() ==> #[trigger] self.cells@[j]@ == old(self).row_of(j),
            decreases y + 1 - self.cells@.len(),
        {
            self.cells.push(Vec::new());
        }
        while self.cells[y].len() <= x
            invariant
                self.width == old(self).width,
                self.height == old(self).height,
                self.teams == old(self).teams,
                y < self.cells@.len(),
                self.cells@.len() == max_len(old(self).cells@.len(), y as nat + 1),
                forall|j: int| 0 <= j < self.cells@.len() && j != y ==> #[trigger] self.cells@[j]@ == old(self).row_of(j),
                old(self).row_of(y as int).len() <= self.cells@[y as int]@.len(),
                self.cells@[y as int]@.len() <= max_len(old(self).row_of(y as int).len(), x as nat + 1),
                self.cells@[y as int]@ =~= padded(old(self).row_of(y as int), self.cells@[y as int]@.len()),
            decreases x + 1 - self.cells@[y as int]@.len(),
        {
            self.cells[y].push(BoardCell::Empty);
        }
        self.cells[y][x] = cell;
        assert(old(self).stored_in_bounds() ==> self.stored_in_bounds()) by {
            if old(self).stored_in_bounds() {
                assert forall|i: int, j: int|
                    0 <= j < self.cells@.len() && 0 <= i < self.cells@[j]@.len() implies #[trigger] self.in_bounds(i, j) by {
                    if j != y && j < old(self).cells@.len() {
                        assert(old(self).cells@[j]@ == self.cells@[j]@);
                        assert(old(self).in_bounds(i, j));
                    }
                    if j == y && i < old(self).row_of(y as int).len() {
                        assert(old(self).in_bounds(i, j));
                    }
                }
            }
        }
        Ok(())
    }

    pub fn get(&self, x: usize, y: usize) -> (cell: BoardCell)
        ensures
            cell == self.cell_at(x as int, y as int),
    {
        if y < self.cells.len() {
            let row = &self.cells[y];
            if x < row.len() {
                row[x]
            } else {
                BoardCell::Empty
            }
        } else {
            BoardCell::Empty
        }
    }

    pub fn occupied(&self, x: usize, y: usize) -> (taken: bool)
        ensures
            taken == (self.cell_at(x as int, y as int) != BoardCell::Empty),
    {
        self.get(x, y) != BoardCell::Empty
    }
}

} // verus!
