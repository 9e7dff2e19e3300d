//! A cellular automaton on a torus, following Conway's rules.
//!
//! The board is a fixed grid whose edges wrap around: the row above the
//! first row is the last one, and likewise for columns. A generation is
//! always computed from the previous one as a whole, never from a board
//! that is half updated.

use vstd::arithmetic::div_mod::lemma_fundamental_div_mod_converse;
use vstd::prelude::*;
use vstd::string::StringExecFns;

verus! {

/// Width of the board a new universe starts with.
pub const INITIAL_WIDTH: u32 = 64;

/// Height of the board a new universe starts with.
pub const INITIAL_HEIGHT: u32 = 64;

/// State of one cell of the board.
#[derive(Clone, Copy, Debug, PartialEq, Eq, Structural)]
pub enum Cell {
    Dead,
    Alive,
}

impl Cell {
    /// What a cell adds to the neighbour count of the cells around it.
    pub open spec fn weight(self) -> int {
        if self == Cell::Alive {
            1
        } else {
            0
        }
    }

    /// The character a cell is drawn with.
    pub open spec fn glyph(self) -> char {
        if self == Cell::Alive {
            '\u{25FC}'
        } else {
            '\u{25FB}'
        }
    }
}

/// Conway's rule: a live cell with fewer than two or more than three live
/// neighbours dies, a dead cell with exactly three comes alive, and every
/// other cell stays as it is.
pub open spec fn next_state(cell: Cell, live_neighbours: int) -> Cell {
    if cell == Cell::Alive && (live_neighbours < 2 || live_neighbours > 3) {
        Cell::Dead
    } else if cell == Cell::Dead && live_neighbours == 3 {
        Cell::Alive
    } else {
        cell
    }
}

/// The state a fresh universe gives to the cell at a row-major position.
pub open spec fn seeded(position: int) -> Cell {
    if position % 2 == 0 || position % 7 == 0 {
        Cell::Alive
    } else {
        Cell::Dead
    }
}

/// Mathematical model of a board: its dimensions and its cells in row-major
/// order.
pub struct Board {
    pub width: nat,
    pub height: nat,
    pub cells: Seq<Cell>,
}

impl Board {
    /// A board has at least one cell, and exactly one per grid position.
    pub open spec fn wf(self) -> bool {
        &&& self.width > 0
        &&& self.height > 0
        &&& self.cells.len() == self.width * self.height
    }

    /// Row-major position of a grid coordinate.
    pub open spec fn index(self, row: int, column: int) -> int {
        row * self.width + column
    }

    /// The cell at a grid coordinate.
    pub open spec fn cell(self, row: int, column: int) -> Cell {
        self.cells[self.index(row, column)]
    }

    /// The row above, wrapping from the first row to the last.
    pub open spec fn above(self, row: int) -> int {
        (row + self.height - 1) % (self.height as int)
    }

    /// The row below, wrapping from the last row to the first.
    pub open spec fn below(self, row: int) -> int {
        (row + 1) % (self.height as int)
    }

    /// The column to the left, wrapping from the first column to the last.
    pub open spec fn left_of(self, column: int) -> int {
        (column + self.width - 1) % (self.width as int)
    }

    /// The column to the right, wrapping from the last column to the first.
    pub open spec fn right_of(self, column: int) -> int {
        (column + 1) % (self.width as int)
    }

    /// Number of live cells among the eight neighbours of a coordinate on
    /// the torus.
    pub open spec fn live_neighbours(self, row: int, column: int) -> int {
        self.cell(self.above(row), self.left_of(column)).weight()
            + self.cell(self.above(row), column).weight()
            + self.cell(self.above(row), self.right_of(column)).weight()
            + self.cell(row, self.left_of(column)).weight()
            + self.cell(row, self.right_of(column)).weight()
            + self.cell(self.below(row), self.left_of(column)).weight()
            + self.cell(self.below(row), column).weight()
            + self.cell(self.below(row), self.right_of(column)).weight()
    }

    /// The cell that stands at a row-major position in the next generation.
    pub open spec fn successor(self, position: int) -> Cell {
        next_state(
            self.cells[position],
            self.live_neighbours(position / (self.width as int), position % (self.width as int)),
        )
    }

    /// The next generation: every cell follows Conway's rule applied to
    /// this board.
    pub open spec fn step(self) -> Board {
        Board {
            width: self.width,
            height: self.height,
            cells: Seq::new(self.cells.len(), |position: int| self.successor(position)),
        }
    }

    /// The board every new universe starts from.
    pub open spec fn initial() -> Board {
        Board {
            width: INITIAL_WIDTH as nat,
            height: INITIAL_HEIGHT as nat,
            cells: Seq::new(
                (INITIAL_WIDTH * INITIAL_HEIGHT) as nat,
                |position: int| seeded(position),
            ),
        }
    }

    /// The glyphs of the first `columns` cells of a row.
    pub open spec fn row_text(self, row: int, columns: int) -> Seq<char> {
        Seq::new(columns as nat, |column: int| self.cell(row, column).glyph())
    }

    /// The first `rows` rows drawn one per line, each line ended by a
    /// newline.
    pub open spec fn text(self, rows: int) -> Seq<char>
        decreases rows,
    {
        if rows <= 0 {
            Seq::<char>::empty()
        } else {
            self.text(rows - 1) + self.row_text(rows - 1, self.width as int) + seq!['\n']
        }
    }

    /// The whole board as text.
    pub open spec fn rendering(self) -> Seq<char> {
        self.text(self.height as int)
    }
}

/// A grid coordinate inside the board has a row-major position inside it.
pub proof fn lemma_index_in_bounds(board: Board, row: int, column: int)
    requires
        board.wf(),
        0 <= row < board.height,
        0 <= column < board.width,
    ensures
        0 <= board.index(row, column) < board.cells.len(),
        board.index(row, column) / (board.width as int) == row,
        board.index(row, column) % (board.width as int) == column,
{
    let w = board.width as int;
    let h = board.height as int;
    assert(0 <= row * w + column < w * h) by (nonlinear_arith)
        requires
            0 <= row < h,
            0 <= column < w,
    ;
    lemma_fundamental_div_mod_converse(board.index(row, column), w, row, column);
}

/// Stepping one position back or forth on a ring of `size` positions stays
/// on the ring, and wraps only at its two ends.
pub proof fn lemma_ring_steps(position: int, size: int)
    requires
        0 <= position < size,
    ensures
        (position + size - 1) % size == (if position == 0 {
            size - 1
        } else {
            position - 1
        }),
        (position + 1) % size == (if position + 1 == size {
            0
        } else {
            position + 1
        }),
{
    if position == 0 {
        lemma_fundamental_div_mod_converse(position + size - 1, size, 0, size - 1);
    } else {
        lemma_fundamental_div_mod_converse(position + size - 1, size, 1, position - 1);
    }
    if position + 1 == size {
        lemma_fundamental_div_mod_converse(position + 1, size, 1, 0);
    } else {
        lemma_fundamental_div_mod_converse(position + 1, size, 0, position + 1);
    }
}

/// A board of cells that advances one generation at a time.
pub struct Universe {
    width: u32,
    height: u32,
    cells: Vec<Cell>,
}

impl View for Universe {
    type V = Board;

    closed spec fn view(&self) -> Board {
        Board { width: self.width as nat, height: self.height as nat, cells: self.cells@ }
    }
}

impl Universe {
    #[verifier::type_invariant]
    spec fn inv(self) -> bool {
        self@.wf()
    }

    /// A 64 by 64 board on which the cells at even row-major positions and
    /// at multiples of seven are alive.
    pub fn new() -> (universe: Universe)
        ensures
            universe@ == Board::initial(),
    {
        let width: u32 = INITIAL_WIDTH;
        let height: u32 = INITIAL_HEIGHT;
        let total: u32 = width * height;
        let mut cells: Vec<Cell> = Vec::new();
        let mut position: u32 = 0;
        while position < total
            invariant
                total == INITIAL_WIDTH * INITIAL_HEIGHT,
                position <= total,
                cells@.len() == position,
                forall|k: int| 0 <= k < position ==> cells@[k] == seeded(k),
            decreases total - position,
        {
            let cell = if position % 2 == 0 || position % 7 == 0 {
                Cell::Alive
            } else {
                Cell::Dead
            };
            cells.push(cell);
            position += 1;
        }
        assert(cells@ =~= Board::initial().cells);
        Universe { width, height, cells }
    }

    /// Number of columns.
    pub fn width(&self) -> (width: u32)
        ensures
            width == self@.width,
    {
        self.width
    }

    /// Number of rows.
    pub fn height(&self) -> (height: u32)
        ensures
            height == self@.height,
    {
        self.height
    }

    /// The cells in row-major order, one per grid position.
    pub fn cells(&self) -> (cells: &Vec<Cell>)
        ensures
            cells@ == self@.cells,
            cells@.len() == self@.width * self@.height,
    {
        proof {
            use_type_invariant(self);
        }
        &self.cells
    }

    /// Row-major position of a grid coordinate.
    pub fn get_index(&self, row: u32, column: u32) -> (index: usize)
        requires
            row < self@.height,
            column < self@.width,
        ensures
            index == self@.index(row as int, column as int),
            index < self@.cells.len(),
    {
        proof {
            use_type_invariant(self);
            lemma_index_in_bounds(self@, row as int, column as int);
            assert(self.cells@.len() == self.cells.len());
            assert(0 <= row * self.width <= row * self.width + column) by (nonlinear_arith)
                requires
                    0 <= row,
                    0 <= self.width,
                    0 <= column,
            ;
        }
        (row as usize) * (self.width as usize) + (column as usize)
    }

    /// Whether the cell at a grid coordinate is alive, as a number.
    fn weight_at(&self, row: u32, column: u32) -> (weight: u8)
        requires
            row < self@.height,
            column < self@.width,
        ensures
            weight == self@.cell(row as int, column as int).weight(),
    {
        let index = self.get_index(row, column);
        match self.cells[index] {
            Cell::Alive => 1,
            Cell::Dead => 0,
        }
    }

    /// Number of live cells among the eight neighbours of a coordinate,
    /// with neighbours taken across the edges of the board.
    pub fn live_neighbour_count(&self, row: u32, column: u32) -> (count: u8)
        requires
            row < self@.height,
            column < self@.width,
        ensures
            count == self@.live_neighbours(row as int, column as int),
            count <= 8,
    {
        proof {
            use_type_invariant(self);
            lemma_ring_steps(row as int, self.height as int);
            lemma_ring_steps(column as int, self.width as int);
        }
        let north: u32 = if row == 0 {
            self.height - 1
        } else {
            row - 1
        };
        let south: u32 = if row + 1 == self.height {
            0
        } else {
            row + 1
        };
        let west: u32 = if column == 0 {
            self.width - 1
        } else {
            column - 1
        };
        let east: u32 = if column + 1 == self.width {
            0
        } else {
            column + 1
        };
        self.weight_at(north, west) + self.weight_at(north, column) + self.weight_at(north, east)
            + self.weight_at(row, west) + self.weight_at(row, east) + self.weight_at(south, west)
            + self.weight_at(south, column) + self.weight_at(south, east)
    }

    /// Advances the board by one generation.
    pub fn tick(&mut self)
        ensures
            final(self)@ == old(self)@.step(),
    {
        proof {
            use_type_invariant(&*self);
        }
        let ghost before = self@;
        let mut next: Vec<Cell> = Vec::new();
        let mut row: u32 = 0;
        while row < self.height
            invariant
                *self == *old(self),
                before == self@,
                before.wf(),
                row <= self.height,
                next@.len() == row * self.width,
                forall|k: int| 0 <= k < next@.len() ==> next@[k] == before.successor(k),
            decreases self.height - row,
        {
            let mut column: u32 = 0;
            while column < self.width
                invariant
                    *self == *old(self),
                    before == self@,
                    before.wf(),
                    row < self.height,
                    column <= self.width,
                    next@.len() == row * self.width + column,
                    forall|k: int| 0 <= k < next@.len() ==> next@[k] == before.successor(k),
                decreases self.width - column,
            {
                proof {
                    lemma_index_in_bounds(before, row as int, column as int);
                }
                let index = self.get_index(row, column);
                let count = self.live_neighbour_count(row, column);
                let current = self.cells[index];
                let cell = match current {
                    Cell::Alive => if count < 2 || count > 3 {
                        Cell::Dead
                    } else {
                        Cell::Alive
                    },
                    Cell::Dead => if count == 3 {
                        Cell::Alive
                    } else {
                        Cell::Dead
                    },
                };
                next.push(cell);
                column += 1;
            }
            assert(row * self.width + self.width == (row + 1) * self.width) by (nonlinear_arith);
            row += 1;
        }
        assert(next@.len() == before.cells.len()) by (nonlinear_arith)
            requires
                next@.len() == row * self.width,
                row == self.height,
                before.cells.len() == self.width * self.height,
        ;
        assert(next@ =~= before.step().cells);
        self.cells = next;
    }

    /// The board as text: one line per row, a filled square for each live
    /// cell and a hollow one for each dead cell.
    pub fn render(&self) -> (text: String)
        ensures
            text@ == self@.rendering(),
    {
        proof {
            use_type_invariant(self);
        }
        let mut board = String::new();
        let mut row: u32 = 0;
        while row < self.height
            invariant
                self@.wf(),
                row <= self.height,
                board@ == self@.text(row as int),
            decreases self.height - row,
        {
            let mut line = String::new();
            let mut column: u32 = 0;
            while column < self.width
                invariant
                    self@.wf(),
                    row < self.height,
                    column <= self.width,
                    line@ == self@.row_text(row as int, column as int),
                decreases self.width - column,
            {
                let index = self.get_index(row, column);
                proof {
                    reveal_strlit("\u{25FC}");
                    reveal_strlit("\u{25FB}");
                }
                let glyph = match self.cells[index] {
                    Cell::Alive => "\u{25FC}",
                    Cell::Dead => "\u{25FB}",
                };
                assert(glyph@ =~= seq![self@.cell(row as int, column as int).glyph()]);
                line.append(glyph);
                column += 1;
                assert(line@ =~= self@.row_text(row as int, column as int));
            }
            proof {
                reveal_strlit("\n");
            }
            assert("\n"@ =~= seq!['\n']);
            line.append("\n");
            board.append(line.as_str());
            row += 1;
            assert(board@ =~= self@.text(row as int));
        }
        board
    }
}

} // verus!
