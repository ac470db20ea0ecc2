//! A dense two-dimensional grid addressed by (row, column), stored row-major.

use crate::game_state_storage::{hash_of_grid, hashed_cells, mix, mixed};
use crate::interfaces::{BoardStateEntry, PointPlacement};
use vstd::prelude::*;
use vstd::std_specs::convert::IntoSpec;

verus! {

/// The mathematical value of a board: its shape and its cells in row-major order.
pub struct Grid<T> {
    pub rows: nat,
    pub columns: nat,
    pub cells: Seq<T>,
}

impl<T> Grid<T> {
    /// Both dimensions lie in `1..=65535` and there is one cell per coordinate.
    pub open spec fn wf(self) -> bool {
        &&& 0 < self.rows <= u16::MAX
        &&& 0 < self.columns <= u16::MAX
        &&& self.cells.len() == self.rows * self.columns
    }

    /// Whether `(row, column)` names a cell of the grid.
    pub open spec fn in_bounds(self, row: int, column: int) -> bool {
        0 <= row < self.rows && 0 <= column < self.columns
    }

    /// Whether `pp` names a cell of the grid.
    pub open spec fn contains(self, pp: PointPlacement) -> bool {
        self.in_bounds(pp.row as int, pp.column as int)
    }

    /// The row-major position of `(row, column)`.
    pub open spec fn index_of(self, row: int, column: int) -> int {
        row * self.columns + column
    }

    /// The cell at `(row, column)`.
    pub open spec fn at(self, row: int, column: int) -> T {
        self.cells[self.index_of(row, column)]
    }

    /// The cell at `pp`.
    pub open spec fn get(self, pp: PointPlacement) -> T {
        self.at(pp.row as int, pp.column as int)
    }

    /// The grid with the cell at `pp` replaced by `value`.
    pub open spec fn set(self, pp: PointPlacement, value: T) -> Grid<T> {
        Grid {
            rows: self.rows,
            columns: self.columns,
            cells: self.cells.update(self.index_of(pp.row as int, pp.column as int), value),
        }
    }

    /// The coordinate of the cell at row-major position `index`.
    pub open spec fn point(self, index: int) -> PointPlacement {
        PointPlacement {
            row: (index / self.columns as int) as u16,
            column: (index % self.columns as int) as u16,
        }
    }

    /// Whether the two grids have the same number of rows and of columns.
    pub open spec fn same_shape<U>(self, other: Grid<U>) -> bool {
        self.rows == other.rows && self.columns == other.columns
    }

    /// A grid of the given shape that holds `value` in every cell.
    pub open spec fn filled(rows: nat, columns: nat, value: T) -> Grid<T> {
        Grid { rows, columns, cells: Seq::new(rows * columns, |i: int| value) }
    }
}

/// In a well-formed grid every in-bounds coordinate has a row-major position
/// inside the cells, and `point` inverts `index_of`.
pub proof fn lemma_index_in_range<T>(grid: Grid<T>, row: int, column: int)
    requires
        grid.wf(),
        grid.in_bounds(row, column),
    ensures
        0 <= grid.index_of(row, column) < grid.cells.len(),
        grid.index_of(row, column) / grid.columns as int == row,
        grid.index_of(row, column) % grid.columns as int == column,
{
    let c = grid.columns as int;
    assert(row * c + column < grid.rows * c) by (nonlinear_arith)
        requires
            0 <= row < grid.rows,
            0 <= column < c,
    ;
    assert(0 <= row * c + column) by (nonlinear_arith)
        requires
            0 <= row,
            0 <= column,
            0 < c,
    ;
    vstd::arithmetic::div_mod::lemma_fundamental_div_mod_converse(row * c + column, c, row, column);
}

/// In a well-formed grid every row-major position is the position of exactly
/// the coordinate that `point` gives, and that coordinate is in bounds.
pub proof fn lemma_point_in_bounds<T>(grid: Grid<T>, index: int)
    requires
        grid.wf(),
        0 <= index < grid.cells.len(),
    ensures
        grid.contains(grid.point(index)),
        grid.point(index).row == index / grid.columns as int,
        grid.point(index).column == index % grid.columns as int,
        grid.index_of(grid.point(index).row as int, grid.point(index).column as int) == index,
{
    let c = grid.columns as int;
    let r = index / c;
    let m = index % c;
    vstd::arithmetic::div_mod::lemma_fundamental_div_mod(index, c);
    vstd::arithmetic::div_mod::lemma_mod_bound(index, c);
    assert(0 <= r) by (nonlinear_arith)
        requires
            r == index / c,
            0 <= index,
            0 < c,
    ;
    assert(r < grid.rows) by (nonlinear_arith)
        requires
            index == c * r + m,
            0 <= m < c,
            index < grid.rows * c,
            0 <= r,
    ;
    assert(c * r == r * c) by (nonlinear_arith);
}

/// The length of each row of a list of rows.
pub open spec fn row_lengths<U>(values: &Vec<Vec<U>>) -> Seq<nat> {
    Seq::new(values.len() as nat, |r: int| values[r].len() as nat)
}

/// Why rows of the given lengths make no board, if they do not: an empty
/// row is named first, then rows of different lengths, then the lack of
/// rows, then too many columns and last too many rows.
pub open spec fn values_error(lengths: Seq<nat>) -> Option<BoardError> {
    if exists|r: int| 0 <= r < lengths.len() && #[trigger] lengths[r] == 0 {
        Some(BoardError::EmptyRow)
    } else if exists|r: int| 0 <= r < lengths.len() && #[trigger] lengths[r] != lengths[0] {
        Some(BoardError::RaggedRows)
    } else if lengths.len() == 0 {
        Some(BoardError::NoRows)
    } else if lengths[0] > u16::MAX {
        Some(BoardError::TooManyColumns)
    } else if lengths.len() > u16::MAX {
        Some(BoardError::TooManyRows)
    } else {
        None
    }
}

/// Why a board could not be built.
#[derive(PartialEq, Eq, Copy, Clone, Debug, Structural)]
pub enum BoardError {
    /// The matrix has no rows.
    NoRows,
    /// Some row is empty.
    EmptyRow,
    /// Two rows differ in length.
    RaggedRows,
    /// There are more than 65535 rows.
    TooManyRows,
    /// A row has more than 65535 cells.
    TooManyColumns,
    /// A dimension is zero.
    ZeroDimension,
    /// The number of cells is not rows × columns.
    SizeMismatch,
}

/// A grid of `nrows × ncolumns` cells, between 1 and 65535 each way.
#[derive(Debug, Hash, PartialEq, Eq)]
pub struct Board<T> {
    nrows: u16,
    ncolumns: u16,
    board: Vec<T>,
}

impl<T> View for Board<T> {
    type V = Grid<T>;

    closed spec fn view(&self) -> Grid<T> {
        Grid { rows: self.nrows as nat, columns: self.ncolumns as nat, cells: self.board@ }
    }
}

impl<T: Copy> Clone for Board<T> {
    fn clone(&self) -> (copy: Self)
        ensures
            copy@ == self@,
    {
        let mut cells: Vec<T> = Vec::with_capacity(self.board.len());
        let mut i: usize = 0;
        while i < self.board.len()
            invariant
                i <= self.board.len(),
                cells@ == self.board@.subrange(0, i as int),
            decreases self.board.len() - i,
        {
            cells.push(self.board[i]);
            i += 1;
        }
        assert(cells@ == self.board@);
        Board { nrows: self.nrows, ncolumns: self.ncolumns, board: cells }
    }
}

impl<T: Copy> Board<T> {
    /// The board's shape is valid and it holds one cell per coordinate.
    pub open spec fn wf(&self) -> bool {
        self@.wf()
    }

    /// A `nrows × ncolumns` board with `value` in every cell.
    pub fn filled(nrows: u16, ncolumns: u16, value: T) -> (board: Self)
        requires
            nrows > 0,
            ncolumns > 0,
        ensures
            board.wf(),
            board@ == Grid::filled(nrows as nat, ncolumns as nat, value),
    {
        let nelems: usize = cell_count(nrows, ncolumns);
        let mut cells: Vec<T> = Vec::with_capacity(nelems);
        let mut i: usize = 0;
        while i < nelems
            invariant
                i <= nelems,
                cells@ == Seq::new(i as nat, |k: int| value),
            decreases nelems - i,
        {
            cells.push(value);
            i += 1;
        }
        Board { nrows, ncolumns, board: cells }
    }

    /// A `nrows × ncolumns` board with the converted `initial_value` in every cell.
    pub fn new<U: Into<T>>(nrows: u16, ncolumns: u16, initial_value: U) -> (board: Self)
        requires
            nrows > 0,
            ncolumns > 0,
        ensures
            board.wf(),
            board@ == Grid::filled(nrows as nat, ncolumns as nat, board@.cells[0]),
            U::obeys_into_spec() ==> board@ == Grid::filled(
                nrows as nat,
                ncolumns as nat,
                initial_value.into_spec(),
            ),
    {
        let value: T = initial_value.into();
        let board = Self::filled(nrows, ncolumns, value);
        proof {
            lemma_cell_count_positive(nrows as nat, ncolumns as nat);
            assert(board@.cells[0] == value);
        }
        board
    }

    /// A board of the shape of `board` with the converted `initial_value` in every cell.
    pub fn new_from_existing<U: Copy, ValT: Into<T>>(
        board: &Board<U>,
        initial_value: ValT,
    ) -> (fresh: Self)
        requires
            board.wf(),
        ensures
            fresh.wf(),
            fresh@ == Grid::filled(board@.rows, board@.columns, fresh@.cells[0]),
            ValT::obeys_into_spec() ==> fresh@ == Grid::filled(
                board@.rows,
                board@.columns,
                initial_value.into_spec(),
            ),
    {
        let value: T = initial_value.into();
        let fresh = Self::filled(board.nrows, board.ncolumns, value);
        proof {
            lemma_cell_count_positive(board@.rows, board@.columns);
            assert(fresh@.cells[0] == value);
        }
        fresh
    }

    /// A board that holds the converted `values`, one inner list per row.
    /// All rows must have the same length, which is not zero, and there are
    /// between 1 and 65535 rows and columns.
    #[allow(dead_code)]
    pub fn new_with_values<U: Into<T> + Copy>(values: &Vec<Vec<U>>) -> (made: Result<
        Self,
        BoardError,
    >)
        ensures
            match made {
                Ok(board) => {
                    &&& values_error(row_lengths(values)) is None
                    &&& board.wf()
                    &&& board@.rows == values.len()
                    &&& board@.columns == values[0].len()
                    &&& U::obeys_into_spec() ==> forall|r: int, c: int|
                        0 <= r < board@.rows && 0 <= c < board@.columns ==> #[trigger] board@.at(
                            r,
                            c,
                        ) == values[r][c].into_spec()
                },
                Err(error) => values_error(row_lengths(values)) == Some(error),
            },
    {
        let ghost lengths = row_lengths(values);
        let mut r: usize = 0;
        while r < values.len()
            invariant
                r <= values.len(),
                lengths == row_lengths(values),
                forall|k: int| 0 <= k < r ==> #[trigger] lengths[k] != 0,
            decreases values.len() - r,
        {
            if values[r].len() == 0 {
                assert(lengths[r as int] == 0);
                return Err(BoardError::EmptyRow);
            }
            r += 1;
        }
        r = 0;
        while r < values.len()
            invariant
                r <= values.len(),
                lengths == row_lengths(values),
                forall|k: int| 0 <= k < lengths.len() ==> #[trigger] lengths[k] != 0,
                forall|k: int| 0 <= k < r ==> #[trigger] lengths[k] == lengths[0],
            decreases values.len() - r,
        {
            if values[r].len() != values[0].len() {
                assert(lengths[r as int] != lengths[0]);
                return Err(BoardError::RaggedRows);
            }
            r += 1;
        }
        if values.len() == 0 {
            return Err(BoardError::NoRows);
        }
        if values[0].len() > u16::MAX as usize {
            return Err(BoardError::TooManyColumns);
        }
        if values.len() > u16::MAX as usize {
            return Err(BoardError::TooManyRows);
        }
        let nrows = values.len() as u16;
        let ncolumns = values[0].len() as u16;
        let mut cells: Vec<T> = Vec::new();
        r = 0;
        assert(0 * ncolumns == 0);
        while r < values.len()
            invariant
                r <= values.len(),
                nrows == values.len(),
                ncolumns == values[0].len(),
                ncolumns > 0,
                lengths == row_lengths(values),
                forall|k: int| 0 <= k < lengths.len() ==> #[trigger] lengths[k] == lengths[0],
                cells.len() == r * ncolumns,
                U::obeys_into_spec() ==> forall|k: int|
                    0 <= k < cells.len() ==> #[trigger] cells[k] == values[k / (
                    ncolumns as int)][k % (ncolumns as int)].into_spec(),
            decreases values.len() - r,
        {
            let row = &values[r];
            assert(row.len() == lengths[r as int]);
            let mut c: usize = 0;
            while c < row.len()
                invariant
                    r < values.len(),
                    row == values[r as int],
                    row.len() == ncolumns,
                    c <= row.len(),
                    ncolumns > 0,
                    cells.len() == r * ncolumns + c,
                    U::obeys_into_spec() ==> forall|k: int|
                        0 <= k < cells.len() ==> #[trigger] cells[k] == values[k / (
                        ncolumns as int)][k % (ncolumns as int)].into_spec(),
                decreases row.len() - c,
            {
                proof {
                    vstd::arithmetic::div_mod::lemma_fundamental_div_mod_converse(
                        r * ncolumns + c,
                        ncolumns as int,
                        r as int,
                        c as int,
                    );
                }
                let value: T = row[c].into();
                cells.push(value);
                c += 1;
            }
            assert((r + 1) * ncolumns == r * ncolumns + ncolumns) by (nonlinear_arith);
            r += 1;
        }
        let board = Board { nrows, ncolumns, board: cells };
        proof {
            if U::obeys_into_spec() {
                assert forall|r: int, c: int|
                    0 <= r < board@.rows && 0 <= c < board@.columns implies #[trigger] board@.at(
                    r,
                    c,
                ) == values[r][c].into_spec() by {
                    lemma_index_in_range(board@, r, c);
                }
            }
        }
        Ok(board)
    }

    /// A `nrows × ncolumns` board over the given cells in row-major order.
    #[allow(dead_code)]
    pub fn new_with_board(nrows: u16, ncolumns: u16, board: Vec<T>) -> (made: Result<
        Self,
        BoardError,
    >)
        ensures
            match made {
                Ok(made_board) => {
                    &&& board.len() == nrows * ncolumns
                    &&& nrows > 0
                    &&& ncolumns > 0
                    &&& made_board.wf()
                    &&& made_board@ == (Grid {
                        rows: nrows as nat,
                        columns: ncolumns as nat,
                        cells: board@,
                    })
                },
                Err(error) => error == (if board.len() != nrows * ncolumns {
                    BoardError::SizeMismatch
                } else {
                    BoardError::ZeroDimension
                }) && (board.len() != nrows * ncolumns || nrows == 0 || ncolumns == 0),
            },
    {
        let expected_size = cell_count(nrows, ncolumns);
        if board.len() != expected_size {
            return Err(BoardError::SizeMismatch);
        }
        if nrows == 0 || ncolumns == 0 {
            return Err(BoardError::ZeroDimension);
        }
        Ok(Board { nrows, ncolumns, board })
    }

    /// The number of rows.
    pub fn rows(&self) -> (rows: usize)
        ensures
            rows == self@.rows,
    {
        self.nrows as usize
    }

    /// The number of columns.
    pub fn columns(&self) -> (columns: usize)
        ensures
            columns == self@.columns,
    {
        self.ncolumns as usize
    }

    /// The number of rows.
    pub fn get_number_of_rows(&self) -> (nrows: u16)
        ensures
            nrows == self@.rows,
    {
        self.nrows
    }

    /// The number of columns.
    pub fn get_number_of_columns(&self) -> (ncolumns: u16)
        ensures
            ncolumns == self@.columns,
    {
        self.ncolumns
    }

    /// Every cell with its coordinate, in row-major order.
    pub fn iter_2d(&self) -> (items: Vec<(PointPlacement, &T)>)
        requires
            self.wf(),
        ensures
            items.len() == self@.cells.len(),
            forall|i: int|
                0 <= i < items.len() ==> (#[trigger] items[i]).0 == self@.point(i) && *items[i].1
                    == self@.cells[i],
    {
        let mut items: Vec<(PointPlacement, &T)> = Vec::with_capacity(self.board.len());
        let mut index: usize = 0;
        while index < self.board.len()
            invariant
                self.wf(),
                index <= self.board.len(),
                items.len() == index,
                forall|i: int|
                    0 <= i < items.len() ==> (#[trigger] items[i]).0 == self@.point(i)
                        && *items[i].1 == self@.cells[i],
            decreases self.board.len() - index,
        {
            let pp = self.to_point(index);
            items.push((pp, &self.board[index]));
            index += 1;
        }
        items
    }

    /// Every cell with its coordinate, in row-major order, consuming the board.
    pub fn into_iter_2d(self) -> (items: Vec<(PointPlacement, T)>)
        requires
            self.wf(),
        ensures
            items.len() == self@.cells.len(),
            forall|i: int|
                0 <= i < items.len() ==> #[trigger] items[i] == (self@.point(i), self@.cells[i]),
    {
        let mut items: Vec<(PointPlacement, T)> = Vec::with_capacity(self.board.len());
        let mut index: usize = 0;
        while index < self.board.len()
            invariant
                self.wf(),
                index <= self.board.len(),
                items.len() == index,
                forall|i: int|
                    0 <= i < items.len() ==> #[trigger] items[i] == (
                        self@.point(i),
                        self@.cells[i],
                    ),
            decreases self.board.len() - index,
        {
            let pp = self.to_point(index);
            items.push((pp, self.board[index]));
            index += 1;
        }
        items
    }

    /// The cells of two boards of one shape side by side, in row-major order.
    pub fn joint_iter_2d<'a, U: Copy>(&'a self, board2: &'a Board<U>) -> (items: Vec<
        (PointPlacement, &'a T, &'a U),
    >)
        requires
            self.wf(),
            board2.wf(),
            self@.same_shape(board2@),
        ensures
            items.len() == self@.cells.len(),
            forall|i: int|
                0 <= i < items.len() ==> (#[trigger] items[i]).0 == self@.point(i) && *items[i].1
                    == self@.cells[i] && *items[i].2 == board2@.cells[i],
    {
        let mut items: Vec<(PointPlacement, &T, &U)> = Vec::with_capacity(self.board.len());
        let mut index: usize = 0;
        while index < self.board.len()
            invariant
                self.wf(),
                board2.wf(),
                self@.same_shape(board2@),
                index <= self.board.len(),
                items.len() == index,
                forall|i: int|
                    0 <= i < items.len() ==> (#[trigger] items[i]).0 == self@.point(i)
                        && *items[i].1 == self@.cells[i] && *items[i].2 == board2@.cells[i],
            decreases self.board.len() - index,
        {
            let pp = self.to_point(index);
            items.push((pp, &self.board[index], &board2.board[index]));
            index += 1;
        }
        items
    }

    /// The cells of two boards of one shape side by side, in row-major order,
    /// consuming both.
    pub fn joint_into_iter_2d<U: Copy>(self, board2: Board<U>) -> (items: Vec<
        (PointPlacement, T, U),
    >)
        requires
            self.wf(),
            board2.wf(),
            self@.same_shape(board2@),
        ensures
            items.len() == self@.cells.len(),
            forall|i: int|
                0 <= i < items.len() ==> #[trigger] items[i] == (
                    self@.point(i),
                    self@.cells[i],
                    board2@.cells[i],
                ),
    {
        let mut items: Vec<(PointPlacement, T, U)> = Vec::with_capacity(self.board.len());
        let mut index: usize = 0;
        while index < self.board.len()
            invariant
                self.wf(),
                board2.wf(),
                self@.same_shape(board2@),
                index <= self.board.len(),
                items.len() == index,
                forall|i: int|
                    0 <= i < items.len() ==> #[trigger] items[i] == (
                        self@.point(i),
                        self@.cells[i],
                        board2@.cells[i],
                    ),
            decreases self.board.len() - index,
        {
            let pp = self.to_point(index);
            items.push((pp, self.board[index], board2.board[index]));
            index += 1;
        }
        items
    }

    fn to_point(&self, index: usize) -> (pp: PointPlacement)
        requires
            self.wf(),
            index < self.board@.len(),
        ensures
            pp == self@.point(index as int),
            self@.contains(pp),
    {
        proof {
            lemma_point_in_bounds(self@, index as int);
        }
        let row = index / self.ncolumns as usize;
        let column = index % self.ncolumns as usize;
        PointPlacement { row: row as u16, column: column as u16 }
    }

    fn to_index(&self, pp: PointPlacement) -> (index: usize)
        requires
            self.wf(),
            self@.contains(pp),
        ensures
            index == self@.index_of(pp.row as int, pp.column as int),
            index < self.board@.len(),
    {
        proof {
            lemma_index_in_range(self@, pp.row as int, pp.column as int);
            lemma_cell_count_fits(self@.rows, self@.columns);
        }
        pp.row as usize * self.ncolumns as usize + pp.column as usize
    }

    /// The cell at `pp`.
    pub fn get(&self, pp: PointPlacement) -> (value: T)
        requires
            self.wf(),
            self@.contains(pp),
        ensures
            value == self@.get(pp),
    {
        let index = self.to_index(pp);
        self.board[index]
    }

    /// Replaces the cell at `pp` by `value`.
    pub fn set(&mut self, pp: PointPlacement, value: T)
        requires
            old(self).wf(),
            old(self)@.contains(pp),
        ensures
            final(self).wf(),
            final(self)@ == old(self)@.set(pp, value),
    {
        let index = self.to_index(pp);
        self.board.set(index, value);
    }
}

impl<T: Copy> std::ops::Index<PointPlacement> for Board<T> {
    type Output = T;

    /// The cell at `index`.
    fn index(&self, index: PointPlacement) -> (cell: &T)
        ensures
            *cell == self@.get(index),
    {
        let index = self.to_index(index);
        &self.board[index]
    }
}

impl<T: Copy> vstd::std_specs::core::IndexSpecImpl<PointPlacement> for Board<T> {
    open spec fn index_req(&self, index: &PointPlacement) -> bool {
        self.wf() && self@.contains(*index)
    }
}

impl Board<BoardStateEntry> {
    /// The hash of the board's value.
    pub fn hash_cells(&self) -> (hash: u64)
        ensures
            hash == hash_of_grid(self@),
    {
        let mut hash = mix(mix(0, self.nrows as u64), self.ncolumns as u64);
        let mut i: usize = 0;
        while i < self.board.len()
            invariant
                i <= self.board.len(),
                hash == hashed_cells(
                    mixed(mixed(0, self.nrows as u64), self.ncolumns as u64),
                    self.board@,
                    i as nat,
                ),
            decreases self.board.len() - i,
        {
            let code: u64 = match self.board[i].0 {
                Some(id) => id as u64 + 1,
                None => 0,
            };
            hash = mix(hash, code);
            i += 1;
        }
        hash
    }

    /// Whether the two boards have the same shape and the same cells.
    pub fn same_cells(&self, other: &Self) -> (same: bool)
        ensures
            same == (self@ == other@),
    {
        if self.nrows != other.nrows || self.ncolumns != other.ncolumns || self.board.len()
            != other.board.len() {
            return false;
        }
        let mut i: usize = 0;
        while i < self.board.len()
            invariant
                i <= self.board.len(),
                self.board.len() == other.board.len(),
                forall|k: int| 0 <= k < i ==> self.board@[k] == other.board@[k],
            decreases self.board.len() - i,
        {
            let equal = match (self.board[i].0, other.board[i].0) {
                (Some(x), Some(y)) => x == y,
                (None, None) => true,
                _ => false,
            };
            if !equal {
                assert(self.board@[i as int] != other.board@[i as int]);
                return false;
            }
            i += 1;
        }
        assert(self.board@ =~= other.board@);
        true
    }
}

/// rows × columns fits in 32 bits whenever both dimensions fit in 16.
pub proof fn lemma_cell_count_fits(rows: nat, columns: nat)
    requires
        rows <= u16::MAX,
        columns <= u16::MAX,
    ensures
        rows * columns <= 0xfffe_0001,
        rows * columns <= usize::MAX,
{
    assert(rows * columns <= 0xffff * 0xffff) by (nonlinear_arith)
        requires
            rows <= 0xffff,
            columns <= 0xffff,
    ;
}

/// A grid with positive dimensions has a cell.
pub proof fn lemma_cell_count_positive(rows: nat, columns: nat)
    requires
        rows > 0,
        columns > 0,
    ensures
        rows * columns > 0,
{
    assert(rows * columns > 0) by (nonlinear_arith)
        requires
            rows > 0,
            columns > 0,
    ;
}

fn cell_count(nrows: u16, ncolumns: u16) -> (count: usize)
    ensures
        count == nrows * ncolumns,
{
    proof {
        lemma_cell_count_fits(nrows as nat, ncolumns as nat);
    }
    nrows as usize * ncolumns as usize
}

} // verus!
