use vstd::prelude::*;
use crate::cell::{
    count_hidden, count_mines, count_safe, count_where, is_hidden_cell, is_mine_cell, is_safe_cell,
    lemma_count_bounded, lemma_count_same_on, lemma_count_take, lemma_count_update, lemma_count_zero,
    lemma_mines_and_safe, Cell,
};
use crate::random::random_below;
use crate::flood::{
    closed_except, flood_inv, lemma_flood_close, lemma_flood_done, lemma_flood_pop, lemma_flood_reveal_one,
    lemma_flood_settled, lemma_flood_start, partly_closed, stack_ok,
};
use crate::geometry::{
    adjacent_count, dir_col, dir_row, in_bounds, lemma_index_in_grid, lemma_mines_in_dirs_bounds, lemma_neighbor_in_grid,
    mines_in_dirs, neighbor, opt_int,
};

verus! {

/// Why a board could not be built.
#[derive(Clone, Copy, Debug, PartialEq, Eq, Structural)]
pub enum ConfigError {
    /// A dimension is zero, the cell count does not fit in `usize`, or a mine
    /// layout does not have one entry per cell.
    InvalidDimension,
    /// There must be at least one cell without a mine.
    TooManyMines,
}

/// Which cells hold a mine, in row-major order.
pub open spec fn mine_layout(cells: Seq<Cell>) -> Seq<bool> {
    cells.map_values(|c: Cell| c.is_mine)
}

/// Every cell sits at its own row-major position on a `width` x `height` grid.
pub open spec fn cells_placed(cells: Seq<Cell>, width: int, height: int) -> bool {
    &&& width > 0
    &&& height > 0
    &&& cells.len() == width * height
    &&& forall|i: int|
        0 <= i < cells.len() ==> {
            &&& #[trigger] cells[i].row < height
            &&& cells[i].col < width
            &&& cells[i].row * width + cells[i].col == i
        }
}

/// Every cell's count is the number of mines among its in-bounds neighbours.
pub open spec fn adjacency_correct(cells: Seq<Cell>, width: int, height: int) -> bool {
    forall|i: int|
        0 <= i < cells.len() ==> #[trigger] cells[i].adjacent_mines == adjacent_count(
            mine_layout(cells),
            width,
            height,
            cells[i].row as int,
            cells[i].col as int,
        )
}

/// Only hidden cells carry a flag.
pub open spec fn flags_on_hidden(cells: Seq<Cell>) -> bool {
    forall|i: int| 0 <= i < cells.len() && #[trigger] cells[i].is_flagged ==> !cells[i].is_revealed
}

/// A fresh cell sits at its position with no mine, no flag, hidden, count 0.
pub open spec fn fresh_cells(cells: Seq<Cell>, width: int, height: int) -> bool {
    &&& cells_placed(cells, width, height)
    &&& forall|i: int|
        0 <= i < cells.len() ==> {
            &&& !(#[trigger] cells[i]).is_mine
            &&& !cells[i].is_revealed
            &&& !cells[i].is_flagged
            &&& cells[i].adjacent_mines == 0
        }
}

/// `c` with its mine status set to `mine`.
pub open spec fn with_mine(c: Cell, mine: bool) -> Cell {
    Cell { is_mine: mine, ..c }
}

/// `c` with its neighbour count set to `n`.
pub open spec fn with_count(c: Cell, n: int) -> Cell {
    Cell { adjacent_mines: n as i8, ..c }
}

/// No cell is revealed or flagged.
pub open spec fn all_hidden(cells: Seq<Cell>) -> bool {
    forall|i: int| 0 <= i < cells.len() ==> !(#[trigger] cells[i]).is_revealed && !cells[i].is_flagged
}

/// One step of cursor movement.
#[derive(Clone, Copy, Debug, PartialEq, Eq, Structural)]
pub enum Direction {
    Up,
    Down,
    Left,
    Right,
}

/// Cursor position after moving one step in `dir`, clamped to the grid.
pub open spec fn cursor_after(row: nat, col: nat, width: nat, height: nat, dir: Direction) -> (nat, nat) {
    match dir {
        Direction::Up => (if row > 0 { (row - 1) as nat } else { row }, col),
        Direction::Down => (if row + 1 < height { row + 1 } else { row }, col),
        Direction::Left => (row, if col > 0 { (col - 1) as nat } else { col }),
        Direction::Right => (row, if col + 1 < width { col + 1 } else { col }),
    }
}

/// `c` once revealed: shown and no longer flagged.
pub open spec fn revealed_form(c: Cell) -> Cell {
    Cell { is_revealed: true, is_flagged: false, ..c }
}

/// `c` with its flag flipped.
pub open spec fn flag_flipped(c: Cell) -> Cell {
    Cell { is_flagged: !c.is_flagged, ..c }
}

/// Cell `i` was hidden in `before` and is shown in `after`.
pub open spec fn newly_revealed(before: Seq<Cell>, after: Seq<Cell>, i: int) -> bool {
    after[i].is_revealed && !before[i].is_revealed
}

/// Every cell without a mine is revealed.
pub open spec fn all_safe_revealed(cells: Seq<Cell>) -> bool {
    forall|i: int| 0 <= i < cells.len() && !(#[trigger] cells[i]).is_mine ==> cells[i].is_revealed
}

/// Index of the `k`-th cell (from 0) of `cells` without a mine is `j`.
pub open spec fn is_nth_safe(cells: Seq<Cell>, k: int, j: int) -> bool {
    0 <= j < cells.len() && !cells[j].is_mine && count_safe(cells.take(j)) == k
}

/// The abstract state of a board.
pub struct BoardModel {
    pub width: nat,
    pub height: nat,
    pub mines: nat,
    pub cells: Seq<Cell>,
    pub selected_row: nat,
    pub selected_col: nat,
}

impl BoardModel {
    pub open spec fn index_of(self, row: int, col: int) -> int {
        row * self.width + col
    }

    /// Row-major index of the cell under the cursor.
    pub open spec fn selected_index(self) -> int {
        self.index_of(self.selected_row as int, self.selected_col as int)
    }

    pub open spec fn adjacent(self, i: int) -> int {
        adjacent_count(
            mine_layout(self.cells),
            self.width as int,
            self.height as int,
            self.cells[i].row as int,
            self.cells[i].col as int,
        )
    }

    /// Neighbour `d` of cell `i`.
    pub open spec fn neighbor_of(self, i: int, d: int) -> Option<int> {
        neighbor(self.width as int, self.height as int, self.cells[i].row as int, self.cells[i].col as int, d)
    }

    /// Cell `i` neighbours a cell that `cells` newly shows, that has no
    /// adjacent mines, and that comes before `i` in `rank`.
    #[verifier::opaque]
    pub open spec fn reached_from_zero(self, cells: Seq<Cell>, rank: Map<int, nat>, i: int) -> bool {
        exists|p: int, d: int|
            0 <= p < self.cells.len() && 0 <= d < 8 && newly_revealed(self.cells, cells, p)
                && self.cells[p].adjacent_mines == 0 && #[trigger] self.neighbor_of(p, d) == Some(i)
                && rank.contains_key(p) && rank.contains_key(i) && rank[p] < rank[i]
    }

    /// Every cell other than `start` that `cells` newly shows is reached from
    /// an earlier one in `rank`.
    pub open spec fn all_reached(self, cells: Seq<Cell>, start: int, rank: Map<int, nat>) -> bool {
        forall|i: int|
            0 <= i < self.cells.len() && i != start && #[trigger] newly_revealed(self.cells, cells, i)
                ==> self.reached_from_zero(cells, rank, i)
    }

    /// What revealing cell `start` does: `start` is shown; every other cell
    /// that becomes shown is free of mines and neighbours a newly shown cell
    /// with no adjacent mines that was shown before it, so that each is
    /// reached from `start`; every neighbour of such a cell is shown or a
    /// mine; nothing else changes.
    pub open spec fn flood_result(self, after: BoardModel, start: int) -> bool {
        &&& after == (BoardModel { cells: after.cells, ..self })
        &&& after.cells.len() == self.cells.len()
        &&& after.cells[start].is_revealed
        &&& forall|i: int|
            0 <= i < self.cells.len() ==> #[trigger] after.cells[i] == if newly_revealed(self.cells, after.cells, i) {
                revealed_form(self.cells[i])
            } else {
                self.cells[i]
            }
        &&& forall|i: int|
            0 <= i < self.cells.len() && #[trigger] newly_revealed(self.cells, after.cells, i) ==> !self.cells[i].is_mine
        &&& exists|rank: Map<int, nat>| #[trigger] self.all_reached(after.cells, start, rank)
        &&& forall|p: int, d: int|
            0 <= p < self.cells.len() && 0 <= d < 8 && newly_revealed(self.cells, after.cells, p)
                && self.cells[p].adjacent_mines == 0 && #[trigger] self.neighbor_of(p, d) is Some ==> {
                let j = self.neighbor_of(p, d)->Some_0;
                after.cells[j].is_revealed || after.cells[j].is_mine
            }
    }

    /// `after` is this board with the mine at `at` moved to a cell that had
    /// none, counts recomputed, and nothing else changed.
    pub open spec fn relocated(self, after: BoardModel, at: int) -> bool {
        &&& after.wf()
        &&& after == (BoardModel { cells: after.cells, ..self })
        &&& after.cells.len() == self.cells.len()
        &&& exists|j: int|
            0 <= j < self.cells.len() && !self.cells[j].is_mine && #[trigger] mine_layout(after.cells) == mine_layout(
                self.cells,
            ).update(j, true).update(at, false)
        &&& forall|i: int|
            0 <= i < self.cells.len() ==> {
                &&& (#[trigger] after.cells[i]).is_revealed == self.cells[i].is_revealed
                &&& after.cells[i].is_flagged == self.cells[i].is_flagged
            }
    }

    /// The board invariant.
    pub open spec fn wf(self) -> bool {
        &&& cells_placed(self.cells, self.width as int, self.height as int)
        &&& self.mines == count_mines(self.cells)
        &&& self.mines < self.cells.len()
        &&& adjacency_correct(self.cells, self.width as int, self.height as int)
        &&& flags_on_hidden(self.cells)
        &&& self.selected_row < self.height
        &&& self.selected_col < self.width
    }
}

/// The full grid plus the cursor.
pub struct Board {
    width: usize,
    height: usize,
    mines: usize,
    cells: Vec<Cell>,
    selected_row: usize,
    selected_col: usize,
}

impl View for Board {
    type V = BoardModel;

    closed spec fn view(&self) -> BoardModel {
        BoardModel {
            width: self.width as nat,
            height: self.height as nat,
            mines: self.mines as nat,
            cells: self.cells@,
            selected_row: self.selected_row as nat,
            selected_col: self.selected_col as nat,
        }
    }
}

/// Index of the cell at (`row`, `col`), if it is on the board.
fn cell_from_pos(row: usize, col: usize, board: &Board) -> (r: Option<usize>)
    requires
        cells_placed(board@.cells, board@.width as int, board@.height as int),
    ensures
        opt_int(r) == (if in_bounds(board@.width as int, board@.height as int, row as int, col as int) {
            Some(row * board@.width + col)
        } else {
            None::<int>
        }),
{
    if row < board.height && col < board.width {
        // The vector length bounds every cell index by usize::MAX.
        let _cell_count = board.cells.len();
        proof {
            lemma_index_in_grid(board.width as int, board.height as int, row as int, col as int);
        }
        Some(row * board.width + col)
    } else {
        None
    }
}

/// Index of the cell `delta_row` rows and `delta_col` columns away from (`row`, `col`).
fn relative_cell_index(delta_row: i8, delta_col: i8, row: usize, col: usize, board: &Board) -> (r: Option<usize>)
    requires
        cells_placed(board@.cells, board@.width as int, board@.height as int),
        row < board@.height,
        col < board@.width,
        -1 <= delta_row <= 1,
        -1 <= delta_col <= 1,
    ensures
        opt_int(r) == (if in_bounds(
            board@.width as int,
            board@.height as int,
            row + delta_row,
            col + delta_col,
        ) {
            Some((row + delta_row) * board@.width + col + delta_col)
        } else {
            None::<int>
        }),
{
    if (delta_row < 0 && row == 0) || (delta_col < 0 && col == 0) {
        return None;
    }
    let r: usize = if delta_row < 0 { row - 1 } else { row + delta_row as usize };
    let c: usize = if delta_col < 0 { col - 1 } else { col + delta_col as usize };
    cell_from_pos(r, c, board)
}

/// Indices of the eight neighbours of (`row`, `col`) in the order NW, N, NE,
/// W, E, SW, S, SE; `None` for each one that falls off the board.
pub fn neighbor_indices(board: &Board, row: usize, col: usize) -> (r: [Option<usize>; 8])
    requires
        cells_placed(board@.cells, board@.width as int, board@.height as int),
        row < board@.height,
        col < board@.width,
    ensures
        forall|d: int|
            0 <= d < 8 ==> opt_int(#[trigger] r@[d]) == neighbor(
                board@.width as int,
                board@.height as int,
                row as int,
                col as int,
                d,
            ),
{
    let r = [
        relative_cell_index(-1, -1, row, col, board),
        relative_cell_index(-1, 0, row, col, board),
        relative_cell_index(-1, 1, row, col, board),
        relative_cell_index(0, -1, row, col, board),
        relative_cell_index(0, 1, row, col, board),
        relative_cell_index(1, -1, row, col, board),
        relative_cell_index(1, 0, row, col, board),
        relative_cell_index(1, 1, row, col, board),
    ];
    proof {
        let (w, h) = (board@.width as int, board@.height as int);
        // One case per direction.
        assert forall|d: int| 0 <= d < 8 implies opt_int(#[trigger] r@[d]) == neighbor(w, h, row as int, col as int, d) by {
            if d == 0 {
            } else if d == 1 {
            } else if d == 2 {
            } else if d == 3 {
            } else if d == 4 {
            } else if d == 5 {
            } else if d == 6 {
            } else {
            }
        }
    }
    r
}

/// Number of mines among the in-bounds neighbours of `cell`.
pub fn adjacent_mines(board: &Board, cell: &Cell) -> (r: i8)
    requires
        cells_placed(board@.cells, board@.width as int, board@.height as int),
        cell.row < board@.height,
        cell.col < board@.width,
    ensures
        r == adjacent_count(
            mine_layout(board@.cells),
            board@.width as int,
            board@.height as int,
            cell.row as int,
            cell.col as int,
        ),
        0 <= r <= 8,
{
    let to_check = neighbor_indices(board, cell.row, cell.col);
    let ghost (w, h) = (board@.width as int, board@.height as int);
    let ghost mines = mine_layout(board@.cells);
    let mut count: i8 = 0;
    let mut d: usize = 0;
    while d < 8
        invariant
            d <= 8,
            cells_placed(board@.cells, w, h),
            w == board@.width,
            h == board@.height,
            mines == mine_layout(board@.cells),
            forall|e: int|
                0 <= e < 8 ==> opt_int(#[trigger] to_check@[e]) == neighbor(w, h, cell.row as int, cell.col as int, e),
            count == mines_in_dirs(mines, w, h, cell.row as int, cell.col as int, d as int),
        decreases 8 - d,
    {
        proof {
            lemma_mines_in_dirs_bounds(mines, w, h, cell.row as int, cell.col as int, d as int);
            assert(opt_int(to_check@[d as int]) == neighbor(w, h, cell.row as int, cell.col as int, d as int));
        }
        match to_check[d] {
            Some(i) => {
                proof {
                    let nr = cell.row + dir_row(d as int);
                    let nc = cell.col + dir_col(d as int);
                    lemma_index_in_grid(w, h, nr, nc);
                }
                if board.cells[i].is_mine {
                    count = count + 1;
                }
            },
            None => {},
        }
        d = d + 1;
    }
    proof {
        lemma_mines_in_dirs_bounds(mines, w, h, cell.row as int, cell.col as int, 8);
    }
    count
}

/// The cells of a `width` x `height` grid in row-major order, all fresh.
pub fn generate_cells(width: usize, height: usize) -> (r: Result<Vec<Cell>, ConfigError>)
    ensures
        r is Err <==> (width == 0 || height == 0 || width * height > usize::MAX),
        r is Err ==> r == Err::<Vec<Cell>, ConfigError>(ConfigError::InvalidDimension),
        r matches Ok(cells) ==> fresh_cells(cells@, width as int, height as int),
{
    if width == 0 || height == 0 {
        return Err(ConfigError::InvalidDimension);
    }
    if width.checked_mul(height).is_none() {
        return Err(ConfigError::InvalidDimension);
    }
    let mut cells: Vec<Cell> = Vec::new();
    let mut row: usize = 0;
    while row < height
        invariant
            0 < width,
            row <= height,
            width * height <= usize::MAX,
            cells@.len() == row * width,
            forall|i: int|
                0 <= i < cells@.len() ==> {
                    &&& #[trigger] cells@[i].row < height
                    &&& cells@[i].col < width
                    &&& cells@[i].row * width + cells@[i].col == i
                    &&& !cells@[i].is_mine
                    &&& !cells@[i].is_revealed
                    &&& !cells@[i].is_flagged
                    &&& cells@[i].adjacent_mines == 0
                },
        decreases height - row,
    {
        let mut col: usize = 0;
        while col < width
            invariant
                0 < width,
                row < height,
                col <= width,
                cells@.len() == row * width + col,
                forall|i: int|
                    0 <= i < cells@.len() ==> {
                        &&& #[trigger] cells@[i].row < height
                        &&& cells@[i].col < width
                        &&& cells@[i].row * width + cells@[i].col == i
                        &&& !cells@[i].is_mine
                        &&& !cells@[i].is_revealed
                        &&& !cells@[i].is_flagged
                        &&& cells@[i].adjacent_mines == 0
                    },
            decreases width - col,
        {
            let ghost before = cells@;
            cells.push(Cell::new(row, col));
            proof {
                assert forall|i: int| 0 <= i < cells@.len() implies {
                    &&& #[trigger] cells@[i].row < height
                    &&& cells@[i].col < width
                    &&& cells@[i].row * width + cells@[i].col == i
                    &&& !cells@[i].is_mine
                    &&& !cells@[i].is_revealed
                    &&& !cells@[i].is_flagged
                    &&& cells@[i].adjacent_mines == 0
                } by {
                    if i < before.len() {
                        assert(cells@[i] == before[i]);
                    }
                }
            }
            col = col + 1;
        }
        proof {
            vstd::arithmetic::mul::lemma_mul_is_distributive_add_other_way(width as int, row as int, 1);
        }
        row = row + 1;
    }
    proof {
        vstd::arithmetic::mul::lemma_mul_is_commutative(width as int, height as int);
        assert forall|i: int| 0 <= i < cells@.len() implies {
            &&& !(#[trigger] cells@[i]).is_mine
            &&& !cells@[i].is_revealed
            &&& !cells@[i].is_flagged
            &&& cells@[i].adjacent_mines == 0
        } by {
            assert(cells@[i].row < height);
        }
    }
    Ok(cells)
}

/// Index of the `k`-th cell (counting from 0) that holds no mine.
pub fn nth_free_cell(cells: &Vec<Cell>, k: usize) -> (r: usize)
    requires
        k < count_safe(cells@),
    ensures
        r < cells@.len(),
        !cells@[r as int].is_mine,
        count_safe(cells@.take(r as int)) == k,
{
    let ghost safe = |c: Cell| is_safe_cell(c);
    proof {
        lemma_count_bounded(cells@, safe);
        assert(cells@.take(0) =~= Seq::<Cell>::empty());
    }
    let n = cells.len();
    let mut i: usize = 0;
    let mut seen: usize = 0;
    loop
        invariant
            i < cells@.len(),
            n == cells@.len(),
            seen <= k,
            k < count_where(cells@, safe),
            seen == count_where(cells@.take(i as int), safe),
            safe == (|c: Cell| is_safe_cell(c)),
        decreases cells@.len() - i,
    {
        proof {
            lemma_count_take(cells@, safe, i as int);
        }
        if !cells[i].is_mine {
            if seen == k {
                return i;
            }
            seen = seen + 1;
        }
        proof {
            if i + 1 == cells@.len() {
                assert(cells@.take(i + 1) =~= cells@);
            }
            assert(i + 1 < cells@.len());
        }
        i = i + 1;
    }
}

/// Marks `mines` distinct cells as mines, each drawn uniformly among the cells
/// still free; fails when that would leave no cell free.
pub fn place_mines(cells: &mut Vec<Cell>, mines: usize) -> (r: Result<(), ConfigError>)
    requires
        count_mines(old(cells)@) == 0,
    ensures
        r is Err <==> mines >= old(cells)@.len(),
        r is Err ==> r == Err::<(), ConfigError>(ConfigError::TooManyMines) && final(cells)@ == old(cells)@,
        r is Ok ==> count_mines(final(cells)@) == mines,
        final(cells)@.len() == old(cells)@.len(),
        forall|i: int|
            0 <= i < old(cells)@.len() ==> #[trigger] final(cells)@[i] == with_mine(old(cells)@[i], final(cells)@[i].is_mine),
{
    if mines >= cells.len() {
        return Err(ConfigError::TooManyMines);
    }
    let ghost start = cells@;
    let mut placed: usize = 0;
    while placed < mines
        invariant
            placed <= mines,
            mines < cells@.len(),
            cells@.len() == start.len(),
            count_mines(cells@) == placed,
            forall|i: int| 0 <= i < start.len() ==> #[trigger] cells@[i] == with_mine(start[i], cells@[i].is_mine),
        decreases mines - placed,
    {
        proof {
            lemma_mines_and_safe(cells@);
        }
        let k = random_below(cells.len() - placed);
        let j = nth_free_cell(cells, k);
        let mut c = cells[j];
        c.is_mine = true;
        proof {
            lemma_count_update(cells@, |c: Cell| is_mine_cell(c), j as int, c);
        }
        cells.set(j, c);
        placed = placed + 1;
    }
    Ok(())
}

impl Board {
    /// Sets every cell's count to the number of mines among its neighbours.
    fn recompute_all_adjacency(&mut self)
        requires
            cells_placed(old(self)@.cells, old(self)@.width as int, old(self)@.height as int),
        ensures
            final(self)@ == (BoardModel { cells: final(self)@.cells, ..old(self)@ }),
            final(self)@.cells.len() == old(self)@.cells.len(),
            forall|i: int|
                0 <= i < old(self)@.cells.len() ==> #[trigger] final(self)@.cells[i] == with_count(
                    old(self)@.cells[i],
                    old(self)@.adjacent(i),
                ),
            mine_layout(final(self)@.cells) == mine_layout(old(self)@.cells),
            cells_placed(final(self)@.cells, final(self)@.width as int, final(self)@.height as int),
            adjacency_correct(final(self)@.cells, final(self)@.width as int, final(self)@.height as int),
    {
        let ghost start = self@;
        let mut i: usize = 0;
        while i < self.cells.len()
            invariant
                self@ == (BoardModel { cells: self@.cells, ..start }),
                self@.cells.len() == start.cells.len(),
                cells_placed(start.cells, start.width as int, start.height as int),
                mine_layout(self@.cells) == mine_layout(start.cells),
                forall|k: int|
                    0 <= k < self@.cells.len() ==> #[trigger] self@.cells[k] == if k < i {
                        with_count(start.cells[k], start.adjacent(k))
                    } else {
                        start.cells[k]
                    },
            decreases self@.cells.len() - i,
        {
            proof {
                assert forall|k: int| 0 <= k < self@.cells.len() implies {
                    &&& #[trigger] self@.cells[k].row < self@.height
                    &&& self@.cells[k].col < self@.width
                    &&& self@.cells[k].row * self@.width + self@.cells[k].col == k
                } by {
                    assert(start.cells[k].row < start.height);
                }
            }
            let mut c = self.cells[i];
            let n = adjacent_mines(self, &c);
            c.adjacent_mines = n;
            self.cells.set(i, c);
            proof {
                assert(mine_layout(self@.cells) =~= mine_layout(start.cells));
            }
            i = i + 1;
        }
        proof {
            assert(mine_layout(self@.cells) =~= mine_layout(start.cells));
            assert forall|k: int| 0 <= k < self@.cells.len() implies {
                &&& #[trigger] self@.cells[k].row < self@.height
                &&& self@.cells[k].col < self@.width
                &&& self@.cells[k].row * self@.width + self@.cells[k].col == k
            } by {
                assert(start.cells[k].row < start.height);
            }
            assert forall|k: int| 0 <= k < self@.cells.len() implies #[trigger] self@.cells[k].adjacent_mines
                == adjacent_count(
                mine_layout(self@.cells),
                self@.width as int,
                self@.height as int,
                self@.cells[k].row as int,
                self@.cells[k].col as int,
            ) by {
                assert(start.cells[k].row < start.height);
                lemma_mines_in_dirs_bounds(
                    mine_layout(start.cells),
                    start.width as int,
                    start.height as int,
                    start.cells[k].row as int,
                    start.cells[k].col as int,
                    8,
                );
            }
        }
    }

    /// A `width` x `height` board with `mines` mines placed uniformly at random,
    /// every cell hidden and the cursor at the top-left corner.
    pub fn new(width: usize, height: usize, mines: usize) -> (r: Result<Board, ConfigError>)
        ensures
            r == Err::<Board, ConfigError>(ConfigError::InvalidDimension) <==> (width == 0 || height == 0
                || width * height > usize::MAX),
            r == Err::<Board, ConfigError>(ConfigError::TooManyMines) <==> (width > 0 && height > 0 && width
                * height <= usize::MAX && mines >= width * height),
            r is Ok <==> (width > 0 && height > 0 && width * height <= usize::MAX && mines < width * height),
            r matches Ok(b) ==> {
                &&& b@.wf()
                &&& b@.width == width
                &&& b@.height == height
                &&& b@.mines == mines
                &&& b@.selected_row == 0
                &&& b@.selected_col == 0
                &&& all_hidden(b@.cells)
            },
    {
        let mut cells = match generate_cells(width, height) {
            Ok(cells) => cells,
            Err(e) => {
                return Err(e);
            },
        };
        proof {
            lemma_count_zero(cells@, |c: Cell| is_mine_cell(c));
        }
        match place_mines(&mut cells, mines) {
            Ok(()) => {},
            Err(e) => {
                return Err(e);
            },
        }
        let mut board = Board { width, height, mines, cells, selected_row: 0, selected_col: 0 };
        let ghost before = board@.cells;
        board.recompute_all_adjacency();
        proof {
            lemma_count_same_on(before, board@.cells, |c: Cell| is_mine_cell(c));
            assert(all_hidden(board@.cells));
        }
        Ok(board)
    }

    /// A `width` x `height` board whose mines are where `layout` (row-major)
    /// holds `true`, every cell hidden and the cursor at the top-left corner.
    pub fn with_mines(width: usize, height: usize, layout: &Vec<bool>) -> (r: Result<Board, ConfigError>)
        ensures
            r == Err::<Board, ConfigError>(ConfigError::InvalidDimension) <==> (width == 0 || height == 0
                || width * height > usize::MAX || layout@.len() != width * height),
            r == Err::<Board, ConfigError>(ConfigError::TooManyMines) <==> (width > 0 && height > 0
                && layout@.len() == width * height && forall|i: int| 0 <= i < layout@.len() ==> #[trigger] layout@[i]),
            r is Ok <==> (width > 0 && height > 0 && layout@.len() == width * height && exists|i: int|
                0 <= i < layout@.len() && !#[trigger] layout@[i]),
            r matches Ok(b) ==> {
                &&& b@.wf()
                &&& b@.width == width
                &&& b@.height == height
                &&& mine_layout(b@.cells) == layout@
                &&& b@.selected_row == 0
                &&& b@.selected_col == 0
                &&& all_hidden(b@.cells)
            },
    {
        // The layout length is at most usize::MAX.
        let _layout_len = layout.len();
        let mut cells = match generate_cells(width, height) {
            Ok(cells) => cells,
            Err(e) => {
                return Err(e);
            },
        };
        if layout.len() != cells.len() {
            return Err(ConfigError::InvalidDimension);
        }
        let ghost start = cells@;
        proof {
            lemma_count_zero(cells@, |c: Cell| is_mine_cell(c));
        }
        let mut mines: usize = 0;
        let mut i: usize = 0;
        while i < cells.len()
            invariant
                cells@.len() == start.len(),
                layout@.len() == start.len(),
                i <= start.len(),
                mines == count_mines(cells@),
                forall|k: int|
                    0 <= k < start.len() ==> #[trigger] cells@[k] == with_mine(
                        start[k],
                        if k < i {
                            layout@[k]
                        } else {
                            false
                        },
                    ),
            decreases start.len() - i,
        {
            if layout[i] {
                let mut c = cells[i];
                c.is_mine = true;
                proof {
                    lemma_count_update(cells@, |c: Cell| is_mine_cell(c), i as int, c);
                    lemma_count_bounded(cells@.update(i as int, c), |c: Cell| is_mine_cell(c));
                }
                cells.set(i, c);
                mines = mines + 1;
            }
            i = i + 1;
        }
        proof {
            lemma_mines_and_safe(cells@);
            lemma_count_zero(cells@, |c: Cell| is_safe_cell(c));
            assert(mine_layout(cells@) =~= layout@);
        }
        if mines == cells.len() {
            return Err(ConfigError::TooManyMines);
        }
        let mut board = Board { width, height, mines, cells, selected_row: 0, selected_col: 0 };
        let ghost before = board@.cells;
        board.recompute_all_adjacency();
        proof {
            lemma_count_same_on(before, board@.cells, |c: Cell| is_mine_cell(c));
            assert(all_hidden(board@.cells));
        }
        Ok(board)
    }
}

impl Board {
    pub fn width(&self) -> (r: usize)
        ensures
            r == self@.width,
    {
        self.width
    }

    pub fn height(&self) -> (r: usize)
        ensures
            r == self@.height,
    {
        self.height
    }

    /// Number of cells on the board.
    pub fn cells_len(&self) -> (r: usize)
        ensures
            r == self@.cells.len(),
    {
        self.cells.len()
    }

    /// Number of mines on the board.
    pub fn mine_count(&self) -> (r: usize)
        ensures
            r == self@.mines,
    {
        self.mines
    }

    pub fn selected_row(&self) -> (r: usize)
        ensures
            r == self@.selected_row,
    {
        self.selected_row
    }

    pub fn selected_col(&self) -> (r: usize)
        ensures
            r == self@.selected_col,
    {
        self.selected_col
    }

    /// The cell at (`row`, `col`).
    pub fn cell_at(&self, row: usize, col: usize) -> (r: Cell)
        requires
            self@.wf(),
            row < self@.height,
            col < self@.width,
        ensures
            r == self@.cells[self@.index_of(row as int, col as int)],
    {
        // The vector length bounds every cell index by usize::MAX.
        let _cell_count = self.cells.len();
        proof {
            lemma_index_in_grid(self.width as int, self.height as int, row as int, col as int);
        }
        self.cells[row * self.width + col]
    }

    /// Index of the cell under the cursor.
    pub fn selected_index(&self) -> (r: usize)
        requires
            self@.wf(),
        ensures
            r == self@.selected_index(),
            r < self@.cells.len(),
    {
        // The vector length bounds every cell index by usize::MAX.
        let _cell_count = self.cells.len();
        proof {
            lemma_index_in_grid(
                self.width as int,
                self.height as int,
                self.selected_row as int,
                self.selected_col as int,
            );
        }
        self.selected_row * self.width + self.selected_col
    }

    /// Moves the cursor one step; a step off the grid leaves it where it is.
    pub fn move_cursor(&mut self, direction: Direction)
        requires
            old(self)@.wf(),
        ensures
            final(self)@.wf(),
            (final(self)@.selected_row, final(self)@.selected_col) == cursor_after(
                old(self)@.selected_row,
                old(self)@.selected_col,
                old(self)@.width,
                old(self)@.height,
                direction,
            ),
            final(self)@ == (BoardModel {
                selected_row: final(self)@.selected_row,
                selected_col: final(self)@.selected_col,
                ..old(self)@
            }),
    {
        match direction {
            Direction::Up => {
                if self.selected_row > 0 {
                    self.selected_row = self.selected_row - 1;
                }
            },
            Direction::Down => {
                if self.selected_row + 1 < self.height {
                    self.selected_row = self.selected_row + 1;
                }
            },
            Direction::Left => {
                if self.selected_col > 0 {
                    self.selected_col = self.selected_col - 1;
                }
            },
            Direction::Right => {
                if self.selected_col + 1 < self.width {
                    self.selected_col = self.selected_col + 1;
                }
            },
        }
    }

    /// Flips the flag of the cell under the cursor, unless it is revealed.
    pub fn toggle_flag(&mut self)
        requires
            old(self)@.wf(),
        ensures
            final(self)@.wf(),
            final(self)@ == (BoardModel { cells: final(self)@.cells, ..old(self)@ }),
            final(self)@.cells == if old(self)@.cells[old(self)@.selected_index()].is_revealed {
                old(self)@.cells
            } else {
                old(self)@.cells.update(
                    old(self)@.selected_index(),
                    flag_flipped(old(self)@.cells[old(self)@.selected_index()]),
                )
            },
    {
        let i = self.selected_index();
        let mut c = self.cells[i];
        if !c.is_revealed {
            c.is_flagged = !c.is_flagged;
            proof {
                lemma_count_update(self@.cells, |c: Cell| is_mine_cell(c), i as int, c);
                assert(mine_layout(self@.cells.update(i as int, c)) =~= mine_layout(self@.cells));
            }
            self.cells.set(i, c);
        }
    }

    /// Whether every cell without a mine is revealed.
    pub fn all_safe_revealed(&self) -> (r: bool)
        ensures
            r == all_safe_revealed(self@.cells),
    {
        let mut i: usize = 0;
        while i < self.cells.len()
            invariant
                i <= self@.cells.len(),
                forall|k: int| 0 <= k < i && !(#[trigger] self@.cells[k]).is_mine ==> self@.cells[k].is_revealed,
            decreases self@.cells.len() - i,
        {
            if !self.cells[i].is_mine && !self.cells[i].is_revealed {
                return false;
            }
            i = i + 1;
        }
        true
    }

    /// Moves the mine at `at` to the `k`-th cell (from 0) without a mine and
    /// recounts every cell's neighbouring mines.
    pub fn relocate_mine(&mut self, at: usize, k: usize)
        requires
            old(self)@.wf(),
            at < old(self)@.cells.len(),
            old(self)@.cells[at as int].is_mine,
            k < count_safe(old(self)@.cells),
        ensures
            old(self)@.relocated(final(self)@, at as int),
            exists|j: int|
                #[trigger] is_nth_safe(old(self)@.cells, k as int, j) && mine_layout(final(self)@.cells)
                    == mine_layout(old(self)@.cells).update(j, true).update(at as int, false),
            forall|i: int|
                0 <= i < old(self)@.cells.len() ==> {
                    &&& (#[trigger] final(self)@.cells[i]).is_revealed == old(self)@.cells[i].is_revealed
                    &&& final(self)@.cells[i].is_flagged == old(self)@.cells[i].is_flagged
                },
    {
        let ghost start = self@;
        let j = nth_free_cell(&self.cells, k);
        let mut c = self.cells[j];
        c.is_mine = true;
        proof {
            lemma_count_update(self@.cells, |c: Cell| is_mine_cell(c), j as int, c);
        }
        self.cells.set(j, c);
        let mut m = self.cells[at];
        m.is_mine = false;
        proof {
            lemma_count_update(self@.cells, |c: Cell| is_mine_cell(c), at as int, m);
        }
        self.cells.set(at, m);
        proof {
            assert(mine_layout(self@.cells) =~= mine_layout(start.cells).update(j as int, true).update(at as int, false));
            assert forall|i: int| 0 <= i < self@.cells.len() implies {
                &&& #[trigger] self@.cells[i].row < self@.height
                &&& self@.cells[i].col < self@.width
                &&& self@.cells[i].row * self@.width + self@.cells[i].col == i
            } by {
                assert(start.cells[i].row < start.height);
            }
        }
        let ghost before = self@.cells;
        self.recompute_all_adjacency();
        proof {
            lemma_count_same_on(before, self@.cells, |c: Cell| is_mine_cell(c));
            assert(is_nth_safe(start.cells, k as int, j as int));
            assert(mine_layout(self@.cells) == mine_layout(start.cells).update(j as int, true).update(at as int, false));
            assert forall|i: int| 0 <= i < self@.cells.len() && #[trigger] self@.cells[i].is_flagged implies !self@.cells[i].is_revealed by {
                assert(start.cells[i].is_flagged);
            }
        }
    }
}

impl Board {
    /// Reveals cell `start`. When it has no neighbouring mines, goes on
    /// through its neighbours, and theirs, with an explicit work stack: each
    /// hidden cell without a mine that is met is revealed (and loses its flag),
    /// and those with no neighbouring mines are pushed in turn. A cell enters
    /// the stack only when it is revealed, so none is visited twice.
    pub fn flood_reveal(&mut self, start: usize)
        requires
            old(self)@.wf(),
            start < old(self)@.cells.len(),
            !old(self)@.cells[start as int].is_mine,
        ensures
            final(self)@.wf(),
            old(self)@.flood_result(final(self)@, start as int),
    {
        let ghost before = self@;
        let len = self.cells.len();
        if self.cells[start].is_revealed {
            proof {
                assert(before.all_reached(before.cells, start as int, Map::empty()));
            }
            return;
        }
        let mut c = self.cells[start];
        c.is_revealed = true;
        c.is_flagged = false;
        self.cells.set(start, c);
        let mut stack: Vec<usize> = Vec::new();
        if c.adjacent_mines == 0 {
            stack.push(start);
        }
        proof {
            assert(stack@ =~= if before.cells[start as int].adjacent_mines == 0 {
                seq![start]
            } else {
                Seq::<usize>::empty()
            });
            lemma_flood_start(before, start, self@.cells, stack@);
        }
        // Ghost record of the order in which cells are revealed.
        let ghost mut rank: Map<int, nat> = map![start as int => 0nat];
        let ghost mut next: nat = 1;
        while stack.len() > 0
            invariant
                before.wf(),
                before.cells.len() == len,
                self@ == (BoardModel { cells: self@.cells, ..before }),
                flood_inv(before, self@.cells, start as int, rank, next),
                stack_ok(before, self@.cells, stack@),
                closed_except(before, self@.cells, stack@, -1),
            decreases count_hidden(self@.cells), stack@.len(),
        {
            let ghost h0 = count_hidden(self@.cells);
            let ghost s0 = stack@.len();
            proof {
                lemma_flood_pop(before, self@.cells, start as int, rank, next, stack@);
            }
            let p = stack.pop().unwrap();
            let cp = self.cells[p];
            let nbrs = neighbor_indices(self, cp.row, cp.col);
            let mut d: usize = 0;
            while d < 8
                invariant
                    before.wf(),
                    before.cells.len() == len,
                    self@ == (BoardModel { cells: self@.cells, ..before }),
                    p < before.cells.len(),
                    d <= 8,
                    newly_revealed(before.cells, self@.cells, p as int),
                    before.cells[p as int].adjacent_mines == 0,
                    forall|e: int| 0 <= e < 8 ==> opt_int(#[trigger] nbrs@[e]) == before.neighbor_of(p as int, e),
                    flood_inv(before, self@.cells, start as int, rank, next),
                    stack_ok(before, self@.cells, stack@),
                    closed_except(before, self@.cells, stack@, p as int),
                    partly_closed(before, self@.cells, p as int, d as int),
                    count_hidden(self@.cells) <= h0,
                    count_hidden(self@.cells) < h0 || stack@.len() < s0,
                decreases 8 - d,
            {
                proof {
                    assert(opt_int(nbrs@[d as int]) == before.neighbor_of(p as int, d as int));
                    lemma_neighbor_in_grid(
                        before.width as int,
                        before.height as int,
                        before.cells[p as int].row as int,
                        before.cells[p as int].col as int,
                        d as int,
                    );
                    reveal(flood_inv);
                }
                match nbrs[d] {
                    Some(j) => {
                        let mut cj = self.cells[j];
                        if !cj.is_revealed && !cj.is_mine {
                            proof {
                                reveal(flood_inv);
                                lemma_flood_reveal_one(
                                    before,
                                    self@.cells,
                                    start as int,
                                    rank,
                                    next,
                                    stack@,
                                    p as int,
                                    d as int,
                                    j,
                                );
                                rank = rank.insert(j as int, next);
                                next = next + 1;
                            }
                            cj.is_revealed = true;
                            cj.is_flagged = false;
                            proof {
                                lemma_count_update(self@.cells, |c: Cell| is_hidden_cell(c), j as int, cj);
                            }
                            self.cells.set(j, cj);
                            if cj.adjacent_mines == 0 {
                                stack.push(j);
                            }
                        } else {
                            proof {
                                lemma_flood_settled(before, self@.cells, p as int, d as int);
                            }
                        }
                    },
                    None => {
                        proof {
                            lemma_flood_settled(before, self@.cells, p as int, d as int);
                        }
                    },
                }
                d = d + 1;
            }
            proof {
                lemma_flood_close(before, self@.cells, stack@, p as int);
            }
        }
        proof {
            assert(stack@ =~= Seq::<usize>::empty());
            lemma_flood_done(before, self@, start as int, rank, next);
        }
    }
}

} // verus!
