use vstd::prelude::*;

verus! {

/// Row offset of compass direction `d`, in the order NW, N, NE, W, E, SW, S, SE.
pub open spec fn dir_row(d: int) -> int {
    if d < 3 {
        -1
    } else if d < 5 {
        0
    } else {
        1
    }
}

/// Column offset of compass direction `d`, in the order NW, N, NE, W, E, SW, S, SE.
pub open spec fn dir_col(d: int) -> int {
    if d == 0 || d == 3 || d == 5 {
        -1
    } else if d == 1 || d == 6 {
        0
    } else {
        1
    }
}

pub open spec fn in_bounds(width: int, height: int, row: int, col: int) -> bool {
    0 <= row < height && 0 <= col < width
}

/// Row-major index of the neighbour of (`row`, `col`) in direction `d`, if it is on the grid.
pub open spec fn neighbor(width: int, height: int, row: int, col: int, d: int) -> Option<int> {
    let r = row + dir_row(d);
    let c = col + dir_col(d);
    if in_bounds(width, height, r, c) {
        Some(r * width + c)
    } else {
        None
    }
}

pub open spec fn opt_int(o: Option<usize>) -> Option<int> {
    match o {
        Some(i) => Some(i as int),
        None => None,
    }
}

/// 1 if the neighbour in direction `d` exists and holds a mine, else 0.
pub open spec fn mine_in_dir(mines: Seq<bool>, width: int, height: int, row: int, col: int, d: int) -> int {
    match neighbor(width, height, row, col, d) {
        Some(j) => if mines[j] { 1 } else { 0 },
        None => 0,
    }
}

/// Mines among the neighbours in the first `n` directions.
pub open spec fn mines_in_dirs(mines: Seq<bool>, width: int, height: int, row: int, col: int, n: int) -> int
    decreases n,
{
    if n <= 0 {
        0
    } else {
        mines_in_dirs(mines, width, height, row, col, n - 1) + mine_in_dir(mines, width, height, row, col, n - 1)
    }
}

/// Number of in-bounds 8-neighbours of (`row`, `col`) that hold a mine.
pub open spec fn adjacent_count(mines: Seq<bool>, width: int, height: int, row: int, col: int) -> int {
    mines_in_dirs(mines, width, height, row, col, 8)
}

pub proof fn lemma_mines_in_dirs_bounds(mines: Seq<bool>, width: int, height: int, row: int, col: int, n: int)
    requires
        0 <= n,
    ensures
        0 <= mines_in_dirs(mines, width, height, row, col, n) <= n,
    decreases n,
{
    if n > 0 {
        lemma_mines_in_dirs_bounds(mines, width, height, row, col, n - 1);
    }
}

/// A position on the grid has a row-major index inside the grid.
pub proof fn lemma_index_in_grid(width: int, height: int, row: int, col: int)
    requires
        in_bounds(width, height, row, col),
    ensures
        0 <= row * width + col < width * height,
        row * width + width <= width * height,
{
    vstd::arithmetic::mul::lemma_mul_inequality(row + 1, height, width);
    vstd::arithmetic::mul::lemma_mul_is_distributive_add_other_way(width, row, 1);
    vstd::arithmetic::mul::lemma_mul_nonnegative(row, width);
    vstd::arithmetic::mul::lemma_mul_is_commutative(width, height);
}

/// A neighbour that exists lies on the grid.
pub proof fn lemma_neighbor_in_grid(width: int, height: int, row: int, col: int, d: int)
    ensures
        neighbor(width, height, row, col, d) matches Some(j) ==> 0 <= j < width * height,
{
    let r = row + dir_row(d);
    let c = col + dir_col(d);
    if in_bounds(width, height, r, c) {
        lemma_index_in_grid(width, height, r, c);
    }
}

} // verus!
