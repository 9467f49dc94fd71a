use vstd::prelude::*;
use crate::board::{cells_placed, mine_layout, newly_revealed, revealed_form, BoardModel};
use crate::cell::{is_mine_cell, lemma_count_same_on, Cell};
use crate::geometry::{adjacent_count, lemma_neighbor_in_grid};

verus! {

/// Changing only the revealed and flag marks keeps cells at their positions.
proof fn lemma_same_positions(before: Seq<Cell>, after: Seq<Cell>, width: int, height: int)
    requires
        cells_placed(before, width, height),
        after.len() == before.len(),
        forall|i: int|
            0 <= i < before.len() ==> (#[trigger] after[i]).row == before[i].row && after[i].col == before[i].col,
    ensures
        cells_placed(after, width, height),
{
    assert forall|i: int| 0 <= i < after.len() implies {
        &&& #[trigger] after[i].row < height
        &&& after[i].col < width
        &&& after[i].row * width + after[i].col == i
    } by {
        assert(before[i].row < height);
    }
}

/// Revealing safe cells keeps the board invariant.
proof fn lemma_reveal_keeps_wf(before: BoardModel, after: BoardModel)
    requires
        before.wf(),
        after == (BoardModel { cells: after.cells, ..before }),
        after.cells.len() == before.cells.len(),
        forall|i: int|
            0 <= i < before.cells.len() ==> #[trigger] after.cells[i] == if newly_revealed(before.cells, after.cells, i) {
                revealed_form(before.cells[i])
            } else {
                before.cells[i]
            },
    ensures
        after.wf(),
{
    lemma_same_positions(before.cells, after.cells, before.width as int, before.height as int);
    lemma_count_same_on(before.cells, after.cells, |c: Cell| is_mine_cell(c));
    assert(mine_layout(after.cells) =~= mine_layout(before.cells));
    assert forall|i: int| 0 <= i < after.cells.len() && #[trigger] after.cells[i].is_flagged implies !after.cells[i].is_revealed by {
        assert(before.cells[i].is_flagged);
    }
    assert forall|i: int| 0 <= i < after.cells.len() implies #[trigger] after.cells[i].adjacent_mines == adjacent_count(
        mine_layout(after.cells),
        after.width as int,
        after.height as int,
        after.cells[i].row as int,
        after.cells[i].col as int,
    ) by {
        assert(before.cells[i].adjacent_mines == before.adjacent(i));
    }
}

/// What holds of the cells during a flood from `start`: `start` is shown,
/// only revealed and flag marks change, only on safe cells, and each newly
/// shown cell other than `start` neighbours a newly shown cell with no
/// adjacent mines.
#[verifier::opaque]
pub(crate) open spec fn flood_inv(before: BoardModel, cells: Seq<Cell>, start: int, rank: Map<int, nat>, next: nat) -> bool {
    let n = before.cells.len();
    &&& cells.len() == n
    &&& 0 <= start < n
    &&& cells[start].is_revealed
    &&& forall|i: int|
        0 <= i < n ==> #[trigger] cells[i] == if newly_revealed(before.cells, cells, i) {
            revealed_form(before.cells[i])
        } else {
            before.cells[i]
        }
    &&& forall|i: int| 0 <= i < n && #[trigger] newly_revealed(before.cells, cells, i) ==> !before.cells[i].is_mine
    &&& forall|i: int|
        0 <= i < n && i != start && #[trigger] newly_revealed(before.cells, cells, i) ==> before.reached_from_zero(
            cells,
            rank,
            i,
        )
    &&& forall|i: int|
        0 <= i < n && #[trigger] newly_revealed(before.cells, cells, i) ==> rank.contains_key(i) && rank[i] < next
}

/// The work stack holds newly shown cells with no adjacent mines.
#[verifier::opaque]
pub(crate) open spec fn stack_ok(before: BoardModel, cells: Seq<Cell>, stack: Seq<usize>) -> bool {
    forall|k: int|
        0 <= k < stack.len() ==> {
            &&& (#[trigger] stack[k]) < before.cells.len()
            &&& newly_revealed(before.cells, cells, stack[k] as int)
            &&& before.cells[stack[k] as int].adjacent_mines == 0
        }
}

/// Neighbour `d` of cell `p` exists and is shown or a mine, or does not exist.
pub(crate) open spec fn settled(before: BoardModel, cells: Seq<Cell>, p: int, d: int) -> bool {
    before.neighbor_of(p, d) is Some ==> {
        let j = before.neighbor_of(p, d)->Some_0;
        cells[j].is_revealed || cells[j].is_mine
    }
}

/// Every newly shown cell with no adjacent mines that is neither on the stack
/// nor `skip` has all its neighbours settled.
#[verifier::opaque]
pub(crate) open spec fn closed_except(before: BoardModel, cells: Seq<Cell>, stack: Seq<usize>, skip: int) -> bool {
    forall|q: int, e: int|
        0 <= q < before.cells.len() && 0 <= e < 8 && newly_revealed(before.cells, cells, q)
            && before.cells[q].adjacent_mines == 0 && !stack.contains(q as usize) && q != skip
            ==> #[trigger] settled(before, cells, q, e)
}

/// The first `d` neighbours of `p` are settled.
#[verifier::opaque]
pub(crate) open spec fn partly_closed(before: BoardModel, cells: Seq<Cell>, p: int, d: int) -> bool {
    forall|e: int| 0 <= e < d ==> #[trigger] settled(before, cells, p, e)
}

pub(crate) proof fn lemma_flood_start(before: BoardModel, start: usize, cells: Seq<Cell>, stack: Seq<usize>)
    requires
        before.cells.len() <= usize::MAX,
        before.wf(),
        start < before.cells.len(),
        !before.cells[start as int].is_revealed,
        !before.cells[start as int].is_mine,
        cells == before.cells.update(start as int, revealed_form(before.cells[start as int])),
        stack == if before.cells[start as int].adjacent_mines == 0 {
            seq![start]
        } else {
            Seq::<usize>::empty()
        },
    ensures
        flood_inv(before, cells, start as int, map![start as int => 0nat], 1),
        stack_ok(before, cells, stack),
        closed_except(before, cells, stack, -1),
{
    reveal(flood_inv);
    reveal(stack_ok);
    reveal(closed_except);
    if before.cells[start as int].adjacent_mines == 0 {
        assert(stack[0] == start);
    }
    assert forall|q: int, e: int|
        0 <= q < before.cells.len() && 0 <= e < 8 && newly_revealed(before.cells, cells, q)
            && before.cells[q].adjacent_mines == 0 && !stack.contains(q as usize) && q != -1
            implies #[trigger] settled(before, cells, q, e) by {
        assert(q == start);
        assert(stack[0] == start);
    }
}

pub(crate) proof fn lemma_flood_pop(
    before: BoardModel,
    cells: Seq<Cell>,
    start: int,
    rank: Map<int, nat>,
    next: nat,
    stack: Seq<usize>,
)
    requires
        before.cells.len() <= usize::MAX,
        before.wf(),
        flood_inv(before, cells, start, rank, next),
        stack_ok(before, cells, stack),
        closed_except(before, cells, stack, -1),
        stack.len() > 0,
    ensures
        ({
            let p = stack.last() as int;
            &&& 0 <= p < before.cells.len()
            &&& newly_revealed(before.cells, cells, p)
            &&& before.cells[p].adjacent_mines == 0
            &&& cells[p].row == before.cells[p].row
            &&& cells[p].col == before.cells[p].col
            &&& stack_ok(before, cells, stack.drop_last())
            &&& closed_except(before, cells, stack.drop_last(), p)
            &&& partly_closed(before, cells, p, 0)
        }),
        cells_placed(cells, before.width as int, before.height as int),
{
    reveal(flood_inv);
    reveal(stack_ok);
    reveal(closed_except);
    reveal(partly_closed);
    let p = stack.last() as int;
    assert(stack[stack.len() - 1] == stack.last());
    assert forall|q: int, e: int|
        0 <= q < before.cells.len() && 0 <= e < 8 && newly_revealed(before.cells, cells, q)
            && before.cells[q].adjacent_mines == 0 && !stack.drop_last().contains(q as usize) && q != p
            implies #[trigger] settled(before, cells, q, e) by {
        if stack.contains(q as usize) {
            let k = choose|k: int| 0 <= k < stack.len() && stack[k] == q as usize;
            if k < stack.len() - 1 {
                assert(stack.drop_last()[k] == q as usize);
            }
        }
    }
    assert forall|i: int| 0 <= i < cells.len() implies (#[trigger] cells[i]).row == before.cells[i].row
        && cells[i].col == before.cells[i].col by {}
    lemma_same_positions(before.cells, cells, before.width as int, before.height as int);
}

pub(crate) proof fn lemma_flood_settled(before: BoardModel, cells: Seq<Cell>, p: int, d: int)
    requires
        partly_closed(before, cells, p, d),
        settled(before, cells, p, d),
    ensures
        partly_closed(before, cells, p, d + 1),
{
    reveal(partly_closed);
}

/// Showing one more hidden safe cell `j`, neighbour `d` of `p`, keeps every
/// flood invariant; `j` goes on the stack when it has no adjacent mines.
pub(crate) proof fn lemma_flood_reveal_one(
    before: BoardModel,
    cells: Seq<Cell>,
    start: int,
    rank: Map<int, nat>,
    next: nat,
    stack: Seq<usize>,
    p: int,
    d: int,
    j: usize,
)
    requires
        before.cells.len() <= usize::MAX,
        before.wf(),
        flood_inv(before, cells, start, rank, next),
        stack_ok(before, cells, stack),
        closed_except(before, cells, stack, p),
        partly_closed(before, cells, p, d),
        0 <= p < before.cells.len(),
        0 <= d < 8,
        newly_revealed(before.cells, cells, p),
        before.cells[p].adjacent_mines == 0,
        before.neighbor_of(p, d) == Some(j as int),
        j < before.cells.len(),
        cells.len() == before.cells.len(),
        !cells[j as int].is_revealed,
        !cells[j as int].is_mine,
    ensures
        ({
            let cells2 = cells.update(j as int, revealed_form(cells[j as int]));
            let stack2 = if cells[j as int].adjacent_mines == 0 {
                stack.push(j)
            } else {
                stack
            };
            &&& flood_inv(before, cells2, start, rank.insert(j as int, next), next + 1)
            &&& stack_ok(before, cells2, stack2)
            &&& closed_except(before, cells2, stack2, p)
            &&& partly_closed(before, cells2, p, d + 1)
        }),
{
    reveal(flood_inv);
    reveal(stack_ok);
    reveal(closed_except);
    reveal(partly_closed);
    let n = before.cells.len();
    let cells2 = cells.update(j as int, revealed_form(cells[j as int]));
    let stack2 = if cells[j as int].adjacent_mines == 0 {
        stack.push(j)
    } else {
        stack
    };
    assert(cells[j as int] == before.cells[j as int]);
    let rank2 = rank.insert(j as int, next);
    assert forall|i: int| 0 <= i < n && i != start && #[trigger] newly_revealed(before.cells, cells2, i) implies before.reached_from_zero(cells2, rank2, i) by {
        reveal(BoardModel::reached_from_zero);
        if i == j as int {
            assert(newly_revealed(before.cells, cells2, p));
            assert(before.neighbor_of(p, d) == Some(i));
        } else {
            assert(newly_revealed(before.cells, cells, i));
            assert(before.reached_from_zero(cells, rank, i));
            let (q, e) = choose|q: int, e: int|
                0 <= q < n && 0 <= e < 8 && newly_revealed(before.cells, cells, q) && before.cells[q].adjacent_mines == 0
                    && #[trigger] before.neighbor_of(q, e) == Some(i) && rank.contains_key(q) && rank.contains_key(i)
                    && rank[q] < rank[i];
            assert(newly_revealed(before.cells, cells2, q));
            assert(before.neighbor_of(q, e) == Some(i));
        }
    }
    assert forall|k: int| 0 <= k < stack2.len() implies {
        &&& (#[trigger] stack2[k]) < n
        &&& newly_revealed(before.cells, cells2, stack2[k] as int)
        &&& before.cells[stack2[k] as int].adjacent_mines == 0
    } by {
        if k < stack.len() {
            assert(stack2[k] == stack[k]);
        }
    }
    assert forall|q: int, e: int|
        0 <= q < n && 0 <= e < 8 && newly_revealed(before.cells, cells2, q) && before.cells[q].adjacent_mines == 0
            && !stack2.contains(q as usize) && q != p implies #[trigger] settled(before, cells2, q, e) by {
        lemma_neighbor_in_grid(
            before.width as int,
            before.height as int,
            before.cells[q].row as int,
            before.cells[q].col as int,
            e,
        );
        if q == j as int {
            assert(stack2[stack2.len() - 1] == j);
        } else {
            if stack.contains(q as usize) {
                let k = choose|k: int| 0 <= k < stack.len() && stack[k] == q as usize;
                assert(stack2[k] == q as usize);
            }
            assert(settled(before, cells, q, e));
        }
    }
    assert forall|e: int| 0 <= e < d + 1 implies #[trigger] settled(before, cells2, p, e) by {
        lemma_neighbor_in_grid(
            before.width as int,
            before.height as int,
            before.cells[p].row as int,
            before.cells[p].col as int,
            e,
        );
        if e < d {
            assert(settled(before, cells, p, e));
        }
    }
}

/// An empty stack with every newly shown zero cell closed is a finished flood.
pub(crate) proof fn lemma_flood_done(before: BoardModel, after: BoardModel, start: int, rank: Map<int, nat>, next: nat)
    requires
        before.cells.len() <= usize::MAX,
        before.wf(),
        after == (BoardModel { cells: after.cells, ..before }),
        flood_inv(before, after.cells, start, rank, next),
        closed_except(before, after.cells, Seq::<usize>::empty(), -1),
    ensures
        after.wf(),
        before.flood_result(after, start),
{
    reveal(flood_inv);
    reveal(closed_except);
    lemma_reveal_keeps_wf(before, after);
    assert(before.all_reached(after.cells, start, rank));
    assert forall|p: int, d: int|
        0 <= p < before.cells.len() && 0 <= d < 8 && newly_revealed(before.cells, after.cells, p)
            && before.cells[p].adjacent_mines == 0 && #[trigger] before.neighbor_of(p, d) is Some implies {
        let j = before.neighbor_of(p, d)->Some_0;
        after.cells[j].is_revealed || after.cells[j].is_mine
    } by {
        assert(settled(before, after.cells, p, d));
    }
}

/// After all eight neighbours of `p` are settled, `p` needs no stack entry.
pub(crate) proof fn lemma_flood_close(before: BoardModel, cells: Seq<Cell>, stack: Seq<usize>, p: int)
    requires
        before.cells.len() <= usize::MAX,
        closed_except(before, cells, stack, p),
        partly_closed(before, cells, p, 8),
    ensures
        closed_except(before, cells, stack, -1),
{
    reveal(closed_except);
    reveal(partly_closed);
}

} // verus!
