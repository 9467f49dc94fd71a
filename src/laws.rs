use vstd::prelude::*;
use crate::board::{adjacency_correct, newly_revealed, Board, BoardModel};
use crate::cell::{count_hidden, count_safe, Cell};
use crate::geometry::{adjacent_count, lemma_index_in_grid};
use crate::board::mine_layout;
use crate::cell::count_mines;
use crate::game::{reveal_step, GameModel, GameState};

verus! {

/// On every board, each cell's count of adjacent mines is the number of its
/// in-bounds neighbours, among the eight around it, that hold a mine.
pub proof fn adjacent_count_matches_mines(board: &Board)
    requires
        board@.wf(),
    ensures
        forall|i: int|
            0 <= i < board@.cells.len() ==> #[trigger] board@.cells[i].adjacent_mines == adjacent_count(
                mine_layout(board@.cells),
                board@.width as int,
                board@.height as int,
                board@.cells[i].row as int,
                board@.cells[i].col as int,
            ),
{
    assert(adjacency_correct(board@.cells, board@.width as int, board@.height as int));
}

/// Going from `s` to `t`, where revealed cells stay revealed and only cells
/// without a mine become revealed, hides at most the safe cells fewer.
proof fn lemma_newly_revealed_bounded(s: Seq<Cell>, t: Seq<Cell>)
    requires
        s.len() == t.len(),
        forall|i: int| 0 <= i < s.len() && (#[trigger] s[i]).is_revealed ==> t[i].is_revealed,
        forall|i: int| 0 <= i < s.len() && #[trigger] newly_revealed(s, t, i) ==> !s[i].is_mine,
    ensures
        count_hidden(s) <= count_hidden(t) + count_safe(s),
    decreases s.len(),
{
    if s.len() > 0 {
        let (s1, t1) = (s.drop_last(), t.drop_last());
        assert forall|i: int| 0 <= i < s1.len() && (#[trigger] s1[i]).is_revealed implies t1[i].is_revealed by {
            assert(s1[i] == s[i]);
        }
        assert forall|i: int| 0 <= i < s1.len() && #[trigger] newly_revealed(s1, t1, i) implies !s1[i].is_mine by {
            assert(s1[i] == s[i] && t1[i] == t[i]);
            assert(newly_revealed(s, t, i));
        }
        lemma_newly_revealed_bounded(s1, t1);
        assert(newly_revealed(s, t, s.len() - 1) ==> !s[s.len() - 1].is_mine);
    }
}

/// A flood fill from a safe cell never reveals a mine, never touches a cell
/// that was already revealed, and reveals at most as many cells as the board
/// has cells without a mine.
pub proof fn flood_fill_bounded(before: BoardModel, after: BoardModel, start: int)
    requires
        before.wf(),
        0 <= start < before.cells.len(),
        before.flood_result(after, start),
    ensures
        forall|i: int|
            0 <= i < before.cells.len() && #[trigger] after.cells[i].is_revealed && before.cells[i].is_mine
                ==> before.cells[i].is_revealed,
        forall|i: int| 0 <= i < before.cells.len() && before.cells[i].is_revealed ==> #[trigger] after.cells[i] == before.cells[i],
        count_hidden(before.cells) - count_hidden(after.cells) <= count_safe(before.cells),
{
    assert forall|i: int| 0 <= i < before.cells.len() && (#[trigger] before.cells[i]).is_revealed implies after.cells[i].is_revealed by {
        assert(after.cells[i] == before.cells[i]);
    }
    assert forall|i: int| 0 <= i < before.cells.len() && before.cells[i].is_revealed implies #[trigger] after.cells[i] == before.cells[i] by {
    }
    lemma_newly_revealed_bounded(before.cells, after.cells);
}

/// Revealing a mine as the first action does not end the game: the mine
/// count is the same afterwards and the selected cell holds no mine and is
/// revealed.
pub proof fn first_reveal_is_safe(before: GameModel, after: GameModel)
    requires
        before.board.wf(),
        after.board.wf(),
        before.state == GameState::Playing,
        before.first_move,
        before.board.selected_index() < before.board.cells.len(),
        !before.board.cells[before.board.selected_index()].is_flagged,
        reveal_step(before, after),
    ensures
        after.state != GameState::Lost,
        count_mines(after.board.cells) == count_mines(before.board.cells),
        !after.board.cells[before.board.selected_index()].is_mine,
        after.board.cells[before.board.selected_index()].is_revealed,
        !after.first_move,
{
    let i = before.board.selected_index();
    lemma_index_in_grid(
        before.board.width as int,
        before.board.height as int,
        before.board.selected_row as int,
        before.board.selected_col as int,
    );
    if !before.board.cells[i].is_mine {
        assert(before.board.flood_result(after.board, i));
    }
}

} // verus!
