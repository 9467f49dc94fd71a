use vstd::prelude::*;
use crate::board::{
    all_hidden, all_safe_revealed, cursor_after, flag_flipped, mine_layout, Board, BoardModel, ConfigError,
    Direction,
};
use crate::cell::lemma_mines_and_safe;
use crate::random::random_below;

verus! {

/// Where a game stands.
#[derive(Clone, Copy, Debug, PartialEq, Eq, Structural)]
pub enum GameState {
    Playing,
    Lost,
    Won,
}

/// A player's input, as delivered by the terminal.
#[derive(Clone, Copy, Debug, PartialEq, Eq, Structural)]
pub enum Action {
    Move(Direction),
    ToggleFlag,
    Reveal,
    Quit,
}

/// The abstract state of a game session.
pub struct GameModel {
    pub board: BoardModel,
    pub first_move: bool,
    pub state: GameState,
}

/// The state that follows a successful reveal.
pub open spec fn state_after_reveal(board: BoardModel) -> GameState {
    if all_safe_revealed(board.cells) {
        GameState::Won
    } else {
        GameState::Playing
    }
}

/// Moving the cursor: clamped to the grid, and ignored once the game is over.
pub open spec fn move_step(o: GameModel, f: GameModel, direction: Direction) -> bool {
    if o.state != GameState::Playing {
        f == o
    } else {
        let (row, col) = cursor_after(
            o.board.selected_row,
            o.board.selected_col,
            o.board.width,
            o.board.height,
            direction,
        );
        f == (GameModel { board: BoardModel { selected_row: row, selected_col: col, ..o.board }, ..o })
    }
}

/// Toggling the flag under the cursor: only on a hidden cell, and only while
/// the game goes on.
pub open spec fn flag_step(o: GameModel, f: GameModel) -> bool {
    let i = o.board.selected_index();
    if o.state != GameState::Playing || o.board.cells[i].is_revealed {
        f == o
    } else {
        f == (GameModel {
            board: BoardModel { cells: o.board.cells.update(i, flag_flipped(o.board.cells[i])), ..o.board },
            ..o
        })
    }
}

/// Revealing the cell under the cursor.
pub open spec fn reveal_step(o: GameModel, f: GameModel) -> bool {
    let i = o.board.selected_index();
    let c = o.board.cells[i];
    &&& (o.state != GameState::Playing || c.is_flagged) ==> f == o
    &&& (o.state == GameState::Playing && !c.is_flagged && c.is_mine && !o.first_move) ==> f == (GameModel {
        state: GameState::Lost,
        ..o
    })
    &&& (o.state == GameState::Playing && !c.is_flagged && !c.is_mine) ==> {
        &&& o.board.flood_result(f.board, i)
        &&& !f.first_move
        &&& f.state == state_after_reveal(f.board)
    }
    &&& (o.state == GameState::Playing && !c.is_flagged && c.is_mine && o.first_move) ==> {
        &&& exists|mid: BoardModel| #[trigger] o.board.relocated(mid, i) && mid.flood_result(f.board, i)
        &&& f.board.mines == o.board.mines
        &&& !f.board.cells[i].is_mine
        &&& f.board.cells[i].is_revealed
        &&& !f.first_move
        &&& f.state == state_after_reveal(f.board)
    }
}

/// A game session: the board, whether the first reveal is still to come, and
/// the outcome so far.
pub struct Minesweeper {
    board: Board,
    first_move: bool,
    state: GameState,
}

impl View for Minesweeper {
    type V = GameModel;

    closed spec fn view(&self) -> GameModel {
        GameModel { board: self.board@, first_move: self.first_move, state: self.state }
    }
}

impl Minesweeper {
    /// A new session on a random board; see `Board::new` for the errors.
    pub fn new(width: usize, height: usize, mines: usize) -> (r: Result<Minesweeper, ConfigError>)
        ensures
            r == Err::<Minesweeper, ConfigError>(ConfigError::InvalidDimension) <==> (width == 0 || height
                == 0 || width * height > usize::MAX),
            r == Err::<Minesweeper, ConfigError>(ConfigError::TooManyMines) <==> (width > 0 && height > 0
                && width * height <= usize::MAX && mines >= width * height),
            r is Ok <==> (width > 0 && height > 0 && width * height <= usize::MAX && mines < width * height),
            r matches Ok(g) ==> {
                &&& g@.board.wf()
                &&& g@.board.width == width
                &&& g@.board.height == height
                &&& g@.board.mines == mines
                &&& g@.board.selected_row == 0
                &&& g@.board.selected_col == 0
                &&& all_hidden(g@.board.cells)
                &&& g@.first_move
                &&& g@.state == GameState::Playing
            },
    {
        match Board::new(width, height, mines) {
            Ok(board) => Ok(Minesweeper::from_board(board)),
            Err(e) => Err(e),
        }
    }

    /// A new session on `board`, before the first move.
    pub fn from_board(board: Board) -> (r: Minesweeper)
        requires
            board@.wf(),
        ensures
            r@ == (GameModel { board: board@, first_move: true, state: GameState::Playing }),
    {
        Minesweeper { board, first_move: true, state: GameState::Playing }
    }

    pub fn board(&self) -> (r: &Board)
        ensures
            r@ == self@.board,
    {
        &self.board
    }

    pub fn state(&self) -> (r: GameState)
        ensures
            r == self@.state,
    {
        self.state
    }

    /// Whether no reveal has been made yet.
    pub fn first_move(&self) -> (r: bool)
        ensures
            r == self@.first_move,
    {
        self.first_move
    }

    /// Moves the cursor one step, clamped to the grid; nothing happens once
    /// the game is over.
    pub fn move_cursor(&mut self, direction: Direction)
        requires
            old(self)@.board.wf(),
        ensures
            final(self)@.board.wf(),
            move_step(old(self)@, final(self)@, direction),
    {
        if self.state == GameState::Playing {
            self.board.move_cursor(direction);
        }
    }

    /// Flips the flag under the cursor; nothing happens on a revealed cell or
    /// once the game is over.
    pub fn toggle_flag(&mut self)
        requires
            old(self)@.board.wf(),
        ensures
            final(self)@.board.wf(),
            flag_step(old(self)@, final(self)@),
    {
        if self.state == GameState::Playing {
            self.board.toggle_flag();
        }
    }

    /// Reveals the cell under the cursor. A flagged cell, or any cell once the
    /// game is over, is left alone. A mine loses the game, unless this is the
    /// first reveal: then the mine moves to a random cell that had none and
    /// the cell is revealed as a safe one. A safe cell is revealed with the
    /// flood fill of `Board::flood_reveal`; the game is won once every safe
    /// cell is revealed.
    pub fn reveal_selected(&mut self)
        requires
            old(self)@.board.wf(),
        ensures
            final(self)@.board.wf(),
            reveal_step(old(self)@, final(self)@),
    {
        if self.state != GameState::Playing {
            return;
        }
        let i = self.board.selected_index();
        let c = self.board.cell_at(self.board.selected_row(), self.board.selected_col());
        if c.is_flagged {
            return;
        }
        if c.is_mine {
            if !self.first_move {
                self.state = GameState::Lost;
                return;
            }
            let ghost o = self.board@;
            proof {
                lemma_mines_and_safe(self.board@.cells);
            }
            let free = self.board.cells_len() - self.board.mine_count();
            let k = random_below(free);
            self.board.relocate_mine(i, k);
            let ghost mid = self.board@;
            proof {
                let j = choose|j: int|
                    0 <= j < o.cells.len() && !o.cells[j].is_mine && #[trigger] mine_layout(mid.cells)
                        == mine_layout(o.cells).update(j, true).update(i as int, false);
                assert(mine_layout(mid.cells)[i as int] == mid.cells[i as int].is_mine);
            }
            self.board.flood_reveal(i);
            proof {
                assert(o.relocated(mid, i as int));
            }
        } else {
            self.board.flood_reveal(i);
        }
        self.first_move = false;
        if self.board.all_safe_revealed() {
            self.state = GameState::Won;
        } else {
            self.state = GameState::Playing;
        }
    }

    /// Applies one action; returns `false` when the player quits.
    pub fn handle(&mut self, action: Action) -> (r: bool)
        requires
            old(self)@.board.wf(),
        ensures
            final(self)@.board.wf(),
            r == (action != Action::Quit),
            match action {
                Action::Move(direction) => move_step(old(self)@, final(self)@, direction),
                Action::ToggleFlag => flag_step(old(self)@, final(self)@),
                Action::Reveal => reveal_step(old(self)@, final(self)@),
                Action::Quit => final(self)@ == old(self)@,
            },
    {
        match action {
            Action::Move(direction) => {
                self.move_cursor(direction);
                true
            },
            Action::ToggleFlag => {
                self.toggle_flag();
                true
            },
            Action::Reveal => {
                self.reveal_selected();
                true
            },
            Action::Quit => false,
        }
    }
}

} // verus!
