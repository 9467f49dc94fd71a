use minesweeper::{
    adjacent_mines, generate_cells, neighbor_indices, nth_free_cell, place_mines, Action, Board, Cell,
    ConfigError, Direction, GameState, Minesweeper,
};

fn layout_game(width: usize, height: usize, mines: &[bool]) -> Minesweeper {
    let layout: Vec<bool> = mines.to_vec();
    Minesweeper::from_board(Board::with_mines(width, height, &layout).unwrap())
}

fn brute_count(board: &Board, row: usize, col: usize) -> i8 {
    let mut n: i8 = 0;
    for dr in -1i64..=1 {
        for dc in -1i64..=1 {
            if dr == 0 && dc == 0 {
                continue;
            }
            let r = row as i64 + dr;
            let c = col as i64 + dc;
            if r >= 0 && c >= 0 && (r as usize) < board.height() && (c as usize) < board.width() {
                if board.cell_at(r as usize, c as usize).is_mine {
                    n += 1;
                }
            }
        }
    }
    n
}

fn mines_on(board: &Board) -> usize {
    let mut n = 0;
    for row in 0..board.height() {
        for col in 0..board.width() {
            if board.cell_at(row, col).is_mine {
                n += 1;
            }
        }
    }
    n
}

#[test]
fn single_cell_board_without_mines_is_won_at_once() {
    let mut game = Minesweeper::new(1, 1, 0).unwrap();
    game.reveal_selected();
    let cell = game.board().cell_at(0, 0);
    assert!(cell.is_revealed);
    assert_eq!(cell.adjacent_mines, 0);
    assert_eq!(cell.symbol(), '0');
    assert_eq!(game.state(), GameState::Won);
}

#[test]
fn center_mine_gives_corner_count_one_without_flood() {
    let mut game = layout_game(3, 3, &[false, false, false, false, true, false, false, false, false]);
    game.reveal_selected();
    let board = game.board();
    assert_eq!(board.cell_at(0, 0).adjacent_mines, 1);
    assert!(board.cell_at(0, 0).is_revealed);
    for row in 0..3 {
        for col in 0..3 {
            if (row, col) != (0, 0) {
                assert!(!board.cell_at(row, col).is_revealed);
            }
        }
    }
    assert_eq!(game.state(), GameState::Playing);
}

#[test]
fn first_reveal_on_mine_relocates_it() {
    let mut game = layout_game(2, 2, &[false, true, true, true]);
    game.move_cursor(Direction::Down);
    game.move_cursor(Direction::Right);
    assert!(game.board().cell_at(1, 1).is_mine);
    game.reveal_selected();
    assert_ne!(game.state(), GameState::Lost);
    assert!(!game.first_move());
    let board = game.board();
    assert!(!board.cell_at(1, 1).is_mine);
    assert!(board.cell_at(1, 1).is_revealed);
    assert!(board.cell_at(0, 0).is_mine);
    assert_eq!(board.cell_at(1, 1).adjacent_mines, 3);
    assert_eq!(mines_on(board), 3);
    assert_eq!(board.mine_count(), 3);
    assert_eq!(game.state(), GameState::Won);
}

#[test]
fn flagged_cell_is_not_revealed() {
    let mut game = layout_game(2, 2, &[false, false, false, true]);
    game.toggle_flag();
    game.reveal_selected();
    let cell = game.board().cell_at(0, 0);
    assert!(cell.is_flagged);
    assert!(!cell.is_revealed);
    assert_eq!(cell.symbol(), 'F');
    assert!(game.first_move());
    assert_eq!(game.state(), GameState::Playing);
}

#[test]
fn cursor_movement_is_clamped() {
    let mut game = Minesweeper::new(3, 2, 1).unwrap();
    game.move_cursor(Direction::Up);
    game.move_cursor(Direction::Left);
    assert_eq!((game.board().selected_row(), game.board().selected_col()), (0, 0));
    game.move_cursor(Direction::Right);
    game.move_cursor(Direction::Right);
    game.move_cursor(Direction::Right);
    assert_eq!(game.board().selected_col(), 2);
    game.move_cursor(Direction::Down);
    game.move_cursor(Direction::Down);
    assert_eq!(game.board().selected_row(), 1);
    game.move_cursor(Direction::Left);
    game.move_cursor(Direction::Up);
    assert_eq!((game.board().selected_row(), game.board().selected_col()), (0, 1));
}

#[test]
fn adjacency_counts_match_neighbours_on_random_boards() {
    for (w, h, m) in [(1, 1, 0), (5, 4, 7), (8, 8, 20), (3, 7, 20), (10, 1, 3)] {
        let board = Board::new(w, h, m).unwrap();
        for row in 0..h {
            for col in 0..w {
                let cell = board.cell_at(row, col);
                assert_eq!(cell.adjacent_mines, brute_count(&board, row, col));
                assert_eq!(adjacent_mines(&board, &cell), cell.adjacent_mines);
            }
        }
    }
}

#[test]
fn place_mines_places_exactly_the_count() {
    for m in 0..16 {
        let mut cells = generate_cells(4, 4).unwrap();
        assert_eq!(place_mines(&mut cells, m), Ok(()));
        assert_eq!(cells.iter().filter(|c| c.is_mine).count(), m);
        assert_eq!(cells.len(), 16);
    }
    let mut cells = generate_cells(4, 4).unwrap();
    assert_eq!(place_mines(&mut cells, 16), Err(ConfigError::TooManyMines));
    assert_eq!(cells.iter().filter(|c| c.is_mine).count(), 0);
}

#[test]
fn board_new_reports_configuration_errors() {
    assert!(matches!(Board::new(0, 3, 0), Err(ConfigError::InvalidDimension)));
    assert!(matches!(Board::new(3, 0, 0), Err(ConfigError::InvalidDimension)));
    assert!(matches!(Board::new(usize::MAX, 2, 0), Err(ConfigError::InvalidDimension)));
    assert!(matches!(Board::new(2, 2, 4), Err(ConfigError::TooManyMines)));
    assert!(matches!(Board::new(2, 2, 9), Err(ConfigError::TooManyMines)));
    let board = Board::new(2, 2, 3).unwrap();
    assert_eq!(mines_on(&board), 3);
    assert_eq!(board.mine_count(), 3);
}

#[test]
fn with_mines_checks_the_layout() {
    assert!(matches!(Board::with_mines(2, 2, &vec![false; 3]), Err(ConfigError::InvalidDimension)));
    assert!(matches!(Board::with_mines(2, 2, &vec![true; 4]), Err(ConfigError::TooManyMines)));
    assert!(matches!(Board::with_mines(0, 2, &vec![]), Err(ConfigError::InvalidDimension)));
    let board = Board::with_mines(3, 1, &vec![true, false, true]).unwrap();
    assert_eq!(board.mine_count(), 2);
    assert_eq!(board.cell_at(0, 1).adjacent_mines, 2);
    assert_eq!(board.cell_at(0, 0).adjacent_mines, 0);
}

#[test]
fn generate_cells_is_row_major_and_fresh() {
    let cells = generate_cells(3, 2).unwrap();
    assert_eq!(cells.len(), 6);
    for (i, c) in cells.iter().enumerate() {
        assert_eq!((c.row, c.col), (i / 3, i % 3));
        assert_eq!(*c, Cell::new(i / 3, i % 3));
        assert!(!c.is_mine && !c.is_revealed && !c.is_flagged);
    }
    assert!(matches!(generate_cells(0, 5), Err(ConfigError::InvalidDimension)));
    assert!(matches!(generate_cells(usize::MAX, usize::MAX), Err(ConfigError::InvalidDimension)));
}

#[test]
fn flood_fill_reveals_the_connected_empty_region() {
    // Mine in the bottom-right corner of a 3x3 board.
    let mut game = layout_game(3, 3, &[false, false, false, false, false, false, false, false, true]);
    game.reveal_selected();
    let board = game.board();
    for row in 0..3 {
        for col in 0..3 {
            let cell = board.cell_at(row, col);
            assert_eq!(cell.is_revealed, (row, col) != (2, 2));
        }
    }
    assert_eq!(board.cell_at(2, 2).symbol(), '\u{2022}');
    assert_eq!(board.cell_at(1, 1).symbol(), '1');
    assert_eq!(game.state(), GameState::Won);
}

#[test]
fn flood_fill_stops_at_numbered_cells() {
    // A wall of mines in the middle column of a 3x4 board.
    let layout = [
        false, true, false, false, //
        false, true, false, false, //
        false, true, false, false,
    ];
    let mut game = layout_game(4, 3, &layout);
    game.move_cursor(Direction::Right);
    game.move_cursor(Direction::Right);
    game.move_cursor(Direction::Right);
    game.reveal_selected();
    let board = game.board();
    for row in 0..3 {
        for col in 0..4 {
            assert_eq!(board.cell_at(row, col).is_revealed, col >= 2, "({}, {})", row, col);
        }
    }
    assert_eq!(game.state(), GameState::Playing);
}

#[test]
fn flood_fill_clears_flags_it_reaches() {
    let mut game = layout_game(3, 1, &[false, false, true]);
    game.toggle_flag();
    game.move_cursor(Direction::Right);
    game.reveal_selected();
    let board = game.board();
    assert!(board.cell_at(0, 1).is_revealed);
    assert!(board.cell_at(0, 0).is_flagged);
    assert!(!board.cell_at(0, 0).is_revealed);
    let mut game = layout_game(4, 1, &[false, false, false, true]);
    game.toggle_flag();
    game.move_cursor(Direction::Right);
    game.reveal_selected();
    let cell = game.board().cell_at(0, 0);
    assert!(cell.is_revealed && !cell.is_flagged);
    assert_eq!(game.state(), GameState::Won);
}

#[test]
fn mine_after_first_move_loses() {
    let mut game = layout_game(4, 1, &[false, true, false, false]);
    game.reveal_selected();
    assert!(!game.first_move());
    assert_eq!(game.state(), GameState::Playing);
    game.move_cursor(Direction::Right);
    game.reveal_selected();
    assert_eq!(game.state(), GameState::Lost);
    assert!(!game.board().cell_at(0, 1).is_revealed);
    game.move_cursor(Direction::Right);
    assert_eq!(game.board().selected_col(), 1);
    game.reveal_selected();
    assert_eq!(game.state(), GameState::Lost);
    assert!(!game.board().cell_at(0, 1).is_revealed);
    assert!(!game.board().cell_at(0, 2).is_revealed);
}

#[test]
fn first_move_safety_on_random_boards() {
    for _ in 0..50 {
        let mut game = Minesweeper::new(3, 3, 8).unwrap();
        let was_mine = game.board().cell_at(0, 0).is_mine;
        game.reveal_selected();
        assert_ne!(game.state(), GameState::Lost);
        let board = game.board();
        assert!(!board.cell_at(0, 0).is_mine);
        assert!(board.cell_at(0, 0).is_revealed);
        assert_eq!(mines_on(board), 8);
        assert_eq!(board.cell_at(0, 0).adjacent_mines, 3);
        let _ = was_mine;
        for row in 0..3 {
            for col in 0..3 {
                assert_eq!(board.cell_at(row, col).adjacent_mines, brute_count(board, row, col));
            }
        }
    }
}

#[test]
fn toggle_flag_twice_and_on_revealed_cell() {
    let mut game = layout_game(2, 1, &[false, true]);
    game.toggle_flag();
    assert!(game.board().cell_at(0, 0).is_flagged);
    game.toggle_flag();
    assert!(!game.board().cell_at(0, 0).is_flagged);
    game.reveal_selected();
    game.toggle_flag();
    assert!(!game.board().cell_at(0, 0).is_flagged);
    assert!(game.board().cell_at(0, 0).is_revealed);
}

#[test]
fn neighbor_indices_follow_compass_order() {
    let board = Board::with_mines(3, 3, &vec![false; 9]).unwrap();
    assert_eq!(
        neighbor_indices(&board, 1, 1),
        [Some(0), Some(1), Some(2), Some(3), Some(5), Some(6), Some(7), Some(8)]
    );
    assert_eq!(neighbor_indices(&board, 0, 0), [None, None, None, None, Some(1), None, Some(3), Some(4)]);
    assert_eq!(neighbor_indices(&board, 2, 2), [Some(4), Some(5), None, Some(7), None, None, None, None]);
}

#[test]
fn nth_free_cell_skips_mines() {
    let mut cells = generate_cells(5, 1).unwrap();
    cells[1].is_mine = true;
    cells[3].is_mine = true;
    assert_eq!(nth_free_cell(&cells, 0), 0);
    assert_eq!(nth_free_cell(&cells, 1), 2);
    assert_eq!(nth_free_cell(&cells, 2), 4);
}

#[test]
fn cell_symbols() {
    let mut cell = Cell::new(0, 0);
    assert_eq!(cell.symbol(), '\u{2022}');
    cell.is_flagged = true;
    assert_eq!(cell.symbol(), 'F');
    cell.is_flagged = false;
    cell.is_revealed = true;
    cell.adjacent_mines = 7;
    assert_eq!(cell.symbol(), '7');
    cell.is_mine = true;
    assert_eq!(cell.symbol(), '*');
}

#[test]
fn handle_dispatches_actions() {
    let mut game = layout_game(2, 2, &[false, false, false, true]);
    assert!(game.handle(Action::Move(Direction::Right)));
    assert_eq!(game.board().selected_col(), 1);
    assert!(game.handle(Action::ToggleFlag));
    assert!(game.board().cell_at(0, 1).is_flagged);
    assert!(game.handle(Action::Move(Direction::Left)));
    assert!(game.handle(Action::Reveal));
    assert!(game.board().cell_at(0, 0).is_revealed);
    assert!(!game.handle(Action::Quit));
}
