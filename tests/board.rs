use chain_reaction::board::{Board, BoardState, CellState, MoveError};
use chain_reaction::color::get_hsl_player_color;

fn drain(b: &mut Board) -> usize {
    let mut steps = 1;
    while b.next_iteration() {
        steps += 1;
    }
    steps
}

#[test]
fn player_cannot_play_if_all_cells_are_lost() {
    let moves = [(0, 0, 0), (1, 0, 1), (2, 0, 2), (0, 0, 0)];
    let mut b = Board::new(4, 4, 3);
    for (player, r, c) in moves {
        assert!(b.player_move(player, r, c).is_ok());
        while b.next_iteration() {}
    }

    // player 1 lost all cells.
    let player_lost_all_cells = 1;
    for rows in b.cells() {
        for cell in rows {
            if let CellState::NonEmpty(owner, _) = cell {
                assert_ne!(owner, player_lost_all_cells);
            }
        }
    }

    // the player cannot play.
    assert_ne!(b.current_player_id(), player_lost_all_cells);
}

#[test]
fn eliminated_player_is_skipped() {
    let moves = [(0, 0, 0), (1, 0, 1), (2, 0, 2), (0, 0, 0)];
    let mut b = Board::new(4, 4, 3);
    for (player, r, c) in moves {
        assert!(b.player_move(player, r, c).is_ok());
        while b.next_iteration() {}
    }
    assert_eq!(b.current_player_id(), 2);
    assert_eq!(b.player_move(1, 3, 3), Err(MoveError::NotCurrentPlayerMove));
    assert_eq!(b.player_move(2, 3, 3), Ok(()));
    assert_eq!(b.current_player_id(), 0);
}

#[test]
fn new_board_is_empty() {
    let board = Board::new(4, 4, 2);
    assert_eq!(board.cells(), vec![vec![CellState::Empty; 4]; 4]);
    assert_eq!(board.current_player_id(), 0);
    assert_eq!(board.state(), &BoardState::Wait);
}

#[test]
fn new_board_has_the_given_shape() {
    let board = Board::new(3, 6, 2);
    let cells = board.cells();
    assert_eq!(cells.len(), 3);
    for row in cells {
        assert_eq!(row.len(), 6);
    }
}

#[test]
fn move_errors_and_explosion() {
    let mut board = Board::new(4, 4, 2);
    assert_eq!(board.player_move(1, 0, 0), Err(MoveError::NotCurrentPlayerMove));
    assert_eq!(board.player_move(0, 0, 0), Ok(()));
    assert_eq!(board.player_move(0, 0, 0), Err(MoveError::NotCurrentPlayerMove));
    assert_eq!(board.player_move(1, 0, 0), Err(MoveError::OtherPlayersCell));
    assert_eq!(board.player_move(1, 5, 0), Err(MoveError::MoveOutsideBoard));
    assert_eq!(board.player_move(1, 0, 4), Err(MoveError::MoveOutsideBoard));
    assert_eq!(board.player_move(1, 1, 0), Ok(()));
    assert_eq!(board.player_move(0, 0, 0), Ok(()));
    assert_eq!(board.state(), &BoardState::Explosion(vec![(0, 0)]));
    assert_eq!(board.player_move(0, 0, 0), Err(MoveError::MoveNotComplete));
    assert!(board.next_iteration());
    assert_eq!(board.state(), &BoardState::CheckWinCondition);
    assert!(!board.next_iteration());
    assert_eq!(board.state(), &BoardState::GameOver(0));
    assert_eq!(board.player_move(0, 0, 0), Err(MoveError::GameOver));
    assert_eq!(board.player_move(1, 2, 2), Err(MoveError::GameOver));
}

#[test]
fn every_player_must_wait_for_the_explosion() {
    let mut board = Board::new(5, 5, 3);
    assert_eq!(board.player_move(0, 0, 0), Ok(()));
    assert_eq!(board.player_move(1, 4, 4), Ok(()));
    assert_eq!(board.player_move(2, 2, 2), Ok(()));
    assert_eq!(board.player_move(0, 0, 0), Ok(()));
    for p in 0..3 {
        assert_eq!(board.player_move(p, 3, 3), Err(MoveError::MoveNotComplete));
    }
    assert!(board.next_iteration());
    assert_eq!(board.state(), &BoardState::CheckWinCondition);
    for p in 0..3 {
        assert_eq!(board.player_move(p, 3, 3), Err(MoveError::MoveNotComplete));
    }
    assert!(!board.next_iteration());
    assert_eq!(board.state(), &BoardState::Wait);
    assert_eq!(board.current_player_id(), 1);
}

#[test]
fn turn_passes_in_order() {
    let mut board = Board::new(3, 3, 3);
    assert_eq!(board.player_move(0, 1, 1), Ok(()));
    assert_eq!(board.current_player_id(), 1);
    assert_eq!(board.player_move(1, 0, 1), Ok(()));
    assert_eq!(board.current_player_id(), 2);
    assert_eq!(board.player_move(2, 2, 1), Ok(()));
    assert_eq!(board.current_player_id(), 0);
}

#[test]
fn stepping_a_waiting_board_does_nothing() {
    let mut board = Board::new(3, 3, 2);
    assert_eq!(board.player_move(0, 1, 1), Ok(()));
    assert!(!board.next_iteration());
    assert_eq!(board.state(), &BoardState::Wait);
    assert_eq!(board.current_player_id(), 1);
}

#[test]
fn snapshot_marks_exploding_cells() {
    let mut board = Board::new(3, 3, 2);
    assert_eq!(board.player_move(0, 0, 0), Ok(()));
    assert_eq!(board.player_move(1, 2, 2), Ok(()));
    assert_eq!(board.player_move(0, 0, 0), Ok(()));
    let cells = board.cells();
    assert_eq!(cells[0][0], CellState::Explosion(0));
    assert_eq!(cells[2][2], CellState::NonEmpty(1, 1));
    assert_eq!(cells[1][1], CellState::Empty);
    assert!(board.next_iteration());
    let cells = board.cells();
    assert_eq!(cells[0][0], CellState::Empty);
    assert_eq!(cells[0][1], CellState::NonEmpty(0, 1));
    assert_eq!(cells[1][0], CellState::NonEmpty(0, 1));
}

#[test]
fn cascade_captures_and_flips_cells() {
    // Player 1 holds (0,1) with 2 atoms, an edge cell one atom short of
    // exploding; player 0's corner explosion pushes it over.
    let mut board = Board::new(3, 3, 2);
    assert_eq!(board.player_move(0, 0, 0), Ok(()));
    assert_eq!(board.player_move(1, 0, 1), Ok(()));
    assert_eq!(board.player_move(0, 2, 2), Ok(()));
    assert_eq!(board.player_move(1, 0, 1), Ok(()));
    assert_eq!(board.player_move(0, 0, 0), Ok(()));
    assert!(board.next_iteration());
    assert_eq!(board.state(), &BoardState::Explosion(vec![(0, 1)]));
    let cells = board.cells();
    assert_eq!(cells[0][1], CellState::Explosion(0));
    assert_eq!(cells[1][0], CellState::NonEmpty(0, 1));
    assert!(board.next_iteration());
    let cells = board.cells();
    assert_eq!(cells[0][0], CellState::NonEmpty(0, 1));
    assert_eq!(cells[0][2], CellState::NonEmpty(0, 1));
    assert_eq!(cells[1][1], CellState::NonEmpty(0, 1));
    assert_eq!(board.state(), &BoardState::CheckWinCondition);
    assert!(!board.next_iteration());
    assert_eq!(board.state(), &BoardState::GameOver(0));
}

#[test]
fn crowded_board_cascade_does_not_settle() {
    let moves = [
        (0, 2, 0), (1, 2, 1), (0, 0, 0), (1, 1, 0), (0, 1, 2), (1, 1, 1), (0, 1, 2),
        (1, 1, 0), (0, 1, 2), (1, 1, 2), (0, 2, 0), (1, 0, 0),
    ];
    let mut board = Board::new(3, 3, 2);
    for (player, r, c) in moves {
        assert_eq!(board.player_move(player, r, c), Ok(()));
        assert!(drain(&mut board) < 100);
    }
    assert_eq!(board.player_move(0, 2, 0), Ok(()));
    for _ in 0..10_000 {
        assert!(board.next_iteration());
    }
}

#[test]
fn player_colours_spread_round_the_wheel() {
    assert_eq!(get_hsl_player_color(0, 4), (0, 50, 50));
    assert_eq!(get_hsl_player_color(1, 4), (90, 50, 50));
    assert_eq!(get_hsl_player_color(2, 3), (240, 50, 50));
}
