use tictactoe::GameError;
use tictactoe::GameResult::Draw;
use tictactoe::GameResult::PlayerWon;
use tictactoe::MNKBoard;
use tictactoe::Player::Player1;
use tictactoe::Player::Player2;
use tictactoe::bar;

#[test]
fn new_board_is_empty() {
    let board = MNKBoard::new(3, 3, 3);
    assert_eq!(board.width(), 3);
    assert_eq!(board.height(), 3);
    assert_eq!(board.win_len(), 3);
    assert_eq!(board.current_player(), Player1);
    for y in 0..3 {
        for x in 0..3 {
            assert_eq!(board.cell(x, y), None);
        }
    }
    assert_eq!(board.winner(), None);
    assert_eq!(board.moves().len(), 9);
}

#[test]
fn moves_plus_occupied_is_cell_count() {
    let board = MNKBoard::from_rows(
        2,
        vec![
            vec![None, Some(Player2), None],
            vec![Some(Player1), None, None],
            vec![Some(Player2), Some(Player1), None],
        ],
        Player1,
    );
    let mut occupied = 0;
    for y in 0..3 {
        for x in 0..3 {
            if board.cell(x, y).is_some() {
                occupied += 1;
            }
        }
    }
    assert_eq!(board.moves().len() + occupied, 9);
}

#[test]
fn execute_then_undo_restores_board() {
    let mut board = MNKBoard::new(3, 3, 3);
    assert_eq!(board.execute_move((0, 0)), Ok(()));
    assert_eq!(board.execute_move((1, 2)), Ok(()));
    let snapshot = board.clone();
    assert_eq!(board.execute_move((2, 1)), Ok(()));
    assert_eq!(board.undo_move((2, 1)), Ok(()));
    assert_eq!(board.current_player(), snapshot.current_player());
    for y in 0..3 {
        for x in 0..3 {
            assert_eq!(board.cell(x, y), snapshot.cell(x, y));
        }
    }
}

#[test]
fn execute_on_occupied_cell_fails_and_preserves_board() {
    let mut board = MNKBoard::new(3, 3, 3);
    assert_eq!(board.execute_move((1, 1)), Ok(()));
    assert_eq!(board.execute_move((1, 1)), Err(GameError::PositionOccupied));
    assert_eq!(board.cell(1, 1), Some(Player1));
    assert_eq!(board.current_player(), Player2);
}

#[test]
fn execute_out_of_bounds_fails() {
    let mut board = MNKBoard::new(3, 3, 3);
    assert_eq!(board.execute_move((3, 0)), Err(GameError::OutOfBounds));
    assert_eq!(board.execute_move((0, 7)), Err(GameError::OutOfBounds));
    assert_eq!(board.current_player(), Player1);
}

#[test]
fn undo_on_empty_cell_fails() {
    let mut board = MNKBoard::new(3, 3, 3);
    assert_eq!(board.undo_move((0, 0)), Err(GameError::PositionEmpty));
    assert_eq!(board.current_player(), Player1);
}

#[test]
fn undo_out_of_bounds_fails() {
    let mut board = MNKBoard::new(3, 3, 3);
    assert_eq!(board.undo_move((9, 9)), Err(GameError::OutOfBounds));
}

#[test]
fn current_player_alternates() {
    let mut board = MNKBoard::new(3, 3, 3);
    assert_eq!(board.current_player(), Player1);
    assert_eq!(board.execute_move((0, 0)), Ok(()));
    assert_eq!(board.current_player(), Player2);
    assert_eq!(board.execute_move((1, 0)), Ok(()));
    assert_eq!(board.current_player(), Player1);
    assert_eq!(board.undo_move((1, 0)), Ok(()));
    assert_eq!(board.current_player(), Player2);
    assert_eq!(board.undo_move((0, 0)), Ok(()));
    assert_eq!(board.current_player(), Player1);
}

#[test]
fn full_board_without_line_is_a_draw() {
    let board = MNKBoard::from_rows(
        3,
        vec![
            vec![Some(Player1), Some(Player2), Some(Player1)],
            vec![Some(Player1), Some(Player2), Some(Player2)],
            vec![Some(Player2), Some(Player1), Some(Player1)],
        ],
        Player1,
    );
    assert_eq!(board.winner(), Some(Draw));
    assert_eq!(board.moves(), Vec::<(usize, usize)>::new());
}

#[test]
fn next_move_scans_in_row_major_order() {
    let board = MNKBoard::from_rows(
        2,
        vec![vec![Some(Player1), None], vec![None, Some(Player2)]],
        Player2,
    );
    assert_eq!(board.next_move(None), Some((1, 0)));
    assert_eq!(board.next_move(Some((1, 0))), Some((0, 1)));
    assert_eq!(board.next_move(Some((0, 1))), None);
    assert_eq!(board.moves(), vec![(1, 0), (0, 1)]);
}

#[test]
fn winning_move_reports_only_completed_runs() {
    let board = MNKBoard::from_rows(
        3,
        vec![
            vec![Some(Player1), None, None],
            vec![Some(Player1), None, Some(Player2)],
            vec![Some(Player1), None, None],
        ],
        Player2,
    );
    assert!(board.winning_move((0, 0)));
    assert!(board.winning_move((0, 1)));
    assert!(!board.winning_move((2, 1)));
    assert!(!board.winning_move((1, 1)));
}

#[test]
fn anti_diagonal_pair_wins_on_two_by_three() {
    let board = MNKBoard::from_rows(
        2,
        vec![
            vec![None, None],
            vec![None, Some(Player1)],
            vec![Some(Player1), None],
        ],
        Player2,
    );
    assert_eq!(board.winner(), Some(PlayerWon(Player1)));
    assert!(board.winning_move((1, 1)));
    assert!(board.winning_move((0, 2)));
}

#[test]
fn render_draws_marks_and_separators() {
    let board = MNKBoard::from_rows(
        3,
        vec![
            vec![Some(Player1), None, None],
            vec![None, Some(Player2), None],
            vec![Some(Player1), None, None],
        ],
        Player1,
    );
    let text: String = board.render().into_iter().collect();
    assert_eq!(text, "X| | \n-----\n |O| \n-----\nX| | \n");
}

#[test]
fn render_single_row_board() {
    let mut board = MNKBoard::new(4, 1, 2);
    assert_eq!(board.execute_move((2, 0)), Ok(()));
    let text: String = board.render().into_iter().collect();
    assert_eq!(text, " | |X| \n");
}

#[test]
fn player_marks_and_turn_order() {
    assert_eq!(Player1.mark(), 'X');
    assert_eq!(Player2.mark(), 'O');
    assert_eq!(Player1.get_next(), Player2);
    assert_eq!(Player2.get_next(), Player1);
    assert_eq!(Player1.get_last(), Player2);
    assert_eq!(Player2.get_last(), Player1);
}

#[test]
fn bar_returns_fixed_triple() {
    assert_eq!(bar(), [1, 2, 3]);
}

#[test]
fn parse_input_reads_first_two_digits() {
    assert_eq!(tictactoe::parse_input("12"), Some((1, 2)));
    assert_eq!(tictactoe::parse_input("a7 b 3x"), Some((7, 3)));
    assert_eq!(tictactoe::parse_input("0 0"), Some((0, 0)));
}

#[test]
fn parse_input_rejects_short_or_strange_input() {
    assert_eq!(tictactoe::parse_input(""), None);
    assert_eq!(tictactoe::parse_input("5"), None);
    assert_eq!(tictactoe::parse_input("no digits here"), None);
}
