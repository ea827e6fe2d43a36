use tictactoe::GameResult::PlayerWon;
use tictactoe::MNKBoard;
use tictactoe::Player::Player1;
use tictactoe::Player::Player2;

#[test]
fn three_by_three_test_1() {
    let board = MNKBoard::from_rows(
        3,
        vec![
            vec![Some(Player1), None, None],
            vec![Some(Player1), None, None],
            vec![Some(Player1), None, None],
        ],
        Player1,
    );

    assert_eq!(board.winner(), Some(PlayerWon(Player1)));
    assert_eq!(board.moves(), vec![(1, 0), (2, 0), (1, 1), (2, 1), (1, 2), (2, 2)]);
}

#[test]
fn three_by_three_test_2() {
    let board = MNKBoard::from_rows(
        3,
        vec![
            vec![None, Some(Player2), None],
            vec![None, Some(Player2), None],
            vec![None, Some(Player2), None],
        ],
        Player1,
    );

    assert_eq!(board.winner(), Some(PlayerWon(Player2)));
}

#[test]
fn three_by_three_test_3() {
    let board = MNKBoard::from_rows(
        3,
        vec![
            vec![None, Some(Player2), None],
            vec![None, Some(Player2), None],
            vec![None, Some(Player1), None],
        ],
        Player1,
    );

    assert_eq!(board.winner(), None);
}

#[test]
fn three_by_three_test_4() {
    let board = MNKBoard::from_rows(
        2,
        vec![
            vec![None, Some(Player2), None],
            vec![None, Some(Player2), None],
            vec![None, Some(Player1), None],
        ],
        Player1,
    );

    assert_eq!(board.winner(), Some(PlayerWon(Player2)));
}

#[test]
fn three_by_three_test_5() {
    let board = MNKBoard::from_rows(
        3,
        vec![
            vec![None, Some(Player2), None],
            vec![None, Some(Player1), None],
            vec![Some(Player2), Some(Player2), Some(Player2)],
        ],
        Player1,
    );

    assert_eq!(board.winner(), Some(PlayerWon(Player2)));
}

#[test]
fn three_by_three_test_6() {
    let board = MNKBoard::from_rows(
        2,
        vec![
            vec![None, Some(Player2), None],
            vec![None, Some(Player1), None],
            vec![Some(Player2), None, Some(Player1)],
        ],
        Player1,
    );

    assert_eq!(board.winner(), Some(PlayerWon(Player1)));
}

#[test]
fn three_by_three_test_7() {
    let board = MNKBoard::from_rows(
        2,
        vec![
            vec![None, Some(Player2), None],
            vec![Some(Player1), None, None],
            vec![Some(Player2), Some(Player1), None],
        ],
        Player1,
    );

    assert_eq!(board.winner(), Some(PlayerWon(Player1)));
    assert_eq!(board.moves(), vec![(0, 0), (2, 0), (1, 1), (2, 1), (2, 2)]);
}

#[test]
fn three_by_three_test_8() {
    let board = MNKBoard::from_rows(
        2,
        vec![
            vec![None, Some(Player2), None],
            vec![Some(Player1), None, Some(Player2)],
            vec![Some(Player2), None, None],
        ],
        Player1,
    );

    assert_eq!(board.winner(), Some(PlayerWon(Player2)));
}

#[test]
fn three_by_three_test_9() {
    let board = MNKBoard::from_rows(
        2,
        vec![
            vec![None, Some(Player2), None],
            vec![Some(Player1), None, Some(Player2)],
        ],
        Player1,
    );

    assert_eq!(board.winner(), Some(PlayerWon(Player2)));
}

#[test]
fn three_by_three_test_10() {
    let board = MNKBoard::from_rows(
        2,
        vec![
            vec![None, Some(Player2)],
            vec![Some(Player1), None],
            vec![Some(Player2), Some(Player1)],
        ],
        Player1,
    );

    assert_eq!(board.winner(), Some(PlayerWon(Player1)));
}

#[test]
fn three_by_three_test_11() {
    let board = MNKBoard::from_rows(
        2,
        vec![
            vec![None, Some(Player1)],
            vec![None, Some(Player2)],
            vec![Some(Player2), Some(Player1)],
        ],
        Player1,
    );

    assert_eq!(board.winner(), Some(PlayerWon(Player2)));
}

#[test]
fn three_by_three_test_12() {
    let board = MNKBoard::from_rows(
        2,
        vec![
            vec![None, Some(Player2), None],
            vec![Some(Player2), None, Some(Player1)],
        ],
        Player1,
    );

    assert_eq!(board.winner(), Some(PlayerWon(Player2)));
}

#[test]
fn three_by_three_test_13() {
    let board = MNKBoard::from_rows(
        2,
        vec![
            vec![None, None, None],
            vec![None, None, Some(Player1)],
            vec![None, Some(Player1), None],
        ],
        Player1,
    );

    assert_eq!(board.winner(), Some(PlayerWon(Player1)));
}
