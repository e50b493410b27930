use connect_four::board::{Board, MoveError, Player, Point};

fn drop_all(board: &mut Board, moves: &[(u16, Player)]) {
    for &(column, player) in moves {
        board.place(column, player).unwrap();
    }
}

#[test]
fn empty_board_has_no_pieces() {
    let board = Board::new();
    for column in 1..=7u16 {
        assert_eq!(board.column_height(column), 0);
        assert_eq!(board.next_drop_row(column), Ok(6));
        for row in 1..=6u16 {
            assert_eq!(board.occupant(Point { column, row }), None);
        }
    }
    assert!(!board.is_full());
}

#[test]
fn pieces_stack_from_the_bottom() {
    let mut board = Board::new();
    assert_eq!(board.place(3, Player::One), Ok(Point { column: 3, row: 6 }));
    assert_eq!(board.place(3, Player::Two), Ok(Point { column: 3, row: 5 }));
    assert_eq!(board.column_height(3), 2);
    assert_eq!(board.next_drop_row(3), Ok(4));
    assert_eq!(board.occupant(Point { column: 3, row: 6 }), Some(Player::One));
    assert_eq!(board.occupant(Point { column: 3, row: 5 }), Some(Player::Two));
    assert_eq!(board.occupant(Point { column: 3, row: 4 }), None);
    assert_eq!(board.column_height(2), 0);
}

#[test]
fn place_on_full_column_fails_and_changes_nothing() {
    let mut board = Board::new();
    for i in 0..6u16 {
        let player = if i % 2 == 0 { Player::One } else { Player::Two };
        assert_eq!(board.place(5, player), Ok(Point { column: 5, row: 6 - i }));
    }
    assert_eq!(board.column_height(5), 6);
    assert_eq!(board.next_drop_row(5), Err(MoveError::ColumnFull));
    assert_eq!(board.place(5, Player::One), Err(MoveError::ColumnFull));
    assert_eq!(board.place(5, Player::Two), Err(MoveError::ColumnFull));
    assert_eq!(board.column_height(5), 6);
    assert_eq!(board.occupant(Point { column: 5, row: 1 }), Some(Player::Two));
    assert_eq!(board.occupant(Point { column: 5, row: 6 }), Some(Player::One));
}

#[test]
fn cells_outside_the_grid_are_empty() {
    let mut board = Board::new();
    board.place(1, Player::One).unwrap();
    assert_eq!(board.occupant(Point { column: 0, row: 6 }), None);
    assert_eq!(board.occupant(Point { column: 8, row: 6 }), None);
    assert_eq!(board.occupant(Point { column: 1, row: 7 }), None);
    assert_eq!(board.occupant(Point { column: 1, row: 0 }), None);
}

#[test]
fn board_is_full_after_forty_two_pieces() {
    let mut board = Board::new();
    for column in 1..=7u16 {
        for _ in 0..6 {
            assert!(!board.is_full());
            board.place(column, Player::One).unwrap();
        }
    }
    assert!(board.is_full());
}

#[test]
fn vertical_four_wins() {
    let mut board = Board::new();
    let mut last = Point { column: 0, row: 0 };
    for expected_row in [6u16, 5, 4, 3] {
        last = board.place(4, Player::One).unwrap();
        assert_eq!(last, Point { column: 4, row: expected_row });
        if expected_row != 3 {
            assert!(!board.is_winning_move(Player::One, last));
        }
    }
    assert!(board.is_winning_move(Player::One, last));
    assert!(!board.is_winning_move(Player::Two, last));
}

#[test]
fn rising_diagonal_four_wins() {
    let mut board = Board::new();
    drop_all(
        &mut board,
        &[
            (1, Player::One),
            (2, Player::Two),
            (2, Player::One),
            (3, Player::Two),
            (3, Player::Two),
            (3, Player::One),
            (4, Player::Two),
            (4, Player::Two),
            (4, Player::Two),
        ],
    );
    let last = board.place(4, Player::One).unwrap();
    assert_eq!(last, Point { column: 4, row: 3 });
    assert_eq!(board.occupant(Point { column: 1, row: 6 }), Some(Player::One));
    assert_eq!(board.occupant(Point { column: 2, row: 5 }), Some(Player::One));
    assert_eq!(board.occupant(Point { column: 3, row: 4 }), Some(Player::One));
    assert!(board.is_winning_move(Player::One, last));
}

#[test]
fn horizontal_four_wins_from_the_middle() {
    let mut board = Board::new();
    drop_all(&mut board, &[(2, Player::Two), (3, Player::Two), (5, Player::Two)]);
    let last = board.place(4, Player::Two).unwrap();
    assert!(board.is_winning_move(Player::Two, last));
}

#[test]
fn three_in_a_row_does_not_win() {
    let mut board = Board::new();
    drop_all(&mut board, &[(1, Player::One), (2, Player::One)]);
    let last = board.place(3, Player::One).unwrap();
    assert!(!board.is_winning_move(Player::One, last));
}

#[test]
fn opponent_piece_breaks_a_run() {
    let mut board = Board::new();
    drop_all(
        &mut board,
        &[(1, Player::One), (2, Player::One), (3, Player::Two), (4, Player::One)],
    );
    let last = board.place(5, Player::One).unwrap();
    assert!(!board.is_winning_move(Player::One, last));
}

#[test]
fn empty_cell_does_not_break_a_run() {
    // The scan skips an empty cell without resetting its counter, so three
    // pieces on one side of a gap and one on the other count as four.
    let mut board = Board::new();
    drop_all(&mut board, &[(2, Player::One), (3, Player::One), (6, Player::One)]);
    let last = board.place(5, Player::One).unwrap();
    assert_eq!(board.occupant(Point { column: 4, row: 6 }), None);
    assert!(board.is_winning_move(Player::One, last));
}

#[test]
fn win_check_agrees_on_mirrored_boards() {
    let moves = [
        (1, Player::One),
        (2, Player::Two),
        (2, Player::One),
        (3, Player::Two),
        (3, Player::Two),
        (3, Player::One),
        (4, Player::Two),
        (4, Player::Two),
        (4, Player::Two),
        (6, Player::One),
    ];
    let mut board = Board::new();
    let mut mirrored = Board::new();
    for &(column, player) in moves.iter() {
        let a = board.place(column, player).unwrap();
        let b = mirrored.place(8 - column, player).unwrap();
        assert_eq!(b, Point { column: 8 - a.column, row: a.row });
        assert_eq!(
            board.is_winning_move(player, a),
            mirrored.is_winning_move(player, b)
        );
    }
    let a = board.place(4, Player::One).unwrap();
    let b = mirrored.place(4, Player::One).unwrap();
    assert!(board.is_winning_move(Player::One, a));
    assert!(mirrored.is_winning_move(Player::One, b));
}

#[test]
fn win_check_twice_gives_the_same_answer() {
    let mut board = Board::new();
    drop_all(&mut board, &[(4, Player::One), (4, Player::One), (4, Player::One)]);
    let last = board.place(4, Player::One).unwrap();
    let first = board.is_winning_move(Player::One, last);
    let second = board.is_winning_move(Player::One, last);
    assert!(first);
    assert_eq!(first, second);
    let below = Point { column: 4, row: 5 };
    assert_eq!(
        board.is_winning_move(Player::Two, below),
        board.is_winning_move(Player::Two, below)
    );
}

#[test]
fn players_alternate_and_have_labels() {
    assert_eq!(Player::One.other(), Player::Two);
    assert_eq!(Player::Two.other(), Player::One);
    assert_eq!(Player::One.label(), "one");
    assert_eq!(Player::Two.label(), "two");
}
