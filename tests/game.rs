use connect_four::board::{MoveError, Player, Point};
use connect_four::game::{Game, Status};
use connect_four::input::Command;

fn cells(game: &Game) -> Vec<Option<Player>> {
    let mut out = Vec::new();
    for column in 1..=7u16 {
        for row in 1..=6u16 {
            out.push(game.board().occupant(Point { column, row }));
        }
    }
    out
}

#[test]
fn new_game_awaits_player_one() {
    let game = Game::new();
    assert_eq!(game.status(), Status::AwaitingMove(Player::One));
    assert!(cells(&game).iter().all(|c| c.is_none()));
}

#[test]
fn moves_alternate_between_players() {
    let mut game = Game::new();
    assert_eq!(game.play("3"), Ok(Some(Point { column: 3, row: 6 })));
    assert_eq!(game.status(), Status::AwaitingMove(Player::Two));
    assert_eq!(game.play("3"), Ok(Some(Point { column: 3, row: 5 })));
    assert_eq!(game.status(), Status::AwaitingMove(Player::One));
    assert_eq!(game.board().occupant(Point { column: 3, row: 6 }), Some(Player::One));
    assert_eq!(game.board().occupant(Point { column: 3, row: 5 }), Some(Player::Two));
}

#[test]
fn four_in_column_four_wins_for_player_one() {
    let mut game = Game::new();
    for line in ["4", "1", "4", "1", "4", "2"] {
        game.begin_turn();
        game.play(line).unwrap();
    }
    game.begin_turn();
    assert_eq!(game.status(), Status::AwaitingMove(Player::One));
    assert_eq!(game.play("4"), Ok(Some(Point { column: 4, row: 3 })));
    assert_eq!(game.status(), Status::Won(Player::One));
}

#[test]
fn diagonal_run_wins() {
    let mut game = Game::new();
    // Player one ends on (1,6), (2,5), (3,4), (4,3).
    for line in ["1", "2", "2", "3", "4", "3", "3", "4", "5", "4"] {
        game.play(line).unwrap();
        assert!(matches!(game.status(), Status::AwaitingMove(_)));
    }
    assert_eq!(game.status(), Status::AwaitingMove(Player::One));
    assert_eq!(game.play("4"), Ok(Some(Point { column: 4, row: 3 })));
    assert_eq!(game.status(), Status::Won(Player::One));
}

#[test]
fn full_board_without_a_run_is_a_tie() {
    let moves = "457544325371553132746712736675232662164141";
    let mut game = Game::new();
    for (i, c) in moves.chars().enumerate() {
        game.begin_turn();
        let player = if i % 2 == 0 { Player::One } else { Player::Two };
        assert_eq!(game.status(), Status::AwaitingMove(player));
        game.play(&c.to_string()).unwrap();
    }
    assert_eq!(game.status(), Status::AwaitingMove(Player::One));
    assert!(game.board().is_full());
    game.begin_turn();
    assert_eq!(game.status(), Status::Tied);
}

#[test]
fn quit_leaves_the_board_unchanged() {
    let mut game = Game::new();
    game.play("2").unwrap();
    game.play("5").unwrap();
    let before = cells(&game);
    assert_eq!(game.play("q"), Ok(None));
    assert_eq!(game.status(), Status::Quit);
    assert_eq!(cells(&game), before);

    let mut other = Game::new();
    assert_eq!(other.play(" Q "), Ok(None));
    assert_eq!(other.status(), Status::Quit);
}

#[test]
fn invalid_input_changes_nothing() {
    let mut game = Game::new();
    game.play("6").unwrap();
    let before = cells(&game);
    for line in ["8", "0", "abc"] {
        assert_eq!(game.play(line), Err(MoveError::InvalidInput));
        assert_eq!(game.status(), Status::AwaitingMove(Player::Two));
        assert_eq!(cells(&game), before);
    }
}

#[test]
fn full_column_is_refused_and_changes_nothing() {
    let mut game = Game::new();
    for _ in 0..6 {
        game.play("7").unwrap();
    }
    let before = cells(&game);
    assert_eq!(game.status(), Status::AwaitingMove(Player::One));
    assert_eq!(game.play("7"), Err(MoveError::ColumnFull));
    assert_eq!(game.apply(Command::Column(7)), Err(MoveError::ColumnFull));
    assert_eq!(game.status(), Status::AwaitingMove(Player::One));
    assert_eq!(cells(&game), before);
}

#[test]
fn apply_quit_command() {
    let mut game = Game::new();
    assert_eq!(game.apply(Command::Column(1)), Ok(Some(Point { column: 1, row: 6 })));
    assert_eq!(game.apply(Command::Quit), Ok(None));
    assert_eq!(game.status(), Status::Quit);
}

#[test]
fn begin_turn_keeps_a_game_in_progress() {
    let mut game = Game::new();
    game.begin_turn();
    assert_eq!(game.status(), Status::AwaitingMove(Player::One));
}
