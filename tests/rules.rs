use rust_nmm::nmm::{Action, Color, ErrorKind, Game, Phase};

fn play(game: &mut Game, actions: &[&str]) {
    for text in actions {
        let action: Action = text.parse().expect("parse failed");
        assert_eq!(game.action(action), Ok(()), "refused: {}", text);
    }
}

fn act(game: &mut Game, text: &str) -> Result<(), ErrorKind> {
    let action: Action = text.parse().expect("parse failed");
    game.action(action)
}

const CAPTURE_GAME: [&str; 31] = [
    "W P 13", "B P 0", "W P 6", "B P 2", "W P 21", "B P 1", "B R 6", "W P 5", "W R 1", "B P 1",
    "B R 5", "W P 5", "W R 1", "B P 1", "B R 13", "W P 13", "W R 1", "B P 1", "B R 21", "W P 21",
    "W R 0", "B P 0", "B R 13", "W P 13", "W R 1", "B P 1", "B R 13", "W P 13", "W R 2", "B P 2",
    "B R 5",
];

const STALEMATE_GAME: [&str; 34] = [
    "W P 1", "B P 3", "W P 0", "B P 10", "W P 2", "W R 10", "B P 10", "W P 4", "B P 21", "W P 14",
    "B P 5", "W P 6", "B P 13", "B R 14", "W P 7", "W R 10", "B P 15", "W P 18", "B P 9", "W P 19",
    "B P 17", "W M 19 11", "B M 9 8", "W M 18 19", "B M 13 14", "B R 11", "W M 19 11", "B M 17 9",
    "W M 11 10", "B M 14 13", "B R 4", "W M 10 11", "B M 13 14", "B R 11",
];

const FLYING_SETUP: [&str; 28] = [
    "W P 20", "B P 1", "W P 22", "B P 9", "W P 18", "B P 17", "B R 22", "W P 19", "W R 1", "B P 1",
    "B R 18", "W P 18", "W R 1", "B P 1", "B R 18", "W P 18", "W R 17", "B P 17", "B R 19",
    "W P 12", "B P 10", "W P 11", "B P 8", "B R 12", "W P 19", "W R 10", "B P 10", "B R 11",
];

#[test]
fn mill_opens_removal_then_removal_clears_point() {
    let mut game = Game::new();
    play(&mut game, &["W P 0", "B P 1", "W P 6", "B P 2", "W P 7"]);
    assert_eq!(game.phase(), Phase::AwaitingRemoval(Color::White));
    assert_eq!(game.turn(), Color::White);
    play(&mut game, &["W R 2"]);
    assert_eq!(game.points()[2], None);
    assert_eq!(game.points()[0], Some(Color::White));
    assert_eq!(game.winner(), None);
    assert_eq!(game.phase(), Phase::Placing);
    assert_eq!(game.turn(), Color::Black);
}

#[test]
fn pieces_all_in_one_mill_can_be_removed() {
    let mut game = Game::new();
    play(&mut game, &["W P 8", "B P 0", "W P 9", "B P 1", "W P 16", "B P 2", "B R 16", "W P 10"]);
    assert_eq!(game.phase(), Phase::AwaitingRemoval(Color::White));
    assert_eq!(act(&mut game, "W R 0"), Ok(()));
    assert_eq!(game.points()[0], None);
}

#[test]
fn piece_in_mill_is_protected_while_others_are_free() {
    let mut game = Game::new();
    play(&mut game, &["W P 8", "B P 0", "W P 9", "B P 1", "W P 16", "B P 2", "B R 16", "W P 3"]);
    play(&mut game, &["B P 20", "W P 10"]);
    assert_eq!(act(&mut game, "W R 1"), Err(ErrorKind::ProtectedByMill));
    assert_eq!(act(&mut game, "W R 20"), Ok(()));
}

#[test]
fn out_of_bounds_points_are_refused() {
    let mut game = Game::new();
    assert_eq!(act(&mut game, "W P 24"), Err(ErrorKind::OutOfBounds));
    assert_eq!(act(&mut game, "W R 24"), Err(ErrorKind::OutOfBounds));
    assert_eq!(act(&mut game, "W M 3 24"), Err(ErrorKind::OutOfBounds));
    assert!(game.points().iter().all(|p| p.is_none()));
    assert_eq!(game.undo(), Err(ErrorKind::NothingToUndo));
}

#[test]
fn flying_allows_any_empty_destination() {
    let mut game = Game::new();
    play(&mut game, &FLYING_SETUP);
    assert_eq!(game.phase(), Phase::Moving);
    assert_eq!(game.turn(), Color::White);
    // White has three pieces: 18 to 0 is not a line of the board, yet allowed.
    assert_eq!(act(&mut game, "W M 18 0"), Ok(()));
    assert_eq!(game.points()[0], Some(Color::White));
    assert_eq!(game.points()[18], None);
    // Black has five pieces: 1 to 3 is not adjacent.
    assert_eq!(act(&mut game, "B M 1 3"), Err(ErrorKind::IllegalMove));
    assert_eq!(act(&mut game, "B M 1 2"), Ok(()));
}

#[test]
fn reducing_to_two_pieces_wins() {
    let mut game = Game::new();
    play(&mut game, &CAPTURE_GAME[..30]);
    assert_eq!(game.winner(), None);
    play(&mut game, &CAPTURE_GAME[30..]);
    assert_eq!(game.winner(), Some(Color::Black));
    assert_eq!(game.phase(), Phase::GameOver(Color::Black));
    let whites = game.points().iter().filter(|p| **p == Some(Color::White)).count();
    assert_eq!(whites, 2);
}

#[test]
fn no_legal_move_loses() {
    let mut game = Game::new();
    play(&mut game, &STALEMATE_GAME);
    assert_eq!(game.winner(), Some(Color::Black));
    let whites = game.points().iter().filter(|p| **p == Some(Color::White)).count();
    assert!(whites > 3);
}

#[test]
fn finished_game_refuses_every_action_but_undo_reopens_it() {
    let mut game = Game::new();
    play(&mut game, &STALEMATE_GAME);
    let before = *game.points();
    assert_eq!(act(&mut game, "W M 0 8"), Err(ErrorKind::GameOver));
    assert_eq!(act(&mut game, "B M 14 13"), Err(ErrorKind::GameOver));
    assert_eq!(*game.points(), before);
    assert_eq!(game.undo(), Ok(()));
    assert_eq!(game.winner(), None);
    assert_eq!(game.phase(), Phase::AwaitingRemoval(Color::Black));
}

#[test]
fn undoing_everything_restores_the_empty_board() {
    let mut game = Game::new();
    play(&mut game, &CAPTURE_GAME);
    for _ in 0..CAPTURE_GAME.len() {
        assert_eq!(game.undo(), Ok(()));
    }
    assert!(game.points().iter().all(|p| p.is_none()));
    assert_eq!(game.winner(), None);
    assert_eq!(game.phase(), Phase::Placing);
    assert_eq!(game.turn(), Color::White);
    assert_eq!(game.undo(), Err(ErrorKind::NothingToUndo));
}

#[test]
fn undo_then_redo_gives_the_same_board() {
    let mut game = Game::new();
    play(&mut game, &STALEMATE_GAME[..25]);
    let snapshot = *game.points();
    assert_eq!(game.undo(), Ok(()));
    assert_eq!(game.undo(), Ok(()));
    play(&mut game, &STALEMATE_GAME[23..25]);
    assert_eq!(*game.points(), snapshot);
}

#[test]
fn refused_action_changes_nothing() {
    let mut game = Game::new();
    play(&mut game, &["W P 0", "B P 1"]);
    let before = *game.points();
    assert_eq!(act(&mut game, "W P 1"), Err(ErrorKind::IllegalPlace));
    assert_eq!(act(&mut game, "B P 2"), Err(ErrorKind::WrongPlayer));
    assert_eq!(*game.points(), before);
    assert_eq!(game.winner(), None);
    assert_eq!(game.undo(), Ok(()));
    assert_eq!(game.undo(), Ok(()));
    assert_eq!(game.undo(), Err(ErrorKind::NothingToUndo));
}

#[test]
fn each_error_kind_has_an_input() {
    let mut game = Game::new();
    assert_eq!(act(&mut game, "B P 0"), Err(ErrorKind::WrongPlayer));
    assert_eq!(act(&mut game, "W M 0 1"), Err(ErrorKind::IllegalMove));
    assert_eq!(act(&mut game, "W R 0"), Err(ErrorKind::IllegalRemove));
    play(&mut game, &["W P 0", "B P 1", "W P 6", "B P 2", "W P 7"]);
    assert_eq!(act(&mut game, "W R 0"), Err(ErrorKind::IllegalRemove));
    assert_eq!(act(&mut game, "W R 3"), Err(ErrorKind::IllegalRemove));
    assert_eq!(act(&mut game, "W P 3"), Err(ErrorKind::IllegalPlace));
    assert_eq!(act(&mut game, "B R 0"), Err(ErrorKind::WrongPlayer));
}

#[test]
fn ninth_piece_ends_placing() {
    let mut game = Game::new();
    play(
        &mut game,
        &[
            "W P 0", "B P 1", "W P 2", "B P 3", "W P 5", "B P 4", "W P 6", "B P 7", "W P 9",
            "B P 8", "W P 11", "B P 10", "W P 12", "B P 13", "W P 15", "B P 14", "W P 16",
            "B P 17",
        ],
    );
    assert_eq!(game.phase(), Phase::Moving);
    assert_eq!(game.turn(), Color::White);
    assert_eq!(act(&mut game, "W P 18"), Err(ErrorKind::IllegalPlace));
}
