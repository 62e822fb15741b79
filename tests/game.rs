use snowman::display::Slot;
use snowman::game::{Game, Outcome, TurnReport, MAX_WRONG};
use snowman::validate::RejectReason;

fn hit(game: &mut Game, g: &str) -> TurnReport {
    let r = game.submit(g).unwrap();
    assert_eq!(r.render_stage, None);
    r
}

#[test]
fn new_game_keeps_word_in_lower_case() {
    let game = Game::new("CaT");
    assert_eq!(game.word(), "cat");
    assert_eq!(game.wrong_guesses(), 0);
    assert_eq!(game.tries_left(), MAX_WRONG);
    assert_eq!(game.outcome(), Outcome::InProgress);
    assert_eq!(game.display().0, vec![Slot::Blank, Slot::Blank, Slot::Blank]);
}

#[test]
fn win_scenario() {
    let mut game = Game::new("cat");
    let r = hit(&mut game, "c");
    assert_eq!(r.outcome, Outcome::InProgress);
    assert!(!r.fully_revealed);
    let r = hit(&mut game, "a");
    assert!(!r.fully_revealed);
    let r = hit(&mut game, "t");
    assert!(r.fully_revealed);
    assert_eq!(r.outcome, Outcome::Won);
    assert_eq!(game.wrong_guesses(), 0);
    assert_eq!(game.outcome(), Outcome::Won);
}

#[test]
fn loss_scenario() {
    let mut game = Game::new("cat");
    let mut stages = Vec::new();
    for g in ["x", "y", "z", "q", "w", "r"] {
        let r = game.submit(g).unwrap();
        stages.push(r.render_stage.unwrap());
        assert!(!r.fully_revealed);
    }
    assert_eq!(stages, vec![1, 2, 3, 4, 5, 6]);
    assert_eq!(game.wrong_guesses(), 6);
    assert_eq!(game.tries_left(), 0);
    assert_eq!(game.outcome(), Outcome::Lost);
}

#[test]
fn mixed_scenario() {
    let mut game = Game::new("dog");
    let r = hit(&mut game, "d");
    assert_eq!(r.outcome, Outcome::InProgress);
    let r = game.submit("x").unwrap();
    assert_eq!(r.render_stage, Some(1));
    assert_eq!(game.wrong_guesses(), 1);
    hit(&mut game, "o");
    let r = hit(&mut game, "g");
    assert!(r.fully_revealed);
    assert_eq!(r.outcome, Outcome::Won);
    assert_eq!(game.wrong_guesses(), 1);
}

#[test]
fn rejected_guess_changes_nothing() {
    let mut game = Game::new("cat");
    game.submit("x").unwrap();
    game.submit("c").unwrap();
    assert_eq!(game.submit("x"), Err(RejectReason::AlreadyGuessed));
    assert_eq!(game.submit("c"), Err(RejectReason::AlreadyGuessed));
    assert_eq!(game.submit("ab"), Err(RejectReason::NotSingleCharacter));
    assert_eq!(game.submit("7"), Err(RejectReason::InvalidCharacter));
    assert_eq!(game.wrong_guesses(), 1);
    assert_eq!(game.guessed().sorted(), vec!['c', 'x']);
    assert_eq!(game.outcome(), Outcome::InProgress);
}

#[test]
fn last_miss_loses_at_stage_six() {
    let mut game = Game::new("ab");
    for g in ["c", "d", "e", "f", "g"] {
        game.submit(g).unwrap();
    }
    hit(&mut game, "a");
    let r = game.submit("h").unwrap();
    assert_eq!(r.render_stage, Some(6));
    assert_eq!(r.outcome, Outcome::Lost);
}

#[test]
fn guesses_ignore_case() {
    let mut game = Game::new("Cat");
    let r = game.submit("C").unwrap();
    assert_eq!(r.render_stage, None);
    assert_eq!(game.submit("c"), Err(RejectReason::AlreadyGuessed));
    let r = game.submit("X").unwrap();
    assert_eq!(r.render_stage, Some(1));
    assert_eq!(game.guessed().sorted(), vec!['c', 'x']);
    hit(&mut game, "A");
    let r = hit(&mut game, "T");
    assert_eq!(r.outcome, Outcome::Won);
    assert_eq!(game.wrong_guesses(), 1);
}
