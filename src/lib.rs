//! A terminal word-guessing game: the player guesses letters of a secret word,
//! every miss adds a piece to a snowman, and six misses lose the game.
//!
//! This crate holds the game's rules: validation of guesses and of new
//! dictionary words, the masked display of the secret word, the turn-by-turn
//! state machine, and the line format of the word list.

pub mod text;
pub mod letters;
pub mod validate;
pub mod display;
pub mod game;
pub mod dictionary;
