//! A word-guessing game in the style of a televised prize wheel: players take
//! turns spinning for a cash value and guessing letters, or the whole phrase,
//! of a hidden puzzle.
//!
//! The crate holds the rules of the game, each with a contract that Verus
//! proves. Reading guesses and printing the board are left to the program
//! that drives it.
//!
//! - [`puzzle`]: the hidden solution, the board, and what a guess does to it.
//! - [`player`]: a name and the winnings of the round.
//! - [`wheel`]: the cash values that a spin can land on.
//! - [`game`]: a round as a state machine, one turn at a time.
//! - [`text`]: whitespace and trimming over sequences of characters.
//!
//! Two modules hold what is taken on trust and not proved: `random`, for the
//! `rand` crate, and [`std_specs`], for two string methods of the standard
//! library.

pub mod game;
pub mod player;
pub mod puzzle;
mod random;
pub mod std_specs;
pub mod text;
pub mod wheel;
