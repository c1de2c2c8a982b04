//! A player of the game: a name and the winnings of the round.

use crate::std_specs::uppercase;
use crate::text::{string_of, trim, trimmed};
use vstd::prelude::*;

verus! {

/// What a player is, as plain mathematical values.
pub struct PlayerView {
    pub name: Seq<char>,
    pub winnings: nat,
}

/// One player.
pub struct Player {
    name: String,
    winnings: u64,
}

impl View for Player {
    type V = PlayerView;

    closed spec fn view(&self) -> PlayerView {
        PlayerView { name: self.name@, winnings: self.winnings as nat }
    }
}

impl Player {
    /// A player who has won nothing yet. The name is trimmed.
    pub fn new(name: String) -> (player: Player)
        ensures
            player@.name == trimmed(name@),
            player@.winnings == 0,
    {
        Player { name: string_of(&trim(name.as_str())), winnings: 0 }
    }

    /// The player's name.
    pub fn name(&self) -> (name: &str)
        ensures
            name@ == self@.name,
    {
        self.name.as_str()
    }

    /// What the player has won so far in the round.
    pub fn winnings(&self) -> (winnings: u64)
        ensures
            winnings == self@.winnings,
    {
        self.winnings
    }

    /// Credits `amount` to the player. Winnings never go down.
    pub fn add_winnings(&mut self, amount: u64)
        requires
            old(self)@.winnings + amount <= u64::MAX,
        ensures
            final(self)@.winnings == old(self)@.winnings + amount,
            final(self)@.name == old(self)@.name,
    {
        self.winnings = self.winnings + amount;
    }

    /// The guess that the player makes with the line `line`: the line in
    /// uppercase, and otherwise as it was typed.
    pub fn submit_guess(&self, line: &str) -> (guess: String)
        ensures
            guess@ == uppercase(line@),
    {
        line.to_uppercase()
    }
}

} // verus!
