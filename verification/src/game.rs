//! A round of the game: the players take turns, in a fixed order, against one
//! puzzle, until the puzzle is found solved after a full pass.
//!
//! The round is a state machine. The program that drives it spins the wheel,
//! shows the board, reads a line and hands the wheel's value and the line to
//! [`Game::play_turn`]; it does so until [`Game::round_over`] says that the
//! round has ended.

use crate::player::{Player, PlayerView};
use crate::puzzle::{
    is_builtin, is_correct, lemma_revealed_consistent, lemma_solved_stays_solved, masked,
    match_count, revealed, Puzzle, PuzzleView,
};
use crate::std_specs::uppercase;
use crate::text::trimmed;
use crate::wheel::{is_on_wheel, is_wheel_value, lemma_wheel_value_range};
use vstd::prelude::*;

verus! {

/// What a turn came to.
#[derive(Clone, Copy, Debug, PartialEq, Eq)]
pub enum TurnOutcome {
    /// The guess had been made before: nothing is scored.
    Repeated,
    /// The guess was new. `matches` places of the solution hold a character
    /// of a right guess (none, for a wrong one), and `award` is paid for them.
    Played { matches: i32, award: u64 },
}

/// What a round is, as plain mathematical values.
pub struct GameView {
    pub puzzle: PuzzleView,
    pub round: u32,
    pub players: Seq<PlayerView>,
    /// The place, among the players, of the one whose turn it is.
    pub turn: nat,
    /// Whether the puzzle was found solved after the last turn taken.
    pub solved: bool,
}

/// What a list of players is, player by player.
pub open spec fn player_views(players: Seq<Player>) -> Seq<PlayerView> {
    players.map_values(|p: Player| p@)
}

/// The players that a round starts with: one for each name, trimmed, with no
/// winnings.
pub open spec fn fresh_players(names: Seq<String>) -> Seq<PlayerView> {
    Seq::new(names.len(), |i: int| PlayerView { name: trimmed(names[i]@), winnings: 0 })
}

impl GameView {
    /// The invariant of a round: the puzzle is well formed, it is the turn of
    /// one of the players (of the first, where there is none), and a round
    /// found solved has a solved puzzle.
    pub open spec fn wf(self) -> bool {
        &&& self.puzzle.wf()
        &&& self.turn < self.players.len() || self.turn == 0
        &&& self.solved ==> self.puzzle.solved()
    }

    /// Whether `guess`, trimmed, was made before.
    pub open spec fn is_repeat(self, guess: Seq<char>) -> bool {
        self.puzzle.guesses.contains(trimmed(guess))
    }

    /// The number of places that a turn with `guess` scores: none for a
    /// repeated or a wrong guess, and for a right one every place of the
    /// solution that holds one of its characters.
    pub open spec fn matches_for(self, guess: Seq<char>) -> nat {
        if !self.is_repeat(guess) && is_correct(self.puzzle.solution, trimmed(guess)) {
            match_count(self.puzzle.solution, trimmed(guess))
        } else {
            0
        }
    }

    /// What a turn with `guess` pays: the wheel's value for each place
    /// scored.
    pub open spec fn award_for(self, wheel_value: i32, guess: Seq<char>) -> int {
        self.matches_for(guess) * wheel_value
    }

    /// Whether a turn can be taken: there is a player, the value stands on
    /// the wheel, and the player's winnings stay within what the machine can
    /// count.
    pub open spec fn can_take_turn(self, wheel_value: i32, guess: Seq<char>) -> bool {
        &&& self.players.len() > 0
        &&& is_wheel_value(wheel_value)
        &&& self.players[self.turn as int].winnings + self.award_for(wheel_value, guess)
            <= u64::MAX
    }

    /// What the turn with `guess` comes to.
    pub open spec fn outcome(self, wheel_value: i32, guess: Seq<char>) -> TurnOutcome {
        if self.is_repeat(guess) {
            TurnOutcome::Repeated
        } else {
            TurnOutcome::Played {
                matches: self.matches_for(guess) as i32,
                award: self.award_for(wheel_value, guess) as u64,
            }
        }
    }

    /// The puzzle after the turn with `guess`: a repeated guess leaves it as
    /// it is; a new one is recorded, and a right one is shown on the board.
    pub open spec fn puzzle_after(self, guess: Seq<char>) -> PuzzleView {
        if self.is_repeat(guess) {
            self.puzzle
        } else {
            PuzzleView {
                guesses: self.puzzle.guesses.insert(trimmed(guess)),
                board: if is_correct(self.puzzle.solution, trimmed(guess)) {
                    revealed(self.puzzle.board, self.puzzle.solution, trimmed(guess))
                } else {
                    self.puzzle.board
                },
                ..self.puzzle
            }
        }
    }

    /// The place of the player whose turn comes next.
    pub open spec fn next_turn(self) -> nat {
        if self.turn + 1 >= self.players.len() {
            0
        } else {
            self.turn + 1
        }
    }

    /// The round after the turn with `guess` at `wheel_value`: the puzzle
    /// takes the guess, the player whose turn it was is paid, the turn passes
    /// on, and the round remembers whether the puzzle is now solved.
    pub open spec fn after_turn(self, wheel_value: i32, guess: Seq<char>) -> GameView {
        let player = self.players[self.turn as int];
        GameView {
            puzzle: self.puzzle_after(guess),
            round: self.round,
            players: self.players.update(
                self.turn as int,
                PlayerView {
                    name: player.name,
                    winnings: (player.winnings + self.award_for(wheel_value, guess)) as nat,
                },
            ),
            turn: self.next_turn(),
            solved: self.puzzle_after(guess).solved(),
        }
    }

    /// Whether the round has ended: every player has had a turn in the
    /// current pass, and the puzzle was found solved.
    pub open spec fn round_over(self) -> bool {
        self.turn == 0 && self.solved
    }

    /// Whether a turn can be taken with the line `line` as it was typed: the
    /// guess is the line in uppercase.
    pub open spec fn can_play_line(self, wheel_value: i32, line: Seq<char>) -> bool {
        self.can_take_turn(wheel_value, uppercase(line))
    }

    /// What the turn with the typed line `line` comes to.
    pub open spec fn line_outcome(self, wheel_value: i32, line: Seq<char>) -> TurnOutcome {
        self.outcome(wheel_value, uppercase(line))
    }

    /// The round after the turn with the typed line `line`: the round after
    /// the turn with the line in uppercase as the guess.
    pub open spec fn after_line(self, wheel_value: i32, line: Seq<char>) -> GameView {
        self.after_turn(wheel_value, uppercase(line))
    }
}

/// One round of the game.
pub struct Game {
    puzzle: Puzzle,
    round: u32,
    players: Vec<Player>,
    turn: usize,
    solved: bool,
}

impl View for Game {
    type V = GameView;

    closed spec fn view(&self) -> GameView {
        GameView {
            puzzle: self.puzzle@,
            round: self.round,
            players: player_views(self.players@),
            turn: self.turn as nat,
            solved: self.solved,
        }
    }
}

/// Makes a player of each name, in order.
pub fn build_players(names: Vec<String>) -> (players: Vec<Player>)
    ensures
        player_views(players@) == fresh_players(names@),
{
    let ghost all = names@;
    let mut players: Vec<Player> = Vec::new();
    for name in it: names
        invariant
            it.seq() == all,
            players.len() == it.index(),
            forall|j: int|
                0 <= j < players.len() ==> (#[trigger] players@[j])@ == fresh_players(all)[j],
    {
        players.push(Player::new(name));
    }
    assert(player_views(players@) =~= fresh_players(all));
    players
}

impl Game {
    /// The invariant of a round, which every constructor sets up and every
    /// method keeps.
    pub open spec fn wf(&self) -> bool {
        self@.wf()
    }

    /// A round with the given players and a puzzle drawn at random from the
    /// built-in ones. The first player begins.
    pub fn new(round: u32, names: Vec<String>) -> (game: Game)
        ensures
            game.wf(),
            game@.round == round,
            game@.players == fresh_players(names@),
            game@.turn == 0,
            !game@.solved,
            is_builtin(game@.puzzle.category, game@.puzzle.solution),
            game@.puzzle.board == masked(game@.puzzle.solution),
            game@.puzzle.guesses == Set::<Seq<char>>::empty(),
    {
        Game::with_puzzle(round, Puzzle::new(), build_players(names))
    }

    /// A round with the given puzzle and the given players, who may have
    /// winnings already. The first player begins.
    pub fn with_puzzle(round: u32, puzzle: Puzzle, players: Vec<Player>) -> (game: Game)
        requires
            puzzle.wf(),
        ensures
            game.wf(),
            game@.round == round,
            game@.players == player_views(players@),
            game@.turn == 0,
            !game@.solved,
            game@.puzzle == puzzle@,
    {
        Game { puzzle, round, players, turn: 0, solved: false }
    }

    /// The number of the round.
    pub fn round(&self) -> (round: u32)
        ensures
            round == self@.round,
    {
        self.round
    }

    /// The puzzle of the round.
    pub fn puzzle(&self) -> (puzzle: &Puzzle)
        ensures
            puzzle@ == self@.puzzle,
    {
        &self.puzzle
    }

    /// The players, in the order of their turns.
    pub fn players(&self) -> (players: &Vec<Player>)
        ensures
            player_views(players@) == self@.players,
    {
        &self.players
    }

    /// The place, among the players, of the one whose turn it is.
    pub fn current_player(&self) -> (turn: usize)
        ensures
            turn == self@.turn,
    {
        self.turn
    }

    /// Whether the round has ended.
    pub fn round_over(&self) -> (over: bool)
        ensures
            over == self@.round_over(),
    {
        self.turn == 0 && self.solved
    }

    /// Plays the turn of the current player, who guesses `guess` after the
    /// wheel has stopped at `wheel_value`.
    ///
    /// A guess made before scores nothing and leaves the puzzle as it is.
    /// A new guess is recorded; if it is right, it is shown on the board and
    /// the player is paid the wheel's value for each matching place. Either
    /// way the turn passes to the next player.
    pub fn take_turn(&mut self, wheel_value: i32, guess: &str) -> (outcome: TurnOutcome)
        requires
            old(self).wf(),
            old(self)@.can_take_turn(wheel_value, guess@),
        ensures
            final(self).wf(),
            final(self)@ == old(self)@.after_turn(wheel_value, guess@),
            outcome == old(self)@.outcome(wheel_value, guess@),
    {
        let ghost before = self@;
        let turn = self.turn;
        assert(turn < self.players.len()) by {
            assert(self@.players.len() == self.players.len());
        }
        let next = if turn + 1 >= self.players.len() {
            0
        } else {
            turn + 1
        };
        let outcome = if self.puzzle.already_guessed(guess) {
            TurnOutcome::Repeated
        } else {
            self.puzzle.record_guess(guess);
            let matches: i32 = if self.puzzle.contains(guess) {
                self.puzzle.update(guess)
            } else {
                0
            };
            proof {
                lemma_wheel_value_range(wheel_value);
                assert(matches == before.matches_for(guess@));
                assert(0 <= matches * wheel_value <= 2500 * i32::MAX) by (nonlinear_arith)
                    requires
                        0 <= matches <= i32::MAX,
                        500 <= wheel_value <= 2500,
                ;
            }
            let award: u64 = (matches as u64) * (wheel_value as u64);
            self.players[turn].add_winnings(award);
            TurnOutcome::Played { matches, award }
        };
        self.solved = self.puzzle.solved();
        self.turn = next;
        proof {
            let after = before.after_turn(wheel_value, guess@);
            assert(self@.players =~= after.players);
            assert(self@.puzzle.guesses =~= after.puzzle.guesses);
            assert(self@.puzzle == after.puzzle);
        }
        outcome
    }

    /// Plays the turn of the current player if it can be taken, as
    /// [`Game::take_turn`] does. Otherwise it returns `None` and leaves the
    /// round as it is: that is so where there is no player, where
    /// `wheel_value` does not stand on the wheel, and where the player's
    /// winnings would no longer fit the machine's count.
    pub fn try_take_turn(&mut self, wheel_value: i32, guess: &str) -> (outcome: Option<
        TurnOutcome,
    >)
        requires
            old(self).wf(),
        ensures
            final(self).wf(),
            old(self)@.can_take_turn(wheel_value, guess@) ==> outcome == Some(
                old(self)@.outcome(wheel_value, guess@),
            ) && final(self)@ == old(self)@.after_turn(wheel_value, guess@),
            !old(self)@.can_take_turn(wheel_value, guess@) ==> outcome is None && final(self)@
                == old(self)@,
    {
        assert(self@.players.len() == self.players.len());
        if self.players.len() == 0 || !is_on_wheel(wheel_value) {
            return None;
        }
        let matches: i32 = if !self.puzzle.already_guessed(guess) && self.puzzle.contains(guess) {
            self.puzzle.count_matches(guess)
        } else {
            0
        };
        proof {
            lemma_wheel_value_range(wheel_value);
            assert(matches == self@.matches_for(guess@));
            assert(0 <= matches * wheel_value <= 2500 * i32::MAX) by (nonlinear_arith)
                requires
                    0 <= matches <= i32::MAX,
                    500 <= wheel_value <= 2500,
            ;
        }
        let award: u64 = (matches as u64) * (wheel_value as u64);
        if award > u64::MAX - self.players[self.turn].winnings() {
            return None;
        }
        Some(self.take_turn(wheel_value, guess))
    }

    /// Plays the turn of the current player with the line that the player
    /// typed. The player's guess is the line in uppercase, and nothing else
    /// of it is changed; trimming is left to the puzzle. The turn is then
    /// played as [`Game::try_take_turn`] plays it, and `None` comes back
    /// where it cannot be taken.
    pub fn play_turn(&mut self, wheel_value: i32, line: &str) -> (outcome: Option<TurnOutcome>)
        requires
            old(self).wf(),
        ensures
            final(self).wf(),
            old(self)@.can_play_line(wheel_value, line@) ==> outcome == Some(
                old(self)@.line_outcome(wheel_value, line@),
            ) && final(self)@ == old(self)@.after_line(wheel_value, line@),
            !old(self)@.can_play_line(wheel_value, line@) ==> outcome is None && final(self)@
                == old(self)@,
    {
        assert(self@.players.len() == self.players.len());
        if self.players.len() == 0 {
            return None;
        }
        let guess = self.players[self.turn].submit_guess(line);
        self.try_take_turn(wheel_value, guess.as_str())
    }
}

/// Whether the answer to the question of another round means yes: it does
/// where its first character is a lowercase `y`.
pub fn wants_replay(answer: &str) -> (again: bool)
    ensures
        again == (answer@.len() > 0 && answer@[0] == 'y'),
{
    answer.unicode_len() > 0 && answer.get_char(0) == 'y'
}

/// How a line is typed does not matter beyond its uppercase form: two lines
/// with the same uppercase form can be played in the same rounds, come to
/// the same outcome and leave the same round behind.
pub proof fn lemma_case_makes_no_difference(
    game: GameView,
    wheel_value: i32,
    line: Seq<char>,
    other: Seq<char>,
)
    ensures
        uppercase(line) == uppercase(other) ==> {
            &&& game.can_play_line(wheel_value, line) == game.can_play_line(wheel_value, other)
            &&& game.line_outcome(wheel_value, line) == game.line_outcome(wheel_value, other)
            &&& game.after_line(wheel_value, line) == game.after_line(wheel_value, other)
        },
{
}

/// A turn keeps the invariant of the round.
pub proof fn lemma_turn_keeps_invariant(game: GameView, wheel_value: i32, guess: Seq<char>)
    requires
        game.wf(),
        game.players.len() > 0,
    ensures
        game.after_turn(wheel_value, guess).wf(),
{
    lemma_revealed_consistent(game.puzzle.board, game.puzzle.solution, trimmed(guess));
}

/// A guess that was made before changes nothing but whose turn it is: the
/// puzzle, and with it the board, stays as it was, nothing is scored, and no
/// player's winnings change.
pub proof fn lemma_repeat_changes_nothing(game: GameView, wheel_value: i32, guess: Seq<char>)
    requires
        game.players.len() > 0,
        game.turn < game.players.len(),
        game.is_repeat(guess),
    ensures
        game.outcome(wheel_value, guess) == TurnOutcome::Repeated,
        game.after_turn(wheel_value, guess).puzzle == game.puzzle,
        game.after_turn(wheel_value, guess).players == game.players,
{
    assert(game.after_turn(wheel_value, guess).players =~= game.players);
}

/// The turns go round in the order of the players: after the last one it is
/// the first one's turn again.
pub proof fn lemma_turns_go_round(game: GameView, wheel_value: i32, guess: Seq<char>)
    requires
        game.turn < game.players.len(),
    ensures
        game.after_turn(wheel_value, guess).turn == (game.turn as int + 1) % (
        game.players.len() as int),
        game.after_turn(wheel_value, guess).players.len() == game.players.len(),
{
    let n = game.players.len() as int;
    let next = game.turn as int + 1;
    if next == n {
        assert(next % n == 0) by (nonlinear_arith)
            requires
                next == n,
                n > 0,
        ;
    } else {
        assert(next % n == next) by (nonlinear_arith)
            requires
                0 <= next < n,
        ;
    }
}

/// A solved puzzle stays solved, whatever is guessed afterwards.
pub proof fn lemma_solved_puzzle_stays_solved(game: GameView, wheel_value: i32, guess: Seq<char>)
    requires
        game.puzzle.solved(),
    ensures
        game.after_turn(wheel_value, guess).puzzle.solved(),
        game.after_turn(wheel_value, guess).solved,
{
    lemma_solved_stays_solved(game.puzzle.solution, trimmed(guess));
}

/// No turn takes anything from a player: with a value of the wheel, the
/// winnings of every player after the turn are at least what they were.
pub proof fn lemma_winnings_never_decrease(
    game: GameView,
    wheel_value: i32,
    guess: Seq<char>,
    i: int,
)
    requires
        game.turn < game.players.len(),
        is_wheel_value(wheel_value),
        0 <= i < game.players.len(),
    ensures
        game.after_turn(wheel_value, guess).players[i].winnings >= game.players[i].winnings,
        game.after_turn(wheel_value, guess).players[i].name == game.players[i].name,
{
    lemma_wheel_value_range(wheel_value);
    assert(game.matches_for(guess) * wheel_value >= 0) by (nonlinear_arith)
        requires
            game.matches_for(guess) >= 0,
            wheel_value >= 500,
    ;
}

} // verus!
