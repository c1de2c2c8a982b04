//! The hidden phrase of a round and the board that shows how much of it has
//! been found.

use crate::random::pick;
use crate::text::{
    chars_of, has_char, is_white_space, lemma_trimmed_plain, lemma_trimmed_single, same_text,
    string_of, trim, trimmed,
};
use vstd::prelude::*;

verus! {

/// The character that stands on the board for a letter not yet found.
pub const MASK: char = '_';

/// Whether `c` shows on the board from the start: a space or a period.
pub open spec fn is_pre_revealed(c: char) -> bool {
    c == ' ' || c == '.'
}

/// The board of a fresh puzzle: spaces and periods show, every other
/// character is masked.
pub open spec fn masked(solution: Seq<char>) -> Seq<char> {
    Seq::new(
        solution.len(),
        |i: int|
            if is_pre_revealed(solution[i]) {
                solution[i]
            } else {
                MASK
            },
    )
}

/// Whether `board` is a board of `solution`: of the same length, each place
/// showing the solution's character or the mask, and no space or period
/// masked.
pub open spec fn consistent(board: Seq<char>, solution: Seq<char>) -> bool {
    &&& board.len() == solution.len()
    &&& forall|i: int|
        0 <= i < solution.len() ==> {
            ||| #[trigger] board[i] == solution[i]
            ||| board[i] == MASK && !is_pre_revealed(solution[i])
        }
}

/// The board after the characters of `guess` have been shown wherever the
/// solution holds one of them.
pub open spec fn revealed(board: Seq<char>, solution: Seq<char>, guess: Seq<char>) -> Seq<char> {
    Seq::new(
        board.len(),
        |i: int|
            if guess.contains(solution[i]) {
                solution[i]
            } else {
                board[i]
            },
    )
}

/// The number of places of `solution` that hold a character of `guess`.
pub open spec fn match_count(solution: Seq<char>, guess: Seq<char>) -> nat
    decreases solution.len(),
{
    if solution.len() == 0 {
        0
    } else {
        match_count(solution.drop_last(), guess) + if guess.contains(solution.last()) {
            1nat
        } else {
            0nat
        }
    }
}

/// The number of places at which `board` shows the character of `solution`.
pub open spec fn revealed_count(board: Seq<char>, solution: Seq<char>) -> nat
    decreases solution.len(),
{
    if solution.len() == 0 || board.len() != solution.len() {
        0
    } else {
        revealed_count(board.drop_last(), solution.drop_last()) + if board.last()
            == solution.last() {
            1nat
        } else {
            0nat
        }
    }
}

/// How often `c` occurs in `s`.
pub open spec fn occurrences(s: Seq<char>, c: char) -> nat {
    s.to_multiset().count(c)
}

/// Whether a trimmed guess is right: a single character has to occur in the
/// solution, anything else has to be the whole solution.
pub open spec fn is_correct(solution: Seq<char>, guess: Seq<char>) -> bool {
    if guess.len() == 1 {
        solution.contains(guess[0])
    } else {
        guess == solution
    }
}

/// The characters of `board`, each followed by one space.
pub open spec fn spaced(board: Seq<char>) -> Seq<char> {
    Seq::new(
        2 * board.len(),
        |i: int|
            if i % 2 == 0 {
                board[i / 2]
            } else {
                ' '
            },
    )
}

/// The text that shows a puzzle to the players: a line break, the line that
/// names the category, and the line of the board.
pub open spec fn shown(category: Seq<char>, board: Seq<char>) -> Seq<char> {
    "\nThe category is "@ + category + seq!['\n'] + spaced(board) + seq!['\n']
}

/// The board after each character of `letters` has been guessed by itself,
/// one after the other.
pub open spec fn revealed_each(board: Seq<char>, solution: Seq<char>, letters: Seq<char>) -> Seq<
    char,
>
    decreases letters.len(),
{
    if letters.len() == 0 {
        board
    } else {
        revealed(
            revealed_each(board, solution, letters.drop_last()),
            solution,
            trimmed(seq![letters.last()]),
        )
    }
}

/// Whether `solution` is one of the built-in phrases of `category`.
pub open spec fn is_builtin(category: Seq<char>, solution: Seq<char>) -> bool {
    ||| category == "Fruit"@ && (solution == "APPLE"@ || solution == "PEACH"@)
    ||| category == "Phrases"@ && solution == "THREES A CROWD."@
}

/// The texts that a list of recorded guesses holds.
pub open spec fn texts(guesses: Seq<Vec<char>>) -> Seq<Seq<char>> {
    guesses.map_values(|g: Vec<char>| g@)
}

/// What a puzzle is, as plain mathematical values.
pub struct PuzzleView {
    pub category: Seq<char>,
    pub solution: Seq<char>,
    pub board: Seq<char>,
    pub guesses: Set<Seq<char>>,
}

/// One puzzle: its category, the hidden solution, the board as the players
/// see it, and the guesses made so far.
pub struct Puzzle {
    category: String,
    solution: Vec<char>,
    board: Vec<char>,
    guesses: Vec<Vec<char>>,
}

impl View for Puzzle {
    type V = PuzzleView;

    closed spec fn view(&self) -> PuzzleView {
        PuzzleView {
            category: self.category@,
            solution: self.solution@,
            board: self.board@,
            guesses: texts(self.guesses@).to_set(),
        }
    }
}

/// Masks `solution` for a fresh board.
pub fn mask(solution: &Vec<char>) -> (board: Vec<char>)
    ensures
        board@ == masked(solution@),
{
    let n = solution.len();
    let mut board: Vec<char> = Vec::new();
    let mut i: usize = 0;
    while i < n
        invariant
            n == solution.len(),
            i <= n,
            board@ == masked(solution@).take(i as int),
        decreases n - i,
    {
        let c = solution[i];
        if c == ' ' || c == '.' {
            board.push(c);
        } else {
            board.push(MASK);
        }
        i += 1;
        assert(masked(solution@).take(i as int) =~= masked(solution@).take(i - 1).push(
            masked(solution@)[i - 1],
        ));
    }
    assert(masked(solution@).take(n as int) =~= masked(solution@));
    board
}

/// Draws a category at random from the built-in ones, and then one of its
/// phrases: the category and the solution of a new puzzle.
pub fn get_puzzle() -> (chosen: (String, String))
    ensures
        is_builtin(chosen.0@, chosen.1@),
{
    let mut puzzles: Vec<(&'static str, Vec<&'static str>)> = Vec::new();
    puzzles.push(("Fruit", vec!["APPLE", "PEACH"]));
    puzzles.push(("Phrases", vec!["THREES A CROWD."]));
    let mut rng = rand::thread_rng();
    let entry = pick(&mut rng, puzzles.as_slice()).unwrap();
    let solution = pick(&mut rng, entry.1.as_slice()).unwrap();
    (String::from_str(entry.0), String::from_str(solution))
}

impl PuzzleView {
    /// The invariant of a puzzle: the board is a board of the solution, the
    /// count of matching places fits the integer that `update` returns, and
    /// finitely many guesses have been made.
    pub open spec fn wf(self) -> bool {
        &&& consistent(self.board, self.solution)
        &&& self.solution.len() <= i32::MAX
        &&& self.guesses.finite()
    }

    /// Whether the board shows the whole solution.
    pub open spec fn solved(self) -> bool {
        self.board == self.solution
    }
}

impl Puzzle {
    /// The invariant of a puzzle, which every constructor sets up and every
    /// method keeps.
    pub open spec fn wf(&self) -> bool {
        self@.wf()
    }

    /// A fresh puzzle with a category and a solution drawn at random from the
    /// built-in ones.
    pub fn new() -> (puzzle: Puzzle)
        ensures
            puzzle.wf(),
            is_builtin(puzzle@.category, puzzle@.solution),
            puzzle@.board == masked(puzzle@.solution),
            puzzle@.guesses == Set::<Seq<char>>::empty(),
    {
        let (category, solution) = get_puzzle();
        proof {
            reveal_strlit("APPLE");
            reveal_strlit("PEACH");
            reveal_strlit("THREES A CROWD.");
        }
        Puzzle::with_solution(category.as_str(), solution.as_str())
    }

    /// A fresh puzzle for a chosen category and solution: the board is the
    /// masked solution, and no guess has been made.
    pub fn with_solution(category: &str, solution: &str) -> (puzzle: Puzzle)
        requires
            solution@.len() <= i32::MAX,
        ensures
            puzzle.wf(),
            puzzle@.category == category@,
            puzzle@.solution == solution@,
            puzzle@.board == masked(solution@),
            puzzle@.guesses == Set::<Seq<char>>::empty(),
    {
        let solution = chars_of(solution);
        let board = mask(&solution);
        let puzzle = Puzzle {
            category: String::from_str(category),
            solution,
            board,
            guesses: Vec::new(),
        };
        assert(puzzle@.guesses =~= Set::<Seq<char>>::empty());
        puzzle
    }

    /// Whether the board shows the whole solution.
    pub fn solved(&self) -> (done: bool)
        ensures
            done == self@.solved(),
    {
        same_text(&self.board, &self.solution)
    }

    /// Whether the character `guess` occurs in the solution.
    pub fn check_guess_char(&self, guess: char) -> (found: bool)
        ensures
            found == self@.solution.contains(guess),
    {
        has_char(&self.solution, guess)
    }

    /// Whether `guess` is the solution, character for character.
    pub fn check_guess_string(&self, guess: &Vec<char>) -> (same: bool)
        ensures
            same == (guess@ == self@.solution),
    {
        same_text(guess, &self.solution)
    }

    /// Whether `guess`, once trimmed, is right: a single character that
    /// occurs in the solution, or else the whole solution.
    pub fn contains(&self, guess: &str) -> (correct: bool)
        ensures
            correct == is_correct(self@.solution, trimmed(guess@)),
    {
        let letters = trim(guess);
        if letters.len() == 1 {
            self.check_guess_char(letters[0])
        } else {
            self.check_guess_string(&letters)
        }
    }

    /// The number of places of the solution that hold a character of the
    /// trimmed `guess`.
    pub fn count_matches(&self, guess: &str) -> (count: i32)
        requires
            self.wf(),
        ensures
            count == match_count(self@.solution, trimmed(guess@)),
    {
        let letters = trim(guess);
        let n = self.solution.len();
        let mut count: i32 = 0;
        let mut i: usize = 0;
        while i < n
            invariant
                n == self.solution.len(),
                n <= i32::MAX,
                i <= n,
                count == match_count(self.solution@.take(i as int), letters@),
                count <= i,
            decreases n - i,
        {
            proof {
                let upto = self.solution@.take(i + 1);
                assert(upto.drop_last() =~= self.solution@.take(i as int));
            }
            if has_char(&letters, self.solution[i]) {
                count += 1;
            }
            i += 1;
        }
        assert(self.solution@.take(n as int) =~= self.solution@);
        count
    }

    /// Shows every place of the solution that holds a character of the
    /// trimmed `guess`, and returns the number of those places, whether or
    /// not they showed before.
    pub fn update(&mut self, guess: &str) -> (count: i32)
        requires
            old(self).wf(),
        ensures
            final(self).wf(),
            final(self)@.board == revealed(
                old(self)@.board,
                old(self)@.solution,
                trimmed(guess@),
            ),
            count == match_count(old(self)@.solution, trimmed(guess@)),
            final(self)@.category == old(self)@.category,
            final(self)@.solution == old(self)@.solution,
            final(self)@.guesses == old(self)@.guesses,
    {
        let letters = trim(guess);
        let n = self.solution.len();
        let ghost before = self.board@;
        let ghost target = revealed(before, self.solution@, letters@);
        let mut count: i32 = 0;
        let mut i: usize = 0;
        while i < n
            invariant
                n == self.solution.len(),
                n == self.board.len(),
                n <= i32::MAX,
                i <= n,
                self.solution == old(self).solution,
                self.category == old(self).category,
                self.guesses == old(self).guesses,
                before == old(self).board@,
                before.len() == n,
                target == revealed(before, self.solution@, letters@),
                forall|j: int| 0 <= j < i ==> self.board@[j] == target[j],
                forall|j: int| i <= j < n ==> self.board@[j] == before[j],
                count == match_count(self.solution@.take(i as int), letters@),
                count <= i,
            decreases n - i,
        {
            let c = self.solution[i];
            proof {
                let upto = self.solution@.take(i + 1);
                assert(upto.drop_last() =~= self.solution@.take(i as int));
                assert(upto.last() == c);
            }
            if has_char(&letters, c) {
                self.board.set(i, c);
                count += 1;
            }
            i += 1;
        }
        proof {
            assert(self.solution@.take(n as int) =~= self.solution@);
            assert(self.board@ =~= target);
            lemma_revealed_consistent(before, self.solution@, letters@);
        }
        count
    }

    /// Whether the trimmed `guess` has been recorded before.
    pub fn already_guessed(&self, guess: &str) -> (seen: bool)
        ensures
            seen == self@.guesses.contains(trimmed(guess@)),
    {
        let letters = trim(guess);
        let n = self.guesses.len();
        let mut i: usize = 0;
        while i < n
            invariant
                n == self.guesses.len(),
                i <= n,
                letters@ == trimmed(guess@),
                forall|j: int| 0 <= j < i ==> texts(self.guesses@)[j] != letters@,
            decreases n - i,
        {
            if same_text(&self.guesses[i], &letters) {
                assert(texts(self.guesses@)[i as int] == letters@);
                assert(texts(self.guesses@).contains(letters@));
                return true;
            }
            i += 1;
        }
        false
    }

    /// Records the trimmed `guess`; one that was recorded before changes
    /// nothing.
    pub fn record_guess(&mut self, guess: &str)
        requires
            old(self).wf(),
        ensures
            final(self).wf(),
            final(self)@.guesses == old(self)@.guesses.insert(trimmed(guess@)),
            final(self)@.guesses.contains(trimmed(guess@)),
            final(self)@.category == old(self)@.category,
            final(self)@.solution == old(self)@.solution,
            final(self)@.board == old(self)@.board,
    {
        if self.already_guessed(guess) {
            assert(self@.guesses.insert(trimmed(guess@)) =~= self@.guesses);
        } else {
            let letters = trim(guess);
            let ghost before = texts(self.guesses@);
            self.guesses.push(letters);
            proof {
                let after = texts(self.guesses@);
                assert(after =~= before.push(trimmed(guess@)));
                before.lemma_push_to_set_commute(trimmed(guess@));
                assert(after.to_set() =~= before.to_set().insert(trimmed(guess@)));
            }
        }
    }

    /// The category of the puzzle.
    pub fn category(&self) -> (name: &str)
        ensures
            name@ == self@.category,
    {
        self.category.as_str()
    }

    /// The hidden solution.
    pub fn solution(&self) -> (text: String)
        ensures
            text@ == self@.solution,
    {
        string_of(&self.solution)
    }

    /// The board as the players see it.
    pub fn board(&self) -> (text: String)
        ensures
            text@ == self@.board,
    {
        string_of(&self.board)
    }

    /// The board as it is shown on a line of its own: each of its characters,
    /// followed by one space.
    pub fn board_line(&self) -> (line: String)
        ensures
            line@ == spaced(self@.board),
    {
        let n = self.board.len();
        let mut line = String::new();
        let mut i: usize = 0;
        while i < n
            invariant
                n == self.board.len(),
                i <= n,
                line@ == spaced(self.board@.take(i as int)),
            decreases n - i,
        {
            let ghost before = line@;
            line.push(self.board[i]);
            line.push(' ');
            i += 1;
            proof {
                let now = self.board@.take(i as int);
                let then = self.board@.take(i - 1);
                assert forall|k: int| 0 <= k < line@.len() implies line@[k] == spaced(now)[k] by {
                    if k < before.len() {
                        assert(before[k] == spaced(then)[k]);
                        assert(then[k / 2] == now[k / 2]);
                    }
                }
                assert(line@ =~= spaced(now));
            }
        }
        assert(self.board@.take(n as int) =~= self.board@);
        line
    }

    /// The text that shows the puzzle to the players: a line break, the
    /// line that names the category, and the line of the board. The puzzle
    /// itself stays as it is.
    pub fn render(&self) -> (text: String)
        ensures
            text@ == shown(self@.category, self@.board),
    {
        let mut text = String::from_str("\nThe category is ");
        text.append(self.category.as_str());
        text.push('\n');
        let line = self.board_line();
        text.append(line.as_str());
        text.push('\n');
        text
    }
}

/// Showing the characters of a guess keeps a board a board of its solution.
pub proof fn lemma_revealed_consistent(board: Seq<char>, solution: Seq<char>, guess: Seq<char>)
    requires
        consistent(board, solution),
    ensures
        consistent(revealed(board, solution, guess), solution),
{
    let after = revealed(board, solution, guess);
    assert forall|i: int| 0 <= i < solution.len() implies {
        ||| #[trigger] after[i] == solution[i]
        ||| after[i] == MASK && !is_pre_revealed(solution[i])
    } by {
        assert(board[i] == solution[i] || (board[i] == MASK && !is_pre_revealed(solution[i])));
    }
}

/// A fresh board is as long as its solution, shows every space and period,
/// masks every other character, and is a board of the solution.
pub proof fn lemma_fresh_board(solution: Seq<char>)
    ensures
        masked(solution).len() == solution.len(),
        forall|i: int|
            0 <= i < solution.len() && is_pre_revealed(solution[i]) ==> #[trigger] masked(
                solution,
            )[i] == solution[i],
        forall|i: int|
            0 <= i < solution.len() && !is_pre_revealed(solution[i]) ==> #[trigger] masked(
                solution,
            )[i] == MASK,
        consistent(masked(solution), solution),
{
}

/// A fresh board shows the whole solution exactly when the solution holds
/// nothing but spaces, periods and the mask character itself. So a puzzle
/// with any other character in its solution starts out unsolved.
pub proof fn lemma_fresh_board_solved(solution: Seq<char>)
    ensures
        masked(solution) == solution <==> forall|i: int|
            0 <= i < solution.len() ==> is_pre_revealed(#[trigger] solution[i]) || solution[i]
                == MASK,
{
    let board = masked(solution);
    if forall|i: int|
        0 <= i < solution.len() ==> is_pre_revealed(#[trigger] solution[i]) || solution[i] == MASK {
        assert(board =~= solution);
    } else {
        let i = choose|i: int|
            0 <= i < solution.len() && !(is_pre_revealed(#[trigger] solution[i]) || solution[i]
                == MASK);
        assert(board[i] == MASK);
    }
}

/// No guess matches more places than the solution has.
pub proof fn lemma_match_count_bound(solution: Seq<char>, guess: Seq<char>)
    ensures
        match_count(solution, guess) <= solution.len(),
    decreases solution.len(),
{
    if solution.len() > 0 {
        lemma_match_count_bound(solution.drop_last(), guess);
    }
}

/// A guess that holds every character of the solution matches every place:
/// the count is the length of the solution.
pub proof fn lemma_match_count_full(solution: Seq<char>, guess: Seq<char>)
    requires
        forall|i: int| 0 <= i < solution.len() ==> guess.contains(#[trigger] solution[i]),
    ensures
        match_count(solution, guess) == solution.len(),
    decreases solution.len(),
{
    if solution.len() > 0 {
        let rest = solution.drop_last();
        assert forall|i: int| 0 <= i < rest.len() implies guess.contains(#[trigger] rest[i]) by {
            assert(rest[i] == solution[i]);
        }
        lemma_match_count_full(rest, guess);
        assert(solution.last() == solution[solution.len() - 1]);
    }
}

/// A guess that is the solution itself matches every place of it.
pub proof fn lemma_match_count_of_solution(solution: Seq<char>)
    ensures
        match_count(solution, solution) == solution.len(),
{
    assert forall|i: int| 0 <= i < solution.len() implies solution.contains(
        #[trigger] solution[i],
    ) by {}
    lemma_match_count_full(solution, solution);
}

/// An empty guess matches no place and leaves the board as it is; it is
/// right only where the solution is empty too.
pub proof fn lemma_empty_guess(board: Seq<char>, solution: Seq<char>)
    requires
        board.len() == solution.len(),
    ensures
        trimmed(Seq::<char>::empty()) == Seq::<char>::empty(),
        match_count(solution, Seq::<char>::empty()) == 0,
        revealed(board, solution, Seq::<char>::empty()) == board,
        is_correct(solution, Seq::<char>::empty()) <==> solution.len() == 0,
    decreases solution.len(),
{
    let empty = Seq::<char>::empty();
    assert(revealed(board, solution, empty) =~= board);
    if solution.len() > 0 {
        lemma_empty_guess(board.drop_last(), solution.drop_last());
    } else {
        assert(solution =~= empty);
    }
}

/// Guessing a single character matches as many places as the character
/// occurs in the solution. A whitespace character is left out where it occurs
/// in the solution: trimming empties such a guess, which then matches
/// nothing.
pub proof fn lemma_single_letter_count(solution: Seq<char>, c: char)
    requires
        is_white_space(c) ==> !solution.contains(c),
    ensures
        match_count(solution, trimmed(seq![c])) == occurrences(solution, c),
    decreases solution.len(),
{
    broadcast use vstd::seq_lib::group_to_multiset_ensures;

    lemma_trimmed_single(c);
    let guess = trimmed(seq![c]);
    if solution.len() == 0 {
        assert(solution.to_multiset().len() == 0);
    } else {
        let rest = solution.drop_last();
        let last = solution.last();
        if rest.contains(c) {
            let k = choose|k: int| 0 <= k < rest.len() && rest[k] == c;
            assert(solution[k] == c);
        }
        lemma_single_letter_count(rest, c);
        assert(rest.push(last) =~= solution);
        assert(solution.to_multiset() =~= rest.to_multiset().insert(last));
        if last == c {
            assert(solution[solution.len() - 1] == c);
            assert(guess[0] == last);
        }
    }
}

/// Guessing a single character that the board shows nowhere yet raises the
/// number of places shown by the number of times the character occurs in the
/// solution. As in `lemma_single_letter_count`, a whitespace character is
/// left out where it occurs in the solution.
pub proof fn lemma_single_letter_reveals(board: Seq<char>, solution: Seq<char>, c: char)
    requires
        board.len() == solution.len(),
        is_white_space(c) ==> !solution.contains(c),
        forall|i: int| 0 <= i < solution.len() && solution[i] == c ==> #[trigger] board[i] != c,
    ensures
        revealed_count(revealed(board, solution, trimmed(seq![c])), solution) == revealed_count(
            board,
            solution,
        ) + occurrences(solution, c),
    decreases solution.len(),
{
    broadcast use vstd::seq_lib::group_to_multiset_ensures;

    lemma_trimmed_single(c);
    let guess = trimmed(seq![c]);
    let after = revealed(board, solution, guess);
    if solution.len() == 0 {
        assert(solution.to_multiset().len() == 0);
    } else {
        let rest = solution.drop_last();
        let last = solution.last();
        let board_rest = board.drop_last();
        assert forall|i: int| 0 <= i < rest.len() && rest[i] == c implies #[trigger] board_rest[i]
            != c by {
            assert(board[i] != c);
        }
        if rest.contains(c) {
            let k = choose|k: int| 0 <= k < rest.len() && rest[k] == c;
            assert(solution[k] == c);
        }
        lemma_single_letter_reveals(board_rest, rest, c);
        assert(after.drop_last() =~= revealed(board_rest, rest, guess));
        assert(rest.push(last) =~= solution);
        assert(solution.to_multiset() =~= rest.to_multiset().insert(last));
        if last == c {
            assert(solution[solution.len() - 1] == c);
            assert(guess[0] == last);
            assert(board[solution.len() - 1] != c);
        }
    }
}

/// Guessing the whole solution shows all of it, provided that every
/// character of the solution that trimming takes out of the guess shows on
/// the board already, as spaces and periods always do.
pub proof fn lemma_full_guess_solves(board: Seq<char>, solution: Seq<char>)
    requires
        board.len() == solution.len(),
        forall|i: int|
            0 <= i < solution.len() ==> trimmed(solution).contains(#[trigger] solution[i])
                || board[i] == solution[i],
    ensures
        revealed(board, solution, trimmed(solution)) == solution,
{
    let after = revealed(board, solution, trimmed(solution));
    assert forall|i: int| 0 <= i < solution.len() implies after[i] == solution[i] by {
        assert(trimmed(solution).contains(solution[i]) || board[i] == solution[i]);
    }
    assert(after =~= solution);
}

/// Where trimming takes a character out of the guess that the board does not
/// show yet, guessing the whole solution does not show all of it.
pub proof fn lemma_full_guess_falls_short(board: Seq<char>, solution: Seq<char>, i: int)
    requires
        board.len() == solution.len(),
        0 <= i < solution.len(),
        !trimmed(solution).contains(solution[i]),
        board[i] != solution[i],
    ensures
        revealed(board, solution, trimmed(solution)) != solution,
{
    let after = revealed(board, solution, trimmed(solution));
    assert(after[i] == board[i]);
}

/// Guessing the whole of a solution that neither begins nor ends with
/// whitespace is a right guess, matches every place, and shows all of the
/// solution, whatever the board showed before.
pub proof fn lemma_plain_solution_solves(board: Seq<char>, solution: Seq<char>)
    requires
        board.len() == solution.len(),
        solution.len() > 0 ==> !is_white_space(solution.first()) && !is_white_space(
            solution.last(),
        ),
    ensures
        is_correct(solution, trimmed(solution)),
        match_count(solution, trimmed(solution)) == solution.len(),
        revealed(board, solution, trimmed(solution)) == solution,
{
    lemma_trimmed_plain(solution);
    lemma_match_count_of_solution(solution);
    assert forall|i: int| 0 <= i < solution.len() implies solution.contains(
        #[trigger] solution[i],
    ) by {}
    lemma_full_guess_solves(board, solution);
}

/// A board that shows the whole solution keeps showing it after any guess.
pub proof fn lemma_solved_stays_solved(solution: Seq<char>, guess: Seq<char>)
    ensures
        revealed(solution, solution, guess) == solution,
{
    assert(revealed(solution, solution, guess) =~= solution);
}

/// Showing the characters of a guess a second time changes nothing.
pub proof fn lemma_revealed_twice(board: Seq<char>, solution: Seq<char>, guess: Seq<char>)
    requires
        board.len() == solution.len(),
    ensures
        revealed(revealed(board, solution, guess), solution, guess) == revealed(
            board,
            solution,
            guess,
        ),
{
    assert(revealed(revealed(board, solution, guess), solution, guess) =~= revealed(
        board,
        solution,
        guess,
    ));
}

/// After each character of `letters` has been guessed by itself, a place
/// shows the solution's character if that character is among `letters` and
/// is not whitespace; every other place shows what it showed before.
pub proof fn lemma_revealed_each_at(board: Seq<char>, solution: Seq<char>, letters: Seq<char>)
    requires
        board.len() == solution.len(),
    ensures
        revealed_each(board, solution, letters).len() == board.len(),
        forall|i: int|
            0 <= i < solution.len() ==> #[trigger] revealed_each(board, solution, letters)[i] == if
                letters.contains(solution[i]) && !is_white_space(solution[i]) {
                solution[i]
            } else {
                board[i]
            },
    decreases letters.len(),
{
    if letters.len() > 0 {
        let rest = letters.drop_last();
        let last = letters.last();
        lemma_revealed_each_at(board, solution, rest);
        lemma_trimmed_single(last);
        let after = revealed_each(board, solution, letters);
        assert forall|i: int| 0 <= i < solution.len() implies #[trigger] after[i] == if
            letters.contains(solution[i]) && !is_white_space(solution[i]) {
            solution[i]
        } else {
            board[i]
        } by {
            let c = solution[i];
            if rest.contains(c) {
                let k = choose|k: int| 0 <= k < rest.len() && rest[k] == c;
                assert(letters[k] == c);
            }
            if letters.contains(c) {
                let k = choose|k: int| 0 <= k < letters.len() && letters[k] == c;
                if k < rest.len() {
                    assert(rest[k] == c);
                } else {
                    assert(last == c);
                }
            }
            if last == c {
                assert(letters[letters.len() - 1] == c);
                if !is_white_space(c) {
                    assert(seq![last][0] == c);
                }
            }
            if trimmed(seq![last]).contains(c) {
                let k = choose|k: int|
                    0 <= k < trimmed(seq![last]).len() && trimmed(seq![last])[k] == c;
                assert(last == c);
            }
        }
    }
}

/// Guessing every character of the solution by itself, in any order, shows
/// the whole solution, provided that every whitespace character of the
/// solution shows on the board already, as spaces always do: a guess of
/// nothing but whitespace is trimmed to nothing.
pub proof fn lemma_guessing_every_letter_solves(
    board: Seq<char>,
    solution: Seq<char>,
    letters: Seq<char>,
)
    requires
        board.len() == solution.len(),
        forall|i: int| 0 <= i < solution.len() ==> letters.contains(#[trigger] solution[i]),
        forall|i: int|
            0 <= i < solution.len() && is_white_space(#[trigger] solution[i]) ==> board[i]
                == solution[i],
    ensures
        revealed_each(board, solution, letters) == solution,
{
    lemma_revealed_each_at(board, solution, letters);
    let after = revealed_each(board, solution, letters);
    assert forall|i: int| 0 <= i < solution.len() implies after[i] == solution[i] by {
        assert(letters.contains(solution[i]));
        assert(is_white_space(solution[i]) ==> board[i] == solution[i]);
    }
    assert(after =~= solution);
}

/// Where the solution holds a whitespace character that the board does not
/// show, guessing single characters never shows all of the solution.
pub proof fn lemma_hidden_whitespace_stays_hidden(
    board: Seq<char>,
    solution: Seq<char>,
    letters: Seq<char>,
    i: int,
)
    requires
        board.len() == solution.len(),
        0 <= i < solution.len(),
        is_white_space(solution[i]),
        board[i] != solution[i],
    ensures
        revealed_each(board, solution, letters) != solution,
{
    lemma_revealed_each_at(board, solution, letters);
    assert(revealed_each(board, solution, letters)[i] == board[i]);
}

} // verus!
